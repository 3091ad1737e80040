//! A single forward on an ssh process of its own.

use crate::session::ssh::{forward_spec, spec_text};
use crate::text::{decimal, views};
use vstd::prelude::*;
use vstd::string::*;

verus! {

/// Where a tunnel leads.
#[derive(Debug)]
pub struct TunnelParams {
    pub host: String,
    pub local_port: u16,
    pub remote_port: u16,
    pub remote_host: String,
}

/// The arguments of an ssh process that carries one forward and nothing else.
pub open spec fn tunnel_args(forward: Seq<char>, host: Seq<char>) -> Seq<Seq<char>> {
    seq![
        "-N"@,
        "-L"@,
        forward,
        "-o"@,
        "ServerAliveInterval=30"@,
        "-o"@,
        "ServerAliveCountMax=3"@,
        "-o"@,
        "ExitOnForwardFailure=yes"@,
        "-o"@,
        "ConnectTimeout=10"@,
        host,
    ]
}

impl TunnelParams {
    /// The arguments of the ssh process for this tunnel.
    pub fn ssh_command(&self) -> (args: Vec<String>)
        ensures
            views(args@) == tunnel_args(
                spec_text(self.local_port, self.remote_host@, self.remote_port),
                self.host@,
            ),
    {
        let forward = forward_spec(self.local_port, self.remote_host.as_str(), self.remote_port);
        let ghost spec = forward@;
        let mut args: Vec<String> = Vec::new();
        args.push("-N".to_owned());
        args.push("-L".to_owned());
        args.push(forward);
        args.push("-o".to_owned());
        args.push("ServerAliveInterval=30".to_owned());
        args.push("-o".to_owned());
        args.push("ServerAliveCountMax=3".to_owned());
        args.push("-o".to_owned());
        args.push("ExitOnForwardFailure=yes".to_owned());
        args.push("-o".to_owned());
        args.push("ConnectTimeout=10".to_owned());
        args.push(self.host.clone());
        assert(views(args@) =~= tunnel_args(spec, self.host@));
        args
    }
}

/// A tunnel of its own carries exactly one forward, the one it was made for, and
/// ends when that cannot be bound.
pub proof fn law_a_tunnel_carries_one_forward(t: TunnelParams, args: Vec<String>)
    requires
        call_ensures(TunnelParams::ssh_command, (&t,), args),
    ensures
        views(args@).len() == 12,
        views(args@)[0] == "-N"@,
        views(args@)[1] == "-L"@,
        views(args@)[2] == decimal(t.local_port as nat) + ":"@ + t.remote_host@ + ":"@ + decimal(
            t.remote_port as nat,
        ),
        views(args@)[3] == "-o"@ && views(args@)[4] == "ServerAliveInterval=30"@,
        views(args@)[5] == "-o"@ && views(args@)[6] == "ServerAliveCountMax=3"@,
        views(args@)[7] == "-o"@ && views(args@)[8] == "ExitOnForwardFailure=yes"@,
        views(args@)[9] == "-o"@ && views(args@)[10] == "ConnectTimeout=10"@,
        views(args@)[11] == t.host@,
{
}

}
