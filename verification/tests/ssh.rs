use pf::session::ssh::{
    control_reply, forward_spec, Arg, ControlOutcome, FakeSsh, LiveSsh, RealSsh, RunSsh, SshControl,
};
use pf::session::types::{AttachStatus, DesiredForward, ForwardObs};
use pf::tunnel::TunnelParams;
use std::cell::{Cell, RefCell};

fn texts(args: Vec<Arg>) -> Vec<String> {
    args.into_iter()
        .map(|arg| match arg {
            Arg::Word(word) => word,
            Arg::File(path) => String::from_utf8(path).unwrap(),
        })
        .collect()
}

#[test]
fn a_forward_spec_is_local_remotehost_remoteport() {
    assert_eq!(forward_spec(8888, "localhost", 8888), "8888:localhost:8888");
    assert_eq!(forward_spec(5432, "db.internal", 5432), "5432:db.internal:5432");
}

#[test]
fn the_master_command_multiplexes_and_carries_no_forwards() {
    let ssh = RealSsh {
        run_dir: b"/tmp/pf-run".to_vec(),
    };
    let args: Vec<String> = texts(ssh.master_command("gpu-01"));

    assert!(args.contains(&"-M".to_string()), "master mode missing: {args:?}");
    assert!(args.contains(&"-N".to_string()), "no-command missing: {args:?}");
    assert!(
        args.iter().any(|a| a.ends_with("gpu-01.sock")),
        "control socket missing: {args:?}"
    );
    assert_eq!(args.last().unwrap(), "gpu-01", "host must be the last arg");

    // The whole point: a shared master carries no -L, so one failing bind cannot
    // tear down its neighbours.
    assert!(!args.contains(&"-L".to_string()), "master must carry no -L: {args:?}");
    assert!(
        !args.iter().any(|a| a.starts_with("ExitOnForwardFailure")),
        "ExitOnForwardFailure belongs to the old per-forward model: {args:?}"
    );
    assert!(
        args.iter().any(|a| a.starts_with("ServerAliveInterval")),
        "keepalive missing: {args:?}"
    );
}

#[test]
fn the_fake_records_calls_and_can_be_told_to_fail() {
    let mut fake = FakeSsh::new();
    fake.connected = true;

    let f = DesiredForward {
        name: "jupyter".to_string(),
        local_port: 8888,
        remote_host: "localhost".to_string(),
        remote_port: 8888,
    };
    assert!(fake.forward("gpu-01", &f).is_ok());

    fake.fail_ports.insert(6006);
    let bad = DesiredForward {
        name: "tensorboard".to_string(),
        local_port: 6006,
        remote_host: "localhost".to_string(),
        remote_port: 6006,
    };
    let err = fake.forward("gpu-01", &bad).unwrap_err();
    assert!(err.contains("6006"), "error should name the port: {err}");

    assert_eq!(
        fake.calls.as_slice(),
        ["forward 8888:localhost:8888", "forward 6006:localhost:6006"]
    );
}

#[test]
fn control_requests_go_to_the_hosts_socket() {
    let ssh = RealSsh::new(b"/run".to_vec());
    let want = DesiredForward {
        name: "db".to_string(),
        local_port: 1,
        remote_host: "r".to_string(),
        remote_port: 2,
    };
    let have = ForwardObs {
        name: "db".to_string(),
        local_port: 1,
        remote_host: "r".to_string(),
        remote_port: 2,
        status: AttachStatus::Forwarded,
        attached_at: None,
        error: None,
    };
    assert_eq!(
        texts(ssh.check_command("a b")),
        vec!["-S", "/run/a_b.sock", "-O", "check", "a b"]
    );
    assert_eq!(
        texts(ssh.forward_command("h", &want)),
        vec!["-S", "/run/h.sock", "-O", "forward", "-L", "1:r:2", "h"]
    );
    assert_eq!(
        texts(ssh.cancel_command("h", &have)),
        vec!["-S", "/run/h.sock", "-O", "cancel", "-L", "1:r:2", "h"]
    );
    assert_eq!(
        texts(ssh.exit_command("h")),
        vec!["-S", "/run/h.sock", "-O", "exit", "h"]
    );
    assert_eq!(ssh.exit_command("h")[1], Arg::File(b"/run/h.sock".to_vec()));
    let odd = RealSsh::new(b"/\xff".to_vec());
    assert_eq!(odd.exit_command("h")[1], Arg::File(b"/\xff/h.sock".to_vec()));
    assert_eq!(odd.master_command("h")[2], Arg::Word("/\u{fffd}/h.sock".to_string()));
}

#[test]
fn a_failed_request_says_why() {
    let ran = |ok: bool, err: &str| ControlOutcome::Ran(ok, "exit status: 255".to_string(), err.to_string());
    assert_eq!(control_reply(&ran(true, "noise")), Ok(()));
    assert_eq!(control_reply(&ran(false, " boom\n")), Err("boom".to_string()));
    assert_eq!(
        control_reply(&ran(false, " \n")),
        Err("ssh exited with exit status: 255".to_string())
    );
    assert_eq!(
        control_reply(&ControlOutcome::NotRun("no ssh".to_string())),
        Err("failed to run ssh: no ssh".to_string())
    );
}

#[test]
fn a_single_tunnel_carries_its_own_forward() {
    let t = TunnelParams {
        host: "gpu-01".to_string(),
        local_port: 8080,
        remote_port: 80,
        remote_host: "localhost".to_string(),
    };
    let args = t.ssh_command();
    assert_eq!(args[..3], ["-N", "-L", "8080:localhost:80"]);
    assert!(args.contains(&"ExitOnForwardFailure=yes".to_string()));
    assert_eq!(args.last().unwrap(), "gpu-01");
}

/// Answers every request the same way, and keeps what it was asked.
struct Scripted {
    asked: RefCell<Vec<Vec<Arg>>>,
    ok: Cell<bool>,
}

impl RunSsh for Scripted {
    fn run(&self, args: Vec<Arg>) -> ControlOutcome {
        self.asked.borrow_mut().push(args);
        ControlOutcome::Ran(self.ok.get(), "exit status: 255".to_string(), "refused".to_string())
    }
}

#[test]
fn requests_are_run_as_they_are_written() {
    let runner = Scripted {
        asked: RefCell::new(Vec::new()),
        ok: Cell::new(true),
    };
    let mut ssh = LiveSsh::new(b"/run".to_vec(), runner);
    let want = DesiredForward {
        name: "db".to_string(),
        local_port: 1,
        remote_host: "r".to_string(),
        remote_port: 2,
    };
    assert!(ssh.check("h"));
    assert_eq!(ssh.forward("h", &want), Ok(()));
    ssh.runner.ok.set(false);
    assert!(!ssh.check("h"));
    assert_eq!(ssh.forward("h", &want), Err("refused".to_string()));
    ssh.exit("h");
    let asked = ssh.runner.asked.borrow();
    assert_eq!(asked.len(), 5);
    assert_eq!(asked[0], ssh.commands.check_command("h"));
    assert_eq!(asked[1], ssh.commands.forward_command("h", &want));
    assert_eq!(asked[4], ssh.commands.exit_command("h"));
}
