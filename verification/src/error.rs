//! Everything that can go wrong, and how it is told to the user.

use crate::text::{concat2, concat3, concat4, dec};
use vstd::prelude::*;
use vstd::string::*;

verus! {

/// A failure of a `pf` command.
///
/// The first four variants carry the text of a failure met while reading or
/// writing files.
#[derive(Debug)]
pub enum PfError {
    Io(String),
    Json(String),
    TomlDeser(String),
    TomlSer(String),
    /// (host, reason)
    Lock(String, String),
    AlreadyRunning(String),
    NotFound(String),
    PortInUse(u16),
    ProfileNotFound(String),
    ProfileExists(String),
    InvalidPortMapping(String),
    Other(String),
}

/// The outcome of a `pf` operation.
pub type Result<T> = std::result::Result<T, PfError>;

/// A failure, with its texts as sequences of characters.
pub enum ErrorView {
    Io(Seq<char>),
    Json(Seq<char>),
    TomlDeser(Seq<char>),
    TomlSer(Seq<char>),
    Lock(Seq<char>, Seq<char>),
    AlreadyRunning(Seq<char>),
    NotFound(Seq<char>),
    PortInUse(u16),
    ProfileNotFound(Seq<char>),
    ProfileExists(Seq<char>),
    InvalidPortMapping(Seq<char>),
    Other(Seq<char>),
}

impl View for PfError {
    type V = ErrorView;

    open spec fn view(&self) -> ErrorView {
        match self {
            PfError::Io(s) => ErrorView::Io(s@),
            PfError::Json(s) => ErrorView::Json(s@),
            PfError::TomlDeser(s) => ErrorView::TomlDeser(s@),
            PfError::TomlSer(s) => ErrorView::TomlSer(s@),
            PfError::Lock(h, s) => ErrorView::Lock(h@, s@),
            PfError::AlreadyRunning(s) => ErrorView::AlreadyRunning(s@),
            PfError::NotFound(s) => ErrorView::NotFound(s@),
            PfError::PortInUse(p) => ErrorView::PortInUse(*p),
            PfError::ProfileNotFound(s) => ErrorView::ProfileNotFound(s@),
            PfError::ProfileExists(s) => ErrorView::ProfileExists(s@),
            PfError::InvalidPortMapping(s) => ErrorView::InvalidPortMapping(s@),
            PfError::Other(s) => ErrorView::Other(s@),
        }
    }
}

/// The message for a failure.
pub open spec fn error_text(e: ErrorView) -> Seq<char> {
    match e {
        ErrorView::Io(s) => "IO error: "@ + s,
        ErrorView::Json(s) => "JSON error: "@ + s,
        ErrorView::TomlDeser(s) => "TOML deserialization error: "@ + s,
        ErrorView::TomlSer(s) => "TOML serialization error: "@ + s,
        ErrorView::Lock(h, s) => "Cannot lock session for '"@ + h + "': "@ + s,
        ErrorView::AlreadyRunning(s) => "Forward '"@ + s + "' is already running"@,
        ErrorView::NotFound(s) => "Forward '"@ + s + "' not found"@,
        ErrorView::PortInUse(p) => "Port "@ + crate::text::decimal(p as nat) + " is already in use"@,
        ErrorView::ProfileNotFound(s) => "Profile '"@ + s + "' not found"@,
        ErrorView::ProfileExists(s) => "Profile '"@ + s + "' already exists"@,
        ErrorView::InvalidPortMapping(s) => "Invalid port mapping: "@ + s,
        ErrorView::Other(s) => s,
    }
}

impl PfError {
    /// The message shown to the user.
    pub fn message(&self) -> (out: String)
        ensures
            out@ == error_text(self@),
    {
        match self {
            PfError::Io(s) => concat2("IO error: ", s.as_str()),
            PfError::Json(s) => concat2("JSON error: ", s.as_str()),
            PfError::TomlDeser(s) => concat2("TOML deserialization error: ", s.as_str()),
            PfError::TomlSer(s) => concat2("TOML serialization error: ", s.as_str()),
            PfError::Lock(h, s) => concat4("Cannot lock session for '", h.as_str(), "': ", s.as_str()),
            PfError::AlreadyRunning(s) => concat3("Forward '", s.as_str(), "' is already running"),
            PfError::NotFound(s) => concat3("Forward '", s.as_str(), "' not found"),
            PfError::PortInUse(p) => concat3("Port ", dec(*p as u64).as_str(), " is already in use"),
            PfError::ProfileNotFound(s) => concat3("Profile '", s.as_str(), "' not found"),
            PfError::ProfileExists(s) => concat3("Profile '", s.as_str(), "' already exists"),
            PfError::InvalidPortMapping(s) => concat2("Invalid port mapping: ", s.as_str()),
            PfError::Other(s) => s.clone(),
        }
    }
}

/// A message names what it is about.
pub proof fn law_a_message_names_what_it_is_about(e: ErrorView, s: Seq<char>)
    requires
        match e {
            ErrorView::Io(t) => t == s,
            ErrorView::Json(t) => t == s,
            ErrorView::TomlDeser(t) => t == s,
            ErrorView::TomlSer(t) => t == s,
            ErrorView::Lock(h, t) => h == s || t == s,
            ErrorView::AlreadyRunning(t) => t == s,
            ErrorView::NotFound(t) => t == s,
            ErrorView::PortInUse(p) => s == crate::text::decimal(p as nat),
            ErrorView::ProfileNotFound(t) => t == s,
            ErrorView::ProfileExists(t) => t == s,
            ErrorView::InvalidPortMapping(t) => t == s,
            ErrorView::Other(t) => t == s,
        },
    ensures
        exists|i: int|
            0 <= i && i + s.len() <= error_text(e).len() && #[trigger] error_text(e).subrange(
                i,
                i + s.len(),
            ) == s,
{
    let m = error_text(e);
    let at: int = match e {
        ErrorView::Io(t) => "IO error: "@.len() as int,
        ErrorView::Json(t) => "JSON error: "@.len() as int,
        ErrorView::TomlDeser(t) => "TOML deserialization error: "@.len() as int,
        ErrorView::TomlSer(t) => "TOML serialization error: "@.len() as int,
        ErrorView::Lock(h, t) => if h == s {
            "Cannot lock session for '"@.len() as int
        } else {
            ("Cannot lock session for '"@.len() + h.len() + "': "@.len()) as int
        },
        ErrorView::AlreadyRunning(t) => "Forward '"@.len() as int,
        ErrorView::NotFound(t) => "Forward '"@.len() as int,
        ErrorView::PortInUse(p) => "Port "@.len() as int,
        ErrorView::ProfileNotFound(t) => "Profile '"@.len() as int,
        ErrorView::ProfileExists(t) => "Profile '"@.len() as int,
        ErrorView::InvalidPortMapping(t) => "Invalid port mapping: "@.len() as int,
        ErrorView::Other(t) => 0,
    };
    assert(m.subrange(at, at + s.len()) =~= s);
}

/// A failure is seen as what it is.
pub proof fn law_a_failure_is_seen_as_what_it_is(e: PfError)
    ensures
        match e {
            PfError::Io(s) => e@ == ErrorView::Io(s@),
            PfError::Json(s) => e@ == ErrorView::Json(s@),
            PfError::TomlDeser(s) => e@ == ErrorView::TomlDeser(s@),
            PfError::TomlSer(s) => e@ == ErrorView::TomlSer(s@),
            PfError::Lock(h, s) => e@ == ErrorView::Lock(h@, s@),
            PfError::AlreadyRunning(s) => e@ == ErrorView::AlreadyRunning(s@),
            PfError::NotFound(s) => e@ == ErrorView::NotFound(s@),
            PfError::PortInUse(p) => e@ == ErrorView::PortInUse(p),
            PfError::ProfileNotFound(s) => e@ == ErrorView::ProfileNotFound(s@),
            PfError::ProfileExists(s) => e@ == ErrorView::ProfileExists(s@),
            PfError::InvalidPortMapping(s) => e@ == ErrorView::InvalidPortMapping(s@),
            PfError::Other(s) => e@ == ErrorView::Other(s@),
        },
{
}

/// Each failure has its own words.
pub proof fn law_each_failure_has_its_words(e: PfError, out: String)
    requires
        call_ensures(PfError::message, (&e,), out),
    ensures
        match e {
            PfError::Io(s) => out@ == "IO error: "@ + s@,
            PfError::Json(s) => out@ == "JSON error: "@ + s@,
            PfError::TomlDeser(s) => out@ == "TOML deserialization error: "@ + s@,
            PfError::TomlSer(s) => out@ == "TOML serialization error: "@ + s@,
            PfError::Lock(h, s) => out@ == "Cannot lock session for '"@ + h@ + "': "@ + s@,
            PfError::AlreadyRunning(s) => out@ == "Forward '"@ + s@ + "' is already running"@,
            PfError::NotFound(s) => out@ == "Forward '"@ + s@ + "' not found"@,
            PfError::PortInUse(p) => out@ == "Port "@ + crate::text::decimal(p as nat)
                + " is already in use"@,
            PfError::ProfileNotFound(s) => out@ == "Profile '"@ + s@ + "' not found"@,
            PfError::ProfileExists(s) => out@ == "Profile '"@ + s@ + "' already exists"@,
            PfError::InvalidPortMapping(s) => out@ == "Invalid port mapping: "@ + s@,
            PfError::Other(s) => out@ == s@,
        },
{
}

}
