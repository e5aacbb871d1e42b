//! Types shared by the logger and the layout engine.

use vstd::prelude::*;

verus! {

/// The outcome a log record or a closed branch reports.
#[derive(Debug, Clone, Copy, PartialEq, Eq, Structural)]
pub enum Status {
    Okay,
    Error,
    Fatal,
    Info,
    Warn,
}

/// The name a status is shown by.
pub open spec fn status_name(s: Status) -> Seq<char> {
    match s {
        Status::Okay => "Ok"@,
        Status::Error => "Error"@,
        Status::Fatal => "Fatal"@,
        Status::Info => "Info"@,
        Status::Warn => "Warning"@,
    }
}

impl Status {
    /// The name this status is shown by: `Warn` shows as `Warning`.
    pub fn to_string(&self) -> (r: String)
        ensures
            r@ == status_name(*self),
    {
        let name = match self {
            Status::Okay => "Ok",
            Status::Error => "Error",
            Status::Fatal => "Fatal",
            Status::Info => "Info",
            Status::Warn => "Warning",
        };
        name.to_owned()
    }
}

} // verus!
