//! Log levels and the colours the development log uses.
use vstd::prelude::*;

verus! {

#[derive(Debug, Clone, Copy, PartialEq, Eq, Structural)]
pub enum LogLevel {
    Info,
    Debug,
    Warning,
    Error,
    Application,
}

pub open spec fn level_name(l: LogLevel) -> Seq<char> {
    match l {
        LogLevel::Info => "INFO"@,
        LogLevel::Debug => "DEBUG"@,
        LogLevel::Warning => "WARN"@,
        LogLevel::Error => "ERROR"@,
        LogLevel::Application => "APPLICATION"@,
    }
}

impl LogLevel {
    /// The label printed for the level.
    pub fn as_str(&self) -> (r: &'static str)
        ensures
            r@ == level_name(*self),
    {
        match self {
            LogLevel::Info => "INFO",
            LogLevel::Debug => "DEBUG",
            LogLevel::Warning => "WARN",
            LogLevel::Error => "ERROR",
            LogLevel::Application => "APPLICATION",
        }
    }
}

/// The terminal colour for a status code: red for server errors, yellow
/// for client errors, cyan for redirects, green for success, black else.
pub open spec fn status_color_of(status: u16) -> Seq<char> {
    if status >= 500 {
        "\x1b[41m"@
    } else if status >= 400 {
        "\x1b[43m"@
    } else if status >= 300 {
        "\x1b[46m"@
    } else if status >= 200 {
        "\x1b[42m"@
    } else {
        "\x1b[40m"@
    }
}

/// The terminal colour for a status code.
pub fn status_color(status: u16) -> (r: &'static str)
    ensures
        r@ == status_color_of(status),
{
    if status >= 500 {
        "\x1b[41m"
    } else if status >= 400 {
        "\x1b[43m"
    } else if status >= 300 {
        "\x1b[46m"
    } else if status >= 200 {
        "\x1b[42m"
    } else {
        "\x1b[40m"
    }
}

} // verus!
