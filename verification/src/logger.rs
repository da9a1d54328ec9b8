//! Where log lines go, and unwrapping with a message.
//!
//! The log destination is a value that its owner creates once and hands to
//! whoever writes log lines. Writing them is left to the caller.

use vstd::prelude::*;

verus! {

/// The log destination: the console, and a file once one has been set.
#[derive(Debug, Clone)]
pub struct LogFile {
    path: Option<String>,
}

impl View for LogFile {
    type V = Option<Seq<char>>;

    closed spec fn view(&self) -> Option<Seq<char>> {
        match self.path {
            Some(p) => Some(p@),
            None => None,
        }
    }
}

impl LogFile {
    /// A destination without a file.
    pub fn new() -> (log: LogFile)
        ensures
            log@ is None,
    {
        LogFile { path: None }
    }

    /// The path of the log file, if one has been set.
    pub fn path(&self) -> (r: Option<&str>)
        ensures
            match r {
                Some(p) => self@ == Some(p@),
                None => self@ is None,
            },
    {
        match &self.path {
            Some(p) => Some(p.as_str()),
            None => None,
        }
    }
}

/// Sets the log file. The first path that is set stays: setting another one
/// later changes nothing.
pub fn set_log_file(log: &mut LogFile, path: String)
    ensures
        final(log)@ == if old(log)@ is None {
            Some(path@)
        } else {
            old(log)@
        },
{
    if log.path.is_none() {
        log.path = Some(path);
    }
}

/// Unwrapping a value that is expected to be there. `msg` says what went
/// wrong where it is not; a caller reports it instead of asking for the value,
/// which is only to be had where there is one.
pub trait LogUnwrap<T>: Sized {
    /// The value, if there is one.
    spec fn value(self) -> Option<T>;

    /// Takes the value out.
    fn log_unwrap(self, msg: &str) -> (r: T)
        requires
            self.value() is Some,
        ensures
            self.value() == Some(r),
    ;
}

impl<T, E> LogUnwrap<T> for Result<T, E> {
    open spec fn value(self) -> Option<T> {
        match self {
            Ok(v) => Some(v),
            Err(_) => None,
        }
    }

    fn log_unwrap(self, msg: &str) -> (r: T) {
        match self {
            Ok(v) => v,
            Err(_) => vstd::pervasive::unreached(),
        }
    }
}

impl<T> LogUnwrap<T> for Option<T> {
    open spec fn value(self) -> Option<T> {
        self
    }

    fn log_unwrap(self, msg: &str) -> (r: T) {
        match self {
            Some(v) => v,
            None => vstd::pervasive::unreached(),
        }
    }
}

} // verus!
