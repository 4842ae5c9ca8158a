//! The severity tags the log writer prefixes to its lines. Writing the log
//! file itself is I/O and lives with the caller; the library only fixes the
//! tag text.

use vstd::prelude::*;

use vstd::string::StrSliceExecFns;

verus! {

/// The severity of one log line.
#[derive(Clone, Copy, Debug)]
pub enum LogStatus {
    Info,
    Warning,
    Error,
    ForcedAction,
}

impl LogStatus {
    /// The upper-case tag written between brackets at the head of a log
    /// line.
    pub fn text(&self) -> (r: String)
        ensures
            *self is Info ==> r@ == "INFO"@,
            *self is Warning ==> r@ == "WARNING"@,
            *self is Error ==> r@ == "ERROR"@,
            *self is ForcedAction ==> r@ == "FORCED"@,
    {
        match self {
            LogStatus::Info => "INFO".to_owned(),
            LogStatus::Warning => "WARNING".to_owned(),
            LogStatus::Error => "ERROR".to_owned(),
            LogStatus::ForcedAction => "FORCED".to_owned(),
        }
    }
}

} // verus!
