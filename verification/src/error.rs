//! Exit-code-carrying error type.
//!
//! The device tools define explicit exit codes where a caller depends on
//! them (battstat 0 ok / 2 low / 3 USB-not-charging / 4 critical / 5 no
//! power supply); everywhere else failure is exit 1. `Cerr` carries the
//! code so a command handler can produce the expected process status.

use vstd::prelude::*;

verus! {

#[derive(Debug, Clone)]
pub struct Cerr {
    pub code: i32,
    pub msg: String,
}

pub type Res<T> = Result<T, Cerr>;

impl Cerr {
    /// Build an error carrying a specific process exit code.
    pub fn new(code: i32, msg: String) -> (e: Self)
        ensures
            e.code == code,
            e.msg@ == msg@,
    {
        Cerr { code, msg }
    }

    /// Generic failure (exit 1).
    pub fn msg(msg: String) -> (e: Self)
        ensures
            e.code == 1,
            e.msg@ == msg@,
    {
        Cerr::new(1, msg)
    }

    /// Re-stamp the exit code (the message is kept).
    pub fn recode(self, code: i32) -> (e: Self)
        ensures
            e.code == code,
            e.msg@ == self.msg@,
    {
        Cerr { code, msg: self.msg }
    }

    /// The message, as `Display` shows it.
    pub fn to_text(&self) -> (s: String)
        ensures
            s@ == self.msg@,
    {
        self.msg.clone()
    }
}

/// Convenience constructor.
pub fn cerr(code: i32, msg: String) -> (e: Cerr)
    ensures
        e.code == code,
        e.msg@ == msg@,
{
    Cerr::new(code, msg)
}

/// Convenience constructor for generic (exit 1) failures.
pub fn cmsg(msg: String) -> (e: Cerr)
    ensures
        e.code == 1,
        e.msg@ == msg@,
{
    Cerr::msg(msg)
}

} // verus!
