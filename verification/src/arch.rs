use vstd::prelude::*;
use crate::instr::Intrinsic;
use crate::ops::IdentStr;

verus! {

/// A target without intrinsics: every call stays a call.
#[derive(Clone, Copy, Debug, PartialEq, Eq, Structural)]
pub struct Bare;

impl Intrinsic for Bare {
    open spec fn recognize(name: Seq<char>) -> Option<Self> {
        None
    }

    fn generate(name: &IdentStr) -> (found: Option<Self>) {
        None
    }
}

/// The intrinsics of a target that runs under an operating system: the
/// call into the system, written `syscall`.
#[derive(Clone, Copy, Debug, PartialEq, Eq, Structural)]
pub enum Hosted {
    Syscall,
}

impl Intrinsic for Hosted {
    open spec fn recognize(name: Seq<char>) -> Option<Self> {
        if name == "syscall"@ {
            Some(Hosted::Syscall)
        } else {
            None
        }
    }

    fn generate(name: &IdentStr) -> (found: Option<Self>) {
        let word = "syscall".to_owned();
        if *name == word {
            Some(Hosted::Syscall)
        } else {
            None
        }
    }
}

} // verus!
