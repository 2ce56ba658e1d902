//! Why a cooperative console interrupt of the managed server failed.
use vstd::prelude::*;

verus! {

#[derive(Debug, Clone, PartialEq, Eq)]
pub enum ServerConsoleControlError {
    UnsupportedPlatform,
    CallerAlreadyAttached,
    Attach { pid: u32, message: String },
    Handler { message: String },
    Signal { pid: u32, message: String },
}

} // verus!
