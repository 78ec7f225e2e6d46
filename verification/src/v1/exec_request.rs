//! The calls an exec request can make.

use vstd::prelude::*;
use super::PingRequest;

verus! {

#[derive(Debug, Clone, Copy, PartialEq, Eq)]
pub enum Call {
    Ping(PingRequest),
}

} // verus!
