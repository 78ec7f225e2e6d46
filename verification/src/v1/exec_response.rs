//! The outputs an exec response can carry.

use vstd::prelude::*;
use super::{PingResponse, SpecPingResponse};

verus! {

#[derive(Debug, PartialEq, Eq)]
pub enum Output {
    Ping(PingResponse),
}

pub enum SpecOutput {
    Ping(SpecPingResponse),
}

impl View for Output {
    type V = SpecOutput;

    open spec fn view(&self) -> SpecOutput {
        match self {
            Output::Ping(p) => SpecOutput::Ping(p@),
        }
    }
}

} // verus!
