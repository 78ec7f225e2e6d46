//! The answers a response can carry.

use vstd::prelude::*;
use super::{ErrorResponse, ExecResponse, RegisterResponse, SpecErrorResponse, SpecExecResponse, SpecRegisterResponse};

verus! {

#[derive(Debug, PartialEq, Eq)]
pub enum Body {
    Register(RegisterResponse),
    Exec(ExecResponse),
    Error(ErrorResponse),
}

pub enum SpecBody {
    Register(SpecRegisterResponse),
    Exec(SpecExecResponse),
    Error(SpecErrorResponse),
}

impl View for Body {
    type V = SpecBody;

    open spec fn view(&self) -> SpecBody {
        match self {
            Body::Register(r) => SpecBody::Register(r@),
            Body::Exec(e) => SpecBody::Exec(e@),
            Body::Error(e) => SpecBody::Error(e@),
        }
    }
}

} // verus!
