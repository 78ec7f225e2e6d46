//! The operations a request can carry.

use vstd::prelude::*;
use super::{ExecRequest, RegisterRequest, SpecRegisterRequest};

verus! {

#[derive(Debug, PartialEq, Eq)]
pub enum Body {
    Register(RegisterRequest),
    Exec(ExecRequest),
}

pub enum SpecBody {
    Register(SpecRegisterRequest),
    Exec(ExecRequest),
}

impl View for Body {
    type V = SpecBody;

    open spec fn view(&self) -> SpecBody {
        match self {
            Body::Register(r) => SpecBody::Register(r@),
            Body::Exec(e) => SpecBody::Exec(*e),
        }
    }
}

} // verus!
