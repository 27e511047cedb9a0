use vstd::prelude::*;

pub mod text;
pub mod invocation;
pub mod timestamp;
pub mod suggest;
pub mod json;
pub mod envelope;
pub mod usage;
pub mod request;
pub mod audit;
pub mod doctor;
pub mod cli;
pub mod stream;
pub mod truncate;
pub mod skill;
pub mod wire;
pub mod decode;

verus! {

} // verus!
