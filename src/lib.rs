use vstd::prelude::*;

pub mod engine;
pub mod ext;
pub mod paths;
pub mod queue;
pub mod record;
pub mod storage;

verus! {

} // verus!
