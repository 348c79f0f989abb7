use vstd::prelude::*;

pub mod codec;
pub mod word;
pub mod external;
pub mod transaction;
pub mod signature;
pub mod backend;
pub mod error;
pub mod state;
pub mod instruction;
pub mod allocator;
pub mod processor;

verus! {

} // verus!
