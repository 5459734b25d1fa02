//! Page reading and extraction logic of a browsing service for agents.
use vstd::prelude::*;

pub mod dom;
pub mod encoding;
pub mod input;
pub mod page;
pub mod reply;
pub mod text;

verus! {

} // verus!
