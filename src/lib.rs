use vstd::prelude::*;

pub mod keys;
pub mod coalescer;
pub mod mappings;
pub mod engine;
pub mod bytes;
pub mod devices;
pub mod defaults;
pub mod midi;
pub mod dispatch;
pub mod import;

verus! {

} // verus!
