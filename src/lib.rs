//! A fixed-capacity map whose keys are the integers `0..N`, each stored directly in its own
//! slot: no hashing, no probing and no growth.

pub mod map;
pub mod model;
pub mod slot;

pub use map::EMap;
pub use slot::Slot;
