//! A fixed-capacity ring buffer for experience replay: items are appended until
//! the buffer is full, after which each new item overwrites the oldest slot.

mod laws;
mod memory;
mod render;
mod sampling;

pub use memory::{OutOfRange, ReplayMemory, RingState};
pub use sampling::{distinct_slots, gathered};
pub use render::{joined, listing, render_texts};
pub use laws::{
    lemma_capacity_invariant, lemma_last_items_remain, lemma_overwrite_oldest, lemma_zero_capacity,
    ring_of,
};
