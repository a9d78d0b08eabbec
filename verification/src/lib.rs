//! An arena allocator that hands out reference-counted, read-only handles to
//! the values stored in it.
//!
//! Values live in a [`store::ChunkStore`]: an append-only sequence of
//! fixed-capacity chunks whose capacities double from one chunk to the next.
//! Once a value has been placed, it is never moved, copied or dropped by a
//! later allocation; it is torn down only when the arena and every handle
//! referring to its store are gone.

pub mod arena;
pub mod store;

pub use arena::Arena;
pub use arena::ArenaError;
pub use arena::Rc;
