//! A shared, replayable view over a single-pass value source.
//!
//! A source that can be pulled only once (a counter, a generator with side
//! effects) is wrapped behind a shared core.  Any number of cursors read the
//! same sequence independently: the core pulls the source at most once per
//! position, caches each value in a ledger until every live cursor has moved
//! past it, and then evicts it, so memory is bounded by how far the cursors
//! spread apart rather than by the length of the sequence.
//!
//! [`engine::SharedCore`] is the ledger and cursor registry; the caller that
//! owns the source feeds pulled values in through [`engine::SharedCore::deliver`].
//! [`replay::Replay`] packages a core together with an in-memory source.

mod slab_store;
pub mod engine;
pub mod replay;

pub use engine::ReadOutcome;
pub use engine::SharedCore;
pub use replay::Replay;
