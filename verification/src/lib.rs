//! A cross-thread "lending" primitive, modelled and verified sequentially: a
//! single owner (`AtomicLendCell`) holds a value and issues lightweight
//! read-only handles (`AtomicBorrowCell`) whose validity is entirely
//! derivative of the owner's liveness state.
//!
//! Two interchangeable strategies track liveness:
//! - [`atomic_counting`]: the owner keeps a count of outstanding borrows and
//!   refuses teardown while the count is non-zero.
//! - [`flag_based`]: the owner keeps a single alive flag, cleared exactly once
//!   at teardown; each access checks the flag instead of paying for a count.

pub mod atomic_counting;
pub mod flag_based;

pub use flag_based::AtomicBorrowCell;
pub use flag_based::AtomicLendCell;
