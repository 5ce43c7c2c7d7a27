//! A reference-counted lifecycle manager for externally-owned, fixed-layout
//! records.
//!
//! Records live at reusable 32-byte addresses and carry a custody tag naming
//! the authority allowed to mutate them, an attached value that is paid out to
//! a beneficiary when the record is destroyed, and a fixed-layout content
//! region.  A parent record counts the live children bound to it; a child
//! record stores the address of its parent.  The registry operations enforce
//! that a parent can only be reclaimed once no live child references it, and
//! that a reference that merely repeats an address of a reclaimed record is
//! never trusted again.
//!
//! Three smaller cores accompany the lifecycle manager, built on the same
//! discipline of re-validating externally-owned state on every call: a
//! time-windowed deposit pool whose strict window boundary keeps a deposit
//! and a claim from ever sharing an instant, a stake pool that only moves
//! stake through a forced even redistribution, and a price-feed consumer
//! that accepts only canonical, fresh, strictly newer readings.

pub mod dispatch;
pub mod errors;
pub mod laws;
pub mod model;
pub mod oracle;
pub mod pool;
pub mod record;
pub mod registry;
pub mod stake;
