//! A fixed-capacity bounded queue ("ring buffer") for passing plain, copyable
//! values, with per-slot sequence numbers and wraparound-safe cursor
//! arithmetic.
//!
//! The buffer keeps a power-of-two array of slots. Each slot carries a
//! sequence counter that encodes, relative to the absolute logical position
//! that currently owns the slot, whether the slot is free to be written or
//! holds a value ready to be read. Two monotonically increasing 32-bit
//! cursors give the next absolute position to claim for writing and for
//! reading; all full/empty decisions are made from the wraparound-aware
//! difference between a slot's sequence number and a cursor, so no separate
//! occupancy count is needed.
//!
//! Client code works through lightweight [`handles::Sender`] and
//! [`handles::Receiver`] handles. A registry of live handle counts guards the
//! shutdown order: handles are cloned and disposed while the buffer is alive,
//! and the buffer itself may be disposed only once no handle remains.

pub mod handles;
pub mod ring;

pub use handles::Receiver;
pub use handles::Sender;
pub use handles::Users;
pub use ring::Cell;
pub use ring::RingBuffer;
