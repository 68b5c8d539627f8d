//! A terminal bullet journal's verified core: the date-keyed task store,
//! the calendar cursor, the mode-driven input state machine, the command
//! interpreter, and the snapshot codec the persistence layer writes and
//! reads.

pub mod codec;
pub mod command;
pub mod date;
pub mod digits;
pub mod state;
pub mod store;
