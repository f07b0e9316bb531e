//! Ring buffer, number formatting and the tile streaming protocol of the
//! boosterpack firmware, with their contracts.

pub mod queuebuf;
pub mod serial_utils;
pub mod stream;
