//! A single proof-of-work ledger node: memory-hard proof search, the chain and
//! wallet state machine, and the framing and vetting of block announcements.
pub mod encoding;
pub mod pow;
pub mod ledger;
pub mod wire;
