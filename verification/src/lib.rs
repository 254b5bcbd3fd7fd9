//! Paginated, encoding-aware viewing of text files: byte classification,
//! forward and backward page layout, navigation over a reading session and
//! the decisions around the persisted caret and history.

pub mod decoder;
pub mod forward;
pub mod units;
pub mod backward;
pub mod config;
pub mod session;
pub mod search;
pub mod decimal;
pub mod history;
pub mod symmetry;
