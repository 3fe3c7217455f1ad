//! Wrappers that turn one producer into several consumers: broadcast
//! (`cloneable`, `unsync_cloneable`) and partition (`fork`, `unsync_fork`).

pub mod cloneable;
pub mod fork;
pub mod unsync_cloneable;
pub mod unsync_fork;
