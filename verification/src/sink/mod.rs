//! Write handles that share one underlying sink and close it together.

pub mod cloneable;
pub mod unsync_cloneable;
