//! What the other parts share.

pub mod coords;
