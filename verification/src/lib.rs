//! The verified core of the Vimana work-node runtime.

mod text;

pub mod names;
pub mod runtime;
