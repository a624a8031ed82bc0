//! The owned stores of the service: the certified assets, the
//! configuration, and the files kept in stable structures.

pub mod config;
pub mod fs;
pub mod heap;
