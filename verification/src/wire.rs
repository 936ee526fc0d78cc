//! The byte layout that all sensors on the bus share.

pub mod checksum;
pub mod frame;
