//! Inventory of configured serial devices.
//!
//! The library holds a list of configured device descriptors and, given the
//! serial ports currently reported by the operating system, computes which
//! configured devices are connected. Two matching strategies are supported:
//! an exact match on the USB vendor/product identifier pair, and a search for
//! an identifier text inside the reported port name.

pub mod config;
pub mod scan;
