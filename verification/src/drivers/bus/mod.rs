//! The buses that devices are found on.

pub mod pci;
