//! The first layer of the Windows interface.

pub mod counts;
pub mod error;
pub mod files;
pub mod ntapi;
pub mod object;
pub mod pe;
pub mod shared;
pub mod sync;
pub mod subsys;
pub mod types;
