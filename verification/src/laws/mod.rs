//! What the operations of the kernel are for, stated of what goes into a call and
//! what comes out of it.
//!
//! A law here takes a call of an operation, `call_ensures(f, arguments, result)`,
//! and says what holds between the arguments, the result and what the call leaves
//! behind, in terms of fields, bytes and numbers.

pub mod calls;
pub mod console;
pub mod devices;
pub mod diagnostics;
pub mod drawing;
pub mod files;
pub mod machine;
pub mod memory;
pub mod messages;
pub mod names;
pub mod native;
pub mod objects;
pub mod picture;
pub mod programs;
pub mod reports;
pub mod sections;
pub mod selftests;
pub mod spaces;
pub mod threads;
pub mod values;
