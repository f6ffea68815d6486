//! Registration and static validation for a dependency-injection container:
//! definitions and groups are registered by identifier, and compiling the
//! registry either hands over every factory or reports every misconfiguration.

pub mod builder;
pub mod candidate;
pub mod container;
pub mod error;
pub mod keyed;
pub mod laws;
pub mod registry;
pub mod validator;
