//! Resolution of type libraries through the system's registration catalog,
//! and decoding of type descriptors into display names.

pub mod decimal;
pub mod catalog;
pub mod error;
pub mod typedesc;
pub mod library;
pub mod session;
pub mod resolve;
