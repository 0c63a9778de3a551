//! A versioned attribute layer over an ordered key-value store.
//!
//! Values are kept per (namespace, entity, field) under keys whose byte order
//! follows the numeric order of entity IDs and version numbers.
pub mod counter;
pub mod error;
pub mod key;
pub mod scan;
mod store;
pub mod versioned;

pub use error::VersionedError;
pub use key::{VersionBound, VersionRange};
pub use versioned::{get_value, inc_counter, new_version, set_value, update_value};
