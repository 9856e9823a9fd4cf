//! Validation of the `assignments` field of a learning-path node, and the
//! file-copy instructions that a valid field gives rise to.
//!
//! Processing takes two steps around the caller's look at the files:
//! [`files_to_check`] names the files whose readability matters, and
//! [`process_extension_field`] turns the field and the files found readable
//! into mappings or remarks.

pub mod artifacts;
pub mod laws;
pub mod model;
pub mod outcome;
pub mod paths;
pub mod processing;
pub mod remarks;
pub mod schema;

pub use crate::processing::files_to_check;
pub use crate::processing::process_extension_field;
pub use crate::schema::get_extension_field_schema;
pub use crate::schema::get_params_schema;
