//! Line selector: split a text source into lines, pick one line by its
//! 1-based number, and optionally split that line on a delimiter string
//! and pick one field by its 1-based index.

pub mod number;
pub mod response;
pub mod split;
pub mod select;

pub use response::Response;
pub use split::parse;

