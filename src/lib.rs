//! A structural codec between typed aggregates, described by schemas, and a
//! dynamic table-shaped value, with a stable textual rendering of values.

pub mod codec;
pub mod error;
pub mod laws;
pub mod schema;
pub mod text;
pub mod tostring;
pub mod utils;
pub mod value;
