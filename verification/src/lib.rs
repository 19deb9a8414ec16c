//! Deserialization of KDL documents into the serde data model.
pub mod bare_defaults;
pub mod content;
pub mod de;
pub mod error;
pub mod model;
pub mod parse;

pub use de::{from_doc, from_str};
pub use error::Error;
