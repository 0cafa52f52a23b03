//! Extraction of schema definitions from a document tree: a walker that
//! finds schema and property declarations, a parser for type annotations,
//! and a renderer that turns documentation markup into prose.

pub mod types;
pub mod chars;
pub mod text;
pub mod markdown;
pub mod type_grammar;
pub mod schema;

pub use types::{ConvertError, LitDocument, LitNode, Property, PropertyType, Schema, TypeParseError};
pub use text::{clean_text, trim_codeblock};
pub use markdown::{is_renderable, raw_text, reference_warnings, text_to_markdown};
pub use type_grammar::parse_type;
pub use schema::to_jsonschemas;
