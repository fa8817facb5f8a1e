//! Parser for the vector path-data language: text is tokenized, relative
//! coordinates are resolved and smooth control points reflected, giving
//! absolute drawing commands in fixed-point counts; bounding boxes, view-box
//! rescaling, path transforms and the assembly of flattened arcs work on
//! those commands.
pub mod arc;
pub mod command;
pub mod lexer;
pub mod parser;
pub mod path;
pub mod viewbox;

pub use command::{Command, Expected};
pub use parser::{parse_path_str, Parser};
