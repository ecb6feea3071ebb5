//! Compiles a text file of HTTP request blocks into the source text of one
//! callable function per block.

pub mod text;
pub mod models;
pub mod emit;
pub mod parser;
pub mod builder;

pub use crate::builder::{Builder, compile_text, generate, rust_file_name, try_compile_text};
pub use crate::emit::{replace_variables, to_place_holder};
pub use crate::models::{HttpHeader, HttpRequest, is_http_method, is_legal_method};
pub use crate::parser::{is_request_line, parse_http_code};
