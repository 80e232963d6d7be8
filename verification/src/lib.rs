//! Error-enum support: a model of the derive input's token trees, the parser
//! that reads an error enum out of them, and the generator of its `Display`,
//! `Error` and `From` impls; plus an error value that any error converts
//! into.
pub mod codegen;
pub mod decl;
pub mod message;
pub mod parse;
pub mod result;
pub mod text;
pub mod token;

pub use codegen::{error, generate_code};
pub use decl::{Enum, FieldInfo, Var};
pub use message::format_message;
pub use parse::{parse_attrs, parse_enum, parse_enum_body};
pub use result::{ErrResult, ErrRet};
pub use token::{Delimiter, Group, TokenTree};
