//! A bootstrapping compiler and interpreter for a small Lisp-family language.
//!
//! Source text is parsed into S-expression [`Literal`]s, recognized as a
//! module AST, lowered into A-Normal Form, linked into a flat whole-program
//! representation with globally-unique symbol names and de-Bruijn-indexed
//! locals, optionally serialized to a binary bytecode file, and finally
//! executed by a CESK-style abstract machine whose heap is segregated by
//! value kind.

pub mod anf;
pub mod ast;
pub mod error;
pub mod flatanf;
pub mod interpreter;
pub mod literal;
pub mod metadata;
pub mod modules;
pub mod sanity;
pub mod util;

pub use crate::error::ErrorKind;
pub use crate::literal::Literal;
pub use crate::util::{convert_hex_digit, escape_bytes, escape_str};
