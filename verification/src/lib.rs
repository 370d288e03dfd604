//! Parser and composer for the extended CBOR diagnostic notation of dCBOR.
//!
//! A text in diagnostic notation is read into a [`dcbor::CBOR`] item. The
//! lexer and the recursive-descent parser are verified against a grammar
//! stated over the bytes of the source, in which every item is given by its
//! deterministic encoding.
//!
//! | Construct | Example |
//! | --- | --- |
//! | Integer, float | `42`, `-1`, `3.14`, `1e9` |
//! | Specials | `true`, `false`, `null`, `NaN`, `Infinity`, `-Infinity` |
//! | Text | `"hello"` |
//! | Bytes in hexadecimal | `h'68656c6c6f'` |
//! | Bytes in base64 | `b64'AQIDBAUGBwgJCg=='` |
//! | Date | `2023-02-08`, `2023-02-08T15:30:45Z`, `2023-02-08T15:30:45+05:30` |
//! | Tag by number | `1234("hello")` |
//! | Tag by name | `date(2023-01-01)` |
//! | Known value | `'1'`, `'isA'`, `Unit`, `''` |
//! | UR | `ur:date/cyisdadmlasgtapttl` |
//! | Array, map | `[1, 2, 3]`, `{"k": 1, 2: "v"}` |
//! | Comments | `/inline/`, `# to the end of the line` |
//!
//! The modules, from the bytes up:
//!
//! - [`scan`]: classes of bytes and runs of them;
//! - [`lexeme`]: the lexical grammar, and [`lexer`], the scanner that finds
//!   its tokens;
//! - [`token`]: tokens with what their text denotes;
//! - [`item`]: the items of `dcbor` and the other outside functions, with
//!   what is taken on trust of them;
//! - [`registry`]: the names of tags and known values;
//! - [`grammar`]: what a source denotes, and [`parse`], the parser;
//! - [`compose`]: arrays and maps from texts;
//! - [`error`] and [`render`]: the errors, their messages and how they are
//!   shown against the source;
//! - [`laws`] and [`prefix`]: what holds of every parse.

pub mod span;
pub mod scan;
pub mod utf8;
pub mod lexeme;
pub mod lexer;
pub mod error;
pub mod token;
pub mod render;
pub mod registry;
pub mod grammar;
pub mod parse;
pub mod compose;
pub mod laws;
pub mod prefix;
pub mod item;

pub use compose::{
    compose_dcbor_array, compose_dcbor_array_with, compose_dcbor_map, compose_dcbor_map_with,
    Error as ComposeError,
};
pub use error::Error as ParseError;
pub use parse::{
    parse_dcbor_item, parse_dcbor_item_partial, parse_dcbor_item_partial_with,
    parse_dcbor_item_with,
};
pub use registry::Registry;
pub use span::Span;
pub use token::Token;
