//! Column selection in the manner of `cut`.
//!
//! A position list such as `1,7,3-5` is parsed into ranges ([`position`]).
//! The ranges are applied, in their order, to the characters or the bytes of
//! a line or to the fields of a delimited record ([`extract`]); what they
//! select is defined once, for any sequence ([`select`]). The arguments of an
//! invocation are accepted as a whole ([`cli`]), and an invocation is carried
//! out step by step, with reading and writing left to the caller
//! ([`dispatch`]).

pub mod cli;
pub mod decimal;
pub mod dispatch;
pub mod extract;
pub mod position;
pub mod record;
pub mod select;
pub mod text;

pub use cli::{get_args, ArgsError, Cli, ExtractionMode, DEFAULT_DELIMITER, STDIN_NAME};
pub use decimal::decimal_string;
pub use dispatch::{Event, Output, Phase, Request, Run, Source};
pub use extract::{extract_bytes, extract_chars, extract_fields, select_bytes};
pub use position::{parse_index, parse_pos, ParseError};
