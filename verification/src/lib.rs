//! The lexical core of an ECMAScript front end: a character-driven state
//! machine that turns source text into tokens with exact byte spans.
//!
//! Every scanner is described by a mathematical function on the sequence
//! of code points of the source, and the executable scanner is proved to
//! compute exactly that function.

pub mod chars;
pub mod context;
pub mod digits;
pub mod dispatch;
pub mod error;
pub mod escape;
pub mod ident;
pub mod input;
pub mod lexer;
pub mod number;
pub mod punct;
pub mod quote;
pub mod regexp;
pub mod state;
pub mod str_lit;
pub mod template;
pub mod text;
pub mod token;
pub mod trivia;

pub use crate::context::Context;
pub use crate::error::{LexError, SyntaxError};
pub use crate::lexer::Lexer;
pub use crate::token::{Span, SpannedToken, Token};
