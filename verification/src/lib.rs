//! A compiler from a small markdown dialect to HTML.
//!
//! The dialect has bold (`**x**`, `__x__`), emphasis (`*x*`, `_x_`), plain
//! text, and paragraphs parted by blank lines. A document goes through three
//! stages, each of which finishes before the next begins:
//!
//! - [`tokenizer`] reads the text into tokens,
//! - [`parsers`] reads the tokens into a syntax tree,
//! - [`visitors`] renders the tree as HTML.
//!
//! [`Markdown`] runs the three in a row. Every stage has a contract over the
//! mathematical value of what it takes and gives, and Verus proves that the
//! code keeps it.
//!
//! Three choices shape the grammar:
//!
//! - Every text can be read into tokens: a character is either one of `_`,
//!   `*` and the newline, or part of a text.
//! - The delimiters of a style need not pair up: `_x*` is emphasis.
//! - Rules do not backtrack. A paragraph that reads its sentences and then
//!   finds nothing to close it fails, and the sentences stay consumed. A
//!   document stops at the first paragraph that fails; it has HTML if a
//!   paragraph was read before that.

pub mod encoding;
pub mod markdown;
pub mod parsers;
pub mod tokenizer;
pub mod visitors;

pub use markdown::Markdown;
