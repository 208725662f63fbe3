//! A compiler for a cheat sheet of parser combinators.
//!
//! A template is text with tables of examples and fenced code blocks. Each
//! row of a table names the items it documents and may give a usage and an
//! input. The library reads the template, makes the program that runs every
//! example, and writes the document in which each row shows what its example
//! gave.
//!
//! - `segment` splits a template into text and code blocks.
//! - `table` reads the tables, with `codespan` for the code spans of their
//!   cells and `reference` for the items they name.
//! - `resolve` gives each row the items it stands for.
//! - `ledger` collects the import statements that the rows propose, and
//!   `imports` makes the list of those that are kept.
//! - `snippet` makes the code of a row, `program` the program of all rows,
//!   and `outcome` the text for what running a row gave.
//! - `document` puts these together, and `page` sets the result in a page.
//! - `error` says why a template is refused.
//! - `number` is a parser that the examples use.

pub mod codespan;
pub mod document;
pub mod error;
pub mod imports;
pub mod ledger;
pub mod number;
pub mod outcome;
pub mod page;
pub mod program;
pub mod reference;
pub mod resolve;
pub mod segment;
pub mod snippet;
pub mod table;
pub mod text;

pub use crate::codespan::markdown_format_code;
pub use crate::document::{compile, plan, render_document, Plan};
pub use crate::error::{BuildError, TemplateError};
pub use crate::program::generate_source;
pub use crate::outcome::{format_iresult, format_remainder, Fragment, Outcome};
