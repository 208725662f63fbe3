//! Why a template is refused.

use vstd::prelude::*;

verus! {

/// Why a template cannot be read.
#[derive(Debug, PartialEq, Eq)]
pub enum TemplateError {
    /// The template is empty.
    Empty,
    /// The fence at `position` opens no code block: its line does not end, or
    /// no closing fence follows.
    UnterminatedFence { position: usize },
    /// No table header is found.
    MissingHeader,
    /// The text at `position`, after the first header, is no row.
    MalformedRow { position: usize },
}

/// Why no document can be made of a template.
#[derive(Debug, PartialEq, Eq)]
pub enum BuildError {
    /// The template cannot be read.
    Template(TemplateError),
    /// The row gives no reference, and no row before it gives one.
    MissingReferences { table: usize, row: usize },
    /// The row has a usage without an input, or an input without a usage.
    UnpairedExample { table: usize, row: usize },
    /// There are `found` outputs, and another number of rows with an example.
    OutputCount { found: usize },
}

} // verus!
