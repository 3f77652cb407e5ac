//! Formatting configuration read by the layout core.
//!
//! The core needs two knobs: the indent unit (columns added per nesting
//! level) and the maximum line width. Renderings read them through a shared
//! reference and never change them.

use vstd::prelude::*;

verus! {

/// The formatting knobs the layout core consumes.
#[derive(Clone, Copy, PartialEq, Eq, Structural, Debug)]
pub struct Config {
    /// Columns of indentation added for each nesting level.
    pub indent_unit: usize,
    /// Maximum width of a produced line, in columns.
    pub max_width: usize,
}

} // verus!
