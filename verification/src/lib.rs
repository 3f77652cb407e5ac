//! Width-constrained recursive layout core for a source-code pretty-printer.
//!
//! A tree of syntactic constructs is turned into formatted text. Every node
//! renders itself through one shared operation, `rewrite`, which receives a
//! layout context (indentation state plus read-only handles to configuration
//! and to the original source text), a width budget for the last produced
//! line, and the column offset at which the rendering starts. A node either
//! produces a complete, width-respecting rendering or reports that no layout
//! fits, letting its caller retry with different parameters.

pub mod config;
pub mod node;
pub mod rewrite;
pub mod source;
pub mod text;
