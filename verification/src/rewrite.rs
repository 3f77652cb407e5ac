//! The layout contract: the context every rendering receives and the one
//! operation every node-like construct implements.
//!
//! A context is a per-call snapshot of positional state: the block
//! indentation owed by every line after the first, the extra overflow
//! indentation of continuation lines, and read-only handles to the
//! configuration and to the original source. Deriving a context for a child
//! rendering always builds a new value; a parent's context is never touched.
//!
//! The `rewrite` operation consumes a context, a width budget for the last
//! produced line, and the column offset at which rendering starts, and either
//! returns a complete rendering or reports that no layout fits. Failure is an
//! expected outcome: callers retry with other widths, derived contexts or
//! alternate layouts, and give up only when their own options are exhausted.

use crate::config::Config;
use crate::source::{CodeMap, Span};
use crate::text::{interior_indented, last_line};
use vstd::prelude::*;

verus! {

/// The mathematical content of a context: the two indentation counters, the
/// configuration knobs, and the source text the code map holds.
pub struct ContextView {
    /// Minimum indentation of every produced line after the first.
    pub block_indent: nat,
    /// Extra indentation of continuation lines that overflow without nesting.
    pub overflow_indent: nat,
    /// Columns of indentation added for each nesting level.
    pub indent_unit: nat,
    /// Maximum width of a produced line.
    pub max_width: nat,
    /// The original source text.
    pub source: Seq<char>,
}

/// The context derived for a nested block: the block indentation grows by
/// one indent unit and everything else is kept.
pub open spec fn nested(c: ContextView) -> ContextView {
    ContextView { block_indent: c.block_indent + c.indent_unit, ..c }
}

/// The context derived for an overflowing continuation: the overflow
/// indentation is replaced and everything else, the block indentation above
/// all, is kept.
pub open spec fn overflowed(c: ContextView, overflow: nat) -> ContextView {
    ContextView { overflow_indent: overflow, ..c }
}

/// Positional state carried into one rendering and all its recursive
/// descendants. Children borrow it and derive fresh values from it.
pub struct RewriteContext<'a> {
    /// The original source, for verbatim fallback.
    pub codemap: &'a CodeMap,
    /// The formatting knobs.
    pub config: &'a Config,
    /// Indentation owed to the nesting of blocks.
    pub block_indent: usize,
    /// Extra indentation owed to overflowing onto a continuation line
    /// without entering a new block.
    pub overflow_indent: usize,
}

impl<'a> View for RewriteContext<'a> {
    type V = ContextView;

    open spec fn view(&self) -> ContextView {
        ContextView {
            block_indent: self.block_indent as nat,
            overflow_indent: self.overflow_indent as nat,
            indent_unit: self.config.indent_unit as nat,
            max_width: self.config.max_width as nat,
            source: self.codemap@,
        }
    }
}

impl<'a> RewriteContext<'a> {
    /// The root context of a formatting run: zero block and overflow
    /// indentation over the given source and configuration.
    pub fn new(codemap: &'a CodeMap, config: &'a Config) -> (c: RewriteContext<'a>)
        ensures
            c@.block_indent == 0,
            c@.overflow_indent == 0,
            c@.indent_unit == config.indent_unit,
            c@.max_width == config.max_width,
            c@.source == codemap@,
    {
        RewriteContext { codemap, config, block_indent: 0, overflow_indent: 0 }
    }

    /// The context for a rendering nested one block deeper: block
    /// indentation grows by one indent unit, nothing else changes, and
    /// `self` is left as it was.
    pub fn nested_context(&self) -> (c: RewriteContext<'a>)
        requires
            self.block_indent + self.config.indent_unit <= usize::MAX,
        ensures
            c@ == nested(self@),
    {
        RewriteContext {
            codemap: self.codemap,
            config: self.config,
            block_indent: self.block_indent + self.config.indent_unit,
            overflow_indent: self.overflow_indent,
        }
    }

    /// The context for a rendering that continues on overflow lines without
    /// nesting: the overflow indentation is replaced, the block indentation
    /// and everything else stay, and `self` is left as it was.
    pub fn overflow_context(&self, overflow: usize) -> (c: RewriteContext<'a>)
        ensures
            c@ == overflowed(self@, overflow as nat),
    {
        RewriteContext {
            codemap: self.codemap,
            config: self.config,
            block_indent: self.block_indent,
            overflow_indent: overflow,
        }
    }

    /// The exact original text of `span`: the verbatim fallback for a node
    /// that is not to be reformatted. A span outside the source is an
    /// internal inconsistency, so a valid span is demanded; check with
    /// `CodeMap::contains_span` where validity is not already known.
    pub fn snippet(&self, span: Span) -> (r: String)
        requires
            span.valid(self@.source.len()),
        ensures
            r@ == self@.source.subrange(span.lo as int, span.hi as int),
    {
        self.codemap.span_to_snippet(span)
    }
}

/// Nesting raises the block indentation by exactly one indent unit, and
/// nesting twice by exactly two: deeper blocks are strictly more indented
/// whenever the indent unit is positive.
pub proof fn lemma_nested_indent_monotonic(c: ContextView)
    ensures
        nested(c).block_indent == c.block_indent + c.indent_unit,
        nested(nested(c)).block_indent == c.block_indent + 2 * c.indent_unit,
        c.indent_unit > 0 ==> nested(c).block_indent > c.block_indent,
{
}

/// Overflowing never changes the block indentation, whatever the overflow
/// amount: continuation indentation and block indentation stay distinct.
pub proof fn lemma_overflow_block_indent_unchanged(c: ContextView, overflow: nat)
    ensures
        overflowed(c, overflow).block_indent == c.block_indent,
{
}

/// Derivation builds a new value and carries every untouched attribute over
/// unchanged; the parent context itself is never written to, which the
/// shared-reference signatures of `nested_context` and `overflow_context`
/// already force.
pub proof fn lemma_derivations_preserve(c: ContextView, overflow: nat)
    ensures
        nested(c).overflow_indent == c.overflow_indent,
        nested(c).indent_unit == c.indent_unit,
        nested(c).max_width == c.max_width,
        nested(c).source == c.source,
        overflowed(c, overflow).block_indent == c.block_indent,
        overflowed(c, overflow).indent_unit == c.indent_unit,
        overflowed(c, overflow).max_width == c.max_width,
        overflowed(c, overflow).source == c.source,
        overflowed(c, overflow).overflow_indent == overflow,
{
}

/// The one operation every node-like construct implements.
///
/// An implementation fixes two specification functions: its own
/// well-formedness and `layout`, the pure function from node, context view,
/// width and offset to the rendering it produces, if any. The executable
/// `rewrite` must satisfy `rewrite_post`: it returns exactly `layout` of its
/// inputs — so rendering is deterministic and free of side effects, which
/// `lemma_rewrite_deterministic` states once for every implementation — and
/// whenever it succeeds the text respects the positional contract: the last
/// line fits the width budget, and every line after the first begins with at
/// least the context's block indentation. The first line is the node's own
/// content, never indented for the caller, whose cursor already sits at
/// `offset`.
///
/// `None` means "no layout fits this width and offset under this context".
/// It is not an error: a caller retries with a smaller width, a derived
/// context or an alternate layout of its own, and returns `None` itself only
/// when all its options are exhausted.
pub trait Rewrite {
    /// The renderings of this node are only promised for well-formed nodes.
    spec fn wf(&self) -> bool;

    /// The rendering this node produces for the given inputs, as a pure
    /// function: `Some` text, or `None` when no layout fits.
    spec fn layout(&self, c: ContextView, width: nat, offset: nat) -> Option<Seq<char>>;

    /// Renders this node, or reports that no layout fits. The ensured
    /// clauses are exactly `rewrite_post` of the inputs and the result.
    fn rewrite(&self, context: &RewriteContext<'_>, width: usize, offset: usize) -> (r: Option<
        String,
    >)
        requires
            self.wf(),
        ensures
            match r {
                Some(s) => self.layout(context@, width as nat, offset as nat) == Some(s@)
                    && last_line(s@).len() <= width && interior_indented(
                    s@,
                    context@.block_indent,
                ),
                None => self.layout(context@, width as nat, offset as nat) is None,
            },
    ;
}

/// The view of a rendering result: the produced text, if any.
pub open spec fn rendered_view(r: Option<String>) -> Option<Seq<char>> {
    match r {
        Some(s) => Some(s@),
        None => None,
    }
}

/// Everything `rewrite` promises of a result `r` for the given inputs: the
/// result is exactly the node's pure layout, and a produced text keeps its
/// last line within the width budget and every line after its first behind
/// the block indentation.
pub open spec fn rewrite_post<N: Rewrite + ?Sized>(
    n: &N,
    c: ContextView,
    width: nat,
    offset: nat,
    r: Option<Seq<char>>,
) -> bool {
    match r {
        Some(s) => n.layout(c, width, offset) == Some(s) && last_line(s).len() <= width
            && interior_indented(s, c.block_indent),
        None => n.layout(c, width, offset) is None,
    }
}

/// Renders the root node as the driver does: a fresh context with zero
/// indentation, the configured maximum width as the budget, and the cursor
/// at the start of the line. The result is the whole formatted text, or
/// `None` when the run as a whole found no fitting layout — a run-level
/// outcome whose policy (emit the source unchanged, diagnose, fail) belongs
/// to the caller.
pub fn render_root<N: Rewrite>(node: &N, codemap: &CodeMap, config: &Config) -> (r: Option<
    String,
>)
    requires
        node.wf(),
    ensures
        rewrite_post(
            node,
            ContextView {
                block_indent: 0,
                overflow_indent: 0,
                indent_unit: config.indent_unit as nat,
                max_width: config.max_width as nat,
                source: codemap@,
            },
            config.max_width as nat,
            0,
            rendered_view(r),
        ),
{
    let context = RewriteContext::new(codemap, config);
    node.rewrite(&context, config.max_width, 0)
}

/// Rendering is referentially transparent: any two results that `rewrite`
/// may return for one node, context, width and offset are equal — on
/// success and on failure alike — because each is the node's one pure
/// layout for those inputs.
pub proof fn lemma_rewrite_deterministic<N: Rewrite + ?Sized>(
    n: &N,
    c: ContextView,
    width: nat,
    offset: nat,
    r1: Option<Seq<char>>,
    r2: Option<Seq<char>>,
)
    requires
        rewrite_post(n, c, width, offset, r1),
        rewrite_post(n, c, width, offset, r2),
    ensures
        r1 == r2,
{
}

/// Width respect: whenever rendering succeeds, the last line of the
/// produced text fits the width budget — appended to a prefix of `offset`
/// columns it reaches at most column `offset + width`.
pub proof fn lemma_width_respect<N: Rewrite + ?Sized>(
    n: &N,
    c: ContextView,
    width: nat,
    offset: nat,
    s: Seq<char>,
)
    requires
        rewrite_post(n, c, width, offset, Some(s)),
    ensures
        last_line(s).len() <= width,
        offset + last_line(s).len() <= offset + width,
{
}

} // verus!
