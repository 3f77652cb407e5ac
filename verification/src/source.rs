//! The original source text and spans into it.
//!
//! A rendering that cannot or should not be reformatted falls back to the
//! exact original text of its node. The code map holds that text; a span
//! names a character range in it. Looking a span up is pure: the result is
//! exactly the delimited substring. A span outside the text is an internal
//! inconsistency between the node tree and its source, so the lookup demands
//! a valid span; callers that cannot know validity check it first.

use vstd::prelude::*;
use vstd::string::StrSliceExecFns;

verus! {

/// A character range in the original source: the characters at positions
/// `lo <= i < hi`.
#[derive(Clone, Copy, PartialEq, Eq, Structural, Debug)]
pub struct Span {
    /// Position of the first character of the range.
    pub lo: usize,
    /// Position one past the last character of the range.
    pub hi: usize,
}

impl Span {
    /// The span names an existing range of a source of the given length.
    pub open spec fn valid(self, source_len: nat) -> bool {
        self.lo <= self.hi <= source_len
    }
}

/// The original source text, owned once per formatting run and shared
/// read-only by every rendering.
pub struct CodeMap {
    /// The complete original source.
    pub text: String,
}

impl View for CodeMap {
    type V = Seq<char>;

    open spec fn view(&self) -> Seq<char> {
        self.text@
    }
}

impl CodeMap {
    /// Wraps a source text for span lookup.
    pub fn new(text: String) -> (c: CodeMap)
        ensures
            c@ == text@,
    {
        CodeMap { text }
    }

    /// Whether `span` names an existing range of this source.
    pub fn contains_span(&self, span: Span) -> (r: bool)
        ensures
            r == span.valid(self@.len()),
    {
        span.lo <= span.hi && span.hi <= self.text.as_str().unicode_len()
    }

    /// The exact original text of `span`: the substring of the source
    /// delimited by it, character for character.
    pub fn span_to_snippet(&self, span: Span) -> (r: String)
        requires
            span.valid(self@.len()),
        ensures
            r@ == self@.subrange(span.lo as int, span.hi as int),
    {
        let snip = self.text.as_str().substring_char(span.lo, span.hi);
        snip.to_owned()
    }
}

} // verus!
