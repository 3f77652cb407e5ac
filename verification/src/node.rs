//! A closed set of constructs implementing the layout contract.
//!
//! Each variant renders itself under the shared `rewrite` operation and shows
//! one facet of the protocol: an atom fits its one line or fails; a block
//! nests its body one indent unit deeper and closes with its footer on the
//! budgeted last line; a chain first tries to keep its continuation on the
//! same line and, when that fails, retries it on an overflow line — the local
//! backtracking by which width-fitting is solved at every level of the tree;
//! and a concatenation renders left to right, handing the right part the
//! column where the left one ended.

use crate::rewrite::{nested, overflowed, ContextView, Rewrite, RewriteContext};
use crate::text::{
    first_line, indented_at_least, interior_indented, last_line, last_line_len,
    lemma_first_line_head, lemma_indent_prefix, lemma_last_line_shorter, lemma_last_line_single,
    lemma_last_line_split, lemma_lines_concat, lemma_lines_len_one, lemma_lines_nonempty,
    lemma_lines_prepend, lemma_lines_single, lemma_lines_split, lemma_no_newline_concat,
    lemma_spaces_no_newline, lines, make_spaces, no_newline, spaces,
};
use vstd::prelude::*;
use vstd::string::{StrSliceExecFns, StringExecFns};

verus! {

/// A construct to be laid out.
pub enum Node {
    /// A piece of text that must stay on one line.
    Atom(String),
    /// A brace-style block: a header line, a body nested one indent unit
    /// deeper, and a footer line at the block's own indentation.
    Block {
        /// Text opening the block, e.g. `outer {`.
        header: String,
        /// The construct nested inside the block.
        body: Box<Node>,
        /// Text closing the block, e.g. `}`.
        footer: String,
    },
    /// A head followed by a continuation, e.g. an assignment and its
    /// right-hand side: laid out on one line when that fits, otherwise the
    /// continuation overflows onto an indented line of its own.
    Chain {
        /// Text the construct starts with, e.g. `let x =`.
        first: String,
        /// The construct continuing after the head.
        rest: Box<Node>,
    },
    /// Two constructs in sequence: the right one continues exactly where
    /// the left one ends, so the offset handed to it is the column after
    /// the left rendering's last line — offsets flow left to right.
    Concat(Box<Node>, Box<Node>),
}

/// Well-formedness: every atomic piece of text is a single line.
pub open spec fn node_wf(n: Node) -> bool
    decreases n,
{
    match n {
        Node::Atom(t) => no_newline(t@),
        Node::Block { header, body, footer } => no_newline(header@) && no_newline(footer@)
            && node_wf(*body),
        Node::Chain { first, rest } => no_newline(first@) && node_wf(*rest),
        Node::Concat(left, right) => node_wf(*left) && node_wf(*right),
    }
}

/// The text of a rendered block: header, newline, the body's rendering
/// behind its indentation, newline, the footer behind the block's own
/// indentation.
pub open spec fn block_text(
    header: Seq<char>,
    bt: Seq<char>,
    footer: Seq<char>,
    bi: nat,
    ci: nat,
) -> Seq<char> {
    header + seq!['\n'] + ((spaces(ci) + bt) + seq!['\n'] + (spaces(bi) + footer))
}

/// The text of a chain kept on one line: head, one space, continuation.
pub open spec fn chain_single_text(first: Seq<char>, rt: Seq<char>) -> Seq<char> {
    (first + seq![' ']) + rt
}

/// The text of a chain whose continuation overflows: head, newline, the
/// continuation behind its overflow indentation.
pub open spec fn chain_multi_text(first: Seq<char>, rt: Seq<char>, ci: nat) -> Seq<char> {
    first + seq!['\n'] + (spaces(ci) + rt)
}

/// The rendering a node produces, as a pure function of node, context,
/// width and offset. `rewrite` computes exactly this.
pub open spec fn node_layout(n: Node, c: ContextView, w: nat, o: nat) -> Option<Seq<char>>
    decreases n,
{
    match n {
        Node::Atom(t) => if t@.len() <= w {
            Some(t@)
        } else {
            None
        },
        Node::Block { header, body, footer } => {
            if c.block_indent + c.indent_unit > usize::MAX {
                None
            } else {
                let ci = c.block_indent + c.indent_unit;
                let bw: nat = if c.max_width >= ci {
                    (c.max_width - ci) as nat
                } else {
                    0
                };
                match node_layout(*body, nested(c), bw, ci) {
                    Some(bt) => if c.block_indent + footer@.len() <= w {
                        Some(block_text(header@, bt, footer@, c.block_indent, ci))
                    } else {
                        None
                    },
                    None => None,
                }
            }
        },
        Node::Chain { first, rest } => {
            let single = if first@.len() + 1 <= w && o + first@.len() + 1 <= usize::MAX {
                node_layout(*rest, c, (w - first@.len() - 1) as nat, o + first@.len() + 1)
            } else {
                None
            };
            match single {
                Some(rt) => Some(chain_single_text(first@, rt)),
                None => {
                    if c.block_indent + c.indent_unit > usize::MAX {
                        None
                    } else {
                        let ci = c.block_indent + c.indent_unit;
                        if ci <= w {
                            match node_layout(*rest, overflowed(c, c.indent_unit), (w - ci) as nat, ci) {
                                Some(rt) => Some(chain_multi_text(first@, rt, ci)),
                                None => None,
                            }
                        } else {
                            None
                        }
                    }
                },
            }
        },
        Node::Concat(left, right) => {
            match node_layout(*left, c, w, o) {
                None => None,
                Some(lt) => {
                    let used = last_line(lt).len();
                    if used > w {
                        None
                    } else if lines(lt).len() == 1 && o + used > usize::MAX {
                        None
                    } else {
                        let ro: nat = if lines(lt).len() == 1 {
                            o + used
                        } else {
                            used
                        };
                        match node_layout(*right, c, (w - used) as nat, ro) {
                            Some(rt) => Some(lt + rt),
                            None => None,
                        }
                    }
                },
            }
        },
    }
}

/// A rendered block respects the contract: its last line is the footer
/// behind the block indentation, and every line after the first is indented
/// by at least the block indentation.
proof fn lemma_block_text_props(
    header: Seq<char>,
    bt: Seq<char>,
    footer: Seq<char>,
    bi: nat,
    ci: nat,
    w: nat,
)
    requires
        no_newline(header),
        no_newline(footer),
        bi <= ci,
        interior_indented(bt, ci),
        bi + footer.len() <= w,
    ensures
        last_line(block_text(header, bt, footer, bi, ci)).len() <= w,
        interior_indented(block_text(header, bt, footer, bi, ci), bi),
{
    let ind_c = spaces(ci);
    let ind_b = spaces(bi);
    let mid_a = ind_c + bt;
    let mid_b = ind_b + footer;
    let mid = mid_a + seq!['\n'] + mid_b;
    let s = block_text(header, bt, footer, bi, ci);
    assert(s == header + seq!['\n'] + mid);
    lemma_spaces_no_newline(ci);
    lemma_spaces_no_newline(bi);
    lemma_no_newline_concat(ind_b, footer);
    lemma_last_line_split(header, mid);
    lemma_last_line_split(mid_a, mid_b);
    lemma_last_line_single(mid_b);
    assert(last_line(s) == mid_b);
    assert(last_line(s).len() == bi + footer.len());
    lemma_lines_split(header, mid);
    lemma_lines_split(mid_a, mid_b);
    lemma_lines_single(header);
    lemma_lines_single(mid_b);
    lemma_lines_prepend(ind_c, bt);
    lemma_lines_nonempty(bt);
    let lb = lines(bt);
    let ll = seq![header] + (seq![ind_c + lb.first()] + lb.drop_first() + seq![mid_b]);
    assert(lines(mid_a) == seq![ind_c + lb.first()] + lb.drop_first());
    assert(lines(s) =~= ll);
    let bl = lb.len() as int;
    assert(ll.len() == bl + 2);
    assert forall|k: int| 1 <= k < lines(s).len() implies indented_at_least(
        #[trigger] lines(s)[k],
        bi,
    ) by {
        if k == 1 {
            assert(lines(s)[k] == ind_c + lb.first());
            lemma_indent_prefix(lb.first(), ci, bi);
        } else if k <= bl {
            assert(lines(s)[k] == lb.drop_first()[k - 2]);
            assert(lb.drop_first()[k - 2] == lb[k - 1]);
            assert(indented_at_least(lines(bt)[k - 1], ci));
        } else {
            assert(k == bl + 1);
            assert(lines(s)[k] == mid_b);
            lemma_indent_prefix(footer, bi, bi);
        }
    }
}

/// A chain kept on one line respects the contract, given that its
/// continuation was rendered within the width left after the head.
proof fn lemma_chain_single_props(first: Seq<char>, rt: Seq<char>, bi: nat, w: nat)
    requires
        no_newline(first),
        first.len() + 1 <= w,
        last_line(rt).len() <= w - first.len() - 1,
        interior_indented(rt, bi),
    ensures
        last_line(chain_single_text(first, rt)).len() <= w,
        interior_indented(chain_single_text(first, rt), bi),
{
    let a = first + seq![' '];
    let s = chain_single_text(first, rt);
    assert(no_newline(seq![' ']));
    lemma_no_newline_concat(first, seq![' ']);
    lemma_lines_prepend(a, rt);
    lemma_lines_nonempty(rt);
    let lr = lines(rt);
    assert(lines(s) == seq![a + lr.first()] + lr.drop_first());
    if lr.len() == 1 {
        assert(lines(s) =~= seq![a + lr.first()]);
        assert(last_line(s) == a + lr.last());
        assert(last_line(s).len() == first.len() + 1 + last_line(rt).len());
    } else {
        assert(lines(s).last() == lr.drop_first().last());
        assert(lr.drop_first().last() == lr.last());
    }
    assert forall|k: int| 1 <= k < lines(s).len() implies indented_at_least(
        #[trigger] lines(s)[k],
        bi,
    ) by {
        assert(lines(s)[k] == lr.drop_first()[k - 1]);
        assert(lr.drop_first()[k - 1] == lr[k]);
        assert(indented_at_least(lines(rt)[k], bi));
    }
}

/// A chain whose continuation overflows respects the contract, given that
/// the continuation was rendered within the width left after its overflow
/// indentation.
proof fn lemma_chain_multi_props(first: Seq<char>, rt: Seq<char>, bi: nat, ci: nat, w: nat)
    requires
        no_newline(first),
        bi <= ci,
        ci <= w,
        last_line(rt).len() <= w - ci,
        interior_indented(rt, bi),
    ensures
        last_line(chain_multi_text(first, rt, ci)).len() <= w,
        interior_indented(chain_multi_text(first, rt, ci), bi),
{
    let ind = spaces(ci);
    let tail = ind + rt;
    let s = chain_multi_text(first, rt, ci);
    assert(s == first + seq!['\n'] + tail);
    lemma_spaces_no_newline(ci);
    lemma_last_line_split(first, tail);
    lemma_lines_split(first, tail);
    lemma_lines_single(first);
    lemma_lines_prepend(ind, rt);
    lemma_lines_nonempty(rt);
    let lr = lines(rt);
    let ll = seq![first] + (seq![ind + lr.first()] + lr.drop_first());
    assert(lines(s) =~= ll);
    if lr.len() == 1 {
        assert(lines(tail) =~= seq![ind + lr.first()]);
        assert(last_line(s) == ind + lr.last());
        assert(last_line(s).len() == ci + last_line(rt).len());
    } else {
        assert(lines(tail).last() == lr.drop_first().last());
        assert(lr.drop_first().last() == lr.last());
    }
    assert forall|k: int| 1 <= k < lines(s).len() implies indented_at_least(
        #[trigger] lines(s)[k],
        bi,
    ) by {
        if k == 1 {
            assert(lines(s)[k] == ind + lr.first());
            lemma_indent_prefix(lr.first(), ci, bi);
        } else {
            assert(lines(s)[k] == lr.drop_first()[k - 2]);
            assert(lr.drop_first()[k - 2] == lr[k - 1]);
            assert(indented_at_least(lines(rt)[k - 1], bi));
        }
    }
}

/// Two renderings joined in sequence respect the contract: the right text
/// begins on the last line of the left one, which was rendered within the
/// width left over by it.
proof fn lemma_concat_text_props(lt: Seq<char>, rt: Seq<char>, bi: nat, w: nat)
    requires
        last_line(lt).len() <= w,
        last_line(rt).len() <= w - last_line(lt).len(),
        interior_indented(lt, bi),
        interior_indented(rt, bi),
    ensures
        last_line(lt + rt).len() <= w,
        interior_indented(lt + rt, bi),
{
    lemma_lines_concat(lt, rt);
    lemma_lines_nonempty(lt);
    lemma_lines_nonempty(rt);
    let s = lt + rt;
    let la = lines(lt);
    let lr = lines(rt);
    let joined = last_line(lt) + first_line(rt);
    assert(lines(s) == la.drop_last() + seq![joined] + lr.drop_first());
    if lr.len() == 1 {
        assert(lines(s).last() == joined);
        assert(first_line(rt) == last_line(rt));
        assert(last_line(s).len() == last_line(lt).len() + last_line(rt).len());
    } else {
        assert(lines(s).last() == lr.last());
    }
    let la_len = la.len() as int;
    assert forall|k: int| 1 <= k < lines(s).len() implies indented_at_least(
        #[trigger] lines(s)[k],
        bi,
    ) by {
        if k < la_len - 1 {
            assert(lines(s)[k] == la.drop_last()[k]);
            assert(la.drop_last()[k] == la[k]);
            assert(indented_at_least(lines(lt)[k], bi));
        } else if k == la_len - 1 {
            assert(lines(s)[k] == joined);
            assert(indented_at_least(lines(lt)[k], bi));
            assert(la[k] == last_line(lt));
            assert forall|j: int| 0 <= j < bi implies joined[j] == ' ' by {
                assert(joined[j] == last_line(lt)[j]);
            }
        } else {
            assert(lines(s)[k] == lr.drop_first()[k - la_len]);
            assert(lr.drop_first()[k - la_len] == lr[k - la_len + 1]);
            assert(indented_at_least(lines(rt)[k - la_len + 1], bi));
        }
    }
}

/// The node's own text does not begin with a space: its atom, header or
/// head starts with visible content. A chain's head must be non-empty, since
/// an empty head would put the separating space first.
pub open spec fn head_unindented(n: Node) -> bool
    decreases n,
{
    match n {
        Node::Atom(t) => t@.len() > 0 ==> t@[0] != ' ',
        Node::Block { header, .. } => header@.len() > 0 ==> header@[0] != ' ',
        Node::Chain { first, .. } => first@.len() > 0 && first@[0] != ' ',
        Node::Concat(left, right) => head_unindented(*left) && head_unindented(*right),
    }
}

/// The first line of a successful rendering carries no indentation beyond
/// the node's own content: when that content does not start with a space,
/// the first produced line does not either — the caller's offset is never
/// duplicated at the start of the produced text.
pub proof fn lemma_first_line_no_indent(n: Node, c: ContextView, w: nat, o: nat)
    requires
        node_wf(n),
        head_unindented(n),
    ensures
        match node_layout(n, c, w, o) {
            Some(t) => first_line(t).len() > 0 ==> first_line(t)[0] != ' ',
            None => true,
        },
    decreases n,
{
    if node_layout(n, c, w, o) is Some {
        let t = node_layout(n, c, w, o)->Some_0;
        match n {
            Node::Atom(a) => {
                if a@.len() > 0 {
                    lemma_first_line_head(t);
                }
            },
            Node::Block { header, .. } => {
                if header@.len() > 0 {
                    assert(t[0] == header@[0]);
                    lemma_first_line_head(t);
                } else {
                    assert(t[0] == '\n');
                    assert(first_line(t).len() == 0);
                }
            },
            Node::Chain { first, .. } => {
                assert(t[0] == first@[0]);
                lemma_first_line_head(t);
            },
            Node::Concat(left, right) => {
                let lt = node_layout(*left, c, w, o)->Some_0;
                let used = last_line(lt).len();
                let ro: nat = if lines(lt).len() == 1 {
                    o + used
                } else {
                    used
                };
                lemma_first_line_no_indent(*left, c, w, o);
                lemma_first_line_no_indent(*right, c, (w - used) as nat, ro);
                let rt = node_layout(*right, c, (w - used) as nat, ro)->Some_0;
                assert(t == lt + rt);
                if lt.len() == 0 {
                    assert(t =~= rt);
                } else if lt[0] == '\n' {
                    assert(t[0] == '\n');
                    assert(first_line(t).len() == 0);
                } else {
                    assert(t[0] == lt[0]);
                    lemma_first_line_head(lt);
                    lemma_first_line_head(t);
                }
            },
        }
    }
}

impl Node {
    /// Renders this node: the executable computation of `node_layout`,
    /// including the chain's retry of its continuation on an overflow line
    /// after a failed same-line attempt.
    fn rewrite_node(&self, context: &RewriteContext<'_>, width: usize, offset: usize) -> (r:
        Option<String>)
        requires
            node_wf(*self),
        ensures
            match r {
                Some(s) => node_layout(*self, context@, width as nat, offset as nat) == Some(s@)
                    && last_line(s@).len() <= width && interior_indented(
                    s@,
                    context@.block_indent,
                ),
                None => node_layout(*self, context@, width as nat, offset as nat) is None,
            },
        decreases *self,
    {
        match self {
            Node::Atom(t) => {
                if t.as_str().unicode_len() <= width {
                    proof {
                        lemma_lines_single(t@);
                    }
                    Some(t.clone())
                } else {
                    None
                }
            },
            Node::Block { header, body, footer } => {
                if context.block_indent > usize::MAX - context.config.indent_unit {
                    return None;
                }
                let child = context.nested_context();
                let ci = child.block_indent;
                let bw = if context.config.max_width >= ci {
                    context.config.max_width - ci
                } else {
                    0
                };
                match body.rewrite_node(&child, bw, ci) {
                    None => None,
                    Some(bt) => {
                        let flen = footer.as_str().unicode_len();
                        if context.block_indent <= width && flen <= width - context.block_indent {
                            let mut s = header.clone();
                            s.append("\n");
                            let ind_c = make_spaces(ci);
                            s.append(ind_c.as_str());
                            s.append(bt.as_str());
                            s.append("\n");
                            let ind_b = make_spaces(context.block_indent);
                            s.append(ind_b.as_str());
                            s.append(footer.as_str());
                            proof {
                                reveal_strlit("\n");
                                assert("\n"@ =~= seq!['\n']);
                                assert(s@ =~= block_text(
                                    header@,
                                    bt@,
                                    footer@,
                                    context@.block_indent,
                                    ci as nat,
                                ));
                                lemma_block_text_props(
                                    header@,
                                    bt@,
                                    footer@,
                                    context@.block_indent,
                                    ci as nat,
                                    width as nat,
                                );
                            }
                            Some(s)
                        } else {
                            None
                        }
                    },
                }
            },
            Node::Chain { first, rest } => {
                let flen = first.as_str().unicode_len();
                let single = if flen < width && offset <= usize::MAX - flen - 1 {
                    rest.rewrite_node(context, width - flen - 1, offset + flen + 1)
                } else {
                    None
                };
                match single {
                    Some(rt) => {
                        let mut s = first.clone();
                        s.append(" ");
                        s.append(rt.as_str());
                        proof {
                            reveal_strlit(" ");
                            assert(" "@ =~= seq![' ']);
                            assert(s@ =~= chain_single_text(first@, rt@));
                            lemma_chain_single_props(
                                first@,
                                rt@,
                                context@.block_indent,
                                width as nat,
                            );
                        }
                        Some(s)
                    },
                    None => {
                        if context.block_indent > usize::MAX - context.config.indent_unit {
                            return None;
                        }
                        let child = context.overflow_context(context.config.indent_unit);
                        let ci = context.block_indent + context.config.indent_unit;
                        if ci <= width {
                            match rest.rewrite_node(&child, width - ci, ci) {
                                Some(rt) => {
                                    let mut s = first.clone();
                                    s.append("\n");
                                    let ind = make_spaces(ci);
                                    s.append(ind.as_str());
                                    s.append(rt.as_str());
                                    proof {
                                        reveal_strlit("\n");
                                        assert("\n"@ =~= seq!['\n']);
                                        assert(s@ =~= chain_multi_text(first@, rt@, ci as nat));
                                        lemma_chain_multi_props(
                                            first@,
                                            rt@,
                                            context@.block_indent,
                                            ci as nat,
                                            width as nat,
                                        );
                                    }
                                    Some(s)
                                },
                                None => None,
                            }
                        } else {
                            None
                        }
                    },
                }
            },
            Node::Concat(left, right) => {
                match left.rewrite_node(context, width, offset) {
                    None => None,
                    Some(mut lt) => {
                        let ghost ltv = lt@;
                        let used = last_line_len(lt.as_str());
                        let total = lt.as_str().unicode_len();
                        proof {
                            lemma_lines_nonempty(ltv);
                            lemma_lines_len_one(ltv);
                            lemma_last_line_shorter(ltv);
                        }
                        let ro = if used == total {
                            if offset > usize::MAX - used {
                                return None;
                            }
                            offset + used
                        } else {
                            used
                        };
                        match right.rewrite_node(context, width - used, ro) {
                            Some(rt) => {
                                lt.append(rt.as_str());
                                proof {
                                    lemma_concat_text_props(
                                        ltv,
                                        rt@,
                                        context@.block_indent,
                                        width as nat,
                                    );
                                }
                                Some(lt)
                            },
                            None => None,
                        }
                    },
                }
            },
        }
    }
}

impl Rewrite for Node {
    /// Every atomic piece of text of the node is a single line.
    open spec fn wf(&self) -> bool {
        node_wf(*self)
    }

    open spec fn layout(&self, c: ContextView, width: nat, offset: nat) -> Option<Seq<char>> {
        node_layout(*self, c, width, offset)
    }

    fn rewrite(&self, context: &RewriteContext<'_>, width: usize, offset: usize) -> (r: Option<
        String,
    >) {
        self.rewrite_node(context, width, offset)
    }
}

} // verus!
