//! The line model of rendered text.
//!
//! Rendered output is a sequence of characters; its meaning for layout is the
//! sequence of lines obtained by splitting at every newline character. The
//! layout contract is stated over these lines: the width budget binds the last
//! line, and every line after the first must begin with the block indentation.

use vstd::prelude::*;
use vstd::string::StringExecFns;

verus! {

/// True when no character of `s` is a newline, i.e. `s` is a single line.
pub open spec fn no_newline(s: Seq<char>) -> bool {
    forall|i: int| 0 <= i < s.len() ==> s[i] != '\n'
}

/// The lines of `s`: `s` split at every `'\n'`. Always non-empty; a newline
/// separates lines, so `"a\nb"` has the two lines `"a"` and `"b"`, and an
/// empty text has the single empty line.
pub open spec fn lines(s: Seq<char>) -> Seq<Seq<char>>
    decreases s.len(),
{
    if s.len() == 0 {
        seq![s]
    } else if s[0] == '\n' {
        seq![Seq::<char>::empty()] + lines(s.drop_first())
    } else {
        let rest = lines(s.drop_first());
        seq![seq![s[0]] + rest[0]] + rest.drop_first()
    }
}

/// The last line of `s`: everything after the final newline.
pub open spec fn last_line(s: Seq<char>) -> Seq<char> {
    lines(s).last()
}

/// The first line of `s`: everything before the first newline.
pub open spec fn first_line(s: Seq<char>) -> Seq<char> {
    lines(s).first()
}

/// `n` space characters.
pub open spec fn spaces(n: nat) -> Seq<char> {
    Seq::new(n, |i: int| ' ')
}

/// The line `l` begins with at least `n` columns of space indentation.
pub open spec fn indented_at_least(l: Seq<char>, n: nat) -> bool {
    n <= l.len() && forall|j: int| 0 <= j < n ==> l[j] == ' '
}

/// Every line of `s` after the first begins with at least `n` spaces.
pub open spec fn interior_indented(s: Seq<char>, n: nat) -> bool {
    forall|k: int| 1 <= k < lines(s).len() ==> indented_at_least(#[trigger] lines(s)[k], n)
}

/// Splitting produces at least one line.
pub proof fn lemma_lines_nonempty(s: Seq<char>)
    ensures
        lines(s).len() >= 1,
    decreases s.len(),
{
    if s.len() == 0 {
    } else if s[0] == '\n' {
        lemma_lines_nonempty(s.drop_first());
    } else {
        lemma_lines_nonempty(s.drop_first());
    }
}

/// A text without newlines is its own single line.
pub proof fn lemma_lines_single(s: Seq<char>)
    requires
        no_newline(s),
    ensures
        lines(s) == seq![s],
    decreases s.len(),
{
    if s.len() == 0 {
    } else {
        lemma_lines_single(s.drop_first());
        assert(lines(s.drop_first()) == seq![s.drop_first()]);
        assert(seq![s.drop_first()].drop_first() =~= Seq::<Seq<char>>::empty());
        assert(seq![s[0]] + s.drop_first() =~= s);
        assert(lines(s) =~= seq![s]);
    }
}

/// A newline joins two texts line-wise: the lines of `a + '\n' + b` are the
/// lines of `a` followed by the lines of `b`.
pub proof fn lemma_lines_split(a: Seq<char>, b: Seq<char>)
    ensures
        lines(a + seq!['\n'] + b) == lines(a) + lines(b),
    decreases a.len(),
{
    let s = a + seq!['\n'] + b;
    if a.len() == 0 {
        assert(s[0] == '\n');
        assert(s.drop_first() =~= b);
        assert(lines(a) =~= seq![a]);
        assert(a =~= Seq::<char>::empty());
        assert(lines(s) =~= seq![Seq::<char>::empty()] + lines(b));
        assert(lines(s) =~= lines(a) + lines(b));
    } else if a[0] == '\n' {
        assert(s[0] == '\n');
        assert(s.drop_first() =~= a.drop_first() + seq!['\n'] + b);
        lemma_lines_split(a.drop_first(), b);
        lemma_lines_nonempty(a.drop_first());
        assert(lines(s) =~= seq![Seq::<char>::empty()] + (lines(a.drop_first()) + lines(b)));
        assert(lines(a) =~= seq![Seq::<char>::empty()] + lines(a.drop_first()));
        assert(lines(s) =~= lines(a) + lines(b));
    } else {
        assert(s[0] == a[0]);
        assert(s.len() > 0);
        assert(s.drop_first() =~= a.drop_first() + seq!['\n'] + b);
        lemma_lines_split(a.drop_first(), b);
        lemma_lines_nonempty(a.drop_first());
        lemma_lines_nonempty(b);
        let rest = lines(a.drop_first()) + lines(b);
        assert(lines(s) =~= seq![seq![s[0]] + rest[0]] + rest.drop_first());
        assert(rest[0] == lines(a.drop_first())[0]);
        assert(rest.drop_first() =~= lines(a.drop_first()).drop_first() + lines(b));
        let arest = lines(a.drop_first());
        assert(lines(a) =~= seq![seq![a[0]] + arest[0]] + arest.drop_first());
        assert(lines(s) =~= lines(a) + lines(b));
    }
}

/// Prepending a single-line text extends the first line and leaves the other
/// lines as they are.
pub proof fn lemma_lines_prepend(a: Seq<char>, b: Seq<char>)
    requires
        no_newline(a),
    ensures
        lines(a + b) == seq![a + lines(b).first()] + lines(b).drop_first(),
    decreases a.len(),
{
    lemma_lines_nonempty(b);
    if a.len() == 0 {
        assert(a + b =~= b);
        assert(a + lines(b).first() =~= lines(b).first());
        assert(seq![lines(b).first()] + lines(b).drop_first() =~= lines(b));
    } else {
        let s = a + b;
        assert(s[0] == a[0]);
        assert(s[0] != '\n');
        assert(s.drop_first() =~= a.drop_first() + b);
        lemma_lines_prepend(a.drop_first(), b);
        let rest = lines(a.drop_first() + b);
        assert(rest[0] == a.drop_first() + lines(b).first());
        assert(rest.drop_first() =~= lines(b).drop_first());
        assert(seq![s[0]] + rest[0] =~= a + lines(b).first());
        assert(lines(s) =~= seq![a + lines(b).first()] + lines(b).drop_first());
    }
}

/// Concatenation joins the last line of the left text to the first line of
/// the right one and leaves every other line as it is.
pub proof fn lemma_lines_concat(a: Seq<char>, b: Seq<char>)
    ensures
        lines(a + b) == lines(a).drop_last() + seq![last_line(a) + first_line(b)] + lines(
            b,
        ).drop_first(),
    decreases a.len(),
{
    lemma_lines_nonempty(a);
    lemma_lines_nonempty(b);
    if a.len() == 0 {
        assert(a + b =~= b);
        assert(lines(a) =~= seq![a]);
        assert(last_line(a) + first_line(b) =~= first_line(b));
        assert(lines(a).drop_last() =~= Seq::<Seq<char>>::empty());
        assert(seq![first_line(b)] + lines(b).drop_first() =~= lines(b));
        assert(lines(a).drop_last() + seq![last_line(a) + first_line(b)] + lines(b).drop_first()
            =~= lines(b));
    } else if a[0] == '\n' {
        assert((a + b)[0] == '\n');
        assert((a + b).drop_first() =~= a.drop_first() + b);
        lemma_lines_concat(a.drop_first(), b);
        lemma_lines_nonempty(a.drop_first());
        let la = lines(a.drop_first());
        assert(lines(a) =~= seq![Seq::<char>::empty()] + la);
        assert(lines(a).drop_last() =~= seq![Seq::<char>::empty()] + la.drop_last());
        assert(last_line(a) == la.last());
        assert(lines(a + b) =~= seq![Seq::<char>::empty()] + (la.drop_last() + seq![la.last()
            + first_line(b)] + lines(b).drop_first()));
        assert(lines(a + b) =~= lines(a).drop_last() + seq![last_line(a) + first_line(b)] + lines(
            b,
        ).drop_first());
    } else {
        assert((a + b)[0] == a[0]);
        assert((a + b).drop_first() =~= a.drop_first() + b);
        lemma_lines_concat(a.drop_first(), b);
        lemma_lines_nonempty(a.drop_first());
        let la = lines(a.drop_first());
        let r = lines(a.drop_first() + b);
        assert(r == la.drop_last() + seq![la.last() + first_line(b)] + lines(b).drop_first());
        assert(lines(a) =~= seq![seq![a[0]] + la.first()] + la.drop_first());
        assert(lines(a + b) =~= seq![seq![a[0]] + r.first()] + r.drop_first());
        if la.len() == 1 {
            assert(r.first() == la.last() + first_line(b));
            assert(seq![a[0]] + r.first() =~= (seq![a[0]] + la.first()) + first_line(b));
            assert(last_line(a) == seq![a[0]] + la.first());
            assert(lines(a).drop_last() =~= Seq::<Seq<char>>::empty());
            assert(r.drop_first() =~= lines(b).drop_first());
            assert(lines(a + b) =~= lines(a).drop_last() + seq![last_line(a) + first_line(b)]
                + lines(b).drop_first());
        } else {
            assert(r.first() == la.drop_last().first());
            assert(la.drop_last().first() == la.first());
            assert(r.drop_first() =~= la.drop_last().drop_first() + seq![la.last() + first_line(b)]
                + lines(b).drop_first());
            assert(la.drop_last().drop_first() =~= la.drop_first().drop_last());
            assert(last_line(a) == la.last());
            assert(lines(a).drop_last() =~= seq![seq![a[0]] + la.first()]
                + la.drop_first().drop_last());
            assert(lines(a + b) =~= lines(a).drop_last() + seq![last_line(a) + first_line(b)]
                + lines(b).drop_first());
        }
    }
}

/// A text whose lines are one line is that line.
pub proof fn lemma_lines_len_one(s: Seq<char>)
    ensures
        lines(s).len() == 1 ==> lines(s)[0] == s,
    decreases s.len(),
{
    if s.len() == 0 {
    } else if s[0] == '\n' {
        lemma_lines_nonempty(s.drop_first());
    } else {
        lemma_lines_nonempty(s.drop_first());
        if lines(s).len() == 1 {
            lemma_lines_len_one(s.drop_first());
            assert(lines(s.drop_first()).len() == 1);
            assert(seq![s[0]] + s.drop_first() =~= s);
        }
    }
}

/// A text of several lines is strictly longer than its last line.
pub proof fn lemma_last_line_shorter(s: Seq<char>)
    ensures
        lines(s).len() >= 2 ==> last_line(s).len() < s.len(),
    decreases s.len(),
{
    if s.len() == 0 {
    } else if s[0] == '\n' {
        let t = s.drop_first();
        lemma_lines_nonempty(t);
        lemma_last_line_shorter(t);
        assert(last_line(s) == lines(t).last());
        if lines(t).len() == 1 {
            lemma_lines_len_one(t);
            assert(last_line(s) == t);
        }
    } else {
        let t = s.drop_first();
        lemma_lines_nonempty(t);
        lemma_last_line_shorter(t);
        if lines(s).len() >= 2 {
            assert(lines(t).len() >= 2);
            assert(last_line(s) == lines(t).last());
        }
    }
}

/// Two single-line texts concatenate to a single line.
pub proof fn lemma_no_newline_concat(a: Seq<char>, b: Seq<char>)
    requires
        no_newline(a),
        no_newline(b),
    ensures
        no_newline(a + b),
{
    assert forall|i: int| 0 <= i < (a + b).len() implies (a + b)[i] != '\n' by {
        if i < a.len() {
            assert((a + b)[i] == a[i]);
        } else {
            assert((a + b)[i] == b[i - a.len()]);
        }
    }
}

/// The last line of `a + '\n' + b` is the last line of `b`.
pub proof fn lemma_last_line_split(a: Seq<char>, b: Seq<char>)
    ensures
        last_line(a + seq!['\n'] + b) == last_line(b),
{
    lemma_lines_split(a, b);
    lemma_lines_nonempty(a);
    lemma_lines_nonempty(b);
    assert((lines(a) + lines(b)).last() == lines(b).last());
}

/// A text without newlines is its own last line.
pub proof fn lemma_last_line_single(s: Seq<char>)
    requires
        no_newline(s),
    ensures
        last_line(s) == s,
{
    lemma_lines_single(s);
}

/// A text that starts with an ordinary character starts its first line
/// with that same character.
pub proof fn lemma_first_line_head(s: Seq<char>)
    requires
        s.len() > 0,
        s[0] != '\n',
    ensures
        first_line(s).len() > 0,
        first_line(s)[0] == s[0],
{
    lemma_lines_nonempty(s.drop_first());
}

/// Appending one character extends the last line, or starts a fresh empty
/// one when the character is a newline.
pub proof fn lemma_last_line_step(t: Seq<char>, c: char)
    ensures
        last_line(t + seq![c]) == if c == '\n' {
            Seq::<char>::empty()
        } else {
            last_line(t) + seq![c]
        },
{
    if c == '\n' {
        assert(t + seq![c] =~= t + seq!['\n'] + Seq::<char>::empty());
        lemma_last_line_split(t, Seq::<char>::empty());
    } else {
        lemma_lines_concat(t, seq![c]);
        lemma_lines_nonempty(t);
        assert(no_newline(seq![c]));
        lemma_lines_single(seq![c]);
        assert(first_line(seq![c]) == seq![c]);
        assert(lines(seq![c]).drop_first() =~= Seq::<Seq<char>>::empty());
        assert(lines(t + seq![c]) =~= lines(t).drop_last() + seq![last_line(t) + seq![c]]);
    }
}

/// The length, in characters, of the last line of `s`: what a rendering
/// that continues on the caller's line has already consumed of it.
pub fn last_line_len(s: &str) -> (n: usize)
    ensures
        n as nat == last_line(s@).len(),
{
    let len = s.unicode_len();
    let mut last_start: usize = 0;
    let mut i: usize = 0;
    proof {
        assert(s@.take(0) =~= Seq::<char>::empty());
        assert(s@.subrange(0, 0) =~= Seq::<char>::empty());
    }
    while i < len
        invariant
            i <= len,
            len as nat == s@.len(),
            last_start <= i,
            last_line(s@.take(i as int)) == s@.subrange(last_start as int, i as int),
        decreases len - i,
    {
        let c = s.get_char(i);
        proof {
            assert(s@.take(i + 1) =~= s@.take(i as int) + seq![s@[i as int]]);
            lemma_last_line_step(s@.take(i as int), s@[i as int]);
        }
        if c == '\n' {
            last_start = i + 1;
        }
        i = i + 1;
        proof {
            assert(last_line(s@.take(i as int)) =~= s@.subrange(last_start as int, i as int));
        }
    }
    proof {
        assert(s@.take(len as int) =~= s@);
    }
    len - last_start
}

/// Spaces hold no newline.
pub proof fn lemma_spaces_no_newline(n: nat)
    ensures
        no_newline(spaces(n)),
{
}

/// A line that starts with `m` spaces is indented by at least any `n <= m`.
pub proof fn lemma_indent_prefix(x: Seq<char>, m: nat, n: nat)
    requires
        n <= m,
    ensures
        indented_at_least(spaces(m) + x, n),
{
    assert forall|j: int| 0 <= j < n implies (spaces(m) + x)[j] == ' ' by {
        assert((spaces(m) + x)[j] == spaces(m)[j]);
    }
}

/// An indentation string: `n` spaces.
pub fn make_spaces(n: usize) -> (s: String)
    ensures
        s@ == spaces(n as nat),
{
    let mut s = String::new();
    let mut i: usize = 0;
    proof {
        assert(s@ =~= spaces(0));
    }
    while i < n
        invariant
            i <= n,
            s@ == spaces(i as nat),
        decreases n - i,
    {
        s.append(" ");
        i = i + 1;
        proof {
            reveal_strlit(" ");
            assert(s@ =~= spaces(i as nat));
        }
    }
    s
}

} // verus!
