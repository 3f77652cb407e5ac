use rewrite::config::Config;
use rewrite::node::Node;
use rewrite::rewrite::{render_root, Rewrite, RewriteContext};
use rewrite::source::CodeMap;
use rewrite::text::last_line_len;

fn root_context<'a>(cm: &'a CodeMap, cfg: &'a Config) -> RewriteContext<'a> {
    RewriteContext { codemap: cm, config: cfg, block_indent: 0, overflow_indent: 0 }
}

fn last_line(s: &str) -> &str {
    s.rsplit('\n').next().unwrap()
}

#[test]
fn atom_fits_its_width() {
    let cm = CodeMap::new(String::from(""));
    let cfg = Config { indent_unit: 4, max_width: 100 };
    let ctx = root_context(&cm, &cfg);
    let n = Node::Atom(String::from("hello"));
    assert_eq!(n.rewrite(&ctx, 5, 0), Some(String::from("hello")));
    assert_eq!(n.rewrite(&ctx, 4, 0), None);
}

#[test]
fn empty_atom_needs_no_width() {
    let cm = CodeMap::new(String::from(""));
    let cfg = Config { indent_unit: 4, max_width: 100 };
    let ctx = root_context(&cm, &cfg);
    let n = Node::Atom(String::from(""));
    assert_eq!(n.rewrite(&ctx, 0, 0), Some(String::from("")));
}

#[test]
fn atom_width_counts_characters_not_bytes() {
    let cm = CodeMap::new(String::from(""));
    let cfg = Config { indent_unit: 4, max_width: 100 };
    let ctx = root_context(&cm, &cfg);
    let n = Node::Atom(String::from("héllo"));
    assert_eq!(n.rewrite(&ctx, 5, 0), Some(String::from("héllo")));
}

#[test]
fn rewrite_is_deterministic() {
    let cm = CodeMap::new(String::from(""));
    let cfg = Config { indent_unit: 4, max_width: 30 };
    let ctx = root_context(&cm, &cfg);
    let n = Node::Chain {
        first: String::from("let foo ="),
        rest: Box::new(Node::Atom(String::from("bar()"))),
    };
    assert_eq!(n.rewrite(&ctx, 12, 0), n.rewrite(&ctx, 12, 0));
    assert_eq!(n.rewrite(&ctx, 20, 0), n.rewrite(&ctx, 20, 0));
    let narrow = Node::Atom(String::from("0123456789012345678901234567890123456789"));
    assert_eq!(narrow.rewrite(&ctx, 10, 0), None);
    assert_eq!(narrow.rewrite(&ctx, 10, 0), None);
}

#[test]
fn chain_stays_on_one_line_when_it_fits() {
    let cm = CodeMap::new(String::from(""));
    let cfg = Config { indent_unit: 4, max_width: 30 };
    let ctx = root_context(&cm, &cfg);
    let n = Node::Chain {
        first: String::from("let foo ="),
        rest: Box::new(Node::Atom(String::from("bar()"))),
    };
    assert_eq!(n.rewrite(&ctx, 20, 0), Some(String::from("let foo = bar()")));
}

#[test]
fn chain_overflows_when_one_line_does_not_fit() {
    let cm = CodeMap::new(String::from(""));
    let cfg = Config { indent_unit: 4, max_width: 30 };
    let ctx = root_context(&cm, &cfg);
    let n = Node::Chain {
        first: String::from("let foo ="),
        rest: Box::new(Node::Atom(String::from("bar()"))),
    };
    assert_eq!(n.rewrite(&ctx, 12, 0), Some(String::from("let foo =\n    bar()")));
}

#[test]
fn infeasible_width_yields_no_result() {
    let cm = CodeMap::new(String::from(""));
    let cfg = Config { indent_unit: 4, max_width: 100 };
    let ctx = root_context(&cm, &cfg);
    let wide = Node::Atom(String::from("0123456789012345678901234567890123456789"));
    assert_eq!(wide.rewrite(&ctx, 39, 0), None);
    assert_eq!(wide.rewrite(&ctx, 40, 0).as_deref(), Some("0123456789012345678901234567890123456789"));
    assert_eq!(wide.rewrite(&ctx, 10, 0), None);
}

#[test]
fn child_failure_propagates_through_every_retry() {
    let cm = CodeMap::new(String::from(""));
    let cfg = Config { indent_unit: 4, max_width: 100 };
    let ctx = root_context(&cm, &cfg);
    let n = Node::Chain {
        first: String::from("x ="),
        rest: Box::new(Node::Atom(String::from("0123456789012345678901234567890123456789"))),
    };
    assert_eq!(n.rewrite(&ctx, 10, 0), None);
}

#[test]
fn block_footer_must_fit_the_budget() {
    let cm = CodeMap::new(String::from(""));
    let cfg = Config { indent_unit: 4, max_width: 100 };
    let ctx = root_context(&cm, &cfg);
    let n = Node::Block {
        header: String::from("begin"),
        body: Box::new(Node::Atom(String::from("x"))),
        footer: String::from("end_of_block"),
    };
    assert!(n.rewrite(&ctx, 12, 0).is_some());
    assert_eq!(n.rewrite(&ctx, 11, 0), None);
}

#[test]
fn block_body_is_bound_by_max_width() {
    let cm = CodeMap::new(String::from(""));
    let cfg = Config { indent_unit: 4, max_width: 5 };
    let ctx = root_context(&cm, &cfg);
    let n = Node::Block {
        header: String::from("begin"),
        body: Box::new(Node::Atom(String::from("0123456789"))),
        footer: String::from("end"),
    };
    assert_eq!(n.rewrite(&ctx, 5, 0), None);
}

#[test]
fn two_level_nesting_indents_by_two_units() {
    let cm = CodeMap::new(String::from(""));
    let cfg = Config { indent_unit: 4, max_width: 30 };
    let ctx = root_context(&cm, &cfg);
    let n = Node::Block {
        header: String::from("outer {"),
        body: Box::new(Node::Block {
            header: String::from("inner {"),
            body: Box::new(Node::Atom(String::from("x"))),
            footer: String::from("}"),
        }),
        footer: String::from("}"),
    };
    let text = n.rewrite(&ctx, 30, 0).unwrap();
    assert_eq!(text, "outer {\n    inner {\n        x\n    }\n}");
    let second_level: Vec<&str> = text.lines().filter(|l| l.trim() == "x").collect();
    assert_eq!(second_level, vec!["        x"]);
    assert!(second_level[0].starts_with("        "));
    assert!(!second_level[0].starts_with("         "));
    assert!(last_line(&text).len() <= cfg.max_width);
}

#[test]
fn last_line_respects_the_width_budget() {
    let cm = CodeMap::new(String::from(""));
    let cfg = Config { indent_unit: 2, max_width: 40 };
    let ctx = root_context(&cm, &cfg);
    let n = Node::Block {
        header: String::from("loop {"),
        body: Box::new(Node::Chain {
            first: String::from("total +="),
            rest: Box::new(Node::Atom(String::from("step"))),
        }),
        footer: String::from("}"),
    };
    for width in [1usize, 3, 10, 40] {
        if let Some(text) = n.rewrite(&ctx, width, 0) {
            assert!(last_line(&text).len() <= width);
        }
    }
    assert_eq!(n.rewrite(&ctx, 0, 0), None);
}

#[test]
fn concat_continues_on_the_same_line() {
    let cm = CodeMap::new(String::from(""));
    let cfg = Config { indent_unit: 4, max_width: 100 };
    let ctx = root_context(&cm, &cfg);
    let n = Node::Concat(
        Box::new(Node::Atom(String::from("foo("))),
        Box::new(Node::Atom(String::from("bar)"))),
    );
    assert_eq!(n.rewrite(&ctx, 8, 0), Some(String::from("foo(bar)")));
    assert_eq!(n.rewrite(&ctx, 7, 0), None);
}

#[test]
fn concat_joins_after_a_multiline_left_part() {
    let cm = CodeMap::new(String::from(""));
    let cfg = Config { indent_unit: 4, max_width: 30 };
    let ctx = root_context(&cm, &cfg);
    let n = Node::Concat(
        Box::new(Node::Block {
            header: String::from("outer {"),
            body: Box::new(Node::Atom(String::from("x"))),
            footer: String::from("}"),
        }),
        Box::new(Node::Atom(String::from(";"))),
    );
    let text = n.rewrite(&ctx, 10, 0).unwrap();
    assert_eq!(text, "outer {\n    x\n};");
    assert!(last_line(&text).len() <= 10);
    assert_eq!(n.rewrite(&ctx, 1, 0), None);
}

#[test]
fn last_line_len_measures_after_the_final_newline() {
    assert_eq!(last_line_len("abc"), 3);
    assert_eq!(last_line_len("ab\ncdef"), 4);
    assert_eq!(last_line_len("ab\n"), 0);
    assert_eq!(last_line_len(""), 0);
}

#[test]
fn render_root_starts_at_zero_indent_and_max_width() {
    let cm = CodeMap::new(String::from(""));
    let cfg = Config { indent_unit: 4, max_width: 30 };
    let n = Node::Block {
        header: String::from("outer {"),
        body: Box::new(Node::Block {
            header: String::from("inner {"),
            body: Box::new(Node::Atom(String::from("x"))),
            footer: String::from("}"),
        }),
        footer: String::from("}"),
    };
    let text = render_root(&n, &cm, &cfg).unwrap();
    assert_eq!(text, "outer {\n    inner {\n        x\n    }\n}");
    assert!(last_line(&text).len() <= cfg.max_width);
    let ctx = RewriteContext::new(&cm, &cfg);
    assert_eq!(ctx.block_indent, 0);
    assert_eq!(ctx.overflow_indent, 0);
}

#[test]
fn first_line_is_never_indented() {
    let cm = CodeMap::new(String::from(""));
    let cfg = Config { indent_unit: 4, max_width: 30 };
    let ctx = root_context(&cm, &cfg);
    let deep = ctx.nested_context().nested_context();
    let n = Node::Chain {
        first: String::from("a_very_long_head ="),
        rest: Box::new(Node::Atom(String::from("f(b, c, d, e, g, h)"))),
    };
    let text = n.rewrite(&deep, 33, 8).unwrap();
    assert!(!text.starts_with(' '));
    assert_eq!(text.lines().next(), Some("a_very_long_head ="));
    assert_eq!(text, "a_very_long_head =\n            f(b, c, d, e, g, h)");
}
