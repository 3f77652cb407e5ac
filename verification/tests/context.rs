use rewrite::config::Config;
use rewrite::source::{CodeMap, Span};
use rewrite::rewrite::RewriteContext;
use rewrite::text::make_spaces;

fn demo_config() -> Config {
    Config { indent_unit: 4, max_width: 100 }
}

#[test]
fn nested_indent_grows_by_one_unit() {
    let cm = CodeMap::new(String::from(""));
    let cfg = demo_config();
    let ctx = RewriteContext { codemap: &cm, config: &cfg, block_indent: 6, overflow_indent: 2 };
    let inner = ctx.nested_context();
    assert_eq!(inner.block_indent, 10);
    assert_eq!(inner.overflow_indent, 2);
}

#[test]
fn nested_twice_grows_by_two_units() {
    let cm = CodeMap::new(String::from(""));
    let cfg = demo_config();
    let ctx = RewriteContext { codemap: &cm, config: &cfg, block_indent: 0, overflow_indent: 0 };
    let deeper = ctx.nested_context().nested_context();
    assert_eq!(deeper.block_indent, 8);
}

#[test]
fn overflow_keeps_block_indent() {
    let cm = CodeMap::new(String::from(""));
    let cfg = demo_config();
    let ctx = RewriteContext { codemap: &cm, config: &cfg, block_indent: 5, overflow_indent: 1 };
    let over = ctx.overflow_context(7);
    assert_eq!(over.block_indent, 5);
    assert_eq!(over.overflow_indent, 7);
}

#[test]
fn derivation_leaves_parent_unchanged() {
    let cm = CodeMap::new(String::from("source"));
    let cfg = demo_config();
    let ctx = RewriteContext { codemap: &cm, config: &cfg, block_indent: 3, overflow_indent: 9 };
    let before = (ctx.block_indent, ctx.overflow_indent, *ctx.config);
    let _nested = ctx.nested_context();
    let _over = ctx.overflow_context(11);
    assert_eq!(ctx.block_indent, before.0);
    assert_eq!(ctx.overflow_indent, before.1);
    assert_eq!(*ctx.config, before.2);
    assert_eq!(ctx.codemap.text, "source");
}

#[test]
fn snippet_returns_exact_span_text() {
    let cm = CodeMap::new(String::from("fn main() { body }"));
    let cfg = demo_config();
    let ctx = RewriteContext { codemap: &cm, config: &cfg, block_indent: 0, overflow_indent: 0 };
    let snip = ctx.snippet(Span { lo: 3, hi: 9 });
    assert_eq!(snip, "main()");
}

#[test]
fn snippet_of_empty_span_is_empty() {
    let cm = CodeMap::new(String::from("abc"));
    let cfg = demo_config();
    let ctx = RewriteContext { codemap: &cm, config: &cfg, block_indent: 0, overflow_indent: 0 };
    assert_eq!(ctx.snippet(Span { lo: 2, hi: 2 }), "");
}

#[test]
fn snippet_counts_characters_not_bytes() {
    let cm = CodeMap::new(String::from("aßc"));
    let cfg = demo_config();
    let ctx = RewriteContext { codemap: &cm, config: &cfg, block_indent: 0, overflow_indent: 0 };
    assert_eq!(ctx.snippet(Span { lo: 1, hi: 2 }), "ß");
}

#[test]
fn contains_span_tells_valid_from_invalid() {
    let cm = CodeMap::new(String::from("0123456789"));
    assert!(cm.contains_span(Span { lo: 0, hi: 10 }));
    assert!(cm.contains_span(Span { lo: 4, hi: 4 }));
    assert!(!cm.contains_span(Span { lo: 0, hi: 11 }));
    assert!(!cm.contains_span(Span { lo: 7, hi: 3 }));
}

#[test]
fn span_lookup_through_codemap() {
    let cm = CodeMap::new(String::from("let x = 1;\nlet y = 2;"));
    let span = Span { lo: 11, hi: 21 };
    assert!(cm.contains_span(span));
    assert_eq!(cm.span_to_snippet(span), "let y = 2;");
}

#[test]
fn make_spaces_builds_the_indentation() {
    assert_eq!(make_spaces(0), "");
    assert_eq!(make_spaces(1), " ");
    assert_eq!(make_spaces(8), "        ");
}
