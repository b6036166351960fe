use cst_snapshots::cst::{Edge, Node, RuleNode, TextRange, TokenNode};
use cst_snapshots::cursor::Cursor;
use cst_snapshots::diagnostics::{furthest_failure, ParseError};
use cst_snapshots::grammar::{Grammar, GrammarItem, InliningPolicy, ItemTag};
use cst_snapshots::snapshot::{render_preview, write_errors, write_source, write_tree, CstSnapshots};

fn token(kind: &str, text: &str) -> Node {
    Node::Token(TokenNode { kind: kind.to_string(), text: text.to_string() })
}

fn rule(kind: &str, children: Vec<Edge>) -> Node {
    Node::Rule(RuleNode { kind: kind.to_string(), children })
}

fn edge(name: Option<&str>, node: Node) -> Edge {
    Edge { name: name.map(|s| s.to_string()), node }
}

fn item(name: &str, tag: ItemTag) -> GrammarItem {
    GrammarItem { name: name.to_string(), tag }
}

fn grammar() -> Grammar {
    Grammar {
        items: vec![
            item("SourceUnit", ItemTag::Struct),
            item("SourceUnitMembers", ItemTag::Repeated),
            item("ArgumentList", ItemTag::Separated),
            item("Expression", ItemTag::Precedence),
            item("ParenthesisExpression", ItemTag::Struct),
            item("Identifier", ItemTag::Token),
            item("DecimalLiteral", ItemTag::Token),
            item("OpenParen", ItemTag::Token),
            item("CloseParen", ItemTag::Token),
        ],
    }
}

fn policy() -> InliningPolicy {
    grammar().inlining_policy()
}

fn text(w: Vec<u8>) -> String {
    String::from_utf8(w).unwrap()
}

fn small_tree() -> Node {
    rule(
        "SourceUnit",
        vec![edge(Some("Members"), rule("SourceUnitMembers", vec![edge(None, token("Identifier", "abc"))]))],
    )
}

/// `(1)` wrapped in `depth` parenthesis expressions.
fn parens(depth: usize) -> Node {
    let mut n = rule("Expression", vec![edge(Some("Variant"), token("DecimalLiteral", "1"))]);
    for _ in 0..depth {
        n = rule(
            "Expression",
            vec![edge(
                Some("Variant"),
                rule(
                    "ParenthesisExpression",
                    vec![
                        edge(Some("OpenParen"), token("OpenParen", "(")),
                        edge(Some("Operand"), n),
                        edge(Some("CloseParen"), token("CloseParen", ")")),
                    ],
                ),
            )],
        );
    }
    n
}

#[test]
fn preview_of_plain_text_is_double_quoted() {
    assert_eq!(text(render_preview("pragma solidity", &TextRange { start: 7, end: 15 })), "\"solidity\"");
}

#[test]
fn preview_escapes_line_breaks_and_tabs() {
    assert_eq!(text(render_preview("a\tb\r\nc", &TextRange { start: 0, end: 6 })), "\"a\\tb\\r\\nc\"");
}

#[test]
fn preview_with_double_quote_is_single_quoted() {
    assert_eq!(text(render_preview("it's \"x\"", &TextRange { start: 0, end: 8 })), "'it''s \"x\"'");
}

#[test]
fn preview_of_long_text_is_cut_and_marked() {
    let source = "x".repeat(60);
    let expected = format!("\"{}...\"", "x".repeat(50));
    assert_eq!(text(render_preview(&source, &TextRange { start: 0, end: 60 })), expected);
}

#[test]
fn preview_of_exactly_fifty_bytes_is_not_marked() {
    let source = "y".repeat(50);
    let expected = format!("\"{}\"", source);
    assert_eq!(text(render_preview(&source, &TextRange { start: 0, end: 50 })), expected);
}

#[test]
fn preview_past_the_source_is_empty() {
    assert_eq!(text(render_preview("abc", &TextRange { start: 10, end: 12 })), "\"\"");
}

#[test]
fn errors_empty_list_is_explicit() {
    let mut w = Vec::new();
    write_errors(&mut w, &vec![]);
    assert_eq!(text(w), "Errors: []\n");
}

#[test]
fn errors_are_counted_and_indented_line_by_line() {
    let mut w = Vec::new();
    write_errors(&mut w, &vec!["first".to_string(), "line one\r\nline two\n".to_string()]);
    assert_eq!(
        text(w),
        "Errors: # 2 total\n  - >\n    first\n  - >\n    line one\n    line two\n"
    );
}

#[test]
fn source_empty_is_explicit() {
    let mut w = Vec::new();
    write_source(&mut w, "");
    assert_eq!(text(w), "Source: \"\"\n");
}

#[test]
fn source_rows_are_padded_and_ranged() {
    let mut w = Vec::new();
    write_source(&mut w, "pragma solidity ^0.8.0;");
    let expected = format!("Source: >\n  1  │ pragma solidity ^0.8.0;{} │ 0..23\n", " ".repeat(57));
    assert_eq!(text(w), expected);
}

#[test]
fn source_rows_count_characters_and_bytes() {
    let mut w = Vec::new();
    write_source(&mut w, "a\né\n\nb");
    let expected = format!(
        "Source: >\n  1  │ a{p} │ 0..1\n  2  │ é{p} │ 2..4\n  3  │ {q} │ 5..5\n  4  │ b{p} │ 6..7\n",
        p = " ".repeat(79),
        q = " ".repeat(80)
    );
    assert_eq!(text(w), expected);
}

#[test]
fn source_width_grows_with_the_longest_line() {
    let long = "z".repeat(90);
    let source = format!("ab\n{long}");
    let mut w = Vec::new();
    write_source(&mut w, &source);
    let expected = format!(
        "Source: >\n  1  │ ab{} │ 0..2\n  2  │ {long} │ 3..93\n",
        " ".repeat(88)
    );
    assert_eq!(text(w), expected);
}

#[test]
fn source_line_numbers_past_nine_take_two_columns() {
    let source = "a\n".repeat(10);
    let mut w = Vec::new();
    write_source(&mut w, &source);
    let out = text(w);
    assert!(out.contains("\n  9  │ a"));
    assert!(out.contains("\n  10 │ a"));
    assert!(out.ends_with(" │ 18..19\n"));
}

#[test]
fn policy_blocks_only_lists() {
    let g = grammar();
    let p = g.inlining_policy();
    assert_eq!(p.never, vec!["SourceUnitMembers".to_string(), "ArgumentList".to_string()]);
    assert!(p.is_blocked(&"ArgumentList".to_string()));
    assert!(!p.is_blocked(&"ParenthesisExpression".to_string()));
}

#[test]
fn tag_lookup_by_name() {
    let g = grammar();
    assert_eq!(g.tag_of(&"Expression".to_string()), Some(ItemTag::Precedence));
    assert_eq!(g.tag_of(&"Missing".to_string()), None);
}

#[test]
fn tree_inlines_single_child_and_keeps_lists() {
    let mut w = Vec::new();
    write_tree(&mut w, &policy(), "abc", &small_tree());
    assert_eq!(
        text(w),
        "Tree:\n  - (SourceUnit) ► (members꞉ SourceUnitMembers): # \"abc\" (0..3)\n      - (Identifier): \"abc\" # (0..3)\n"
    );
}

#[test]
fn tree_marks_empty_rules() {
    let mut w = Vec::new();
    write_tree(&mut w, &policy(), "", &rule("SourceUnit", vec![]));
    assert_eq!(text(w), "Tree:\n  - (SourceUnit): [] # (0..0)\n");
}

#[test]
fn nested_parentheses_reach_a_single_literal() {
    let source = "((((1))))";
    let mut w = Vec::new();
    write_tree(&mut w, &policy(), source, &parens(4));
    let out = text(w);
    assert!(out.starts_with(
        "Tree:\n  - (Expression) ► (variant꞉ ParenthesisExpression): # \"((((1))))\" (0..9)\n"
    ));
    assert!(out.contains("(operand꞉ Expression) ► (variant꞉ DecimalLiteral): \"1\" # (4..5)\n"));
    let mut c = Cursor::new(&parens(4));
    let mut literals = Vec::new();
    loop {
        if c.node().kind == "DecimalLiteral" {
            literals.push(c.text_range());
        }
        if !c.go_to_next() {
            break;
        }
    }
    assert_eq!(literals, vec![TextRange { start: 4, end: 5 }]);
}

#[test]
fn render_joins_the_three_blocks() {
    let errors = vec!["expected ';'".to_string()];
    let out = text(CstSnapshots::render("abc", &errors, &small_tree(), &policy()));
    let expected = format!(
        "Source: >\n  1  │ abc{} │ 0..3\n\nErrors: # 1 total\n  - >\n    expected ';'\n\nTree:\n  - (SourceUnit) ► (members꞉ SourceUnitMembers): # \"abc\" (0..3)\n      - (Identifier): \"abc\" # (0..3)\n",
        " ".repeat(77)
    );
    assert_eq!(out, expected);
}

#[test]
fn rendering_twice_gives_the_same_output() {
    let tree = parens(3);
    let p = policy();
    let errors = vec!["e".to_string()];
    let first = CstSnapshots::render("(((1)))", &errors, &tree, &p);
    let second = CstSnapshots::render("(((1)))", &errors, &tree, &p);
    assert_eq!(first, second);
}

#[test]
fn cursor_walk_visits_every_node_once() {
    let tree = parens(2);
    let mut c = Cursor::new(&tree);
    // 2 levels of (Expression, ParenthesisExpression, OpenParen, CloseParen) and the inner pair.
    let nodes = 2 * 4 + 2;
    for _ in 0..nodes - 1 {
        assert!(c.go_to_next());
    }
    assert!(!c.go_to_next());
    assert_eq!(c.entries.len(), nodes);
}

#[test]
fn cursor_reports_names_ranges_and_children() {
    let mut c = Cursor::new(&small_tree());
    assert_eq!(c.node_name(), &None);
    assert_eq!(c.text_range(), TextRange { start: 0, end: 3 });
    assert_eq!(c.child_count(), 1);
    assert!(c.go_to_next());
    assert_eq!(c.node_name(), &Some("Members".to_string()));
    assert!(c.node().is_rule);
    assert!(c.go_to_next());
    assert_eq!(c.node().kind, "Identifier");
    assert_eq!(c.child_count(), 0);
    assert!(!c.go_to_next());
}

#[test]
fn token_ranges_tile_the_source() {
    let source = "((1))";
    let c = Cursor::new(&parens(2));
    let mut rebuilt = String::new();
    let mut last_end = 0;
    for e in c.entries.iter().filter(|e| !e.is_rule) {
        assert_eq!(e.range.start, last_end);
        rebuilt.push_str(&source[e.range.start..e.range.end]);
        last_end = e.range.end;
    }
    assert_eq!(rebuilt, source);
}

#[test]
fn child_ranges_cover_the_parent() {
    let c = Cursor::new(&parens(1));
    // Entries: Expression, ParenthesisExpression, OpenParen, Expression, DecimalLiteral, CloseParen.
    let r: Vec<TextRange> = c.entries.iter().map(|e| e.range).collect();
    assert_eq!(r[0], TextRange { start: 0, end: 3 });
    assert_eq!(r[1], TextRange { start: 0, end: 3 });
    assert_eq!(r[2], TextRange { start: 0, end: 1 });
    assert_eq!(r[3], TextRange { start: 1, end: 2 });
    assert_eq!(r[4], TextRange { start: 1, end: 2 });
    assert_eq!(r[5], TextRange { start: 2, end: 3 });
    assert_eq!(c.entries[1].child_count, 3);
    assert_eq!(c.entries[3].depth, 2);
}

fn failure(offset: usize, expected: &str) -> ParseError {
    ParseError { offset, expected: expected.to_string() }
}

#[test]
fn furthest_failure_prefers_the_deepest_and_then_the_first() {
    let failures = vec![failure(3, "';'"), failure(7, "identifier"), failure(2, "'('"), failure(7, "number")];
    assert_eq!(furthest_failure(&failures), Some(1));
    assert_eq!(furthest_failure(&vec![failure(0, "source unit")]), Some(0));
    assert_eq!(furthest_failure(&vec![]), None);
}

#[test]
fn empty_source_renders_an_empty_root() {
    let root = rule("SourceUnit", vec![]);
    let c = Cursor::new(&root);
    assert_eq!(c.text_range(), TextRange { start: 0, end: 0 });
    let out = text(CstSnapshots::render("", &vec![], &root, &policy()));
    assert_eq!(out, "Source: \"\"\n\nErrors: []\n\nTree:\n  - (SourceUnit): [] # (0..0)\n");
}

fn pragma_tree() -> Node {
    let pragma = rule(
        "PragmaDirective",
        vec![
            edge(Some("PragmaKeyword"), token("PragmaKeyword", "pragma ")),
            edge(
                Some("Pragma"),
                rule(
                    "VersionPragma",
                    vec![
                        edge(Some("SolidityKeyword"), token("SolidityKeyword", "solidity ")),
                        edge(
                            Some("Expressions"),
                            rule("VersionPragmaExpressions", vec![edge(None, token("VersionPragmaValue", "^0.8.0"))]),
                        ),
                    ],
                ),
            ),
            edge(Some("Semicolon"), token("Semicolon", ";")),
        ],
    );
    rule("SourceUnit", vec![edge(Some("Members"), rule("SourceUnitMembers", vec![edge(None, pragma)]))])
}

#[test]
fn pragma_version_value_has_its_exact_range() {
    let source = "pragma solidity ^0.8.0;";
    let mut c = Cursor::new(&pragma_tree());
    assert_eq!(c.text_range(), TextRange { start: 0, end: 23 });
    let mut found = None;
    loop {
        if c.node().kind == "VersionPragmaValue" {
            found = Some(c.text_range());
        }
        if !c.go_to_next() {
            break;
        }
    }
    let r = found.unwrap();
    assert_eq!(r, TextRange { start: 16, end: 22 });
    assert_eq!(&source[r.start..r.end], "^0.8.0");
}

#[test]
fn pragma_tree_renders_named_keys_in_snake_case() {
    let mut w = Vec::new();
    write_tree(&mut w, &policy(), "pragma solidity ^0.8.0;", &pragma_tree());
    let out = text(w);
    assert!(out.contains("      - (PragmaDirective): # \"pragma solidity ^0.8.0;\" (0..23)\n"));
    assert!(out.contains("          - (pragma_keyword꞉ PragmaKeyword): \"pragma \" # (0..7)\n"));
    assert!(out.contains("(expressions꞉ VersionPragmaExpressions) ► (VersionPragmaValue): \"^0.8.0\" # (16..22)\n"));
}

#[test]
fn cursor_lists_immediate_children_without_moving() {
    let mut c = Cursor::new(&parens(1));
    // Entries: Expression, ParenthesisExpression, OpenParen, Expression, DecimalLiteral, CloseParen.
    assert_eq!(c.children(), vec![1]);
    assert!(c.go_to_next());
    assert_eq!(c.children(), vec![2, 3, 5]);
    assert_eq!(c.position, 1);
    assert!(c.go_to_next());
    assert_eq!(c.children(), Vec::<usize>::new());
}

#[test]
fn source_rows_with_crlf_endings_carry_true_byte_spans() {
    let source = "a\r\nb\r\n\r\ncd";
    let mut w = Vec::new();
    write_source(&mut w, source);
    let expected = format!(
        "Source: >\n  1  │ a{p} │ 0..1\n  2  │ b{p} │ 3..4\n  3  │ {q} │ 6..6\n  4  │ cd{r} │ 8..10\n",
        p = " ".repeat(79),
        q = " ".repeat(80),
        r = " ".repeat(78)
    );
    assert_eq!(text(w), expected);
    assert_eq!(&source[3..4], "b");
    assert_eq!(&source[8..10], "cd");
}
