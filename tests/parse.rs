use rsmd::scan::text_of;
use rsmd::{create_token_map, triggers, Node, Parser, TokenKind};

fn parse(s: &str) -> Vec<Node> {
    let mut p = Parser::new(s.to_string());
    p.parse()
}

fn text(s: &str) -> Node {
    Node::String(s.to_string())
}

#[test]
fn empty_input_gives_empty_tree() {
    assert!(parse("").is_empty());
}

#[test]
fn parse_moves_cursor_to_end() {
    let mut p = Parser::new("# a\n*b* [c](d\n> e".to_string());
    let _ = p.parse();
    assert_eq!(p.pos, p.input.len());
    assert_eq!(p.peek_next(), None);
}

#[test]
fn plain_text_is_one_string_node() {
    assert_eq!(
        parse("hello world, plain text."),
        vec![Node::Paragraph(vec![text("hello world, plain text.")])]
    );
}

#[test]
fn leaf_text_is_no_longer_than_input() {
    let input = "**ab** and [l](u) `c`";
    let nodes = parse(input);
    let mut total = 0usize;
    if let Node::Paragraph(children) = &nodes[0] {
        for c in children {
            total += match c {
                Node::Strong(t) | Node::String(t) | Node::CodeInline(t) => t.chars().count(),
                Node::Link(a, b) => a.chars().count() + b.chars().count(),
                _ => panic!("unexpected node {:?}", c),
            };
        }
    } else {
        panic!("expected a paragraph");
    }
    assert_eq!(total, 11);
    assert!(total <= input.chars().count());
}

#[test]
fn strong_inside_blockquote() {
    assert_eq!(
        parse("> **bold inside quote**"),
        vec![Node::Blockquote(vec![Node::Strong("bold inside quote".to_string())])]
    );
}

#[test]
fn symmetric_markers() {
    assert_eq!(parse("**abc**"), vec![Node::Paragraph(vec![Node::Strong("abc".to_string())])]);
    assert_eq!(parse("*abc*"), vec![Node::Paragraph(vec![Node::Emphasis("abc".to_string())])]);
    assert_eq!(
        parse("~~abc~~"),
        vec![Node::Paragraph(vec![Node::Strikethrough("abc".to_string())])]
    );
    assert_eq!(
        parse("--abc--"),
        vec![Node::Paragraph(vec![Node::Strikethrough("abc".to_string())])]
    );
    assert_eq!(parse("__abc__"), vec![Node::Paragraph(vec![Node::Strong("abc".to_string())])]);
    assert_eq!(parse("_abc_"), vec![Node::Paragraph(vec![Node::Emphasis("abc".to_string())])]);
}

#[test]
fn link_and_image() {
    assert_eq!(
        parse("[Google](https://x.com/)"),
        vec![Node::Paragraph(vec![Node::Link("Google".to_string(), "https://x.com/".to_string())])]
    );
    assert_eq!(
        parse("![alt](http://y)"),
        vec![Node::Paragraph(vec![Node::Image("alt".to_string(), "http://y".to_string())])]
    );
}

#[test]
fn unclosed_link_is_plain_text() {
    assert_eq!(parse("[unclosed"), vec![Node::Paragraph(vec![text("[unclosed")])]);
    assert_eq!(parse("![no](end"), vec![Node::Paragraph(vec![text("![no](end")])]);
}

#[test]
fn fenced_code_with_language() {
    assert_eq!(
        parse("```rust\nfn f(){}\n```"),
        vec![Node::CodeBlock("fn f(){}\n".to_string(), Some("rust".to_string()))]
    );
}

#[test]
fn fenced_code_without_language() {
    assert_eq!(parse("```\nx\n```"), vec![Node::CodeBlock("x\n".to_string(), None)]);
}

#[test]
fn unclosed_fence_runs_to_end() {
    assert_eq!(parse("```sh\nls *"), vec![Node::CodeBlock("ls *".to_string(), Some("sh".to_string()))]);
}

#[test]
fn unordered_list_items() {
    assert_eq!(
        parse("- one\n- *two*"),
        vec![Node::UnorderedList(vec![
            vec![text("one")],
            vec![Node::Emphasis("two".to_string())],
        ])]
    );
}

#[test]
fn ordered_list_items() {
    assert_eq!(
        parse("1. first\n2) second\n\nafter"),
        vec![
            Node::OrderedList(vec![vec![text("first")], vec![text("second")]]),
            Node::Paragraph(vec![text("after")]),
        ]
    );
}

#[test]
fn indented_line_continues_list() {
    assert_eq!(
        parse("- a\n   b\n\tc\nd"),
        vec![
            Node::UnorderedList(vec![vec![text("a")], vec![text("b")], vec![text("c")]]),
            Node::Paragraph(vec![text("d")]),
        ]
    );
}

#[test]
fn heading_levels() {
    assert_eq!(parse("## Title"), vec![Node::Heading(vec![text("Title")], 2)]);
    assert_eq!(
        parse("# a *b*\nnext"),
        vec![
            Node::Heading(vec![text("a "), Node::Emphasis("b".to_string())], 1),
            Node::Paragraph(vec![text("next")]),
        ]
    );
    let many = "#".repeat(300) + "x";
    assert_eq!(parse(&many), vec![Node::Heading(vec![text("x")], 255)]);
}

#[test]
fn paragraph_folds_newlines_and_ends_at_blank_line() {
    assert_eq!(
        parse("a\nb\n\n\nc\n"),
        vec![Node::Paragraph(vec![text("a b")]), Node::Paragraph(vec![text("c")])]
    );
}

#[test]
fn unclosed_spans_degrade() {
    assert_eq!(parse("**abc"), vec![Node::Paragraph(vec![Node::Strong("abc".to_string())])]);
    assert_eq!(parse("x *abc"), vec![Node::Paragraph(vec![text("x "), Node::Emphasis("abc".to_string())])]);
    assert_eq!(parse("`abc"), vec![Node::Paragraph(vec![Node::CodeInline("abc".to_string())])]);
}

#[test]
fn lone_marker_stays_text() {
    assert_eq!(parse("a * b"), vec![Node::Paragraph(vec![text("a * b")])]);
}

#[test]
fn inline_code_is_verbatim() {
    assert_eq!(
        parse("say `x*y_z` now"),
        vec![Node::Paragraph(vec![
            text("say "),
            Node::CodeInline("x*y_z".to_string()),
            text(" now"),
        ])]
    );
}

#[test]
fn blockquote_without_text() {
    assert_eq!(parse(">"), vec![Node::Blockquote(vec![])]);
    assert_eq!(parse(">x"), vec![Node::Paragraph(vec![text(">x")])]);
}

#[test]
fn cursor_primitives() {
    let mut p = Parser::new("ab".to_string());
    assert_eq!(p.peek(1), Some('b'));
    assert_eq!(p.peek(2), None);
    assert_eq!(p.get_char(), Some('a'));
    assert_eq!(p.pos, 1);
    p.roll_back();
    assert_eq!(p.pos, 0);
    p.roll_back();
    assert_eq!(p.pos, 0);
    p.consume(10);
    assert_eq!(p.pos, 2);
    assert_eq!(p.get_char(), None);
    assert_eq!(p.pos, 2);
}

#[test]
fn parser_keeps_unicode_characters() {
    let mut p = Parser::new("é*ü*".to_string());
    assert_eq!(p.input.len(), 4);
    assert_eq!(p.parse(), vec![Node::Paragraph(vec![text("é"), Node::Emphasis("ü".to_string())])]);
}

#[test]
fn text_of_copies_the_span() {
    assert_eq!(text_of(&vec!['a', 'b', 'c'], 1, 3), "bc".to_string());
}

#[test]
fn token_table() {
    let t = create_token_map();
    assert_eq!(t.len(), 18);
    assert_eq!(t[0], (TokenKind::Heading, '#'));
    assert!(triggers(TokenKind::Strong, '*'));
    assert!(triggers(TokenKind::Strikethrough, '-'));
    assert!(!triggers(TokenKind::Heading, '*'));
}


#[test]
fn parse_is_total_on_marker_soup() {
    let alphabet = ['*', '_', '~', '-', '`', '[', ']', '(', ')', '!', '>', '#', '\n', ' ', '\t', '1', '.', 'a'];
    let mut seed: u64 = 12345;
    for _ in 0..500 {
        let mut s = String::new();
        seed = seed.wrapping_mul(6364136223846793005).wrapping_add(1442695040888963407);
        let len = (seed >> 33) % 40;
        for _ in 0..len {
            seed = seed.wrapping_mul(6364136223846793005).wrapping_add(1442695040888963407);
            s.push(alphabet[((seed >> 33) % alphabet.len() as u64) as usize]);
        }
        let mut p = Parser::new(s.clone());
        let _ = p.parse();
        assert_eq!(p.pos, s.chars().count());
    }
}
