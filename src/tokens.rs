use vstd::prelude::*;

verus! {

/// The constructs that a character of the token table may open.
#[derive(Debug, Clone, Copy, PartialEq, Eq, Structural)]
pub enum TokenKind {
    Heading,
    Emphasis,
    Strikethrough,
    Strong,
    Code,
    Link,
    Image,
    Blockquote,
    UnorderedList,
    Table,
    Footnote,
    HorizontalRule,
}

/// Each construct with a character that may open it; a character may open
/// several constructs and a construct may have several characters.
pub open spec fn token_table() -> Seq<(TokenKind, char)> {
    seq![
        (TokenKind::Heading, '#'),
        (TokenKind::Emphasis, '*'),
        (TokenKind::Emphasis, '_'),
        (TokenKind::Strikethrough, '~'),
        (TokenKind::Strikethrough, '-'),
        (TokenKind::Strong, '*'),
        (TokenKind::Strong, '_'),
        (TokenKind::Code, '`'),
        (TokenKind::Link, '['),
        (TokenKind::Image, '!'),
        (TokenKind::Blockquote, '>'),
        (TokenKind::UnorderedList, '-'),
        (TokenKind::UnorderedList, '*'),
        (TokenKind::Table, '|'),
        (TokenKind::Footnote, '^'),
        (TokenKind::HorizontalRule, '-'),
        (TokenKind::HorizontalRule, '*'),
        (TokenKind::HorizontalRule, '_'),
    ]
}

/// `c` may open some construct.
pub open spec fn is_token_char(c: char) -> bool {
    exists|i: int| 0 <= i < token_table().len() && (#[trigger] token_table()[i]).1 == c
}

/// The token table, in order.
pub fn create_token_map() -> (r: Vec<(TokenKind, char)>)
    ensures
        r@ == token_table(),
{
    let mut r: Vec<(TokenKind, char)> = Vec::new();
    r.push((TokenKind::Heading, '#'));
    r.push((TokenKind::Emphasis, '*'));
    r.push((TokenKind::Emphasis, '_'));
    r.push((TokenKind::Strikethrough, '~'));
    r.push((TokenKind::Strikethrough, '-'));
    r.push((TokenKind::Strong, '*'));
    r.push((TokenKind::Strong, '_'));
    r.push((TokenKind::Code, '`'));
    r.push((TokenKind::Link, '['));
    r.push((TokenKind::Image, '!'));
    r.push((TokenKind::Blockquote, '>'));
    r.push((TokenKind::UnorderedList, '-'));
    r.push((TokenKind::UnorderedList, '*'));
    r.push((TokenKind::Table, '|'));
    r.push((TokenKind::Footnote, '^'));
    r.push((TokenKind::HorizontalRule, '-'));
    r.push((TokenKind::HorizontalRule, '*'));
    r.push((TokenKind::HorizontalRule, '_'));
    assert(r@ =~= token_table());
    r
}

/// Whether `c` opens the construct `kind` according to the token table.
pub fn triggers(kind: TokenKind, c: char) -> (r: bool)
    ensures
        r == exists|i: int|
            0 <= i < token_table().len() && #[trigger] token_table()[i] == (kind, c),
{
    let table = create_token_map();
    let mut i: usize = 0;
    while i < table.len()
        invariant
            table@ == token_table(),
            i <= table.len(),
            forall|j: int| 0 <= j < i ==> table@[j] != (kind, c),
        decreases table.len() - i,
    {
        let (k, t) = table[i];
        if k == kind && t == c {
            assert(token_table()[i as int] == (kind, c));
            return true;
        }
        i = i + 1;
    }
    false
}

} // verus!
