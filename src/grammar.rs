use vstd::prelude::*;
use crate::node::NodeModel;

verus! {

// ---------------------------------------------------------------------------
// Scanning primitives over a character sequence.
// ---------------------------------------------------------------------------

/// `n` copies of `c` start at position `i` of `t`.
pub open spec fn run_at(t: Seq<char>, i: int, c: char, n: int) -> bool {
    &&& 0 <= i
    &&& i + n <= t.len()
    &&& forall|j: int| i <= j < i + n ==> t[j] == c
}

/// The first position at or after `i` where `n` copies of `c` start, or the
/// length of `t` when there is none.
pub open spec fn find_run(t: Seq<char>, i: int, c: char, n: int) -> int
    decreases t.len() - i,
{
    if i < 0 || i >= t.len() {
        t.len() as int
    } else if run_at(t, i, c, n) {
        i
    } else {
        find_run(t, i + 1, c, n)
    }
}

/// The position just past a run of length `n` found at `k`, or the end of
/// `t` when the search for it ran off the end.
pub open spec fn after_run(t: Seq<char>, k: int, n: int) -> int {
    if k < t.len() {
        k + n
    } else {
        t.len() as int
    }
}

/// The first position at or after `i` that does not hold `c`.
pub open spec fn skip_char(t: Seq<char>, i: int, c: char) -> int
    decreases t.len() - i,
{
    if i < 0 || i >= t.len() {
        t.len() as int
    } else if t[i] != c {
        i
    } else {
        skip_char(t, i + 1, c)
    }
}

pub open spec fn is_digit(c: char) -> bool {
    '0' <= c && c <= '9'
}

/// The first position at or after `i` that does not hold a decimal digit.
pub open spec fn skip_digits(t: Seq<char>, i: int) -> int
    decreases t.len() - i,
{
    if i < 0 || i >= t.len() {
        t.len() as int
    } else if !is_digit(t[i]) {
        i
    } else {
        skip_digits(t, i + 1)
    }
}

// ---------------------------------------------------------------------------
// Inline constructs.
// ---------------------------------------------------------------------------

/// `~~` or `--` opens a strikethrough span.
pub open spec fn opens_strike(t: Seq<char>, i: int) -> bool {
    run_at(t, i, '~', 2) || run_at(t, i, '-', 2)
}

/// `**` or `__` opens a strong span.
pub open spec fn opens_strong(t: Seq<char>, i: int) -> bool {
    run_at(t, i, '*', 2) || run_at(t, i, '_', 2)
}

/// A single `*` or `_` opens an emphasis span when the next character is
/// neither a space nor the same marker.
pub open spec fn opens_emph(t: Seq<char>, i: int) -> bool {
    &&& 0 <= i
    &&& i + 1 < t.len()
    &&& t[i] == '*' || t[i] == '_'
    &&& t[i + 1] != ' '
    &&& t[i + 1] != t[i]
}

pub open spec fn opens_code(t: Seq<char>, i: int) -> bool {
    0 <= i < t.len() && t[i] == '`'
}

/// `]`, then `(` right after it, then `)`, all follow position `s`.
pub open spec fn bracket_complete(t: Seq<char>, s: int) -> bool {
    let rb = find_run(t, s, ']', 1);
    &&& rb + 1 < t.len()
    &&& t[rb + 1] == '('
    &&& find_run(t, rb + 2, ')', 1) < t.len()
}

pub open spec fn opens_image(t: Seq<char>, i: int) -> bool {
    &&& 0 <= i
    &&& i + 1 < t.len()
    &&& t[i] == '!'
    &&& t[i + 1] == '['
    &&& bracket_complete(t, i + 2)
}

pub open spec fn opens_link(t: Seq<char>, i: int) -> bool {
    &&& 0 <= i < t.len()
    &&& t[i] == '['
    &&& bracket_complete(t, i + 1)
}

/// Some inline construct other than plain text starts at `i`.
pub open spec fn opens_inline(t: Seq<char>, i: int) -> bool {
    opens_strike(t, i) || opens_strong(t, i) || opens_emph(t, i) || opens_code(t, i)
        || opens_image(t, i) || opens_link(t, i)
}

/// The end of a plain text run that goes on at `j`: the first position at or
/// after `j` where another construct starts, or the end of `t`.
pub open spec fn text_end(t: Seq<char>, j: int) -> int
    decreases t.len() - j,
{
    if j < 0 || j >= t.len() {
        t.len() as int
    } else if opens_inline(t, j) {
        j
    } else {
        text_end(t, j + 1)
    }
}

/// Text after an opening marker of length `n` at `i`, up to the closing run
/// of `n` copies of `c` (or the end), and the position after the closer.
pub open spec fn delimited(t: Seq<char>, i: int, c: char, n: int) -> (Seq<char>, int) {
    let k = find_run(t, i + n, c, n);
    (t.subrange(i + n, k), after_run(t, k, n))
}

/// A fenced code block opened by three backticks at `i`: the rest of the
/// opening line is the language tag, the body runs to the closing fence.
pub open spec fn code_block(t: Seq<char>, i: int) -> (NodeModel, int) {
    let nl = find_run(t, i + 3, '\n', 1);
    let lang = t.subrange(i + 3, nl);
    let b = after_run(t, nl, 1);
    let k = find_run(t, b, '`', 3);
    (
        NodeModel::CodeBlock(
            t.subrange(b, k),
            if lang.len() == 0 {
                None
            } else {
                Some(lang)
            },
        ),
        after_run(t, k, 3),
    )
}

/// Label and url of `[label](url)` whose label starts at `s`, and the
/// position after the closing parenthesis.
pub open spec fn bracketed(t: Seq<char>, s: int) -> (Seq<char>, Seq<char>, int) {
    let rb = find_run(t, s, ']', 1);
    let rp = find_run(t, rb + 2, ')', 1);
    (t.subrange(s, rb), t.subrange(rb + 2, rp), rp + 1)
}

/// The inline node that starts at `i`, and the position after it. Recognizers
/// are tried in a fixed order; plain text is the fallback.
pub open spec fn inline_one(t: Seq<char>, i: int) -> (NodeModel, int) {
    if opens_strike(t, i) {
        let d = delimited(t, i, t[i], 2);
        (NodeModel::Strikethrough(d.0), d.1)
    } else if opens_strong(t, i) {
        let d = delimited(t, i, t[i], 2);
        (NodeModel::Strong(d.0), d.1)
    } else if opens_emph(t, i) {
        let d = delimited(t, i, t[i], 1);
        (NodeModel::Emphasis(d.0), d.1)
    } else if opens_code(t, i) {
        if run_at(t, i, '`', 3) {
            code_block(t, i)
        } else {
            let d = delimited(t, i, '`', 1);
            (NodeModel::CodeInline(d.0), d.1)
        }
    } else if opens_image(t, i) {
        let b = bracketed(t, i + 2);
        (NodeModel::Image(b.0, b.1), b.2)
    } else if opens_link(t, i) {
        let b = bracketed(t, i + 1);
        (NodeModel::Link(b.0, b.1), b.2)
    } else {
        let e = text_end(t, i + 1);
        (NodeModel::Str(t.subrange(i, e)), e)
    }
}

/// The inline nodes of `t` from position `i` on.
pub open spec fn inline_from(t: Seq<char>, i: int) -> Seq<NodeModel>
    decreases t.len() - i,
{
    if i < 0 || i >= t.len() {
        Seq::empty()
    } else {
        let r = inline_one(t, i);
        if r.1 <= i || r.1 > t.len() {
            seq![r.0]
        } else {
            seq![r.0] + inline_from(t, r.1)
        }
    }
}

/// The inline nodes of a whole text.
pub open spec fn inline_nodes(t: Seq<char>) -> Seq<NodeModel> {
    inline_from(t, 0)
}

// ---------------------------------------------------------------------------
// Block constructs.
// ---------------------------------------------------------------------------

/// The end of the line that starts at or before `i`, and the position after
/// its newline.
pub open spec fn line_end(t: Seq<char>, i: int) -> int {
    find_run(t, i, '\n', 1)
}

/// A heading: a run of `#` gives the level (stored up to 255), spaces after
/// it are skipped, and the rest of the line holds the inline content.
pub open spec fn heading(s: Seq<char>, i: int) -> (NodeModel, int) {
    let h = skip_char(s, i, '#');
    let level = if h - i > 255 {
        255nat
    } else {
        (h - i) as nat
    };
    let sp = skip_char(s, h, ' ');
    let e = line_end(s, sp);
    (NodeModel::Heading(inline_nodes(s.subrange(sp, e)), level), after_run(s, e, 1))
}

/// `>` followed by a space, a tab, a newline or the end opens a blockquote.
pub open spec fn opens_quote(s: Seq<char>, i: int) -> bool {
    &&& 0 <= i < s.len()
    &&& s[i] == '>'
    &&& i + 1 == s.len() || s[i + 1] == ' ' || s[i + 1] == '\t' || s[i + 1] == '\n'
}

/// A blockquote: the rest of its line, after one space or tab, is parsed on
/// its own for the quote's inline children.
pub open spec fn blockquote(s: Seq<char>, i: int) -> (NodeModel, int) {
    let b = if i + 1 < s.len() && (s[i + 1] == ' ' || s[i + 1] == '\t') {
        i + 2
    } else {
        i + 1
    };
    let e = line_end(s, b);
    (NodeModel::Blockquote(inline_nodes(s.subrange(b, e))), after_run(s, e, 1))
}

/// Where the text of a list item starts when the line at `p` opens one, or -1.
/// An ordered item opens with digits, `.` or `)`, and a space; an unordered
/// one with `-` or `*` and a space.
pub open spec fn marker_end(s: Seq<char>, p: int, ordered: bool) -> int {
    if ordered {
        let d = skip_digits(s, p);
        if d > p && d + 1 < s.len() && (s[d] == '.' || s[d] == ')') && s[d + 1] == ' ' {
            d + 2
        } else {
            -1
        }
    } else if 0 <= p && p + 1 < s.len() && (s[p] == '-' || s[p] == '*') && s[p + 1] == ' ' {
        p + 2
    } else {
        -1
    }
}

/// Where the text of a list item on the line at `p` starts, or -1: a line with
/// a list marker, or one indented by three spaces or a tab.
pub open spec fn item_start(s: Seq<char>, p: int, ordered: bool) -> int {
    if marker_end(s, p, ordered) >= 0 {
        marker_end(s, p, ordered)
    } else if run_at(s, p, ' ', 3) {
        p + 3
    } else if 0 <= p < s.len() && s[p] == '\t' {
        p + 1
    } else {
        -1
    }
}

/// The items of a list from the line at `p` on, each parsed on its own, and
/// the position after the last one.
pub open spec fn list_items(s: Seq<char>, p: int, ordered: bool) -> (Seq<Seq<NodeModel>>, int)
    decreases s.len() - p,
{
    if p < 0 || p >= s.len() || item_start(s, p, ordered) < 0 {
        (Seq::empty(), p)
    } else {
        let st = item_start(s, p, ordered);
        let e = line_end(s, st);
        let nx = after_run(s, e, 1);
        if nx <= p || nx > s.len() {
            (seq![inline_nodes(s.subrange(st, e))], nx)
        } else {
            let rest = list_items(s, nx, ordered);
            (seq![inline_nodes(s.subrange(st, e))] + rest.0, rest.1)
        }
    }
}

/// `t` with each newline turned into a space.
pub open spec fn fold_newlines(t: Seq<char>) -> Seq<char> {
    Seq::new(t.len(), |j: int| if t[j] == '\n' { ' ' } else { t[j] })
}

/// The position where a paragraph from `i` stops: the first blank line, or
/// the end of the text.
pub open spec fn para_stop(s: Seq<char>, i: int) -> int {
    find_run(s, i, '\n', 2)
}

/// The end of a paragraph's text: its stop, less a newline that ends the text.
pub open spec fn para_text_end(s: Seq<char>, i: int) -> int {
    let k = para_stop(s, i);
    if k == s.len() && k > i && s[k - 1] == '\n' {
        k - 1
    } else {
        k
    }
}

/// A paragraph: its lines, joined by spaces, parsed for inline content.
pub open spec fn paragraph(s: Seq<char>, i: int) -> (NodeModel, int) {
    (
        NodeModel::Paragraph(inline_nodes(fold_newlines(s.subrange(i, para_text_end(s, i))))),
        para_stop(s, i),
    )
}

/// The block that starts at `i`, if any, and the position after it. A newline
/// there is a blank line and is skipped. Recognizers are tried in a fixed
/// order; the paragraph is the fallback.
pub open spec fn block_one(s: Seq<char>, i: int) -> (Option<NodeModel>, int) {
    if s[i] == '\n' {
        (None, i + 1)
    } else if s[i] == '#' {
        let r = heading(s, i);
        (Some(r.0), r.1)
    } else if opens_quote(s, i) {
        let r = blockquote(s, i);
        (Some(r.0), r.1)
    } else if run_at(s, i, '`', 3) {
        let r = code_block(s, i);
        (Some(r.0), r.1)
    } else if marker_end(s, i, true) >= 0 {
        let r = list_items(s, i, true);
        (Some(NodeModel::OrderedList(r.0)), r.1)
    } else if marker_end(s, i, false) >= 0 {
        let r = list_items(s, i, false);
        (Some(NodeModel::UnorderedList(r.0)), r.1)
    } else {
        let r = paragraph(s, i);
        (Some(r.0), r.1)
    }
}

/// The blocks of `s` from position `i` on.
pub open spec fn blocks_from(s: Seq<char>, i: int) -> Seq<NodeModel>
    decreases s.len() - i,
{
    if i < 0 || i >= s.len() {
        Seq::empty()
    } else {
        let r = block_one(s, i);
        if r.1 <= i || r.1 > s.len() {
            match r.0 {
                Some(n) => seq![n],
                None => Seq::empty(),
            }
        } else {
            match r.0 {
                Some(n) => seq![n] + blocks_from(s, r.1),
                None => blocks_from(s, r.1),
            }
        }
    }
}

/// The document that a text parses to.
pub open spec fn document(s: Seq<char>) -> Seq<NodeModel> {
    blocks_from(s, 0)
}

} // verus!
