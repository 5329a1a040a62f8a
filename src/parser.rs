use vstd::prelude::*;
use crate::bounds::{
    lemma_block_one, lemma_bracketed, lemma_inline_one, lemma_marker_end, lemma_text_end,
};
use crate::grammar::{
    block_one, blockquote, blocks_from, bracket_complete, bracketed, code_block, delimited,
    heading, inline_from, inline_nodes, inline_one, item_start, list_items, marker_end,
    opens_emph, opens_image, opens_inline, opens_link, opens_quote, opens_strike, opens_strong,
    paragraph, run_at, text_end,
};
use crate::node::{
    lemma_view_items_push, lemma_view_nodes_push, view_items, view_nodes, Node, NodeModel,
};
use crate::scan::{
    chars_between, chars_of, find_run_from, folded_between, run_at_pos, skip_char_from,
    skip_digits_from, text_of,
};

verus! {

/// A cursor over the characters of a markdown text.
pub struct Parser {
    pub input: Vec<char>,
    pub pos: usize,
}

pub fn opens_strike_at(t: &Vec<char>, i: usize) -> (r: bool)
    ensures
        r == opens_strike(t@, i as int),
{
    run_at_pos(t, i, '~', 2) || run_at_pos(t, i, '-', 2)
}

pub fn opens_strong_at(t: &Vec<char>, i: usize) -> (r: bool)
    ensures
        r == opens_strong(t@, i as int),
{
    run_at_pos(t, i, '*', 2) || run_at_pos(t, i, '_', 2)
}

pub fn opens_emph_at(t: &Vec<char>, i: usize) -> (r: bool)
    ensures
        r == opens_emph(t@, i as int),
{
    if i < t.len() && t.len() - i > 1 {
        let c = t[i];
        (c == '*' || c == '_') && t[i + 1] != ' ' && t[i + 1] != c
    } else {
        false
    }
}

/// Whether `]`, `(` right after it, and `)` follow position `s`.
pub fn bracket_complete_at(t: &Vec<char>, s: usize) -> (r: bool)
    requires
        s <= t.len(),
    ensures
        r == bracket_complete(t@, s as int),
{
    let rb = find_run_from(t, s, ']', 1);
    if rb < t.len() && t.len() - rb > 1 && t[rb + 1] == '(' {
        let rp = find_run_from(t, rb + 2, ')', 1);
        rp < t.len()
    } else {
        false
    }
}

pub fn opens_image_at(t: &Vec<char>, i: usize) -> (r: bool)
    ensures
        r == opens_image(t@, i as int),
{
    if i < t.len() && t.len() - i > 1 && t[i] == '!' && t[i + 1] == '[' {
        bracket_complete_at(t, i + 2)
    } else {
        false
    }
}

pub fn opens_link_at(t: &Vec<char>, i: usize) -> (r: bool)
    ensures
        r == opens_link(t@, i as int),
{
    if i < t.len() && t[i] == '[' {
        bracket_complete_at(t, i + 1)
    } else {
        false
    }
}

/// Whether some inline construct other than plain text starts at `i`.
pub fn opens_inline_at(t: &Vec<char>, i: usize) -> (r: bool)
    ensures
        r == opens_inline(t@, i as int),
{
    opens_strike_at(t, i) || opens_strong_at(t, i) || opens_emph_at(t, i) || (i < t.len()
        && t[i] == '`') || opens_image_at(t, i) || opens_link_at(t, i)
}

/// Where the text of a list item starts when the line at `p` opens one.
pub fn marker_end_at(t: &Vec<char>, p: usize, ordered: bool) -> (r: Option<usize>)
    requires
        p <= t.len(),
    ensures
        match r {
            Some(x) => marker_end(t@, p as int, ordered) == x,
            None => marker_end(t@, p as int, ordered) < 0,
        },
{
    if ordered {
        let d = skip_digits_from(t, p);
        if d > p && d < t.len() && t.len() - d > 1 && (t[d] == '.' || t[d] == ')') && t[d + 1]
            == ' ' {
            Some(d + 2)
        } else {
            None
        }
    } else if p < t.len() && t.len() - p > 1 && (t[p] == '-' || t[p] == '*') && t[p + 1] == ' ' {
        Some(p + 2)
    } else {
        None
    }
}

/// Where the text of a list item on the line at `p` starts, if the line is
/// one: a line with a list marker, or one indented by three spaces or a tab.
pub fn item_start_at(t: &Vec<char>, p: usize, ordered: bool) -> (r: Option<usize>)
    requires
        p < t.len(),
    ensures
        match r {
            Some(x) => item_start(t@, p as int, ordered) == x && p < x <= t.len(),
            None => item_start(t@, p as int, ordered) < 0,
        },
{
    match marker_end_at(t, p, ordered) {
        Some(x) => {
            proof {
                lemma_marker_end(t@, p as int, ordered);
            }
            Some(x)
        },
        None => {
            if run_at_pos(t, p, ' ', 3) {
                Some(p + 3)
            } else if t[p] == '\t' {
                Some(p + 1)
            } else {
                None
            }
        },
    }
}

impl Parser {
    /// The cursor lies within its text (or just past its end).
    pub open spec fn wf(&self) -> bool {
        self.pos <= self.input.len()
    }

    /// A parser at the start of `input`.
    pub fn new(input: String) -> (r: Parser)
        ensures
            r.input@ == input@,
            r.pos == 0,
            r.wf(),
    {
        Parser { input: chars_of(&input), pos: 0 }
    }

    /// Moves the cursor `n` characters on, stopping at the end of the text.
    pub fn consume(&mut self, n: usize)
        requires
            old(self).wf(),
        ensures
            final(self).input@ == old(self).input@,
            final(self).wf(),
            final(self).pos == if old(self).pos + n <= old(self).input.len() {
                old(self).pos + n
            } else {
                old(self).input.len() as int
            },
    {
        if n > self.input.len() - self.pos {
            self.pos = self.input.len();
        } else {
            self.pos = self.pos + n;
        }
    }

    /// The character `n` places after the cursor, if there is one.
    pub fn peek(&self, n: usize) -> (r: Option<char>)
        requires
            self.wf(),
        ensures
            r == if self.pos + n < self.input.len() {
                Some(self.input@[self.pos + n])
            } else {
                None::<char>
            },
    {
        if n < self.input.len() - self.pos {
            Some(self.input[self.pos + n])
        } else {
            None
        }
    }

    /// The character under the cursor, if there is one.
    pub fn peek_next(&self) -> (r: Option<char>)
        requires
            self.wf(),
        ensures
            r == if self.pos < self.input.len() {
                Some(self.input@[self.pos as int])
            } else {
                None::<char>
            },
    {
        self.peek(0)
    }

    /// Reads the character under the cursor and moves past it.
    pub fn get_char(&mut self) -> (r: Option<char>)
        requires
            old(self).wf(),
        ensures
            final(self).input@ == old(self).input@,
            final(self).wf(),
            r == if old(self).pos < old(self).input.len() {
                Some(old(self).input@[old(self).pos as int])
            } else {
                None::<char>
            },
            final(self).pos == if old(self).pos < old(self).input.len() {
                old(self).pos + 1
            } else {
                old(self).pos as int
            },
    {
        let c = self.peek_next();
        self.consume(1);
        c
    }

    /// Moves the cursor one character back, unless it is at the start.
    pub fn roll_back(&mut self)
        requires
            old(self).wf(),
        ensures
            final(self).input@ == old(self).input@,
            final(self).wf(),
            final(self).pos == if old(self).pos > 0 {
                old(self).pos - 1
            } else {
                0
            },
    {
        if self.pos > 0 {
            self.pos = self.pos - 1;
        }
    }

    /// The text of a span opened by a marker of `n` characters at the
    /// cursor, up to `n` copies of `c` or the end; the cursor moves past the
    /// closer.
    fn scan_delimited(&mut self, c: char, n: usize) -> (r: String)
        requires
            old(self).wf(),
            n >= 1,
            old(self).pos + n <= old(self).input.len(),
        ensures
            final(self).input@ == old(self).input@,
            final(self).wf(),
            r@ == delimited(old(self).input@, old(self).pos as int, c, n as int).0,
            final(self).pos == delimited(old(self).input@, old(self).pos as int, c, n as int).1,
    {
        let k = find_run_from(&self.input, self.pos + n, c, n);
        let text = text_of(&self.input, self.pos + n, k);
        if k < self.input.len() {
            self.pos = k + n;
        } else {
            self.pos = k;
        }
        text
    }

    fn parse_strikethrough(&mut self) -> (r: Node)
        requires
            old(self).wf(),
            opens_strike(old(self).input@, old(self).pos as int),
        ensures
            final(self).input@ == old(self).input@,
            final(self).wf(),
            (r@, final(self).pos as int) == inline_one(old(self).input@, old(self).pos as int),
    {
        let c = self.input[self.pos];
        Node::Strikethrough(self.scan_delimited(c, 2))
    }

    fn parse_strong(&mut self) -> (r: Node)
        requires
            old(self).wf(),
            !opens_strike(old(self).input@, old(self).pos as int),
            opens_strong(old(self).input@, old(self).pos as int),
        ensures
            final(self).input@ == old(self).input@,
            final(self).wf(),
            (r@, final(self).pos as int) == inline_one(old(self).input@, old(self).pos as int),
    {
        let c = self.input[self.pos];
        Node::Strong(self.scan_delimited(c, 2))
    }

    fn parse_emphasis(&mut self) -> (r: Node)
        requires
            old(self).wf(),
            !opens_strike(old(self).input@, old(self).pos as int),
            !opens_strong(old(self).input@, old(self).pos as int),
            opens_emph(old(self).input@, old(self).pos as int),
        ensures
            final(self).input@ == old(self).input@,
            final(self).wf(),
            (r@, final(self).pos as int) == inline_one(old(self).input@, old(self).pos as int),
    {
        let c = self.input[self.pos];
        Node::Emphasis(self.scan_delimited(c, 1))
    }

    fn parse_code_inline(&mut self) -> (r: Node)
        requires
            old(self).wf(),
            old(self).pos < old(self).input.len(),
        ensures
            final(self).input@ == old(self).input@,
            final(self).wf(),
            r@ == NodeModel::CodeInline(delimited(old(self).input@, old(self).pos as int, '`', 1).0),
            final(self).pos == delimited(old(self).input@, old(self).pos as int, '`', 1).1,
    {
        Node::CodeInline(self.scan_delimited('`', 1))
    }

    /// A fenced code block opened at the cursor.
    fn parse_code_block(&mut self) -> (r: Node)
        requires
            old(self).wf(),
            run_at(old(self).input@, old(self).pos as int, '`', 3),
        ensures
            final(self).input@ == old(self).input@,
            final(self).wf(),
            (r@, final(self).pos as int) == code_block(old(self).input@, old(self).pos as int),
    {
        let t = &self.input;
        let p = self.pos;
        let nl = find_run_from(t, p + 3, '\n', 1);
        let lang = text_of(t, p + 3, nl);
        let b = if nl < t.len() {
            nl + 1
        } else {
            nl
        };
        let k = find_run_from(t, b, '`', 3);
        let content = text_of(t, b, k);
        let end = if k < t.len() {
            k + 3
        } else {
            k
        };
        self.pos = end;
        let language = if nl == p + 3 {
            None
        } else {
            Some(lang)
        };
        proof {
            assert(lang@.len() == 0 <==> nl == p + 3);
        }
        Node::CodeBlock(content, language)
    }

    /// Label and url of a bracketed pair whose label starts at `s`; the
    /// cursor moves past the closing parenthesis.
    fn scan_bracketed(&mut self, s: usize) -> (r: (String, String))
        requires
            old(self).wf(),
            s <= old(self).input.len(),
            bracket_complete(old(self).input@, s as int),
        ensures
            final(self).input@ == old(self).input@,
            final(self).wf(),
            r.0@ == bracketed(old(self).input@, s as int).0,
            r.1@ == bracketed(old(self).input@, s as int).1,
            final(self).pos == bracketed(old(self).input@, s as int).2,
    {
        proof {
            lemma_bracketed(self.input@, s as int);
        }
        let t = &self.input;
        let rb = find_run_from(t, s, ']', 1);
        let rp = find_run_from(t, rb + 2, ')', 1);
        let label = text_of(t, s, rb);
        let url = text_of(t, rb + 2, rp);
        self.pos = rp + 1;
        (label, url)
    }

    fn parse_image(&mut self) -> (r: Node)
        requires
            old(self).wf(),
            opens_image(old(self).input@, old(self).pos as int),
        ensures
            final(self).input@ == old(self).input@,
            final(self).wf(),
            r@ == NodeModel::Image(
                bracketed(old(self).input@, old(self).pos + 2).0,
                bracketed(old(self).input@, old(self).pos + 2).1,
            ),
            final(self).pos == bracketed(old(self).input@, old(self).pos + 2).2,
    {
        let (alt, url) = self.scan_bracketed(self.pos + 2);
        Node::Image(alt, url)
    }

    fn parse_link(&mut self) -> (r: Node)
        requires
            old(self).wf(),
            opens_link(old(self).input@, old(self).pos as int),
        ensures
            final(self).input@ == old(self).input@,
            final(self).wf(),
            r@ == NodeModel::Link(
                bracketed(old(self).input@, old(self).pos + 1).0,
                bracketed(old(self).input@, old(self).pos + 1).1,
            ),
            final(self).pos == bracketed(old(self).input@, old(self).pos + 1).2,
    {
        let (label, url) = self.scan_bracketed(self.pos + 1);
        Node::Link(label, url)
    }

    /// A run of plain text: at least the character under the cursor, then
    /// every character up to the next construct or the end.
    fn parse_string(&mut self) -> (r: Node)
        requires
            old(self).wf(),
            old(self).pos < old(self).input.len(),
        ensures
            final(self).input@ == old(self).input@,
            final(self).wf(),
            r@ == NodeModel::Str(
                old(self).input@.subrange(
                    old(self).pos as int,
                    text_end(old(self).input@, old(self).pos + 1),
                ),
            ),
            final(self).pos == text_end(old(self).input@, old(self).pos + 1),
    {
        let t = &self.input;
        let start = self.pos;
        let mut k: usize = start + 1;
        proof {
            lemma_text_end(t@, k as int);
        }
        while k < t.len() && !opens_inline_at(t, k)
            invariant
                start < k <= t.len(),
                text_end(t@, k as int) == text_end(t@, start + 1),
            decreases t.len() - k,
        {
            k = k + 1;
        }
        let text = text_of(t, start, k);
        self.pos = k;
        Node::String(text)
    }

    /// The inline node at the cursor, tried in a fixed order of recognizers
    /// with plain text as the fallback.
    fn parse_inline_node(&mut self) -> (r: Node)
        requires
            old(self).wf(),
            old(self).pos < old(self).input.len(),
        ensures
            final(self).input@ == old(self).input@,
            final(self).wf(),
            (r@, final(self).pos as int) == inline_one(old(self).input@, old(self).pos as int),
    {
        proof {
            lemma_inline_one(self.input@, self.pos as int);
        }
        let p = self.pos;
        if opens_strike_at(&self.input, p) {
            self.parse_strikethrough()
        } else if opens_strong_at(&self.input, p) {
            self.parse_strong()
        } else if opens_emph_at(&self.input, p) {
            self.parse_emphasis()
        } else if self.input[p] == '`' {
            if run_at_pos(&self.input, p, '`', 3) {
                self.parse_code_block()
            } else {
                self.parse_code_inline()
            }
        } else if opens_image_at(&self.input, p) {
            self.parse_image()
        } else if opens_link_at(&self.input, p) {
            self.parse_link()
        } else {
            self.parse_string()
        }
    }

    /// The inline nodes from the cursor to the end of the text.
    pub fn parse_inline(&mut self) -> (r: Vec<Node>)
        requires
            old(self).wf(),
        ensures
            final(self).input@ == old(self).input@,
            final(self).pos == final(self).input.len(),
            view_nodes(r@) == inline_from(old(self).input@, old(self).pos as int),
    {
        let ghost t = self.input@;
        let ghost start = self.pos as int;
        let mut nodes: Vec<Node> = Vec::new();
        while self.pos < self.input.len()
            invariant
                self.wf(),
                self.input@ == t,
                view_nodes(nodes@) + inline_from(t, self.pos as int) == inline_from(t, start),
            decreases self.input.len() - self.pos,
        {
            let ghost p = self.pos as int;
            let ghost before = nodes@;
            proof {
                lemma_inline_one(t, p);
            }
            let n = self.parse_inline_node();
            nodes.push(n);
            proof {
                lemma_view_nodes_push(before, n);
                assert(inline_from(t, p) == seq![n@] + inline_from(t, self.pos as int));
                assert(view_nodes(nodes@) + inline_from(t, self.pos as int) =~= view_nodes(before)
                    + inline_from(t, p));
            }
        }
        assert(view_nodes(nodes@) =~= inline_from(t, start));
        nodes
    }

    /// The inline nodes of the text of `t` between `lo` and `hi`, parsed by a
    /// parser of their own.
    fn parse_span(t: &Vec<char>, lo: usize, hi: usize) -> (r: Vec<Node>)
        requires
            lo <= hi <= t.len(),
        ensures
            view_nodes(r@) == inline_nodes(t@.subrange(lo as int, hi as int)),
    {
        let mut child = Parser { input: chars_between(t, lo, hi), pos: 0 };
        child.parse_inline()
    }

    /// A heading at the cursor, which holds a `#`.
    fn parse_heading(&mut self) -> (r: Node)
        requires
            old(self).wf(),
            old(self).pos < old(self).input.len(),
            old(self).input@[old(self).pos as int] == '#',
        ensures
            final(self).input@ == old(self).input@,
            final(self).wf(),
            (r@, final(self).pos as int) == heading(old(self).input@, old(self).pos as int),
    {
        let t = &self.input;
        let p = self.pos;
        let h = skip_char_from(t, p, '#');
        let level: u8 = if h - p > 255 {
            255
        } else {
            (h - p) as u8
        };
        let sp = skip_char_from(t, h, ' ');
        let e = find_run_from(t, sp, '\n', 1);
        let children = Parser::parse_span(t, sp, e);
        self.pos = if e < t.len() {
            e + 1
        } else {
            e
        };
        Node::Heading(children, level)
    }

    /// A blockquote at the cursor.
    fn parse_quote(&mut self) -> (r: Node)
        requires
            old(self).wf(),
            opens_quote(old(self).input@, old(self).pos as int),
        ensures
            final(self).input@ == old(self).input@,
            final(self).wf(),
            (r@, final(self).pos as int) == blockquote(old(self).input@, old(self).pos as int),
    {
        let t = &self.input;
        let p = self.pos;
        let b = if t.len() - p > 1 && (t[p + 1] == ' ' || t[p + 1] == '\t') {
            p + 2
        } else {
            p + 1
        };
        let e = find_run_from(t, b, '\n', 1);
        let children = Parser::parse_span(t, b, e);
        self.pos = if e < t.len() {
            e + 1
        } else {
            e
        };
        Node::Blockquote(children)
    }

    /// The items of a list from the cursor on, one per line, each parsed by a
    /// parser of its own.
    fn parse_list_items(&mut self, ordered: bool) -> (r: Vec<Vec<Node>>)
        requires
            old(self).wf(),
        ensures
            final(self).input@ == old(self).input@,
            final(self).wf(),
            view_items(r@) == list_items(old(self).input@, old(self).pos as int, ordered).0,
            final(self).pos == list_items(old(self).input@, old(self).pos as int, ordered).1,
    {
        let ghost t = self.input@;
        let ghost start = self.pos as int;
        let mut items: Vec<Vec<Node>> = Vec::new();
        loop
            invariant
                self.wf(),
                self.input@ == t,
                view_items(items@) + list_items(t, self.pos as int, ordered).0 == list_items(
                    t,
                    start,
                    ordered,
                ).0,
                list_items(t, self.pos as int, ordered).1 == list_items(t, start, ordered).1,
            ensures
                self.wf(),
                self.input@ == t,
                view_items(items@) == list_items(t, start, ordered).0,
                self.pos == list_items(t, start, ordered).1,
            decreases self.input.len() - self.pos,
        {
            if self.pos >= self.input.len() {
                assert(view_items(items@) =~= view_items(items@) + list_items(
                    t,
                    self.pos as int,
                    ordered,
                ).0);
                break ;
            }
            let st = match item_start_at(&self.input, self.pos, ordered) {
                Some(x) => x,
                None => {
                    assert(view_items(items@) =~= view_items(items@) + list_items(
                        t,
                        self.pos as int,
                        ordered,
                    ).0);
                    break ;
                },
            };
            let ghost p = self.pos as int;
            let ghost before = items@;
            let e = find_run_from(&self.input, st, '\n', 1);
            let item = Parser::parse_span(&self.input, st, e);
            self.pos = if e < self.input.len() {
                e + 1
            } else {
                e
            };
            items.push(item);
            proof {
                lemma_view_items_push(before, item);
                assert(list_items(t, p, ordered).0 == seq![view_nodes(item@)] + list_items(
                    t,
                    self.pos as int,
                    ordered,
                ).0);
                assert(view_items(items@) + list_items(t, self.pos as int, ordered).0
                    =~= view_items(before) + list_items(t, p, ordered).0);
            }
        }
        items
    }

    /// A paragraph from the cursor, which holds no newline, to the next blank
    /// line or the end.
    fn parse_paragraph(&mut self) -> (r: Node)
        requires
            old(self).wf(),
            old(self).pos < old(self).input.len(),
        ensures
            final(self).input@ == old(self).input@,
            final(self).wf(),
            (r@, final(self).pos as int) == paragraph(old(self).input@, old(self).pos as int),
    {
        let t = &self.input;
        let p = self.pos;
        let k = find_run_from(t, p, '\n', 2);
        let e = if k == t.len() && k > p && t[k - 1] == '\n' {
            k - 1
        } else {
            k
        };
        let mut child = Parser { input: folded_between(t, p, e), pos: 0 };
        let children = child.parse_inline();
        self.pos = k;
        Node::Paragraph(children)
    }

    /// The block at the cursor, if any: a newline there is a blank line and
    /// yields none. Recognizers are tried in a fixed order, with the
    /// paragraph as the fallback.
    fn parse_block(&mut self) -> (r: Option<Node>)
        requires
            old(self).wf(),
            old(self).pos < old(self).input.len(),
        ensures
            final(self).input@ == old(self).input@,
            final(self).wf(),
            final(self).pos == block_one(old(self).input@, old(self).pos as int).1,
            match r {
                Some(n) => block_one(old(self).input@, old(self).pos as int).0 == Some(n@),
                None => block_one(old(self).input@, old(self).pos as int).0 == None::<NodeModel>,
            },
    {
        let p = self.pos;
        let c = self.input[p];
        if c == '\n' {
            self.pos = p + 1;
            None
        } else if c == '#' {
            Some(self.parse_heading())
        } else if c == '>' && (self.input.len() - p == 1 || self.input[p + 1] == ' '
            || self.input[p + 1] == '\t' || self.input[p + 1] == '\n') {
            Some(self.parse_quote())
        } else if run_at_pos(&self.input, p, '`', 3) {
            Some(self.parse_code_block())
        } else if marker_end_at(&self.input, p, true).is_some() {
            Some(Node::OrderedList(self.parse_list_items(true)))
        } else if marker_end_at(&self.input, p, false).is_some() {
            Some(Node::UnorderedList(self.parse_list_items(false)))
        } else {
            Some(self.parse_paragraph())
        }
    }

    /// Parses the text from the cursor to its end into a sequence of blocks.
    pub fn parse(&mut self) -> (r: Vec<Node>)
        requires
            old(self).wf(),
        ensures
            final(self).input@ == old(self).input@,
            final(self).pos == final(self).input.len(),
            view_nodes(r@) == blocks_from(old(self).input@, old(self).pos as int),
    {
        let ghost t = self.input@;
        let ghost start = self.pos as int;
        let mut nodes: Vec<Node> = Vec::new();
        while self.pos < self.input.len()
            invariant
                self.wf(),
                self.input@ == t,
                view_nodes(nodes@) + blocks_from(t, self.pos as int) == blocks_from(t, start),
            decreases self.input.len() - self.pos,
        {
            let ghost p = self.pos as int;
            let ghost before = nodes@;
            proof {
                lemma_block_one(t, p);
            }
            match self.parse_block() {
                Some(n) => {
                    nodes.push(n);
                    proof {
                        lemma_view_nodes_push(before, n);
                        assert(blocks_from(t, p) == seq![n@] + blocks_from(t, self.pos as int));
                        assert(view_nodes(nodes@) + blocks_from(t, self.pos as int)
                            =~= view_nodes(before) + blocks_from(t, p));
                    }
                },
                None => {},
            }
        }
        assert(view_nodes(nodes@) =~= blocks_from(t, start));
        nodes
    }
}

} // verus!
