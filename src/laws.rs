use vstd::prelude::*;
use crate::bounds::{
    lemma_block_one, lemma_bracketed, lemma_code_block, lemma_delimited, lemma_find_run,
    lemma_inline_one, lemma_list_items, lemma_marker_end, lemma_skip_char, lemma_text_end,
};
use crate::grammar::{
    after_run, block_one, blocks_from, code_block, document, find_run,
    fold_newlines, inline_from, inline_nodes, inline_one, item_start, line_end, list_items,
    marker_end, opens_code, opens_emph, opens_image, opens_inline, opens_link, opens_quote,
    opens_strike, opens_strong, para_text_end, run_at, skip_char, text_end,
};
use crate::node::NodeModel;
use crate::tokens::{is_token_char, token_table};

verus! {

/// The literal text of a sequence of nodes: every text field of every node,
/// in order, children included.
pub open spec fn leaf_text(ns: Seq<NodeModel>) -> Seq<char>
    decreases ns, 0nat,
{
    if ns.len() == 0 {
        Seq::empty()
    } else {
        node_text(ns[0]) + leaf_text(ns.drop_first())
    }
}

/// The literal text of the items of a list, in order.
pub open spec fn items_text(items: Seq<Seq<NodeModel>>) -> Seq<char>
    decreases items, 0nat,
{
    if items.len() == 0 {
        Seq::empty()
    } else {
        leaf_text(items[0]) + items_text(items.drop_first())
    }
}

/// The literal text of one node.
pub open spec fn node_text(n: NodeModel) -> Seq<char>
    decreases n, 1nat,
{
    match n {
        NodeModel::Heading(ch, _) => leaf_text(ch),
        NodeModel::Paragraph(ch) => leaf_text(ch),
        NodeModel::CodeBlock(c, l) => match l {
            Some(l) => l + c,
            None => c,
        },
        NodeModel::CodeInline(c) => c,
        NodeModel::Link(a, b) => a + b,
        NodeModel::Image(a, b) => a + b,
        NodeModel::Emphasis(x) => x,
        NodeModel::Strong(x) => x,
        NodeModel::Strikethrough(x) => x,
        NodeModel::Blockquote(ch) => leaf_text(ch),
        NodeModel::OrderedList(items) => items_text(items),
        NodeModel::UnorderedList(items) => items_text(items),
        NodeModel::Newline => Seq::empty(),
        NodeModel::Str(x) => x,
    }
}

proof fn lemma_leaf_text_cons(n: NodeModel, rest: Seq<NodeModel>)
    ensures
        leaf_text(seq![n] + rest) == node_text(n) + leaf_text(rest),
{
    assert((seq![n] + rest).drop_first() =~= rest);
}

proof fn lemma_items_text_cons(n: Seq<NodeModel>, rest: Seq<Seq<NodeModel>>)
    ensures
        items_text(seq![n] + rest) == leaf_text(n) + items_text(rest),
{
    assert((seq![n] + rest).drop_first() =~= rest);
}

proof fn lemma_code_block_text(t: Seq<char>, i: int)
    requires
        run_at(t, i, '`', 3),
    ensures
        node_text(code_block(t, i).0).len() <= code_block(t, i).1 - i,
{
    lemma_code_block(t, i);
    let nl = find_run(t, i + 3, '\n', 1);
    lemma_find_run(t, i + 3, '\n', 1);
    let b = after_run(t, nl, 1);
    lemma_find_run(t, b, '`', 3);
}

proof fn lemma_inline_one_text(t: Seq<char>, i: int)
    requires
        0 <= i < t.len(),
    ensures
        node_text(inline_one(t, i).0).len() <= inline_one(t, i).1 - i,
{
    if opens_strike(t, i) || opens_strong(t, i) {
        lemma_delimited(t, i, t[i], 2);
    } else if opens_emph(t, i) {
        lemma_delimited(t, i, t[i], 1);
    } else if opens_code(t, i) {
        if run_at(t, i, '`', 3) {
            lemma_code_block_text(t, i);
        } else {
            lemma_delimited(t, i, '`', 1);
        }
    } else if opens_image(t, i) {
        lemma_bracketed(t, i + 2);
    } else if opens_link(t, i) {
        lemma_bracketed(t, i + 1);
    } else {
        lemma_text_end(t, i + 1);
    }
}

proof fn lemma_inline_from_text(t: Seq<char>, i: int)
    requires
        0 <= i <= t.len(),
    ensures
        leaf_text(inline_from(t, i)).len() <= t.len() - i,
    decreases t.len() - i,
{
    if i < t.len() {
        let r = inline_one(t, i);
        lemma_inline_one(t, i);
        lemma_inline_one_text(t, i);
        lemma_inline_from_text(t, r.1);
        lemma_leaf_text_cons(r.0, inline_from(t, r.1));
    }
}

proof fn lemma_span_text(s: Seq<char>, lo: int, hi: int)
    requires
        0 <= lo <= hi <= s.len(),
    ensures
        leaf_text(inline_nodes(s.subrange(lo, hi))).len() <= hi - lo,
{
    lemma_inline_from_text(s.subrange(lo, hi), 0);
}

proof fn lemma_list_items_text(s: Seq<char>, p: int, ordered: bool)
    requires
        0 <= p <= s.len(),
    ensures
        items_text(list_items(s, p, ordered).0).len() <= list_items(s, p, ordered).1 - p,
    decreases s.len() - p,
{
    lemma_list_items(s, p, ordered);
    if p < s.len() && item_start(s, p, ordered) >= 0 {
        let st = item_start(s, p, ordered);
        if marker_end(s, p, ordered) >= 0 {
            lemma_marker_end(s, p, ordered);
        }
        lemma_find_run(s, st, '\n', 1);
        let e = line_end(s, st);
        let nx = after_run(s, e, 1);
        lemma_span_text(s, st, e);
        lemma_list_items_text(s, nx, ordered);
        lemma_list_items(s, nx, ordered);
        lemma_items_text_cons(inline_nodes(s.subrange(st, e)), list_items(s, nx, ordered).0);
    }
}

proof fn lemma_block_one_text(s: Seq<char>, i: int)
    requires
        0 <= i < s.len(),
    ensures
        match block_one(s, i).0 {
            Some(n) => node_text(n).len() <= block_one(s, i).1 - i,
            None => true,
        },
{
    lemma_block_one(s, i);
    if s[i] == '\n' {
    } else if s[i] == '#' {
        lemma_skip_char(s, i, '#');
        let h = skip_char(s, i, '#');
        lemma_skip_char(s, h, ' ');
        let sp = skip_char(s, h, ' ');
        lemma_find_run(s, sp, '\n', 1);
        lemma_span_text(s, sp, line_end(s, sp));
    } else if opens_quote(s, i) {
        let b = if i + 1 < s.len() && (s[i + 1] == ' ' || s[i + 1] == '\t') {
            i + 2
        } else {
            i + 1
        };
        lemma_find_run(s, b, '\n', 1);
        lemma_span_text(s, b, line_end(s, b));
    } else if run_at(s, i, '`', 3) {
        lemma_code_block_text(s, i);
    } else if marker_end(s, i, true) >= 0 {
        lemma_list_items_text(s, i, true);
    } else if marker_end(s, i, false) >= 0 {
        lemma_list_items_text(s, i, false);
    } else {
        lemma_find_run(s, i, '\n', 2);
        let e = para_text_end(s, i);
        let f = fold_newlines(s.subrange(i, e));
        lemma_inline_from_text(f, 0);
    }
}

proof fn lemma_blocks_from_text(s: Seq<char>, i: int)
    requires
        0 <= i <= s.len(),
    ensures
        leaf_text(blocks_from(s, i)).len() <= s.len() - i,
    decreases s.len() - i,
{
    if i < s.len() {
        let r = block_one(s, i);
        lemma_block_one(s, i);
        lemma_block_one_text(s, i);
        lemma_blocks_from_text(s, r.1);
        match r.0 {
            Some(n) => lemma_leaf_text_cons(n, blocks_from(s, r.1)),
            None => {},
        }
    }
}

/// Parsing consumes markers and never duplicates text: the literal text of
/// a parsed document, read in order, is no longer than the input.
pub proof fn lemma_leaf_text_no_longer(s: Seq<char>)
    ensures
        leaf_text(document(s)).len() <= s.len(),
{
    lemma_blocks_from_text(s, 0);
}


proof fn lemma_not_token(c: char)
    requires
        !is_token_char(c),
    ensures
        c != '#' && c != '*' && c != '_' && c != '~' && c != '-' && c != '`' && c != '['
            && c != '!' && c != '>',
{
    assert(token_table()[0].1 == '#');
    assert(token_table()[1].1 == '*');
    assert(token_table()[2].1 == '_');
    assert(token_table()[3].1 == '~');
    assert(token_table()[4].1 == '-');
    assert(token_table()[7].1 == '`');
    assert(token_table()[8].1 == '[');
    assert(token_table()[9].1 == '!');
    assert(token_table()[10].1 == '>');
}

/// Every character of `t` lies outside the token table and is no newline.
pub open spec fn plain(t: Seq<char>) -> bool {
    forall|j: int| 0 <= j < t.len() ==> !is_token_char(#[trigger] t[j]) && t[j] != '\n'
}

proof fn lemma_find_run_absent(t: Seq<char>, i: int, c: char, n: int)
    requires
        0 <= i <= t.len(),
        n >= 1,
        forall|j: int| i <= j < t.len() ==> t[j] != c,
    ensures
        find_run(t, i, c, n) == t.len(),
    decreases t.len() - i,
{
    if i < t.len() {
        assert(t[i] != c);
        assert(!run_at(t, i, c, n));
        lemma_find_run_absent(t, i + 1, c, n);
    }
}

proof fn lemma_text_end_plain(t: Seq<char>, j: int)
    requires
        0 <= j <= t.len(),
        plain(t),
    ensures
        text_end(t, j) == t.len(),
    decreases t.len() - j,
{
    if j < t.len() {
        lemma_not_token(t[j]);
        assert(!opens_inline(t, j));
        lemma_text_end_plain(t, j + 1);
    }
}

/// Text without constructs stays whole: a nonempty input with no character
/// of the token table and no newline, which does not open an ordered list,
/// parses to one paragraph holding exactly one plain text node, equal to the
/// input.
pub proof fn lemma_plain_text(s: Seq<char>)
    requires
        s.len() > 0,
        plain(s),
        marker_end(s, 0, true) < 0,
    ensures
        document(s) == seq![NodeModel::Paragraph(seq![NodeModel::Str(s)])],
{
    lemma_not_token(s[0]);
    lemma_not_token(s[s.len() - 1]);
    lemma_find_run_absent(s, 0, '\n', 2);
    assert(fold_newlines(s.subrange(0, s.len() as int)) =~= s);
    assert(!opens_inline(s, 0));
    lemma_text_end_plain(s, 1);
    assert(s.subrange(0, s.len() as int) =~= s);
    assert(inline_one(s, 0) == (NodeModel::Str(s), s.len() as int));
    assert(inline_from(s, s.len() as int) =~= Seq::<NodeModel>::empty());
    assert(inline_from(s, 0) =~= seq![NodeModel::Str(s)]);
    assert(block_one(s, 0) == (Some(NodeModel::Paragraph(seq![NodeModel::Str(s)])), s.len() as int));
    assert(blocks_from(s, s.len() as int) =~= Seq::<NodeModel>::empty());
    assert(blocks_from(s, 0) =~= seq![NodeModel::Paragraph(seq![NodeModel::Str(s)])]);
}

} // verus!
