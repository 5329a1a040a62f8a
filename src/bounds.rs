use vstd::prelude::*;
use crate::grammar::{
    after_run, block_one, bracket_complete, bracketed, code_block, delimited, find_run, inline_one,
    is_digit, item_start, line_end, list_items, marker_end, opens_code, opens_emph, opens_image,
    opens_inline, opens_link, opens_quote, opens_strike, opens_strong, run_at, skip_char,
    skip_digits, text_end,
};

verus! {

pub proof fn lemma_find_run(t: Seq<char>, i: int, c: char, n: int)
    requires
        0 <= i <= t.len(),
        n >= 1,
    ensures
        i <= find_run(t, i, c, n) <= t.len(),
        find_run(t, i, c, n) < t.len() ==> run_at(t, find_run(t, i, c, n), c, n),
    decreases t.len() - i,
{
    if i < t.len() && !run_at(t, i, c, n) {
        lemma_find_run(t, i + 1, c, n);
    }
}

pub proof fn lemma_skip_char(t: Seq<char>, i: int, c: char)
    requires
        0 <= i <= t.len(),
    ensures
        i <= skip_char(t, i, c) <= t.len(),
    decreases t.len() - i,
{
    if i < t.len() && t[i] == c {
        lemma_skip_char(t, i + 1, c);
    }
}

pub proof fn lemma_skip_digits(t: Seq<char>, i: int)
    requires
        0 <= i <= t.len(),
    ensures
        i <= skip_digits(t, i) <= t.len(),
        skip_digits(t, i) < t.len() ==> !is_digit(t[skip_digits(t, i)]),
    decreases t.len() - i,
{
    if i < t.len() && is_digit(t[i]) {
        lemma_skip_digits(t, i + 1);
    }
}

pub proof fn lemma_text_end(t: Seq<char>, j: int)
    requires
        0 <= j <= t.len(),
    ensures
        j <= text_end(t, j) <= t.len(),
    decreases t.len() - j,
{
    if j < t.len() && !opens_inline(t, j) {
        lemma_text_end(t, j + 1);
    }
}

pub proof fn lemma_delimited(t: Seq<char>, i: int, c: char, n: int)
    requires
        0 <= i,
        i + n <= t.len(),
        n >= 1,
    ensures
        i + n <= delimited(t, i, c, n).1 <= t.len(),
        i + n <= find_run(t, i + n, c, n) <= t.len(),
{
    lemma_find_run(t, i + n, c, n);
}

pub proof fn lemma_code_block(t: Seq<char>, i: int)
    requires
        run_at(t, i, '`', 3),
    ensures
        i + 3 <= code_block(t, i).1 <= t.len(),
{
    let nl = find_run(t, i + 3, '\n', 1);
    lemma_find_run(t, i + 3, '\n', 1);
    let b = after_run(t, nl, 1);
    lemma_find_run(t, b, '`', 3);
}

pub proof fn lemma_bracketed(t: Seq<char>, s: int)
    requires
        0 <= s <= t.len(),
        bracket_complete(t, s),
    ensures
        s <= find_run(t, s, ']', 1),
        find_run(t, s, ']', 1) + 2 <= find_run(t, find_run(t, s, ']', 1) + 2, ')', 1) < t.len(),
        bracketed(t, s).2 <= t.len(),
        s < bracketed(t, s).2,
{
    lemma_find_run(t, s, ']', 1);
    let rb = find_run(t, s, ']', 1);
    lemma_find_run(t, rb + 2, ')', 1);
}

pub proof fn lemma_inline_one(t: Seq<char>, i: int)
    requires
        0 <= i < t.len(),
    ensures
        i < inline_one(t, i).1 <= t.len(),
{
    if opens_strike(t, i) || opens_strong(t, i) {
        lemma_delimited(t, i, t[i], 2);
    } else if opens_emph(t, i) {
        lemma_delimited(t, i, t[i], 1);
    } else if opens_code(t, i) {
        if run_at(t, i, '`', 3) {
            lemma_code_block(t, i);
        } else {
            lemma_delimited(t, i, '`', 1);
        }
    } else if opens_image(t, i) {
        lemma_bracketed(t, i + 2);
    } else if opens_link(t, i) {
        lemma_bracketed(t, i + 1);
    } else {
        lemma_text_end(t, i + 1);
    }
}

pub proof fn lemma_marker_end(s: Seq<char>, p: int, ordered: bool)
    requires
        0 <= p < s.len(),
        marker_end(s, p, ordered) >= 0,
    ensures
        p < marker_end(s, p, ordered) <= s.len(),
{
    if ordered {
        lemma_skip_digits(s, p);
    }
}

pub proof fn lemma_list_items(s: Seq<char>, p: int, ordered: bool)
    requires
        0 <= p <= s.len(),
    ensures
        p <= list_items(s, p, ordered).1 <= s.len(),
        p < s.len() && marker_end(s, p, ordered) >= 0 ==> p < list_items(s, p, ordered).1,
    decreases s.len() - p,
{
    if p < s.len() && item_start(s, p, ordered) >= 0 {
        let st = item_start(s, p, ordered);
        if marker_end(s, p, ordered) >= 0 {
            lemma_marker_end(s, p, ordered);
        }
        lemma_find_run(s, st, '\n', 1);
        let nx = after_run(s, line_end(s, st), 1);
        if p < nx <= s.len() {
            lemma_list_items(s, nx, ordered);
        }
    }
}

pub proof fn lemma_block_one(s: Seq<char>, i: int)
    requires
        0 <= i < s.len(),
    ensures
        i < block_one(s, i).1 <= s.len(),
{
    if s[i] == '\n' {
    } else if s[i] == '#' {
        lemma_skip_char(s, i + 1, '#');
        let h = skip_char(s, i, '#');
        lemma_skip_char(s, h, ' ');
        lemma_find_run(s, skip_char(s, h, ' '), '\n', 1);
    } else if opens_quote(s, i) {
        let b = if i + 1 < s.len() && (s[i + 1] == ' ' || s[i + 1] == '\t') {
            i + 2
        } else {
            i + 1
        };
        lemma_find_run(s, b, '\n', 1);
    } else if run_at(s, i, '`', 3) {
        lemma_code_block(s, i);
    } else if marker_end(s, i, true) >= 0 {
        lemma_marker_end(s, i, true);
        lemma_list_items(s, i, true);
        assert(item_start(s, i, true) >= 0);
        lemma_find_run(s, item_start(s, i, true), '\n', 1);
    } else if marker_end(s, i, false) >= 0 {
        lemma_marker_end(s, i, false);
        lemma_list_items(s, i, false);
        lemma_find_run(s, item_start(s, i, false), '\n', 1);
    } else {
        lemma_find_run(s, i, '\n', 2);
        assert(find_run(s, i, '\n', 2) != i);
    }
}

} // verus!
