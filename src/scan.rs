use vstd::prelude::*;
use crate::bounds::{lemma_find_run, lemma_skip_char, lemma_skip_digits};
use vstd::std_specs::iter::IteratorSpec;
use crate::grammar::{find_run, fold_newlines, run_at, skip_char, skip_digits};

verus! {

/// Relies on `String::push`: the character is appended at the end.
#[verifier::external_body]
fn push_char(s: &mut String, c: char)
    ensures
        final(s)@ == old(s)@.push(c),
{
    s.push(c)
}

/// The characters of a string, in order.
pub fn chars_of(s: &String) -> (r: Vec<char>)
    ensures
        r@ == s@,
{
    broadcast use vstd::string::axiom_spec_iter, vstd::string::next_postcondition;

    let mut v: Vec<char> = Vec::new();
    let mut it = s.as_str().chars();
    loop
        invariant
            v@ + it.remaining() == s@,
            it.obeys_prophetic_iter_laws(),
            it.decrease() is Some,
        decreases it.decrease()->0,
    {
        match it.next() {
            Some(c) => {
                v.push(c);
                assert(v@ + it.remaining() =~= s@);
            },
            None => {
                assert(v@ =~= s@);
                return v;
            },
        }
    }
}

/// The text of `t` between `lo` and `hi`.
pub fn text_of(t: &Vec<char>, lo: usize, hi: usize) -> (r: String)
    requires
        lo <= hi <= t.len(),
    ensures
        r@ == t@.subrange(lo as int, hi as int),
{
    let mut r = String::new();
    let mut k: usize = lo;
    while k < hi
        invariant
            lo <= k <= hi <= t.len(),
            r@ == t@.subrange(lo as int, k as int),
        decreases hi - k,
    {
        push_char(&mut r, t[k]);
        k = k + 1;
        assert(r@ =~= t@.subrange(lo as int, k as int));
    }
    r
}

/// A copy of the characters of `t` between `lo` and `hi`.
pub fn chars_between(t: &Vec<char>, lo: usize, hi: usize) -> (r: Vec<char>)
    requires
        lo <= hi <= t.len(),
    ensures
        r@ == t@.subrange(lo as int, hi as int),
{
    let mut r: Vec<char> = Vec::new();
    let mut k: usize = lo;
    while k < hi
        invariant
            lo <= k <= hi <= t.len(),
            r@ == t@.subrange(lo as int, k as int),
        decreases hi - k,
    {
        r.push(t[k]);
        k = k + 1;
        assert(r@ =~= t@.subrange(lo as int, k as int));
    }
    r
}

/// The characters of `t` between `lo` and `hi`, each newline turned into a
/// space.
pub fn folded_between(t: &Vec<char>, lo: usize, hi: usize) -> (r: Vec<char>)
    requires
        lo <= hi <= t.len(),
    ensures
        r@ == fold_newlines(t@.subrange(lo as int, hi as int)),
{
    let mut r: Vec<char> = Vec::new();
    let mut k: usize = lo;
    while k < hi
        invariant
            lo <= k <= hi <= t.len(),
            r@ == fold_newlines(t@.subrange(lo as int, k as int)),
        decreases hi - k,
    {
        let c = t[k];
        if c == '\n' {
            r.push(' ');
        } else {
            r.push(c);
        }
        k = k + 1;
        assert(r@ =~= fold_newlines(t@.subrange(lo as int, k as int)));
    }
    r
}

/// Whether `n` copies of `c` start at position `i` of `t`.
pub fn run_at_pos(t: &Vec<char>, i: usize, c: char, n: usize) -> (r: bool)
    ensures
        r == run_at(t@, i as int, c, n as int),
{
    if i > t.len() || n > t.len() - i {
        return false;
    }
    let mut j: usize = 0;
    while j < n
        invariant
            i + n <= t.len(),
            j <= n,
            forall|m: int| i <= m < i + j ==> t@[m] == c,
        decreases n - j,
    {
        if t[i + j] != c {
            return false;
        }
        j = j + 1;
    }
    true
}

/// The first position at or after `i` where `n` copies of `c` start, or the
/// length of `t`.
pub fn find_run_from(t: &Vec<char>, i: usize, c: char, n: usize) -> (r: usize)
    requires
        i <= t.len(),
        n >= 1,
    ensures
        r as int == find_run(t@, i as int, c, n as int),
        i <= r <= t.len(),
        r < t.len() ==> r + n <= t.len(),
{
    proof {
        lemma_find_run(t@, i as int, c, n as int);
    }
    let mut k: usize = i;
    while k < t.len()
        invariant
            i <= k <= t.len(),
            find_run(t@, k as int, c, n as int) == find_run(t@, i as int, c, n as int),
        decreases t.len() - k,
    {
        if run_at_pos(t, k, c, n) {
            return k;
        }
        k = k + 1;
    }
    k
}

/// The first position at or after `i` that does not hold `c`.
pub fn skip_char_from(t: &Vec<char>, i: usize, c: char) -> (r: usize)
    requires
        i <= t.len(),
    ensures
        r as int == skip_char(t@, i as int, c),
        i <= r <= t.len(),
{
    proof {
        lemma_skip_char(t@, i as int, c);
    }
    let mut k: usize = i;
    while k < t.len() && t[k] == c
        invariant
            i <= k <= t.len(),
            skip_char(t@, k as int, c) == skip_char(t@, i as int, c),
        decreases t.len() - k,
    {
        k = k + 1;
    }
    k
}

/// The first position at or after `i` that does not hold a decimal digit.
pub fn skip_digits_from(t: &Vec<char>, i: usize) -> (r: usize)
    requires
        i <= t.len(),
    ensures
        r as int == skip_digits(t@, i as int),
        i <= r <= t.len(),
{
    proof {
        lemma_skip_digits(t@, i as int);
    }
    let mut k: usize = i;
    while k < t.len() && '0' <= t[k] && t[k] <= '9'
        invariant
            i <= k <= t.len(),
            skip_digits(t@, k as int) == skip_digits(t@, i as int),
        decreases t.len() - k,
    {
        k = k + 1;
    }
    k
}

} // verus!
