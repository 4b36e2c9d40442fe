//! The wiki-link pre-pass: rewrites the bracket-pipe shorthand `[[target]]`
//! and `[[target|label]]` into site-local Markdown links before rendering.

use vstd::prelude::*;
use crate::strutil::{find_char, lemma_find_char_bounds, push_char};

verus! {

pub open spec fn is_trim_ws(c: char) -> bool {
    c == ' ' || c == '\t' || c == '\n' || c == '\r'
}

pub open spec fn trim_start(s: Seq<char>) -> Seq<char>
    decreases s.len(),
{
    if s.len() > 0 && is_trim_ws(s[0]) {
        trim_start(s.subrange(1, s.len() as int))
    } else {
        s
    }
}

pub open spec fn trim_end(s: Seq<char>) -> Seq<char>
    decreases s.len(),
{
    if s.len() > 0 && is_trim_ws(s.last()) {
        trim_end(s.drop_last())
    } else {
        s
    }
}

pub open spec fn trimmed(s: Seq<char>) -> Seq<char> {
    trim_end(trim_start(s))
}

proof fn lemma_trim_start_at(s: Seq<char>, a: int)
    requires
        0 <= a <= s.len(),
        forall|k: int| 0 <= k < a ==> is_trim_ws(s[k]),
        a < s.len() ==> !is_trim_ws(s[a]),
    ensures
        trim_start(s) == s.subrange(a, s.len() as int),
    decreases a,
{
    if a == 0 {
        if s.len() > 0 {
            assert(!is_trim_ws(s[0]));
        }
        assert(s.subrange(0, s.len() as int) =~= s);
    } else {
        let t = s.subrange(1, s.len() as int);
        lemma_trim_start_at(t, a - 1);
        assert(t.subrange(a - 1, t.len() as int) =~= s.subrange(a, s.len() as int));
    }
}

proof fn lemma_trim_end_at(s: Seq<char>, b: int)
    requires
        0 <= b <= s.len(),
        forall|k: int| b <= k < s.len() ==> is_trim_ws(s[k]),
        b > 0 ==> !is_trim_ws(s[b - 1]),
    ensures
        trim_end(s) == s.subrange(0, b),
    decreases s.len() - b,
{
    if b == s.len() {
        if s.len() > 0 {
            assert(!is_trim_ws(s.last()));
        }
        assert(s.subrange(0, s.len() as int) =~= s);
    } else {
        let t = s.drop_last();
        lemma_trim_end_at(t, b);
        assert(t.subrange(0, b) =~= s.subrange(0, b));
    }
}

fn is_trim_ws_exec(c: char) -> (r: bool)
    ensures
        r == is_trim_ws(c),
{
    c == ' ' || c == '\t' || c == '\n' || c == '\r'
}

/// Copies `s[lo..hi]` with leading and trailing whitespace removed.
pub(crate) fn trim_range(s: &str, lo: usize, hi: usize) -> (r: String)
    requires
        lo <= hi <= s@.len(),
    ensures
        r@ == trimmed(s@.subrange(lo as int, hi as int)),
{
    let ghost sub = s@.subrange(lo as int, hi as int);
    let mut a: usize = lo;
    while a < hi && is_trim_ws_exec(s.get_char(a))
        invariant
            lo <= a <= hi <= s@.len(),
            forall|k: int| lo <= k < a ==> is_trim_ws(s@[k]),
        decreases hi - a,
    {
        a += 1;
    }
    let mut b: usize = hi;
    while b > a && is_trim_ws_exec(s.get_char(b - 1))
        invariant
            lo <= a <= b <= hi <= s@.len(),
            forall|k: int| lo <= k < a ==> is_trim_ws(s@[k]),
            forall|k: int| b <= k < hi ==> is_trim_ws(s@[k]),
            a < hi ==> !is_trim_ws(s@[a as int]),
        decreases b - a,
    {
        b -= 1;
    }
    proof {
        lemma_trim_start_at(sub, a - lo as int);
        let t = sub.subrange(a - lo as int, sub.len() as int);
        lemma_trim_end_at(t, b - a as int);
        assert(t.subrange(0, b - a as int) =~= s@.subrange(a as int, b as int));
    }
    s.substring_char(a, b).to_owned()
}

/// The first position `j` in `[i, s.len() - 1)` where `c1 c2` occur adjacent,
/// or the length when there is none.
pub open spec fn find_pair(s: Seq<char>, c1: char, c2: char, i: int) -> int
    decreases s.len() - i,
{
    if i < 0 || i + 1 >= s.len() {
        s.len() as int
    } else if s[i] == c1 && s[i + 1] == c2 {
        i
    } else {
        find_pair(s, c1, c2, i + 1)
    }
}

proof fn lemma_find_pair_bounds(s: Seq<char>, c1: char, c2: char, i: int)
    requires
        0 <= i <= s.len(),
    ensures
        i <= find_pair(s, c1, c2, i),
        find_pair(s, c1, c2, i) == s.len() || find_pair(s, c1, c2, i) + 1 < s.len(),
        find_pair(s, c1, c2, i) < s.len() ==> s[find_pair(s, c1, c2, i)] == c1 && s[find_pair(
            s,
            c1,
            c2,
            i,
        ) + 1] == c2,
    decreases s.len() - i,
{
    if !(i + 1 >= s.len()) && !(s[i] == c1 && s[i + 1] == c2) {
        lemma_find_pair_bounds(s, c1, c2, i + 1);
    }
}

fn find_pair_from(s: &str, c1: char, c2: char, i: usize) -> (r: usize)
    requires
        i <= s@.len(),
    ensures
        r as int == find_pair(s@, c1, c2, i as int),
        i <= r <= s@.len(),
        r < s@.len() ==> r + 1 < s@.len(),
    decreases s@.len() - i,
{
    proof {
        lemma_find_pair_bounds(s@, c1, c2, i as int);
    }
    let n = s.unicode_len();
    if n - i <= 1 {
        return n;
    }
    if s.get_char(i) == c1 && s.get_char(i + 1) == c2 {
        return i;
    }
    find_pair_from(s, c1, c2, i + 1)
}

/// Whether the inside of a `[[...]]` form is a rewritable wiki link: a
/// non-empty target, and when a pipe is present, a non-empty label after a
/// non-empty target.
pub open spec fn wiki_inner_ok(inner: Seq<char>) -> bool {
    let p = find_char(inner, '|', 0);
    inner.len() > 0 && (p == inner.len() || (p > 0 && p + 1 < inner.len()))
}

/// The rewrite of `s[i..]`: each `[[target]]` becomes `[target](@/target)`
/// and each `[[target|label]]` becomes `[label](@/target)`, targets and
/// labels trimmed; any bracket pair that is not a wiki link stays verbatim.
pub open spec fn wiki_rewrite(s: Seq<char>, i: int) -> Seq<char>
    decreases s.len() - i,
    via wiki_rewrite_dec
{
    if !(0 <= i < s.len()) {
        Seq::empty()
    } else {
        let o = find_pair(s, '[', '[', i);
        if o == s.len() {
            s.subrange(i, s.len() as int)
        } else {
            let j = find_pair(s, ']', ']', o + 2);
            if j == s.len() {
                s.subrange(i, s.len() as int)
            } else {
                let inner = s.subrange(o + 2, j);
                if !wiki_inner_ok(inner) {
                    s.subrange(i, o + 2) + wiki_rewrite(s, o + 2)
                } else {
                    let p = find_char(inner, '|', 0);
                    let target = if p == inner.len() {
                        trimmed(inner)
                    } else {
                        trimmed(inner.subrange(0, p))
                    };
                    let label = if p == inner.len() {
                        target
                    } else {
                        trimmed(inner.subrange(p + 1, inner.len() as int))
                    };
                    s.subrange(i, o) + seq!['['] + label + seq![']', '(', '@', '/'] + target
                        + seq![')'] + wiki_rewrite(s, j + 2)
                }
            }
        }
    }
}

#[via_fn]
proof fn wiki_rewrite_dec(s: Seq<char>, i: int) {
    if 0 <= i < s.len() {
        lemma_find_pair_bounds(s, '[', '[', i);
        let o = find_pair(s, '[', '[', i);
        if o < s.len() {
            lemma_find_pair_bounds(s, ']', ']', o + 2);
        }
    }
}

/// Appends `s[lo..hi]` to `out`.
fn append_range(out: &mut String, s: &str, lo: usize, hi: usize)
    requires
        lo <= hi <= s@.len(),
    ensures
        final(out)@ == old(out)@ + s@.subrange(lo as int, hi as int),
{
    let piece = s.substring_char(lo, hi);
    out.append(piece);
}

fn wiki_rec(s: &str, i: usize) -> (r: String)
    requires
        i <= s@.len(),
    ensures
        r@ == wiki_rewrite(s@, i as int),
    decreases s@.len() - i,
{
    let n = s.unicode_len();
    if i >= n {
        return String::new();
    }
    let o = find_pair_from(s, '[', '[', i);
    if o == n {
        return s.substring_char(i, n).to_owned();
    }
    proof {
        lemma_find_pair_bounds(s@, '[', '[', i as int);
    }
    let j = find_pair_from(s, ']', ']', o + 2);
    if j == n {
        return s.substring_char(i, n).to_owned();
    }
    proof {
        lemma_find_pair_bounds(s@, ']', ']', o + 2 as int);
    }
    let ghost inner = s@.subrange(o + 2 as int, j as int);
    let p_abs = find_char_in_range(s, o + 2, j);
    let ghost p = find_char(inner, '|', 0);
    proof {
        lemma_find_char_bounds(inner, '|', 0);
    }
    let inner_len = j - (o + 2);
    let ok: bool = inner_len > 0 && (p_abs == j || (p_abs > o + 2 && p_abs + 1 < j));
    proof {
        assert(p_abs - (o + 2) == p);
    }
    if !ok {
        let mut out = String::new();
        append_range(&mut out, s, i, o + 2);
        let rest = wiki_rec(s, o + 2);
        out.append(rest.as_str());
        return out;
    }
    let target = if p_abs == j {
        trim_range(s, o + 2, j)
    } else {
        trim_range(s, o + 2, p_abs)
    };
    proof {
        if p == inner.len() {
            assert(s@.subrange(o + 2 as int, j as int) =~= inner);
        } else {
            assert(s@.subrange(o + 2 as int, p_abs as int) =~= inner.subrange(0, p));
        }
    }
    let label = if p_abs == j {
        target.clone()
    } else {
        proof {
            assert(s@.subrange(p_abs + 1 as int, j as int) =~= inner.subrange(
                p + 1,
                inner.len() as int,
            ));
        }
        trim_range(s, p_abs + 1, j)
    };
    let mut out = String::new();
    append_range(&mut out, s, i, o);
    push_char(&mut out, '[');
    out.append(label.as_str());
    push_char(&mut out, ']');
    push_char(&mut out, '(');
    push_char(&mut out, '@');
    push_char(&mut out, '/');
    out.append(target.as_str());
    push_char(&mut out, ')');
    let rest = wiki_rec(s, j + 2);
    out.append(rest.as_str());
    proof {
        assert(out@ =~= s@.subrange(i as int, o as int) + seq!['['] + label@ + seq![
            ']',
            '(',
            '@',
            '/',
        ] + target@ + seq![')'] + wiki_rewrite(s@, j + 2 as int));
    }
    out
}

/// The first position of `c = '|'` within `s[lo..hi)`, or `hi` when none.
fn find_char_in_range(s: &str, lo: usize, hi: usize) -> (r: usize)
    requires
        lo <= hi <= s@.len(),
    ensures
        r - lo == find_char(s@.subrange(lo as int, hi as int), '|', 0),
        lo <= r <= hi,
    decreases hi - lo,
{
    let ghost sub = s@.subrange(lo as int, hi as int);
    let mut k: usize = lo;
    while k < hi && s.get_char(k) != '|'
        invariant
            lo <= k <= hi <= s@.len(),
            sub == s@.subrange(lo as int, hi as int),
            forall|t: int| lo <= t < k ==> s@[t] != '|',
        decreases hi - k,
    {
        k += 1;
    }
    proof {
        lemma_find_char_char(sub, '|', 0, k - lo as int);
    }
    k
}

proof fn lemma_find_char_char(s: Seq<char>, c: char, a: int, e: int)
    requires
        0 <= a <= e <= s.len(),
        forall|k: int| a <= k < e ==> s[k] != c,
        e < s.len() ==> s[e] == c,
    ensures
        find_char(s, c, a) == e,
    decreases e - a,
{
    if a < e {
        lemma_find_char_char(s, c, a + 1, e);
    }
}

/// Rewrites every wiki-style link shorthand in `content` into the site-local
/// Markdown link syntax.
pub fn parse_wiki_style_links(content: &str) -> (r: String)
    ensures
        r@ == wiki_rewrite(content@, 0),
{
    wiki_rec(content, 0)
}

} // verus!
