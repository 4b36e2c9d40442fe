//! Heading anchors: slug generation and collision-free anchor selection.

use vstd::prelude::*;
use vstd::set_lib::{lemma_int_range, lemma_len_subset, lemma_map_size, set_int_range};
use vstd::relations::injective_on;
use crate::strutil::{dec_digits, dec_string, lemma_dec_digits_injective, push_char, str_eq};

verus! {

/// The anchor obtained by appending `-<n>` to a slug.
pub open spec fn numbered(name: Seq<char>, n: nat) -> Seq<char> {
    name + seq!['-'] + dec_digits(n)
}

/// Whether the sequence of reserved anchors holds `s`.
pub open spec fn anchor_present(anchors: Seq<Seq<char>>, s: Seq<char>) -> bool {
    exists|i: int| 0 <= i < anchors.len() && anchors[i] == s
}

pub open spec fn strings_deep(ss: Seq<String>) -> Seq<Seq<char>> {
    ss.map(|i: int, s: String| s@)
}

fn contains_anchor(anchors: &[String], x: &str) -> (r: bool)
    ensures
        r == anchor_present(strings_deep(anchors@), x@),
{
    let ghost a = strings_deep(anchors@);
    let mut i: usize = 0;
    while i < anchors.len()
        invariant
            0 <= i <= anchors@.len(),
            a == strings_deep(anchors@),
            forall|j: int| 0 <= j < i ==> a[j] != x@,
        decreases anchors@.len() - i,
    {
        if str_eq(anchors[i].as_str(), x) {
            assert(a[i as int] == x@);
            return true;
        }
        i += 1;
    }
    false
}

proof fn lemma_append_cancel<A>(a: Seq<A>, b: Seq<A>, c: Seq<A>)
    requires
        a + b == a + c,
    ensures
        b == c,
{
    assert((a + b).len() == a.len() + b.len());
    assert((a + c).len() == a.len() + c.len());
    assert(b.len() == c.len());
    assert forall|i: int| 0 <= i < b.len() implies b[i] == c[i] by {
        assert((a + b)[a.len() + i] == b[i]);
        assert((a + c)[a.len() + i] == c[i]);
    }
    assert(b =~= c);
}

proof fn lemma_numbered_injective(name: Seq<char>, m1: nat, m2: nat)
    ensures
        numbered(name, m1) == numbered(name, m2) ==> m1 == m2,
{
    if numbered(name, m1) == numbered(name, m2) {
        assert((name + seq!['-']) + dec_digits(m1) =~= numbered(name, m1));
        assert((name + seq!['-']) + dec_digits(m2) =~= numbered(name, m2));
        lemma_append_cancel(name + seq!['-'], dec_digits(m1), dec_digits(m2));
        lemma_dec_digits_injective(m1, m2);
    }
}

/// Among any `anchors.len() + 1` consecutive counters some numbered anchor is
/// unused: the reserved list is too short to hold them all.
proof fn lemma_free_number_exists(a: Seq<Seq<char>>, name: Seq<char>, base: nat)
    ensures
        exists|m: int|
            base + 1 <= m < base + a.len() + 2 && !(#[trigger] anchor_present(
                a,
                numbered(name, m as nat),
            )),
{
    if !(exists|m: int|
        base + 1 <= m < base + a.len() + 2 && !(#[trigger] anchor_present(
            a,
            numbered(name, m as nat),
        ))) {
        // every candidate in the window is present: build an injection from
        // the window into the (shorter) index range of `a`.
        assert(forall|m: int|
            base + 1 <= m < base + a.len() + 2 ==> #[trigger] anchor_present(
                a,
                numbered(name, m as nat),
            ));
        let cset = set_int_range(base + 1 as int, base + a.len() + 2 as int);
        lemma_int_range(base + 1 as int, base + a.len() + 2 as int);
        let f = |m: int|
            choose|i: int| 0 <= i < a.len() && a[i] == numbered(name, m as nat);
        assert forall|m: int| cset.contains(m) implies 0 <= f(m) < a.len() && a[f(m)]
            == numbered(name, m as nat) by {
            assert(anchor_present(a, numbered(name, m as nat)));
        }
        assert(injective_on(f, cset)) by {
            assert forall|m1: int, m2: int|
                cset.contains(m1) && cset.contains(m2) && #[trigger] f(m1) == #[trigger] f(
                    m2,
                ) implies m1 == m2 by {
                assert(a[f(m1)] == numbered(name, m1 as nat));
                assert(a[f(m2)] == numbered(name, m2 as nat));
                lemma_numbered_injective(name, m1 as nat, m2 as nat);
            }
        }
        let image = cset.map(f);
        lemma_map_size(cset, image, f);
        let idxs = set_int_range(0, a.len() as int);
        lemma_int_range(0, a.len() as int);
        assert forall|b: int| image.contains(b) implies idxs.contains(b) by {
            let m = choose|m: int| cset.contains(m) && b == f(m);
            assert(0 <= f(m) < a.len());
        }
        lemma_len_subset(image, idxs);
        assert(false);
    }
}

/// The least positive counter whose numbered anchor is free.
pub open spec fn least_free_counter(anchors: Seq<Seq<char>>, name: Seq<char>) -> int {
    choose|n: int|
        1 <= n && !(#[trigger] anchor_present(anchors, numbered(name, n as nat))) && (forall|
            m: int,
        |
            1 <= m < n ==> #[trigger] anchor_present(anchors, numbered(name, m as nat)))
}

/// The anchor the deduplication grants a fresh request: the slug itself when
/// unused, else the slug numbered with the least free counter.
pub open spec fn dedup_anchor(anchors: Seq<Seq<char>>, name: Seq<char>) -> Seq<char> {
    if !anchor_present(anchors, name) {
        name
    } else {
        numbered(name, least_free_counter(anchors, name) as nat)
    }
}

/// Below every free counter there is a least one.
proof fn lemma_minimal_free(anchors: Seq<Seq<char>>, name: Seq<char>, n: int)
    requires
        1 <= n,
        !anchor_present(anchors, numbered(name, n as nat)),
    ensures
        exists|k: int|
            1 <= k && !(#[trigger] anchor_present(anchors, numbered(name, k as nat))) && (forall|
                m: int,
            |
                1 <= m < k ==> #[trigger] anchor_present(anchors, numbered(name, m as nat))),
    decreases n,
{
    if forall|m: int| 1 <= m < n ==> #[trigger] anchor_present(anchors, numbered(name, m as nat)) {
        assert(1 <= n && !(anchor_present(anchors, numbered(name, n as nat))) && (forall|m: int|
            1 <= m < n ==> #[trigger] anchor_present(anchors, numbered(name, m as nat))));
    } else {
        let m0 = choose|m: int|
            1 <= m < n && !(#[trigger] anchor_present(anchors, numbered(name, m as nat)));
        lemma_minimal_free(anchors, name, m0);
    }
}

/// Law: deduplication always grants an unreserved anchor — the granted id is
/// never among the anchors it was deduplicated against.
pub proof fn lemma_dedup_anchor_free(anchors: Seq<Seq<char>>, name: Seq<char>)
    ensures
        !anchor_present(anchors, dedup_anchor(anchors, name)),
{
    if anchor_present(anchors, name) {
        lemma_free_number_exists(anchors, name, 0);
        let w = choose|m: int|
            0 + 1 <= m < 0 + anchors.len() + 2 && !(#[trigger] anchor_present(
                anchors,
                numbered(name, m as nat),
            ));
        lemma_minimal_free(anchors, name, w);
        let c = least_free_counter(anchors, name);
        assert(1 <= c && !(anchor_present(anchors, numbered(name, c as nat))) && (forall|m: int|
            1 <= m < c ==> #[trigger] anchor_present(anchors, numbered(name, m as nat))));
    }
}

/// Deduplicates a requested anchor against the anchors already reserved.
///
/// With `level == 0` the request is the slug itself and is granted when free;
/// otherwise the counters `level + 1`, `level + 2`, ... are tried in order and
/// the first free `<name>-<n>` wins, so colliding slugs come out as `name`,
/// `name-1`, `name-2`, ...
pub fn find_anchor(anchors: &[String], name: String, level: u16) -> (r: String)
    ensures
        !anchor_present(strings_deep(anchors@), r@),
        level == 0 && !anchor_present(strings_deep(anchors@), name@) ==> r@ == name@,
        level == 0 ==> r@ == dedup_anchor(strings_deep(anchors@), name@),
        !(level == 0 && !anchor_present(strings_deep(anchors@), name@)) ==> exists|n: int|
            level + 1 <= n && r@ == #[trigger] numbered(name@, n as nat) && (forall|m: int|
                level + 1 <= m < n ==> #[trigger] anchor_present(
                    strings_deep(anchors@),
                    numbered(name@, m as nat),
                )),
{
    let ghost a = strings_deep(anchors@);
    if level == 0 && !contains_anchor(anchors, name.as_str()) {
        return name;
    }
    proof {
        lemma_free_number_exists(a, name@, level as nat);
    }
    let ghost fm = choose|m: int|
        level + 1 <= m < level + a.len() + 2 && !(#[trigger] anchor_present(
            a,
            numbered(name@, m as nat),
        ));
    let alen = anchors.len();
    proof {
        assert(a.len() == anchors@.len());
    }
    let mut n: u128 = level as u128 + 1;
    loop
        invariant
            a == strings_deep(anchors@),
            a.len() == alen as int,
            !(level == 0 && !anchor_present(a, name@)),
            level + 1 <= n <= fm,
            fm < level + a.len() + 2,
            !anchor_present(a, numbered(name@, fm as nat)),
            forall|m: int|
                level + 1 <= m < n ==> #[trigger] anchor_present(a, numbered(name@, m as nat)),
        decreases fm - n,
    {
        let ds = dec_string(n);
        let mut cand = name.clone();
        push_char(&mut cand, '-');
        cand.append(ds.as_str());
        proof {
            assert(cand@ =~= numbered(name@, n as nat));
        }
        if !contains_anchor(anchors, cand.as_str()) {
            proof {
                let k = n as int;
                assert(level + 1 <= k && cand@ == numbered(name@, k as nat) && (forall|m: int|
                    level + 1 <= m < k ==> #[trigger] anchor_present(
                        a,
                        numbered(name@, m as nat),
                    )));
                if level == 0 {
                    let c = least_free_counter(a, name@);
                    assert(1 <= c && !anchor_present(a, numbered(name@, c as nat)) && (forall|
                        m: int,
                    |
                        1 <= m < c ==> #[trigger] anchor_present(
                            a,
                            numbered(name@, m as nat),
                        ))) by {
                        assert(1 <= k && !anchor_present(a, numbered(name@, k as nat)) && (
                        forall|m: int|
                            1 <= m < k ==> #[trigger] anchor_present(
                                a,
                                numbered(name@, m as nat),
                            )));
                    }
                    assert(c == k) by {
                        if c < k {
                            assert(anchor_present(a, numbered(name@, c as nat)));
                        }
                        if k < c {
                            assert(anchor_present(a, numbered(name@, k as nat)));
                        }
                    }
                }
            }
            return cand;
        }
        proof {
            // the free counter is still ahead of us
            assert(n != fm);
        }
        n = n + 1;
    }
}

/// Characters a slug keeps: ASCII letters and digits.
pub open spec fn is_slug_keep(c: char) -> bool {
    ('a' <= c && c <= 'z') || ('A' <= c && c <= 'Z') || ('0' <= c && c <= '9')
}

/// ASCII lowercasing of one character.
pub open spec fn lower_char(c: char) -> char {
    if 'A' <= c && c <= 'Z' {
        (((c as u32) + 32) as u8) as char
    } else {
        c
    }
}

/// The characters of `s[i..j]`, lowercased.
pub open spec fn lowered(s: Seq<char>, i: int, j: int) -> Seq<char>
    decreases j - i,
{
    if i < j {
        lowered(s, i, j - 1).push(lower_char(s[j - 1]))
    } else {
        Seq::empty()
    }
}

/// The end of the kept-character run starting at `i`.
pub open spec fn run_end(s: Seq<char>, i: int) -> int
    decreases s.len() - i,
{
    if i < 0 || i >= s.len() {
        s.len() as int
    } else if !is_slug_keep(s[i]) {
        i
    } else {
        run_end(s, i + 1)
    }
}

pub proof fn lemma_run_end_bounds(s: Seq<char>, i: int)
    requires
        0 <= i <= s.len(),
    ensures
        i <= run_end(s, i) <= s.len(),
        forall|k: int| i <= k < run_end(s, i) ==> is_slug_keep(s[k]),
        run_end(s, i) < s.len() ==> !is_slug_keep(s[run_end(s, i)]),
    decreases s.len() - i,
{
    if i < s.len() && is_slug_keep(s[i]) {
        lemma_run_end_bounds(s, i + 1);
    }
}

/// The slug of `s[i..]`: maximal runs of kept characters, lowercased, joined
/// by single dashes; everything else acts as a separator and leaves no
/// leading or trailing dash.
pub open spec fn slug_from(s: Seq<char>, i: int) -> Seq<char>
    decreases s.len() - i,
    via slug_from_dec
{
    if !(0 <= i < s.len()) {
        Seq::empty()
    } else if !is_slug_keep(s[i]) {
        slug_from(s, i + 1)
    } else {
        let j = run_end(s, i);
        let rest = slug_from(s, j);
        if rest.len() == 0 {
            lowered(s, i, j)
        } else {
            lowered(s, i, j) + seq!['-'] + rest
        }
    }
}

#[via_fn]
proof fn slug_from_dec(s: Seq<char>, i: int) {
    if 0 <= i < s.len() && is_slug_keep(s[i]) {
        lemma_run_end_bounds(s, i);
        assert(run_end(s, i) == run_end(s, i + 1));
    }
}

pub open spec fn slug_of(s: Seq<char>) -> Seq<char> {
    slug_from(s, 0)
}

fn is_slug_keep_exec(c: char) -> (r: bool)
    ensures
        r == is_slug_keep(c),
{
    let u = c as u32;
    (97 <= u && u <= 122) || (65 <= u && u <= 90) || (48 <= u && u <= 57)
}

fn lower_char_exec(c: char) -> (r: char)
    ensures
        r == lower_char(c),
{
    let u = c as u32;
    if 65 <= u && u <= 90 {
        ((u + 32) as u8) as char
    } else {
        c
    }
}

fn slug_rec(s: &str, i: usize) -> (r: String)
    requires
        i <= s@.len(),
    ensures
        r@ == slug_from(s@, i as int),
    decreases s@.len() - i,
{
    let n = s.unicode_len();
    if i >= n {
        return String::new();
    }
    let c = s.get_char(i);
    if !is_slug_keep_exec(c) {
        return slug_rec(s, i + 1);
    }
    proof {
        lemma_run_end_bounds(s@, i as int);
    }
    let mut j: usize = i + 1;
    while j < n && is_slug_keep_exec(s.get_char(j))
        invariant
            i < j <= n == s@.len(),
            forall|k: int| i <= k < j ==> is_slug_keep(s@[k]),
        decreases n - j,
    {
        j += 1;
    }
    proof {
        lemma_run_end_bounds(s@, j as int);
        assert(run_end(s@, i as int) == j as int) by {
            lemma_run_end_char(s@, i as int, j as int);
        }
    }
    let mut word = String::new();
    let mut k: usize = i;
    while k < j
        invariant
            i <= k <= j <= s@.len(),
            word@ == lowered(s@, i as int, k as int),
        decreases j - k,
    {
        push_char(&mut word, lower_char_exec(s.get_char(k)));
        k += 1;
    }
    let rest = slug_rec(s, j);
    if rest.as_str().is_empty() {
        word
    } else {
        push_char(&mut word, '-');
        word.append(rest.as_str());
        proof {
            assert(word@ =~= lowered(s@, i as int, j as int) + seq!['-'] + rest@);
        }
        word
    }
}

proof fn lemma_run_end_char(s: Seq<char>, a: int, e: int)
    requires
        0 <= a <= e <= s.len(),
        forall|k: int| a <= k < e ==> is_slug_keep(s[k]),
        e < s.len() ==> !is_slug_keep(s[e]),
    ensures
        run_end(s, a) == e,
    decreases e - a,
{
    if a < e {
        lemma_run_end_char(s, a + 1, e);
    }
}

/// Computes the slug a heading anchor is generated from: ASCII letters and
/// digits are kept and lowercased, every other run of characters becomes a
/// single dash, with none leading or trailing.
pub fn slugify_anchors(s: &str) -> (r: String)
    ensures
        r@ == slug_of(s@),
{
    slug_rec(s, 0)
}

} // verus!
