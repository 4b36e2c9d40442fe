//! Byte positions in UTF-8 text, kept consistent with the character
//! sequences the library's contracts speak of, and substring search.

use vstd::prelude::*;

verus! {

/// How many bytes one character occupies in UTF-8.
pub open spec fn char_utf8_len(c: char) -> int {
    if (c as u32) < 0x80 {
        1
    } else if (c as u32) < 0x800 {
        2
    } else if (c as u32) < 0x10000 {
        3
    } else {
        4
    }
}

pub fn char_len(c: char) -> (n: usize)
    ensures
        n == char_utf8_len(c),
        1 <= n <= 4,
{
    let u = c as u32;
    proof {
        assert(!(0xD800 <= u && u <= 0xDFFF));
    }
    if u < 0x80 {
        1
    } else if u < 0x800 {
        2
    } else if u < 0x10000 {
        3
    } else {
        4
    }
}

/// The UTF-8 byte length of a character sequence: what `str::len` returns
/// for a string with these characters.
pub open spec fn bytes_len(s: Seq<char>) -> int {
    vstd::utf8::encode_utf8(s).len() as int
}

/// The character index reached after consuming `b` bytes from character
/// index `i`, when `b` lands exactly on a character boundary.
pub open spec fn byte_steps(s: Seq<char>, i: int, b: int) -> Option<int>
    decreases s.len() - i,
{
    if b == 0 {
        Option::Some(i)
    } else if b < 0 || i < 0 || i >= s.len() {
        Option::None
    } else {
        byte_steps(s, i + 1, b - char_utf8_len(s[i]))
    }
}

/// The character index `b` bytes into `s`, when that is a boundary.
pub open spec fn byte_to_char(s: Seq<char>, b: int) -> Option<int> {
    byte_steps(s, 0, b)
}

/// Walks `b` bytes into `s` and reports the character index of that
/// boundary, or `None` when `b` does not land on one.
pub fn byte_to_char_idx(s: &str, b: usize) -> (r: Option<usize>)
    ensures
        match r {
            Some(j) => byte_to_char(s@, b as int) == Option::<int>::Some(j as int) && j
                <= s@.len(),
            None => byte_to_char(s@, b as int) is None,
        },
{
    let n = s.unicode_len();
    let mut i: usize = 0;
    let mut rem: usize = b;
    while rem > 0
        invariant
            0 <= i <= n,
            n == s@.len(),
            byte_to_char(s@, b as int) == byte_steps(s@, i as int, rem as int),
        decreases s@.len() - i,
    {
        if i >= n {
            return None;
        }
        let cl = char_len(s.get_char(i));
        if cl > rem {
            proof {
                assert(byte_steps(s@, i as int, rem as int) == byte_steps(
                    s@,
                    i + 1 as int,
                    rem - cl as int,
                ));
            }
            return None;
        }
        rem = rem - cl;
        i = i + 1;
    }
    Some(i)
}

/// The first index at or after `i` where `p` occurs in `s`, or `s.len()`
/// when it occurs nowhere there.
pub open spec fn find_sub(s: Seq<char>, p: Seq<char>, i: int) -> int
    decreases s.len() - i,
    via find_sub_dec
{
    if i < 0 || i + p.len() > s.len() {
        s.len() as int
    } else if s.subrange(i, i + p.len() as int) == p {
        i
    } else {
        find_sub(s, p, i + 1)
    }
}

#[via_fn]
proof fn find_sub_dec(s: Seq<char>, p: Seq<char>, i: int) {
    if !(i < 0 || i + p.len() > s.len()) && p.len() == 0 {
        assert(s.subrange(i, i + p.len() as int) =~= p);
    }
}

/// Whether `p` occurs in `s` at all.
pub open spec fn has_sub(s: Seq<char>, p: Seq<char>) -> bool {
    find_sub(s, p, 0) + p.len() <= s.len()
}

pub proof fn lemma_find_sub_bounds(s: Seq<char>, p: Seq<char>, i: int)
    requires
        0 <= i <= s.len(),
    ensures
        i <= find_sub(s, p, i) <= s.len(),
        find_sub(s, p, i) + p.len() <= s.len() ==> s.subrange(
            find_sub(s, p, i),
            find_sub(s, p, i) + p.len() as int,
        ) == p,
    decreases s.len() - i,
{
    if !(i + p.len() > s.len()) && !(s.subrange(i, i + p.len() as int) == p) {
        assert(p.len() > 0) by {
            if p.len() == 0 {
                assert(s.subrange(i, i + p.len() as int) =~= p);
            }
        }
        lemma_find_sub_bounds(s, p, i + 1);
    }
}

fn match_at(s: &str, p: &str, i: usize) -> (r: bool)
    requires
        i + p@.len() <= s@.len(),
    ensures
        r == (s@.subrange(i as int, i + p@.len() as int) == p@),
{
    let n = s.unicode_len();
    let m = p.unicode_len();
    let mut k: usize = 0;
    while k < m
        invariant
            0 <= k <= m == p@.len(),
            n == s@.len(),
            i + m <= s@.len(),
            forall|t: int| 0 <= t < k ==> s@[i + t] == p@[t],
        decreases m - k,
    {
        if s.get_char(i + k) != p.get_char(k) {
            proof {
                assert(s@.subrange(i as int, i + p@.len() as int)[k as int] == s@[i + k]);
            }
            return false;
        }
        k += 1;
    }
    proof {
        assert(s@.subrange(i as int, i + p@.len() as int) =~= p@);
    }
    true
}

pub fn find_sub_from(s: &str, p: &str, i: usize) -> (r: usize)
    requires
        i <= s@.len(),
    ensures
        r as int == find_sub(s@, p@, i as int),
        i <= r <= s@.len(),
    decreases s@.len() - i,
{
    proof {
        lemma_find_sub_bounds(s@, p@, i as int);
    }
    let n = s.unicode_len();
    let m = p.unicode_len();
    if m > n - i {
        return n;
    }
    if match_at(s, p, i) {
        return i;
    }
    find_sub_from(s, p, i + 1)
}

/// Whether `p` occurs anywhere in `s`.
pub fn contains_sub(s: &str, p: &str) -> (r: bool)
    ensures
        r == has_sub(s@, p@),
{
    let n = s.unicode_len();
    let m = p.unicode_len();
    let idx = find_sub_from(s, p, 0);
    proof {
        lemma_find_sub_bounds(s@, p@, 0);
    }
    m <= n - idx
}

} // verus!
