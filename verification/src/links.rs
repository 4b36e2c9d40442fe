//! Link classification and resolution of site-local references against the
//! permalink table.

use vstd::prelude::*;
use crate::errors::RenderError;
use crate::strutil::{find_char, find_char_from, lemma_find_char_bounds, push_char, seq_starts_with,
    str_eq, str_starts_with};

verus! {

pub open spec fn is_external(link: Seq<char>) -> bool {
    seq_starts_with(link, "http:"@) || seq_starts_with(link, "https:"@)
}

/// Returns whether a link starts with an HTTP(S) scheme.
pub fn is_external_link(link: &str) -> (r: bool)
    ensures
        r == is_external(link@),
{
    if str_starts_with(link, "http:") {
        return true;
    }
    str_starts_with(link, "https:")
}

/// Result of resolving a site-local reference.
pub struct ResolvedLink {
    /// The target's permalink, with the `#anchor` fragment appended when the
    /// reference carried one.
    pub permalink: String,
    /// The document identifier the reference named.
    pub md_path: String,
    /// The anchor fragment of the reference, when present.
    pub anchor: Option<String>,
}

/// The permalink the table maps `key` to: the first matching entry wins.
pub open spec fn lookup_permalink(t: Seq<(Seq<char>, Seq<char>)>, key: Seq<char>) -> Option<
    Seq<char>,
>
    decreases t.len(),
{
    if t.len() == 0 {
        Option::None
    } else if t[0].0 == key {
        Option::Some(t[0].1)
    } else {
        lookup_permalink(t.subrange(1, t.len() as int), key)
    }
}

pub open spec fn table_view(t: Seq<(String, String)>) -> Seq<(Seq<char>, Seq<char>)> {
    t.map(|i: int, p: (String, String)| (p.0@, p.1@))
}

fn lookup_exec(permalinks: &Vec<(String, String)>, key: &str) -> (r: Option<String>)
    ensures
        match lookup_permalink(table_view(permalinks@), key@) {
            Option::Some(p) => r matches Some(v) && v@ == p,
            Option::None => r is None,
        },
{
    let ghost tv = table_view(permalinks@);
    proof {
        assert(tv.subrange(0, tv.len() as int) =~= tv);
    }
    let mut i: usize = 0;
    while i < permalinks.len()
        invariant
            0 <= i <= permalinks@.len(),
            tv == table_view(permalinks@),
            tv.len() == permalinks@.len(),
            lookup_permalink(tv, key@) == lookup_permalink(
                tv.subrange(i as int, tv.len() as int),
                key@,
            ),
        decreases permalinks@.len() - i,
    {
        let ghost suf = tv.subrange(i as int, tv.len() as int);
        proof {
            assert(suf[0] == tv[i as int]);
        }
        if str_eq(permalinks[i].0.as_str(), key) {
            return Some(permalinks[i].1.clone());
        }
        proof {
            assert(suf.subrange(1, suf.len() as int) =~= tv.subrange(
                i + 1 as int,
                tv.len() as int,
            ));
        }
        i += 1;
    }
    proof {
        assert(lookup_permalink(tv.subrange(tv.len() as int, tv.len() as int), key@) is None);
    }
    None
}

/// Resolves a `@/<document-id>[#<anchor>]` reference against the permalink
/// table: fails with `UnknownDocument` when the identifier is absent, and
/// otherwise yields the permalink (with the fragment appended), the
/// identifier, and the fragment.
pub fn resolve_internal_link(link: &str, permalinks: &Vec<(String, String)>) -> (r: Result<
    ResolvedLink,
    RenderError,
>)
    requires
        seq_starts_with(link@, "@/"@),
    ensures
        ({
            let body = link@.subrange(2, link@.len() as int);
            let h = find_char(body, '#', 0);
            let path = body.subrange(0, h);
            match lookup_permalink(table_view(permalinks@), path) {
                Option::None => r matches Err(e) && (e matches RenderError::UnknownDocument(d)
                    && d@ == path),
                Option::Some(p) => r matches Ok(res) && res.md_path@ == path && (if h
                    < body.len() {
                    res.anchor matches Some(a) && a@ == body.subrange(h + 1, body.len() as int)
                        && res.permalink@ == p + seq!['#'] + body.subrange(
                        h + 1,
                        body.len() as int,
                    )
                } else {
                    res.anchor is None && res.permalink@ == p
                }),
            }
        }),
{
    let n = link.unicode_len();
    proof {
        reveal_strlit("@/");
        assert("@/"@.len() == 2);
    }
    let body = link.substring_char(2, n);
    let ghost bodyv = link@.subrange(2, link@.len() as int);
    let bn = body.unicode_len();
    let h = find_char_from(body, '#', 0);
    proof {
        lemma_find_char_bounds(bodyv, '#', 0);
    }
    let path = body.substring_char(0, h).to_owned();
    match lookup_exec(permalinks, path.as_str()) {
        None => Err(RenderError::UnknownDocument(path)),
        Some(p) => {
            if h < bn {
                let anchor = body.substring_char(h + 1, bn).to_owned();
                let mut permalink = p.clone();
                push_char(&mut permalink, '#');
                permalink.append(anchor.as_str());
                proof {
                    assert(permalink@ =~= p@ + seq!['#'] + bodyv.subrange(
                        h + 1,
                        bodyv.len() as int,
                    ));
                }
                Ok(ResolvedLink { permalink, md_path: path, anchor: Some(anchor) })
            } else {
                Ok(ResolvedLink { permalink: p, md_path: path, anchor: None })
            }
        },
    }
}

} // verus!
