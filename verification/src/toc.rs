//! Document outlines: the `Heading` tree, anchor membership, and the builder
//! that nests a flat, document-order heading list into a table of contents.

use vstd::prelude::*;
use crate::strutil::str_eq;

verus! {

/// One heading of a rendered document. `children` is empty until the
/// table-of-contents builder runs.
#[derive(Debug)]
pub struct Heading {
    pub level: u32,
    pub id: String,
    pub permalink: String,
    pub title: String,
    pub children: Vec<Heading>,
}

/// Mathematical model of a heading tree.
#[verifier::ext_equal]
pub struct HeadingView {
    pub level: u32,
    pub id: Seq<char>,
    pub permalink: Seq<char>,
    pub title: Seq<char>,
    pub children: Seq<HeadingView>,
}

pub open spec fn heading_view(h: Heading) -> HeadingView
    decreases h,
{
    HeadingView {
        level: h.level,
        id: h.id@,
        permalink: h.permalink@,
        title: h.title@,
        children: headings_view(h.children@),
    }
}

pub open spec fn headings_view(hs: Seq<Heading>) -> Seq<HeadingView>
    decreases hs,
{
    if hs.len() == 0 {
        Seq::empty()
    } else {
        seq![heading_view(hs[0])] + headings_view(hs.subrange(1, hs.len() as int))
    }
}

pub proof fn lemma_headings_view_len(hs: Seq<Heading>)
    ensures
        headings_view(hs).len() == hs.len(),
    decreases hs.len(),
{
    if hs.len() > 0 {
        lemma_headings_view_len(hs.subrange(1, hs.len() as int));
    }
}

pub proof fn lemma_headings_view_index(hs: Seq<Heading>, i: int)
    requires
        0 <= i < hs.len(),
    ensures
        headings_view(hs).len() == hs.len(),
        headings_view(hs)[i] == heading_view(hs[i]),
    decreases i,
{
    lemma_headings_view_len(hs);
    if i > 0 {
        let tail = hs.subrange(1, hs.len() as int);
        lemma_headings_view_index(tail, i - 1);
        assert(tail[i - 1] == hs[i]);
    }
}

pub proof fn lemma_headings_view_concat(a: Seq<Heading>, b: Seq<Heading>)
    ensures
        headings_view(a + b) == headings_view(a) + headings_view(b),
    decreases a.len(),
{
    if a.len() == 0 {
        assert(a + b =~= b);
        assert(headings_view(a) + headings_view(b) =~= headings_view(b));
    } else {
        let tail = a.subrange(1, a.len() as int);
        lemma_headings_view_concat(tail, b);
        assert((a + b).subrange(1, (a + b).len() as int) =~= tail + b);
        assert((a + b)[0] == a[0]);
        assert(seq![heading_view(a[0])] + (headings_view(tail) + headings_view(b)) =~= (
        seq![heading_view(a[0])] + headings_view(tail)) + headings_view(b));
    }
}

/// Whether some heading in the forest, at any depth, carries the anchor `a`.
pub open spec fn forest_has_anchor(hs: Seq<HeadingView>, a: Seq<char>) -> bool
    decreases hs,
{
    hs.len() > 0 && (tree_has_anchor(hs[0], a) || forest_has_anchor(
        hs.subrange(1, hs.len() as int),
        a,
    ))
}

pub open spec fn tree_has_anchor(h: HeadingView, a: Seq<char>) -> bool
    decreases h,
{
    h.id == a || forest_has_anchor(h.children, a)
}

/// Recursive membership check over the nested heading structure, matching by
/// `id` and short-circuiting on the first match.
pub fn has_anchor(headings: &[Heading], anchor: &str) -> (found: bool)
    ensures
        found == forest_has_anchor(headings_view(headings@), anchor@),
    decreases headings@,
{
    let ghost hv = headings_view(headings@);
    proof {
        lemma_headings_view_len(headings@);
        assert(hv.subrange(0, hv.len() as int) =~= hv);
    }
    let mut i: usize = 0;
    while i < headings.len()
        invariant
            0 <= i <= headings.len(),
            hv == headings_view(headings@),
            hv.len() == headings@.len(),
            forest_has_anchor(hv, anchor@) == forest_has_anchor(
                hv.subrange(i as int, hv.len() as int),
                anchor@,
            ),
        decreases headings.len() - i,
    {
        let ghost suf = hv.subrange(i as int, hv.len() as int);
        proof {
            lemma_headings_view_index(headings@, i as int);
            assert(suf[0] == hv[i as int]);
        }
        let h = &headings[i];
        if str_eq(h.id.as_str(), anchor) {
            proof {
                assert(hv[i as int].id == headings@[i as int].id@);
                assert(tree_has_anchor(suf[0], anchor@));
            }
            return true;
        }
        proof {
            assert(decreases_to!(headings@ => headings@[i as int]));
            assert(decreases_to!(headings@[i as int] => headings@[i as int].children));
        }
        if has_anchor(h.children.as_slice(), anchor) {
            proof {
                assert(hv[i as int].children == headings_view(headings@[i as int].children@));
                assert(tree_has_anchor(suf[0], anchor@));
            }
            return true;
        }
        proof {
            assert(!tree_has_anchor(suf[0], anchor@));
            assert(suf.subrange(1, suf.len() as int) =~= hv.subrange(
                i + 1 as int,
                hv.len() as int,
            ));
        }
        i += 1;
    }
    proof {
        assert(!forest_has_anchor(hv.subrange(hv.len() as int, hv.len() as int), anchor@));
    }
    false
}

/// The index of the first heading at or after `j` whose level is at most
/// `lvl`, or the sequence's length when there is none: the end of the scope
/// that a heading of level `lvl` at `j - 1` opens.
pub open spec fn scope_end(hs: Seq<HeadingView>, lvl: u32, j: int) -> int
    decreases hs.len() - j,
{
    if j < 0 || j >= hs.len() {
        hs.len() as int
    } else if hs[j].level <= lvl {
        j
    } else {
        scope_end(hs, lvl, j + 1)
    }
}

pub proof fn lemma_scope_end_bounds(hs: Seq<HeadingView>, lvl: u32, j: int)
    requires
        0 <= j <= hs.len(),
    ensures
        j <= scope_end(hs, lvl, j) <= hs.len(),
    decreases hs.len() - j,
{
    if j < hs.len() && hs[j].level > lvl {
        lemma_scope_end_bounds(hs, lvl, j + 1);
    }
}

/// `scope_end` is the unique cut: everything strictly between `a` and `e`
/// stays above `lvl`, and `e` itself (if in range) does not.
pub proof fn lemma_scope_end_char(hs: Seq<HeadingView>, lvl: u32, a: int, e: int)
    requires
        0 <= a <= e <= hs.len(),
        forall|k: int| a <= k < e ==> #[trigger] hs[k].level > lvl,
        e < hs.len() ==> hs[e].level <= lvl,
    ensures
        scope_end(hs, lvl, a) == e,
    decreases e - a,
{
    if a < e {
        lemma_scope_end_char(hs, lvl, a + 1, e);
    }
}

/// The nested outline of a flat, document-order heading sequence: each
/// heading's children are the following headings of strictly greater level,
/// up to the next heading of equal or lesser level. No level-skip validation
/// is performed. Children a flat heading already carries stay in front of the
/// ones the builder attaches.
pub open spec fn toc_spec(flat: Seq<HeadingView>) -> Seq<HeadingView>
    decreases flat.len(),
    via toc_spec_dec
{
    if flat.len() == 0 {
        Seq::empty()
    } else {
        let j = scope_end(flat, flat[0].level, 1);
        seq![
            HeadingView {
                level: flat[0].level,
                id: flat[0].id,
                permalink: flat[0].permalink,
                title: flat[0].title,
                children: flat[0].children + toc_spec(flat.subrange(1, j)),
            },
        ] + toc_spec(flat.subrange(j, flat.len() as int))
    }
}

#[via_fn]
proof fn toc_spec_dec(flat: Seq<HeadingView>) {
    if flat.len() > 0 {
        lemma_scope_end_bounds(flat, flat[0].level, 1);
    }
}

/// Structural copy of a heading tree.
fn clone_heading(h: &Heading) -> (c: Heading)
    ensures
        heading_view(c) == heading_view(*h),
    decreases *h,
{
    let mut children: Vec<Heading> = Vec::new();
    let mut i: usize = 0;
    while i < h.children.len()
        invariant
            0 <= i <= h.children.len(),
            children@.len() == i,
            forall|j: int|
                0 <= j < i ==> heading_view(#[trigger] children@[j]) == heading_view(
                    h.children@[j],
                ),
        decreases h.children.len() - i,
    {
        proof {
            assert(decreases_to!(*h => h.children));
            assert(decreases_to!(h.children => h.children@));
            assert(decreases_to!(h.children@ => h.children@[i as int]));
        }
        let c = clone_heading(&h.children[i]);
        children.push(c);
        i += 1;
    }
    proof {
        lemma_headings_views_pointwise(children@, h.children@);
    }
    Heading {
        level: h.level,
        id: h.id.clone(),
        permalink: h.permalink.clone(),
        title: h.title.clone(),
        children,
    }
}

/// Two heading sequences whose trees agree pointwise have the same view.
proof fn lemma_headings_views_pointwise(a: Seq<Heading>, b: Seq<Heading>)
    requires
        a.len() == b.len(),
        forall|j: int| 0 <= j < a.len() ==> heading_view(#[trigger] a[j]) == heading_view(b[j]),
    ensures
        headings_view(a) == headings_view(b),
    decreases a.len(),
{
    if a.len() > 0 {
        lemma_headings_views_pointwise(
            a.subrange(1, a.len() as int),
            b.subrange(1, b.len() as int),
        );
    }
}

/// Nests `flat[lo..hi]`, in document order.
fn toc_range(flat: &Vec<Heading>, lo: usize, hi: usize) -> (out: Vec<Heading>)
    requires
        lo <= hi <= flat@.len(),
    ensures
        headings_view(out@) == toc_spec(headings_view(flat@).subrange(lo as int, hi as int)),
    decreases hi - lo,
{
    proof {
        lemma_headings_view_len(flat@);
    }
    let ghost views = headings_view(flat@);
    let ghost sub = views.subrange(lo as int, hi as int);
    if lo == hi {
        let out: Vec<Heading> = Vec::new();
        assert(headings_view(out@) =~= toc_spec(sub));
        return out;
    }
    proof {
        lemma_headings_view_index(flat@, lo as int);
    }
    let lvl = flat[lo].level;
    // find the end of the scope this heading opens
    let mut j: usize = lo + 1;
    while j < hi && flat[j].level > lvl
        invariant
            lo + 1 <= j <= hi <= flat@.len(),
            views == headings_view(flat@),
            views.len() == flat@.len(),
            lvl == views[lo as int].level,
            forall|k: int| lo + 1 <= k < j ==> #[trigger] views[k].level > lvl,
        decreases hi - j,
    {
        proof {
            lemma_headings_view_index(flat@, j as int);
        }
        j += 1;
    }
    proof {
        if j < hi {
            lemma_headings_view_index(flat@, j as int);
        }
        assert(forall|k: int|
            1 <= k < j - lo ==> #[trigger] sub[k].level == views[lo + k].level && views[lo
                + k].level > lvl);
        if j - lo < sub.len() {
            assert(sub[j - lo] == views[j as int]);
        }
        lemma_scope_end_char(sub, lvl, 1, j - lo as int);
        assert(scope_end(sub, sub[0].level, 1) == j - lo) by {
            assert(sub[0] == views[lo as int]);
        }
    }
    let mut node = clone_heading(&flat[lo]);
    let mut inner = toc_range(flat, lo + 1, j);
    let ghost inner_snap = inner@;
    let ghost node_children_snap = node.children@;
    node.children.append(&mut inner);
    proof {
        lemma_headings_view_concat(node_children_snap, inner_snap);
        assert(sub.subrange(1, j - lo as int) =~= views.subrange(lo + 1 as int, j as int));
    }
    let mut rest = toc_range(flat, j, hi);
    let ghost rest_snap = rest@;
    let mut out: Vec<Heading> = Vec::new();
    out.push(node);
    out.append(&mut rest);
    proof {
        let ghost nodev = heading_view(out@[0]);
        lemma_headings_view_concat(seq![out@[0]], rest_snap);
        assert(out@ =~= seq![out@[0]] + rest_snap);
        assert(seq![out@[0]].subrange(1, 1) =~= Seq::<Heading>::empty());
        assert(headings_view(Seq::<Heading>::empty()) =~= Seq::<HeadingView>::empty());
        assert(headings_view(seq![out@[0]]) =~= seq![nodev] + Seq::<HeadingView>::empty());
        assert(headings_view(seq![out@[0]]) =~= seq![nodev]);
        assert(sub.subrange(j - lo as int, sub.len() as int) =~= views.subrange(
            j as int,
            hi as int,
        ));
        assert(nodev =~= toc_spec(sub)[0]);
        assert(headings_view(out@) =~= toc_spec(sub));
    }
    out
}

/// Converts the flat, document-order heading list discovered during the
/// rendering pass into a nested outline.
pub fn make_table_of_contents(headings: Vec<Heading>) -> (toc: Vec<Heading>)
    ensures
        headings_view(toc@) == toc_spec(headings_view(headings@)),
{
    let n = headings.len();
    proof {
        lemma_headings_view_len(headings@);
        assert(headings_view(headings@).subrange(0, n as int) =~= headings_view(headings@));
    }
    toc_range(&headings, 0, n)
}

} // verus!
