//! Laws of the renderer that relate several functions.

use vstd::prelude::*;
use crate::context::{CtxView, InsertAnchor};
use crate::errors::RenderError;
use crate::events::EvView;
use crate::errors::ErrView;
use crate::anchors::{anchor_present, dedup_anchor, lemma_dedup_anchor_free, slug_of};
use crate::markdown::{build_spec, fold_spec, ids_spec, init_pass, pipeline_spec, result_view,
    step_spec, text_of, BuildView, HRefView, IdsView, PassView, Rendered};
use crate::textpos::has_sub;

verus! {

/// With anchor insertion off, the build pass never reads the anchor
/// fragments, so they cannot influence it.
proof fn lemma_build_frags_irrelevant(
    events0: Seq<EvView>,
    refs: Seq<HRefView>,
    ids: Seq<Seq<char>>,
    f1: Seq<Seq<char>>,
    f2: Seq<Seq<char>>,
    cv: CtxView,
    st: BuildView,
    j: int,
)
    requires
        cv.insert_anchor == InsertAnchor::NoAnchor,
    ensures
        build_spec(events0, refs, ids, f1, cv, st, j) == build_spec(
            events0,
            refs,
            ids,
            f2,
            cv,
            st,
            j,
        ),
    decreases refs.len() - j,
{
    if 0 <= j < refs.len() {
        let hr = refs[j];
        let id: Seq<char> = if 0 <= j < ids.len() {
            ids[j]
        } else {
            Seq::empty()
        };
        let events2 = if 0 <= hr.start < st.events.len() {
            st.events.update(hr.start, EvView::Html(crate::markdown::heading_open(hr.level, id)))
        } else {
            st.events
        };
        let title = crate::markdown::text_of(events0, hr.start + 1, hr.end);
        let h = crate::toc::HeadingView {
            level: hr.level,
            id: id,
            permalink: cv.current_page_permalink + seq!['#'] + id,
            title: title,
            children: Seq::empty(),
        };
        lemma_build_frags_irrelevant(
            events0,
            refs,
            ids,
            f1,
            f2,
            cv,
            BuildView { events: events2, headings: st.headings.push(h), inserts: st.inserts },
            j + 1,
        );
    }
}

/// Law: rendering is deterministic. With no pending macros and anchor
/// insertion off, nothing external varies between two runs on the same
/// tokenized content and context, so any two results that the pipeline's
/// contract admits are equal — body, outline and link lists byte for byte.
pub proof fn lemma_render_deterministic(
    r1: Result<Rendered, RenderError>,
    r2: Result<Rendered, RenderError>,
    evs: Seq<(EvView, int, int)>,
    content: Seq<char>,
    cv: CtxView,
    frags1: Seq<Seq<char>>,
    frags2: Seq<Seq<char>>,
)
    requires
        cv.insert_anchor == InsertAnchor::NoAnchor,
        result_view(r1) == pipeline_spec(
            evs,
            content,
            cv,
            Seq::empty(),
            Seq::empty(),
            frags1,
        ),
        result_view(r2) == pipeline_spec(
            evs,
            content,
            cv,
            Seq::empty(),
            Seq::empty(),
            frags2,
        ),
    ensures
        result_view(r1) == result_view(r2),
{
    let st = crate::markdown::fold_spec(
        evs,
        0,
        crate::markdown::init_pass(),
        content,
        cv,
        Seq::empty(),
        Seq::empty(),
    );
    let filtered = crate::markdown::filter_empty(st.events, 0, Seq::empty());
    let refs0 = crate::markdown::heading_refs_spec(filtered, 0, Seq::empty());
    let m = crate::markdown::manual_spec(
        crate::markdown::ManualView { events: filtered, refs: refs0, anchors: Seq::empty() },
        0,
    );
    let iv = crate::markdown::ids_spec(
        m.events,
        m.refs,
        crate::markdown::IdsView { ids: Seq::empty(), anchors: m.anchors },
        0,
    );
    lemma_build_frags_irrelevant(
        m.events,
        m.refs,
        iv.ids,
        frags1,
        frags2,
        cv,
        BuildView { events: m.events, headings: Seq::empty(), inserts: Seq::empty() },
        0,
    );
}

/// One step of the pass raises `has_summary` only on a raw-HTML event that
/// holds the excerpt marker.
proof fn lemma_step_summary(
    st: PassView,
    ev: EvView,
    rs: int,
    re: int,
    content: Seq<char>,
    cv: CtxView,
    spans: Seq<(int, int)>,
    outs: Seq<Result<Seq<char>, crate::errors::ErrView>>,
)
    requires
        !((ev is Html) && has_sub(ev->Html_0, "<!-- more -->"@)),
    ensures
        step_spec(st, ev, rs, re, content, cv, spans, outs).has_summary == st.has_summary,
{
}

proof fn lemma_fold_summary(
    evs: Seq<(EvView, int, int)>,
    i: int,
    st: PassView,
    content: Seq<char>,
    cv: CtxView,
    spans: Seq<(int, int)>,
    outs: Seq<Result<Seq<char>, crate::errors::ErrView>>,
)
    requires
        forall|q: int|
            i <= q < evs.len() ==> !(((#[trigger] evs[q]).0 is Html) && has_sub(
                evs[q].0->Html_0,
                "<!-- more -->"@,
            )),
    ensures
        fold_spec(evs, i, st, content, cv, spans, outs).has_summary == st.has_summary,
    decreases evs.len() - i,
{
    if 0 <= i < evs.len() {
        lemma_step_summary(st, evs[i].0, evs[i].1, evs[i].2, content, cv, spans, outs);
        lemma_fold_summary(
            evs,
            i + 1,
            step_spec(st, evs[i].0, evs[i].1, evs[i].2, content, cv, spans, outs),
            content,
            cv,
            spans,
            outs,
        );
    }
}

/// Law: when no raw-HTML event of the token stream holds the excerpt marker,
/// a successful render leaves `summary_len` unset. (When one does, the
/// pipeline sets `summary_len` to the byte position of the first boundary
/// span in the body, as `pipeline_spec` states.)
pub proof fn lemma_no_marker_no_summary(
    evs: Seq<(EvView, int, int)>,
    content: Seq<char>,
    cv: CtxView,
    spans: Seq<(int, int)>,
    outs: Seq<Result<Seq<char>, crate::errors::ErrView>>,
    frags: Seq<Seq<char>>,
)
    requires
        forall|q: int|
            0 <= q < evs.len() ==> !(((#[trigger] evs[q]).0 is Html) && has_sub(
                evs[q].0->Html_0,
                "<!-- more -->"@,
            )),
    ensures
        pipeline_spec(evs, content, cv, spans, outs, frags) matches Ok(rv) ==> rv.summary_len
            is None,
{
    lemma_fold_summary(evs, 0, init_pass(), content, cv, spans, outs);
}

proof fn lemma_present_push(a: Seq<Seq<char>>, x: Seq<char>, y: Seq<char>)
    ensures
        anchor_present(a, y) ==> anchor_present(a.push(x), y),
        anchor_present(a.push(x), x),
{
    if anchor_present(a, y) {
        let w = choose|i: int| 0 <= i < a.len() && a[i] == y;
        assert(a.push(x)[w] == y);
    }
    assert(a.push(x)[a.len() as int] == x);
}

proof fn lemma_ids_distinct_from(
    events: Seq<EvView>,
    refs: Seq<HRefView>,
    st: IdsView,
    j: int,
)
    requires
        0 <= j,
        forall|q1: int, q2: int| 0 <= q1 < q2 < st.ids.len() ==> st.ids[q1] != st.ids[q2],
        forall|q: int| 0 <= q < st.ids.len() ==> anchor_present(st.anchors, #[trigger] st.ids[q]),
        forall|j2: int|
            j <= j2 < refs.len() && (#[trigger] refs[j2]).id is Some ==> anchor_present(
                st.anchors,
                refs[j2].id->0,
            ),
        forall|j2: int, q: int|
            j <= j2 < refs.len() && (#[trigger] refs[j2]).id is Some && 0 <= q < st.ids.len()
                ==> refs[j2].id->0 != #[trigger] st.ids[q],
        forall|j1: int, j2: int|
            j <= j1 < j2 < refs.len() && (#[trigger] refs[j1]).id is Some && (#[trigger] refs[j2]).id
                is Some ==> refs[j1].id->0 != refs[j2].id->0,
    ensures
        ({
            let iv = ids_spec(events, refs, st, j);
            forall|q1: int, q2: int| 0 <= q1 < q2 < iv.ids.len() ==> iv.ids[q1] != iv.ids[q2]
        }),
    decreases refs.len() - j,
{
    if j < refs.len() {
        let hr = refs[j];
        let title = text_of(events, hr.start + 1, hr.end);
        let id = match hr.id {
            Option::Some(i) => i,
            Option::None => dedup_anchor(st.anchors, slug_of(title)),
        };
        if hr.id is None {
            lemma_dedup_anchor_free(st.anchors, slug_of(title));
        }
        assert(forall|q: int| 0 <= q < st.ids.len() ==> id != #[trigger] st.ids[q]);
        let st2 = IdsView { ids: st.ids.push(id), anchors: st.anchors.push(id) };
        assert forall|q: int| 0 <= q < st2.ids.len() implies anchor_present(
            st2.anchors,
            #[trigger] st2.ids[q],
        ) by {
            if q < st.ids.len() {
                lemma_present_push(st.anchors, id, st.ids[q]);
            } else {
                lemma_present_push(st.anchors, id, id);
            }
        }
        assert forall|j2: int|
            j + 1 <= j2 < refs.len() && (#[trigger] refs[j2]).id is Some implies anchor_present(
            st2.anchors,
            refs[j2].id->0,
        ) by {
            lemma_present_push(st.anchors, id, refs[j2].id->0);
        }
        assert forall|j2: int, q: int|
            j + 1 <= j2 < refs.len() && (#[trigger] refs[j2]).id is Some && 0 <= q
                < st2.ids.len() implies refs[j2].id->0 != #[trigger] st2.ids[q] by {
            if q == st.ids.len() {
                if hr.id is Some {
                    assert(refs[j2].id->0 != hr.id->0);
                } else {
                    assert(anchor_present(st.anchors, refs[j2].id->0));
                    assert(!anchor_present(st.anchors, id));
                }
            }
        }
        assert forall|q1: int, q2: int| 0 <= q1 < q2 < st2.ids.len() implies st2.ids[q1]
            != st2.ids[q2] by {
            if q2 == st.ids.len() {
                assert(st2.ids[q1] == st.ids[q1]);
                assert(id != st.ids[q1]);
            }
        }
        lemma_ids_distinct_from(events, refs, st2, j + 1);
        assert(ids_spec(events, refs, st, j) == ids_spec(events, refs, st2, j + 1));
    }
}

/// Law: the id-assignment pass grants pairwise distinct heading ids,
/// provided every manual id is already reserved among the anchors and the
/// manual ids are pairwise distinct — which the manual pass establishes by
/// deduplicating each manual id against the anchors reserved so far. An auto
/// id is deduplicated against every reserved anchor, so it can collide
/// neither with a manual id nor with an earlier auto id.
pub proof fn lemma_assigned_ids_distinct(
    events: Seq<EvView>,
    refs: Seq<HRefView>,
    anchors0: Seq<Seq<char>>,
)
    requires
        forall|j2: int|
            0 <= j2 < refs.len() && (#[trigger] refs[j2]).id is Some ==> anchor_present(
                anchors0,
                refs[j2].id->0,
            ),
        forall|j1: int, j2: int|
            0 <= j1 < j2 < refs.len() && (#[trigger] refs[j1]).id is Some && (#[trigger] refs[j2]).id
                is Some ==> refs[j1].id->0 != refs[j2].id->0,
    ensures
        ({
            let iv = ids_spec(events, refs, IdsView { ids: Seq::empty(), anchors: anchors0 }, 0);
            forall|q1: int, q2: int| 0 <= q1 < q2 < iv.ids.len() ==> iv.ids[q1] != iv.ids[q2]
        }),
{
    lemma_ids_distinct_from(
        events,
        refs,
        IdsView { ids: Seq::empty(), anchors: anchors0 },
        0,
    );
}

} // verus!
