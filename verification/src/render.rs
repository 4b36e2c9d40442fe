//! The primary entry point: wiki-link rewriting, macro extraction and
//! expansion, then the Markdown event pipeline.

use vstd::prelude::*;
use crate::context::{InsertAnchor, RenderContext};
use crate::errors::{err_view, ErrView, RenderError};
use crate::markdown::{markdown_to_html, pipeline_spec, result_view, sc_spans, Rendered};
use crate::mdparse::md_events_of;
use crate::shortcode::{defs_view, extract_shortcodes, extract_spec, insert_md_shortcodes,
    insert_md_spec, md_count_upto, rec_spans, sc_recs_view, ScRec, Shortcode};
use crate::textpos::{contains_sub, has_sub};
use crate::wiki::{parse_wiki_style_links, wiki_rewrite};

verus! {

/// Whether `r` is what the macro path owes once extraction succeeded with
/// the plain text `text` and records `recs`, under the Markdown-macro
/// expansion outcomes `mouts`: the expansion's error when one failed, else a
/// `TemplateError` from the anchor template or exactly the pipeline applied
/// to the expanded text and the re-recorded HTML macros, for some engine
/// outcomes.
pub open spec fn macro_path_matches(
    r: Result<Rendered, RenderError>,
    text: Seq<char>,
    recs: Seq<ScRec>,
    mouts: Seq<Result<Seq<char>, ErrView>>,
    cv: crate::context::CtxView,
    smart: bool,
) -> bool {
    match insert_md_spec(text, recs, mouts, 0, 0, 0, 0, Seq::empty(), Seq::empty(), 0) {
        Result::Err(m) => (r matches Err(e) && err_view(e) == m),
        Result::Ok(q) => ((r matches Err(e) && (err_view(e) is TemplateError)) || (exists|
            outs: Seq<Result<Seq<char>, ErrView>>,
            frags: Seq<Seq<char>>,
        |
            outs.len() == q.1.len() && result_view(r) == #[trigger] pipeline_spec(
                md_events_of(q.0, smart),
                q.0,
                cv,
                rec_spans(q.1),
                outs,
                frags,
            ))),
    }
}

/// Renders one document: the wiki-link shorthand is rewritten first; when the
/// text holds no macro delimiters it goes straight to the pipeline, otherwise
/// the macros are extracted, the Markdown-typed ones expanded into the text,
/// and the HTML-typed ones spliced during the pipeline pass.
///
/// On the macro-free path the result is pinned exactly as `markdown_to_html`
/// pins it, over the rewritten text.
pub fn render_content(content: &str, context: &RenderContext) -> (r: Result<Rendered, RenderError>)
    ensures
        (!has_sub(wiki_rewrite(content@, 0), "{{"@) && !has_sub(wiki_rewrite(content@, 0), "{%"@))
            ==> ((r matches Err(e) && (err_view(e) is TemplateError)) || (exists|
            outs: Seq<Result<Seq<char>, ErrView>>,
            frags: Seq<Seq<char>>,
        |
            outs.len() == 0 && result_view(r) == #[trigger] pipeline_spec(
                md_events_of(wiki_rewrite(content@, 0), context.smart_punctuation),
                wiki_rewrite(content@, 0),
                context@,
                Seq::empty(),
                outs,
                frags,
            ))),
        (!has_sub(wiki_rewrite(content@, 0), "{{"@) && !has_sub(wiki_rewrite(content@, 0), "{%"@)
            && context.insert_anchor == InsertAnchor::NoAnchor) ==> (exists|
            outs: Seq<Result<Seq<char>, ErrView>>,
            frags: Seq<Seq<char>>,
        |
            outs.len() == 0 && result_view(r) == #[trigger] pipeline_spec(
                md_events_of(wiki_rewrite(content@, 0), context.smart_punctuation),
                wiki_rewrite(content@, 0),
                context@,
                Seq::empty(),
                outs,
                frags,
            )),
        (has_sub(wiki_rewrite(content@, 0), "{{"@) || has_sub(wiki_rewrite(content@, 0), "{%"@))
            ==> ({
            let ex = extract_spec(
                wiki_rewrite(content@, 0),
                defs_view(context.shortcode_definitions@),
                0,
                Seq::empty(),
                Seq::empty(),
                0,
            );
            match ex {
                Result::Err(nm) => (r matches Err(e) && (e
                    matches RenderError::UndefinedShortcode(n2) && n2@ == nm)),
                Result::Ok(exq) => exists|mouts: Seq<Result<Seq<char>, ErrView>>|
                    mouts.len() == md_count_upto(exq.1, exq.1.len() as int) && (forall|q: int|
                        0 <= q < mouts.len() ==> ((#[trigger] mouts[q]) is Err ==> mouts[q]->Err_0
                            is ShortcodeRender)) && #[trigger] macro_path_matches(
                        r,
                        exq.0,
                        exq.1,
                        mouts,
                        context@,
                        context.smart_punctuation,
                    ),
            }
        }),
{
    let rewritten = parse_wiki_style_links(content);
    if !contains_sub(rewritten.as_str(), "{{") && !contains_sub(rewritten.as_str(), "{%") {
        let none: Vec<Shortcode> = Vec::new();
        let r = markdown_to_html(rewritten.as_str(), context, none);
        proof {
            assert(sc_spans(Seq::<Shortcode>::empty()) =~= Seq::<(int, int)>::empty());
        }
        return r;
    }
    let ghost w = wiki_rewrite(content@, 0);
    let ghost ex = extract_spec(
        w,
        defs_view(context.shortcode_definitions@),
        0,
        Seq::empty(),
        Seq::empty(),
        0,
    );
    let (plain, shortcodes) = match extract_shortcodes(
        rewritten.as_str(),
        &context.shortcode_definitions,
    ) {
        Ok(p) => p,
        Err(e) => {
            return Err(e);
        },
    };
    let ghost exq = ex->Ok_0;
    let ghost plainv = plain@;
    let ghost recs = sc_recs_view(shortcodes@);
    proof {
        assert(plainv == exq.0);
        assert(recs == exq.1);
        assert(recs.len() == shortcodes@.len());
    }
    let r0 = insert_md_shortcodes(plain, shortcodes, context.tera, &context.tera_context);
    let ghost mouts = choose|m: Seq<Result<Seq<char>, ErrView>>|
        m.len() == md_count_upto(recs, recs.len() as int) && (forall|q: int|
            0 <= q < m.len() ==> ((#[trigger] m[q]) is Err ==> m[q]->Err_0 is ShortcodeRender))
            && #[trigger] crate::shortcode::insert_md_matches(r0, plainv, recs, m);
    let (expanded, html_shortcodes) = match r0 {
        Ok(p) => p,
        Err(e) => {
            proof {
                assert(macro_path_matches(
                    Result::<Rendered, RenderError>::Err(e),
                    exq.0,
                    exq.1,
                    mouts,
                    context@,
                    context.smart_punctuation,
                ));
            }
            return Err(e);
        },
    };
    let ghost insq = insert_md_spec(
        exq.0,
        exq.1,
        mouts,
        0,
        0,
        0,
        0,
        Seq::empty(),
        Seq::empty(),
        0,
    )->Ok_0;
    proof {
        assert(expanded@ == insq.0);
        assert(sc_recs_view(html_shortcodes@) == insq.1);
        assert(sc_spans(html_shortcodes@) =~= rec_spans(insq.1)) by {
            assert(rec_spans(sc_recs_view(html_shortcodes@)).len() == html_shortcodes@.len());
            assert forall|q: int| 0 <= q < html_shortcodes@.len() implies rec_spans(
                sc_recs_view(html_shortcodes@),
            )[q] == sc_spans(html_shortcodes@)[q] by {
                assert(sc_recs_view(html_shortcodes@)[q] == ScRec {
                    name: html_shortcodes@[q].name@,
                    body: crate::shortcode::opt_str_view(html_shortcodes@[q].body),
                    start: html_shortcodes@[q].span_start as int,
                    end: html_shortcodes@[q].span_end as int,
                    is_md: html_shortcodes@[q].is_md,
                });
            }
        }
        assert(insq.1.len() == html_shortcodes@.len());
    }
    let r1 = markdown_to_html(expanded.as_str(), context, html_shortcodes);
    proof {
        if !(r1 is Err && (err_view(r1->Err_0) is TemplateError)) {
            let (o, f) = choose|o: Seq<Result<Seq<char>, ErrView>>, f: Seq<Seq<char>>|
                o.len() == html_shortcodes@.len() && result_view(r1) == #[trigger] pipeline_spec(
                    md_events_of(expanded@, context.smart_punctuation),
                    expanded@,
                    context@,
                    sc_spans(html_shortcodes@),
                    o,
                    f,
                );
            assert(result_view(r1) == pipeline_spec(
                md_events_of(insq.0, context.smart_punctuation),
                insq.0,
                context@,
                rec_spans(insq.1),
                o,
                f,
            ));
        }
        assert(macro_path_matches(
            r1,
            exq.0,
            exq.1,
            mouts,
            context@,
            context.smart_punctuation,
        ));
    }
    r1
}

} // verus!
