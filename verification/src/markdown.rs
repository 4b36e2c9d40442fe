//! The Markdown event pipeline: one forward pass over the tokenizer's event
//! stream (code-block rewriting, emoji substitution, macro splicing, link
//! resolution, paragraph suppression, excerpt marking), the two
//! heading-identification passes, anchor insertion, and serialization.
//!
//! Code blocks are emitted as `<pre><code>` wrappers carrying the fence's
//! language class, with the text escaped through the tokenizer's own HTML
//! escaping; no syntax highlighter is invoked.

use vstd::prelude::*;
use crate::anchors::{dedup_anchor, find_anchor, slug_of, slugify_anchors, strings_deep};
use crate::context::{CtxView, InsertAnchor, RenderContext};
use crate::emoji::{emoji_of, replace_emoji};
use crate::errors::{clone_render_error, err_view, opt_err_view, ErrView, RenderError};
use crate::events::{ev_seq_view, evs_view, EvView, LinkKind, MdEvent, MdTag, TagView};
use crate::links::{is_external, is_external_link, lookup_permalink, resolve_internal_link};
use crate::mdparse::{escape_href_str, escape_html_str, escaped_href_of, escaped_html_of, html_of,
    md_events_of, parse_md_events, push_html_events};
use crate::shortcode::Shortcode;
use crate::strutil::{dec_digits, dec_string, find_char, push_char, str_starts_with};
use crate::templates::{context_insert_str, context_insert_u32, context_new, tera_error_msg,
    tera_render};
use crate::textpos::{byte_to_char, byte_to_char_idx, bytes_len, contains_sub, find_sub,
    find_sub_from, has_sub, lemma_find_sub_bounds};
use crate::toc::{heading_view, headings_view, make_table_of_contents, toc_spec, Heading,
    HeadingView};
use crate::wiki::trim_range;
use vstd::string::StringSliceAdditionalSpecFns;
use crate::wiki::trimmed;

verus! {

/// The outcome of one document render.
#[derive(Debug)]
pub struct Rendered {
    pub body: String,
    pub summary_len: Option<usize>,
    pub toc: Vec<Heading>,
    /// Links to site-local pages: relative path plus optional anchor target.
    pub internal_links: Vec<(String, Option<String>)>,
    /// Outgoing links to external webpages (i.e. HTTP(S) targets).
    pub external_links: Vec<String>,
}

/// Mathematical model of `Rendered`.
#[verifier::ext_equal]
pub struct RenderedView {
    pub body: Seq<char>,
    pub summary_len: Option<int>,
    pub toc: Seq<HeadingView>,
    pub internal_links: Seq<(Seq<char>, Option<Seq<char>>)>,
    pub external_links: Seq<Seq<char>>,
}

pub open spec fn links_pairs_view(v: Seq<(String, Option<String>)>) -> Seq<
    (Seq<char>, Option<Seq<char>>),
> {
    v.map(
        |i: int, p: (String, Option<String>)|
            (
                p.0@,
                match p.1 {
                    Option::Some(a) => Option::Some(a@),
                    Option::None => Option::None,
                },
            ),
    )
}

pub open spec fn rendered_view(r: Rendered) -> RenderedView {
    RenderedView {
        body: r.body@,
        summary_len: match r.summary_len {
            Option::Some(n) => Option::Some(n as int),
            Option::None => Option::None,
        },
        toc: headings_view(r.toc@),
        internal_links: links_pairs_view(r.internal_links@),
        external_links: strings_deep(r.external_links@),
    }
}

pub open spec fn result_view(r: Result<Rendered, RenderError>) -> Result<RenderedView, ErrView> {
    match r {
        Result::Ok(x) => Result::Ok(rendered_view(x)),
        Result::Err(e) => Result::Err(err_view(e)),
    }
}

/// The byte spans of a pending-macro list.
pub open spec fn sc_spans(scs: Seq<Shortcode>) -> Seq<(int, int)> {
    scs.map(|i: int, sc: Shortcode| (sc.span_start as int, sc.span_end as int))
}

/// The views of the pre-rendered macro outputs.
pub open spec fn outs_view(v: Seq<Result<String, RenderError>>) -> Seq<
    Result<Seq<char>, ErrView>,
> {
    v.map(
        |i: int, r: Result<String, RenderError>|
            match r {
                Result::Ok(s) => Result::<Seq<char>, ErrView>::Ok(s@),
                Result::Err(e) => Result::<Seq<char>, ErrView>::Err(err_view(e)),
            },
    )
}

/// State carried through the single forward pass.
pub struct PassState {
    pub events: Vec<MdEvent>,
    pub in_code: bool,
    pub sc: usize,
    pub stop_next_end_p: bool,
    pub error: Option<RenderError>,
    pub internal_links: Vec<(String, Option<String>)>,
    pub external_links: Vec<String>,
    pub has_summary: bool,
}

#[verifier::ext_equal]
pub struct PassView {
    pub events: Seq<EvView>,
    pub in_code: bool,
    pub sc: int,
    pub stop_next_end_p: bool,
    pub error: Option<ErrView>,
    pub internal_links: Seq<(Seq<char>, Option<Seq<char>>)>,
    pub external_links: Seq<Seq<char>>,
    pub has_summary: bool,
}

pub open spec fn pass_view(s: PassState) -> PassView {
    PassView {
        events: ev_seq_view(s.events@),
        in_code: s.in_code,
        sc: s.sc as int,
        stop_next_end_p: s.stop_next_end_p,
        error: opt_err_view(s.error),
        internal_links: links_pairs_view(s.internal_links@),
        external_links: strings_deep(s.external_links@),
        has_summary: s.has_summary,
    }
}

pub open spec fn init_pass() -> PassView {
    PassView {
        events: Seq::empty(),
        in_code: false,
        sc: 0,
        stop_next_end_p: false,
        error: Option::None,
        internal_links: Seq::empty(),
        external_links: Seq::empty(),
        has_summary: false,
    }
}

/// A text or raw-HTML event, matching the payload being spliced.
pub open spec fn payload_ev(html_mode: bool, s: Seq<char>) -> EvView {
    if html_mode {
        EvView::Html(s)
    } else {
        EvView::Text(s)
    }
}

/// What one splicing round produces.
#[verifier::ext_equal]
pub struct SpliceOut {
    pub events: Seq<EvView>,
    pub sc: int,
    pub error: Option<ErrView>,
}

/// Splices pending macro outputs into one text or raw-HTML payload.
///
/// `payload` is the not-yet-emitted tail of the node's content, `cur` its
/// absolute byte position, `re` the node's end. While the next pending macro
/// starts inside the node, the text before it is emitted, the macro's
/// pre-rendered output is emitted as raw HTML, and the cursor advances past
/// the macro's span; a failed expansion is recorded and splicing stops. Byte
/// positions that do not land on character boundaries of the payload stop
/// the splicing, with the remainder emitted unchanged.
pub open spec fn splice_spec(
    payload: Seq<char>,
    cur: int,
    re: int,
    spans: Seq<(int, int)>,
    outs: Seq<Result<Seq<char>, ErrView>>,
    k: int,
    html_mode: bool,
    acc: Seq<EvView>,
) -> SpliceOut
    decreases spans.len() - k,
{
    if !(0 <= k && k < spans.len() && k < outs.len() && cur <= spans[k].0 && spans[k].0 < re) {
        SpliceOut { events: acc.push(payload_ev(html_mode, payload)), sc: k, error: Option::None }
    } else {
        match byte_to_char(payload, spans[k].0 - cur) {
            Option::None => SpliceOut {
                events: acc.push(payload_ev(html_mode, payload)),
                sc: k,
                error: Option::None,
            },
            Option::Some(cut) => {
                let pre = payload.subrange(0, cut);
                let acc1 = if pre.len() > 0 {
                    acc.push(payload_ev(html_mode, pre))
                } else {
                    acc
                };
                match outs[k] {
                    Result::Err(m) => SpliceOut {
                        events: acc1.push(
                            payload_ev(html_mode, payload.subrange(cut, payload.len() as int)),
                        ),
                        sc: k + 1,
                        error: Option::Some(m),
                    },
                    Result::Ok(out_html) => {
                        let acc2 = acc1.push(EvView::Html(out_html));
                        match byte_to_char(payload, spans[k].1 - cur) {
                            Option::None => SpliceOut {
                                events: acc2.push(
                                    payload_ev(
                                        html_mode,
                                        payload.subrange(cut, payload.len() as int),
                                    ),
                                ),
                                sc: k + 1,
                                error: Option::None,
                            },
                            Option::Some(cut2) => {
                                if cut <= cut2 <= payload.len() {
                                    splice_spec(
                                        payload.subrange(cut2, payload.len() as int),
                                        spans[k].1,
                                        re,
                                        spans,
                                        outs,
                                        k + 1,
                                        html_mode,
                                        acc2,
                                    )
                                } else {
                                    SpliceOut {
                                        events: acc2.push(
                                            payload_ev(
                                                html_mode,
                                                payload.subrange(cut, payload.len() as int),
                                            ),
                                        ),
                                        sc: k + 1,
                                        error: Option::None,
                                    }
                                }
                            },
                        }
                    },
                }
            },
        }
    }
}

/// The `<pre><code>` wrapper a code block opens with, carrying the fence's
/// language (the info string up to the first comma) as a class.
pub open spec fn codeblock_open(info: Seq<char>) -> Seq<char> {
    let lang = info.subrange(0, find_char(info, ',', 0));
    if lang.len() == 0 {
        "<pre><code>"@
    } else {
        "<pre><code class=\"language-"@ + lang + "\">"@
    }
}

/// The decoration an external link is replaced with when configured:
/// `<a [target] [rel] href="<escaped>">`.
pub open spec fn external_link_tag(escaped: Seq<char>, cv: CtxView) -> Seq<char> {
    let target: Seq<char> = if cv.external_links_target_blank {
        "target=\"_blank\" "@
    } else {
        Seq::empty()
    };
    let rel_parts: Seq<char> = (if cv.external_links_target_blank {
        "noopener"@
    } else {
        Seq::empty()
    }) + (if cv.external_links_no_follow {
        (if cv.external_links_target_blank {
            " "@
        } else {
            Seq::empty()
        }) + "nofollow"@
    } else {
        Seq::empty()
    }) + (if cv.external_links_no_referrer {
        (if cv.external_links_target_blank || cv.external_links_no_follow {
            " "@
        } else {
            Seq::empty()
        }) + "noreferrer"@
    } else {
        Seq::empty()
    });
    let rel: Seq<char> = if rel_parts.len() == 0 {
        Seq::empty()
    } else {
        "rel=\""@ + rel_parts + "\" "@
    };
    "<a "@ + target + rel + "href=\""@ + escaped + "\">"@
}

/// Whether a paragraph's source range holds exactly the next macro's span:
/// the span starts where the paragraph starts and is as long as the
/// paragraph's trimmed source text.
pub open spec fn para_covers_span(content: Seq<char>, rs: int, re: int, span: (int, int)) -> bool {
    span.0 == rs && match (byte_to_char(content, rs), byte_to_char(content, re)) {
        (Option::Some(a), Option::Some(b)) => a <= b <= content.len() && span.1 - span.0 == (
        bytes_len(trimmed(content.subrange(a, b))) as usize) as int,
        _ => false,
    }
}

/// One step of the forward pass.
pub open spec fn step_spec(
    st: PassView,
    ev: EvView,
    rs: int,
    re: int,
    content: Seq<char>,
    cv: CtxView,
    spans: Seq<(int, int)>,
    outs: Seq<Result<Seq<char>, ErrView>>,
) -> PassView {
    match ev {
        EvView::Text(t) => {
            if st.in_code {
                PassView { events: st.events.push(EvView::Html(escaped_html_of(t))), ..st }
            } else {
                let t2 = if cv.render_emoji {
                    emoji_of(t)
                } else {
                    t
                };
                if !has_sub(t2, "@@SHORTCODE@@"@) {
                    PassView { events: st.events.push(EvView::Text(t2)), ..st }
                } else {
                    let so = splice_spec(t2, rs, re, spans, outs, st.sc, false, st.events);
                    PassView {
                        events: so.events,
                        sc: so.sc,
                        error: if so.error is Some {
                            so.error
                        } else {
                            st.error
                        },
                        ..st
                    }
                }
            }
        },
        EvView::Html(t) => {
            if has_sub(t, "<!-- more -->"@) {
                PassView {
                    events: st.events.push(
                        EvView::Html("<span id=\"continue-reading\"></span>"@),
                    ),
                    has_summary: true,
                    ..st
                }
            } else if !has_sub(t, "@@SHORTCODE@@"@) {
                PassView { events: st.events.push(EvView::Html(t)), ..st }
            } else {
                let so = splice_spec(t, rs, re, spans, outs, st.sc, true, st.events);
                PassView {
                    events: so.events,
                    sc: so.sc,
                    error: if so.error is Some {
                        so.error
                    } else {
                        st.error
                    },
                    ..st
                }
            }
        },
        EvView::Start(TagView::CodeBlock(fenced, info)) => PassView {
            events: st.events.push(EvView::Html(codeblock_open(info))),
            in_code: true,
            ..st
        },
        EvView::End(TagView::CodeBlock(fenced, info)) => PassView {
            events: st.events.push(EvView::Html("</code></pre>\n"@)),
            in_code: false,
            ..st
        },
        EvView::Start(TagView::Link(kind, url, title)) => {
            if url.len() == 0 {
                PassView {
                    events: st.events.push(EvView::Start(TagView::Link(kind, "#"@, title))),
                    error: Option::Some(ErrView::MissingLinkUrl),
                    ..st
                }
            } else if kind == LinkKind::Email {
                PassView { events: st.events.push(ev), ..st }
            } else if url.len() >= 2 && url.subrange(0, 2) == "@/"@ {
                let body = url.subrange(2, url.len() as int);
                let h = find_char(body, '#', 0);
                let path = body.subrange(0, h);
                match lookup_permalink(cv.permalinks, path) {
                    Option::None => PassView {
                        events: st.events.push(EvView::Html(Seq::empty())),
                        error: Option::Some(ErrView::BrokenInternalLink(url)),
                        ..st
                    },
                    Option::Some(p) => {
                        let anchor: Option<Seq<char>> = if h < body.len() {
                            Option::Some(body.subrange(h + 1, body.len() as int))
                        } else {
                            Option::None
                        };
                        let permalink: Seq<char> = if h < body.len() {
                            p + seq!['#'] + body.subrange(h + 1, body.len() as int)
                        } else {
                            p
                        };
                        PassView {
                            events: st.events.push(
                                EvView::Start(TagView::Link(kind, permalink, title)),
                            ),
                            internal_links: st.internal_links.push((path, anchor)),
                            ..st
                        }
                    },
                }
            } else {
                let ext = is_external(url);
                let externals = if ext {
                    st.external_links.push(url)
                } else {
                    st.external_links
                };
                let tweaked = ext && (cv.external_links_target_blank || cv.external_links_no_follow
                    || cv.external_links_no_referrer);
                let pushed: EvView = if tweaked {
                    EvView::Html(external_link_tag(escaped_href_of(url), cv))
                } else {
                    EvView::Start(TagView::Link(kind, url, title))
                };
                PassView { events: st.events.push(pushed), external_links: externals, ..st }
            }
        },
        EvView::Start(TagView::Paragraph) => {
            if 0 <= st.sc && st.sc < spans.len() && para_covers_span(
                content,
                rs,
                re,
                spans[st.sc],
            ) {
                PassView {
                    events: st.events.push(EvView::Html(Seq::empty())),
                    stop_next_end_p: true,
                    ..st
                }
            } else {
                PassView { events: st.events.push(ev), ..st }
            }
        },
        EvView::End(TagView::Paragraph) => {
            if st.stop_next_end_p {
                PassView {
                    events: st.events.push(EvView::Html(Seq::empty())),
                    stop_next_end_p: false,
                    ..st
                }
            } else {
                PassView { events: st.events.push(ev), ..st }
            }
        },
        _ => PassView { events: st.events.push(ev), ..st },
    }
}

/// The whole forward pass, from event `i` on.
pub open spec fn fold_spec(
    evs: Seq<(EvView, int, int)>,
    i: int,
    st: PassView,
    content: Seq<char>,
    cv: CtxView,
    spans: Seq<(int, int)>,
    outs: Seq<Result<Seq<char>, ErrView>>,
) -> PassView
    decreases evs.len() - i,
{
    if i < 0 || i >= evs.len() {
        st
    } else {
        fold_spec(
            evs,
            i + 1,
            step_spec(st, evs[i].0, evs[i].1, evs[i].2, content, cv, spans, outs),
            content,
            cv,
            spans,
            outs,
        )
    }
}


fn payload_event(html_mode: bool, s: String) -> (e: MdEvent)
    ensures
        e@ == payload_ev(html_mode, s@),
{
    if html_mode {
        MdEvent::Html(s)
    } else {
        MdEvent::Text(s)
    }
}

/// Splices pending macro outputs into one text or raw-HTML payload, emitting
/// into `events`; returns the events, the new macro cursor and any expansion
/// error.
fn splice_payload(
    payload: String,
    cur0: usize,
    re: usize,
    shortcodes: &Vec<Shortcode>,
    outs: &Vec<Result<String, RenderError>>,
    k0: usize,
    html_mode: bool,
    events: Vec<MdEvent>,
) -> (r: (Vec<MdEvent>, usize, Option<RenderError>))
    requires
        shortcodes@.len() == outs@.len(),
        k0 <= shortcodes@.len(),
    ensures
        ({
            let so = splice_spec(
                payload@,
                cur0 as int,
                re as int,
                sc_spans(shortcodes@),
                outs_view(outs@),
                k0 as int,
                html_mode,
                ev_seq_view(events@),
            );
            ev_seq_view(r.0@) == so.events && r.1 as int == so.sc && opt_err_view(r.2) == so.error
                && r.1 <= shortcodes@.len()
        }),
{
    let ghost spans = sc_spans(shortcodes@);
    let ghost ov = outs_view(outs@);
    let mut rest = payload;
    let mut evs = events;
    let mut cur = cur0;
    let mut k = k0;
    loop
        invariant
            shortcodes@.len() == outs@.len(),
            k <= shortcodes@.len(),
            spans == sc_spans(shortcodes@),
            ov == outs_view(outs@),
            splice_spec(
                payload@,
                cur0 as int,
                re as int,
                spans,
                ov,
                k0 as int,
                html_mode,
                ev_seq_view(events@),
            ) == splice_spec(
                rest@,
                cur as int,
                re as int,
                spans,
                ov,
                k as int,
                html_mode,
                ev_seq_view(evs@),
            ),
        decreases shortcodes@.len() - k,
    {
        let n = rest.as_str().unicode_len();
        proof {
            assert(spans.len() == shortcodes@.len());
            assert(ov.len() == outs@.len());
            if (k as int) < shortcodes@.len() {
                assert(spans[k as int] == (
                    shortcodes@[k as int].span_start as int,
                    shortcodes@[k as int].span_end as int,
                ));
                assert(ov[k as int] == outs_view(outs@)[k as int]);
            }
        }
        let proceed = k < shortcodes.len() && cur <= shortcodes[k].span_start
            && shortcodes[k].span_start < re;
        if !proceed {
            let ghost pv = rest@;
            let ghost evs0 = ev_seq_view(evs@);
            evs.push(payload_event(html_mode, rest));
            proof {
                assert(ev_seq_view(evs@) =~= evs0.push(payload_ev(html_mode, pv)));
            }
            return (evs, k, None);
        }
        let s_start = shortcodes[k].span_start;
        let s_end = shortcodes[k].span_end;
        let cut_opt = byte_to_char_idx(rest.as_str(), s_start - cur);
        match cut_opt {
            None => {
                let ghost pv = rest@;
                let ghost evs0 = ev_seq_view(evs@);
                evs.push(payload_event(html_mode, rest));
                proof {
                    assert(ev_seq_view(evs@) =~= evs0.push(payload_ev(html_mode, pv)));
                }
                return (evs, k, None);
            },
            Some(cut) => {
                if cut > 0 {
                    let pre = rest.as_str().substring_char(0, cut).to_owned();
                    let ghost evs0 = ev_seq_view(evs@);
                    evs.push(payload_event(html_mode, pre));
                    proof {
                        assert(ev_seq_view(evs@) =~= evs0.push(
                            payload_ev(html_mode, rest@.subrange(0, cut as int)),
                        ));
                    }
                }
                match &outs[k] {
                    Err(e) => {
                        let tail = rest.as_str().substring_char(cut, n).to_owned();
                        let ghost evs1 = ev_seq_view(evs@);
                        evs.push(payload_event(html_mode, tail));
                        proof {
                            assert(ev_seq_view(evs@) =~= evs1.push(
                                payload_ev(
                                    html_mode,
                                    rest@.subrange(cut as int, rest@.len() as int),
                                ),
                            ));
                        }
                        let err = clone_render_error(e);
                        return (evs, k + 1, Some(err));
                    },
                    Ok(sout) => {
                        let ghost evs1 = ev_seq_view(evs@);
                        evs.push(MdEvent::Html(sout.clone()));
                        proof {
                            assert(ev_seq_view(evs@) =~= evs1.push(
                                EvView::Html(outs@[k as int]->Ok_0@),
                            ));
                        }
                        let cut2_opt = if s_end < cur {
                            None
                        } else {
                            byte_to_char_idx(rest.as_str(), s_end - cur)
                        };
                        match cut2_opt {
                            None => {
                                let tail = rest.as_str().substring_char(cut, n).to_owned();
                                let ghost evs2 = ev_seq_view(evs@);
                                evs.push(payload_event(html_mode, tail));
                                proof {
                                    assert(ev_seq_view(evs@) =~= evs2.push(
                                        payload_ev(
                                            html_mode,
                                            rest@.subrange(cut as int, rest@.len() as int),
                                        ),
                                    ));
                                }
                                return (evs, k + 1, None);
                            },
                            Some(cut2) => {
                                if cut <= cut2 && cut2 <= n {
                                    let tail = rest.as_str().substring_char(cut2, n).to_owned();
                                    rest = tail;
                                    cur = s_end;
                                    k = k + 1;
                                } else {
                                    let tail = rest.as_str().substring_char(cut, n).to_owned();
                                    let ghost evs2 = ev_seq_view(evs@);
                                    evs.push(payload_event(html_mode, tail));
                                    proof {
                                        assert(ev_seq_view(evs@) =~= evs2.push(
                                            payload_ev(
                                                html_mode,
                                                rest@.subrange(cut as int, rest@.len() as int),
                                            ),
                                        ));
                                    }
                                    return (evs, k + 1, None);
                                }
                            },
                        }
                    },
                }
            },
        }
    }
}


fn codeblock_open_exec(info: &str) -> (r: String)
    ensures
        r@ == codeblock_open(info@),
{
    let n = info.unicode_len();
    let h = crate::strutil::find_char_from(info, ',', 0);
    let lang = info.substring_char(0, h);
    if lang.is_empty() {
        "<pre><code>".to_owned()
    } else {
        let mut t = "<pre><code class=\"language-".to_owned();
        t.append(lang);
        t.append("\">");
        t
    }
}

fn external_link_tag_exec(escaped: &str, ctx: &RenderContext) -> (r: String)
    ensures
        r@ == external_link_tag(escaped@, ctx@),
{
    let blank = ctx.external_links_target_blank;
    let nf = ctx.external_links_no_follow;
    let nr = ctx.external_links_no_referrer;
    let mut rel_parts = String::new();
    if blank {
        rel_parts.append("noopener");
    }
    if nf {
        if blank {
            rel_parts.append(" ");
        }
        rel_parts.append("nofollow");
    }
    if nr {
        if blank || nf {
            rel_parts.append(" ");
        }
        rel_parts.append("noreferrer");
    }
    let mut out = "<a ".to_owned();
    if blank {
        out.append("target=\"_blank\" ");
    }
    if !rel_parts.as_str().is_empty() {
        out.append("rel=\"");
        out.append(rel_parts.as_str());
        out.append("\" ");
    } else {
        proof {
            assert(rel_parts@ =~= Seq::<char>::empty());
        }
    }
    out.append("href=\"");
    out.append(escaped);
    out.append("\">");
    proof {
        assert(out@ =~= external_link_tag(escaped@, ctx@));
    }
    out
}

/// Processes one event, mirroring `step_spec`.
#[verifier::rlimit(60)]
fn step_event(
    st: PassState,
    ev: MdEvent,
    rs: usize,
    re: usize,
    content: &str,
    ctx: &RenderContext,
    shortcodes: &Vec<Shortcode>,
    outs: &Vec<Result<String, RenderError>>,
) -> (r: PassState)
    requires
        shortcodes@.len() == outs@.len(),
        st.sc <= shortcodes@.len(),
    ensures
        pass_view(r) == step_spec(
            pass_view(st),
            ev@,
            rs as int,
            re as int,
            content@,
            ctx@,
            sc_spans(shortcodes@),
            outs_view(outs@),
        ),
        r.sc <= shortcodes@.len(),
{
    let ghost st0 = pass_view(st);
    let ghost spans = sc_spans(shortcodes@);
    let ghost ov = outs_view(outs@);
    let mut st = st;
    proof {
        assert(spans.len() == shortcodes@.len());
    }
    match ev {
        MdEvent::Text(t) => {
            if st.in_code {
                let html = escape_html_str(t.as_str());
                let ghost evs0 = ev_seq_view(st.events@);
                st.events.push(MdEvent::Html(html));
                proof {
                    assert(ev_seq_view(st.events@) =~= evs0.push(
                        EvView::Html(escaped_html_of(t@)),
                    ));
                    assert(pass_view(st) =~= step_spec(
                        st0,
                        ev@,
                        rs as int,
                        re as int,
                        content@,
                        ctx@,
                        spans,
                        ov,
                    ));
                }
                st
            } else {
                let t2 = if ctx.render_emoji {
                    replace_emoji(t.as_str())
                } else {
                    t
                };
                if !contains_sub(t2.as_str(), "@@SHORTCODE@@") {
                    let ghost evs0 = ev_seq_view(st.events@);
                    let ghost t2v = t2@;
                    st.events.push(MdEvent::Text(t2));
                    proof {
                        assert(ev_seq_view(st.events@) =~= evs0.push(EvView::Text(t2v)));
                        assert(pass_view(st) =~= step_spec(
                            st0,
                            ev@,
                            rs as int,
                            re as int,
                            content@,
                            ctx@,
                            spans,
                            ov,
                        ));
                    }
                    st
                } else {
                    let PassState {
                        events,
                        in_code,
                        sc,
                        stop_next_end_p,
                        error,
                        internal_links,
                        external_links,
                        has_summary,
                    } = st;
                    let (evs_out, k2, err2) = splice_payload(
                        t2,
                        rs,
                        re,
                        shortcodes,
                        outs,
                        sc,
                        false,
                        events,
                    );
                    st = PassState {
                        events: evs_out,
                        in_code,
                        sc: k2,
                        stop_next_end_p,
                        error: if err2.is_some() {
                            err2
                        } else {
                            error
                        },
                        internal_links,
                        external_links,
                        has_summary,
                    };
                    proof {
                        assert(pass_view(st) =~= step_spec(
                            st0,
                            ev@,
                            rs as int,
                            re as int,
                            content@,
                            ctx@,
                            spans,
                            ov,
                        ));
                    }
                    st
                }
            }
        },
        MdEvent::Html(t) => {
            if contains_sub(t.as_str(), "<!-- more -->") {
                let ghost evs0 = ev_seq_view(st.events@);
                st.events.push(
                    MdEvent::Html("<span id=\"continue-reading\"></span>".to_owned()),
                );
                st.has_summary = true;
                proof {
                    assert(ev_seq_view(st.events@) =~= evs0.push(
                        EvView::Html("<span id=\"continue-reading\"></span>"@),
                    ));
                    assert(pass_view(st) =~= step_spec(
                        st0,
                        ev@,
                        rs as int,
                        re as int,
                        content@,
                        ctx@,
                        spans,
                        ov,
                    ));
                }
                st
            } else if !contains_sub(t.as_str(), "@@SHORTCODE@@") {
                let ghost evs0 = ev_seq_view(st.events@);
                let ghost tv = t@;
                st.events.push(MdEvent::Html(t));
                proof {
                    assert(ev_seq_view(st.events@) =~= evs0.push(EvView::Html(tv)));
                    assert(pass_view(st) =~= step_spec(
                        st0,
                        ev@,
                        rs as int,
                        re as int,
                        content@,
                        ctx@,
                        spans,
                        ov,
                    ));
                }
                st
            } else {
                let PassState {
                    events,
                    in_code,
                    sc,
                    stop_next_end_p,
                    error,
                    internal_links,
                    external_links,
                    has_summary,
                } = st;
                let (evs_out, k2, err2) = splice_payload(
                    t,
                    rs,
                    re,
                    shortcodes,
                    outs,
                    sc,
                    true,
                    events,
                );
                st = PassState {
                    events: evs_out,
                    in_code,
                    sc: k2,
                    stop_next_end_p,
                    error: if err2.is_some() {
                        err2
                    } else {
                        error
                    },
                    internal_links,
                    external_links,
                    has_summary,
                };
                proof {
                    assert(pass_view(st) =~= step_spec(
                        st0,
                        ev@,
                        rs as int,
                        re as int,
                        content@,
                        ctx@,
                        spans,
                        ov,
                    ));
                }
                st
            }
        },
        MdEvent::Start(MdTag::CodeBlock(fenced, info)) => {
            let open = codeblock_open_exec(info.as_str());
            let ghost evs0 = ev_seq_view(st.events@);
            let ghost openv = open@;
            st.events.push(MdEvent::Html(open));
            st.in_code = true;
            proof {
                assert(ev_seq_view(st.events@) =~= evs0.push(EvView::Html(openv)));
                assert(pass_view(st) =~= step_spec(
                    st0,
                    ev@,
                    rs as int,
                    re as int,
                    content@,
                    ctx@,
                    spans,
                    ov,
                ));
            }
            st
        },
        MdEvent::End(MdTag::CodeBlock(fenced, info)) => {
            let ghost evs0 = ev_seq_view(st.events@);
            st.events.push(MdEvent::Html("</code></pre>\n".to_owned()));
            st.in_code = false;
            proof {
                assert(ev_seq_view(st.events@) =~= evs0.push(EvView::Html("</code></pre>\n"@)));
                assert(pass_view(st) =~= step_spec(
                    st0,
                    ev@,
                    rs as int,
                    re as int,
                    content@,
                    ctx@,
                    spans,
                    ov,
                ));
            }
            st
        },
        MdEvent::Start(MdTag::Link(kind, url, title)) => {
            let r = step_link(st, kind, url, title, ctx);
            proof {
                assert(pass_view(r) =~= step_spec(
                    st0,
                    ev@,
                    rs as int,
                    re as int,
                    content@,
                    ctx@,
                    spans,
                    ov,
                ));
            }
            r
        },
        MdEvent::Start(MdTag::Paragraph) => {
            let suppress: bool = st.sc < shortcodes.len() && shortcodes[st.sc].span_start == rs
                && para_covers_exec(content, rs, re, shortcodes[st.sc].span_end);
            proof {
                if (st.sc as int) < spans.len() {
                    assert(spans[st.sc as int] == (
                        shortcodes@[st.sc as int].span_start as int,
                        shortcodes@[st.sc as int].span_end as int,
                    ));
                }
            }
            let ghost evs0 = ev_seq_view(st.events@);
            if suppress {
                st.events.push(MdEvent::Html(String::new()));
                st.stop_next_end_p = true;
                proof {
                    assert(ev_seq_view(st.events@) =~= evs0.push(
                        EvView::Html(Seq::<char>::empty()),
                    ));
                }
            } else {
                st.events.push(MdEvent::Start(MdTag::Paragraph));
                proof {
                    assert(ev_seq_view(st.events@) =~= evs0.push(
                        EvView::Start(TagView::Paragraph),
                    ));
                }
            }
            proof {
                assert(pass_view(st) =~= step_spec(
                    st0,
                    ev@,
                    rs as int,
                    re as int,
                    content@,
                    ctx@,
                    spans,
                    ov,
                ));
            }
            st
        },
        MdEvent::End(MdTag::Paragraph) => {
            let ghost evs0 = ev_seq_view(st.events@);
            if st.stop_next_end_p {
                st.events.push(MdEvent::Html(String::new()));
                st.stop_next_end_p = false;
                proof {
                    assert(ev_seq_view(st.events@) =~= evs0.push(
                        EvView::Html(Seq::<char>::empty()),
                    ));
                }
            } else {
                st.events.push(MdEvent::End(MdTag::Paragraph));
                proof {
                    assert(ev_seq_view(st.events@) =~= evs0.push(EvView::End(TagView::Paragraph)));
                }
            }
            proof {
                assert(pass_view(st) =~= step_spec(
                    st0,
                    ev@,
                    rs as int,
                    re as int,
                    content@,
                    ctx@,
                    spans,
                    ov,
                ));
            }
            st
        },
        other => {
            let ghost ov2 = other@;
            let ghost evs0 = ev_seq_view(st.events@);
            st.events.push(other);
            proof {
                assert(ev_seq_view(st.events@) =~= evs0.push(ov2));
                assert(pass_view(st) =~= step_spec(
                    st0,
                    ov2,
                    rs as int,
                    re as int,
                    content@,
                    ctx@,
                    spans,
                    ov,
                ));
            }
            st
        },
    }
}

/// Whether the paragraph's trimmed source text is exactly as long as the
/// span that starts where the paragraph does.
fn para_covers_exec(content: &str, rs: usize, re: usize, span_end: usize) -> (r: bool)
    ensures
        r == ({
            let c = byte_to_char(content@, rs as int);
            let d = byte_to_char(content@, re as int);
            match (c, d) {
                (Option::Some(a), Option::Some(b)) => a <= b <= content@.len() && span_end as int
                    - rs as int == (bytes_len(trimmed(content@.subrange(a, b))) as usize) as int,
                _ => false,
            }
        }),
{
    let a_opt = byte_to_char_idx(content, rs);
    let b_opt = byte_to_char_idx(content, re);
    match (a_opt, b_opt) {
        (Some(a), Some(b)) => {
            if a <= b {
                let t = trim_range(content, a, b);
                let ts = t.as_str();
                let tb = ts.len();
                proof {
                    assert(ts@ == trimmed(content@.subrange(a as int, b as int)));
                    assert(ts.spec_bytes() == vstd::utf8::encode_utf8(ts@));
                    assert(tb as int == (bytes_len(trimmed(content@.subrange(a as int, b as int)))
                        as usize) as int);
                }
                if span_end >= rs {
                    span_end - rs == tb
                } else {
                    false
                }
            } else {
                false
            }
        },
        _ => false,
    }
}

/// The link-token rewrite: email links pass through, site-local references
/// are resolved against the permalink table (a failure is recorded and the
/// token replaced by empty HTML), external links are recorded and, when
/// configured, replaced by a decorated anchor tag.
#[verifier::rlimit(60)]
fn step_link(
    st: PassState,
    kind: LinkKind,
    url: String,
    title: String,
    ctx: &RenderContext,
) -> (r: PassState)
    ensures
        pass_view(r) == ({
            let stv = pass_view(st);
            let ev = EvView::Start(TagView::Link(kind, url@, title@));
            step_spec(
                stv,
                ev,
                0,
                0,
                Seq::<char>::empty(),
                ctx@,
                Seq::<(int, int)>::empty(),
                Seq::<Result<Seq<char>, ErrView>>::empty(),
            )
        }),
        r.sc == st.sc,
{
    let ghost st0 = pass_view(st);
    let mut st = st;
    if url.as_str().is_empty() {
        let ghost evs0 = ev_seq_view(st.events@);
        st.events.push(MdEvent::Start(MdTag::Link(kind, "#".to_owned(), title)));
        st.error = Some(RenderError::MissingLinkUrl);
        proof {
            assert(ev_seq_view(st.events@) =~= evs0.push(
                EvView::Start(TagView::Link(kind, "#"@, title@)),
            ));
            assert(pass_view(st) =~= PassView {
                events: st0.events.push(EvView::Start(TagView::Link(kind, "#"@, title@))),
                error: Option::Some(ErrView::MissingLinkUrl),
                ..st0
            });
        }
        return st;
    }
    if kind == LinkKind::Email {
        let ghost evs0 = ev_seq_view(st.events@);
        let ghost uv = url@;
        let ghost tv = title@;
        st.events.push(MdEvent::Start(MdTag::Link(kind, url, title)));
        proof {
            assert(ev_seq_view(st.events@) =~= evs0.push(
                EvView::Start(TagView::Link(kind, uv, tv)),
            ));
        }
        return st;
    }
    if str_starts_with(url.as_str(), "@/") {
        proof {
            reveal_strlit("@/");
        }
        match resolve_internal_link(url.as_str(), &ctx.permalinks) {
            Ok(res) => {
                let ghost evs0 = ev_seq_view(st.events@);
                let ghost links0 = links_pairs_view(st.internal_links@);
                let ghost pv = res.permalink@;
                let ghost mdv = res.md_path@;
                let ghost av = match res.anchor {
                    Option::Some(ref a) => Option::Some(a@),
                    Option::None => Option::<Seq<char>>::None,
                };
                st.internal_links.push((res.md_path, res.anchor));
                let ghost tv = title@;
                st.events.push(MdEvent::Start(MdTag::Link(kind, res.permalink, title)));
                proof {
                    assert(ev_seq_view(st.events@) =~= evs0.push(
                        EvView::Start(TagView::Link(kind, pv, tv)),
                    ));
                    assert(links_pairs_view(st.internal_links@) =~= links0.push((mdv, av)));
                }
                return st;
            },
            Err(e) => {
                let ghost evs0 = ev_seq_view(st.events@);
                st.events.push(MdEvent::Html(String::new()));
                st.error = Some(RenderError::BrokenInternalLink(url));
                proof {
                    assert(ev_seq_view(st.events@) =~= evs0.push(
                        EvView::Html(Seq::<char>::empty()),
                    ));
                }
                return st;
            },
        }
    }
    let ext = is_external_link(url.as_str());
    if ext {
        let ghost exts0 = strings_deep(st.external_links@);
        let ghost uv = url@;
        st.external_links.push(url.clone());
        proof {
            assert(strings_deep(st.external_links@) =~= exts0.push(uv));
        }
    }
    if ext && ctx.has_external_link_tweaks() {
        let escaped = escape_href_str(url.as_str());
        let tag = external_link_tag_exec(escaped.as_str(), ctx);
        let ghost evs0 = ev_seq_view(st.events@);
        let ghost tagv = tag@;
        st.events.push(MdEvent::Html(tag));
        proof {
            assert(ev_seq_view(st.events@) =~= evs0.push(EvView::Html(tagv)));
        }
        st
    } else {
        let ghost evs0 = ev_seq_view(st.events@);
        let ghost uv = url@;
        let ghost tv = title@;
        st.events.push(MdEvent::Start(MdTag::Link(kind, url, title)));
        proof {
            assert(ev_seq_view(st.events@) =~= evs0.push(
                EvView::Start(TagView::Link(kind, uv, tv)),
            ));
        }
        st
    }
}


/// Runs the forward pass over the whole event stream.
fn process_events(
    parsed: Vec<(MdEvent, usize, usize)>,
    content: &str,
    ctx: &RenderContext,
    shortcodes: &Vec<Shortcode>,
    outs: &Vec<Result<String, RenderError>>,
) -> (st: PassState)
    requires
        shortcodes@.len() == outs@.len(),
    ensures
        pass_view(st) == fold_spec(
            evs_view(parsed@),
            0,
            init_pass(),
            content@,
            ctx@,
            sc_spans(shortcodes@),
            outs_view(outs@),
        ),
        st.sc <= shortcodes@.len(),
{
    let ghost evs = evs_view(parsed@);
    let ghost spans = sc_spans(shortcodes@);
    let ghost ov = outs_view(outs@);
    let mut st = PassState {
        events: Vec::new(),
        in_code: false,
        sc: 0,
        stop_next_end_p: false,
        error: None,
        internal_links: Vec::new(),
        external_links: Vec::new(),
        has_summary: false,
    };
    proof {
        assert(pass_view(st) =~= init_pass());
        assert(evs_view(parsed@) =~= evs.subrange(evs.len() - parsed@.len(), evs.len() as int));
    }
    let mut rem = parsed;
    while rem.len() > 0
        invariant
            shortcodes@.len() == outs@.len(),
            st.sc <= shortcodes@.len(),
            rem@.len() <= evs.len(),
            evs_view(rem@) == evs.subrange(evs.len() - rem@.len(), evs.len() as int),
            spans == sc_spans(shortcodes@),
            ov == outs_view(outs@),
            fold_spec(evs, 0, init_pass(), content@, ctx@, spans, ov) == fold_spec(
                evs,
                evs.len() - rem@.len(),
                pass_view(st),
                content@,
                ctx@,
                spans,
                ov,
            ),
        decreases rem@.len(),
    {
        let ghost i = evs.len() - rem@.len();
        let ghost rv = evs_view(rem@);
        let (ev, rs, re) = rem.remove(0);
        proof {
            assert(rv[0] == (ev@, rs as int, re as int));
            assert(rv[0] == evs[i]);
            assert(evs_view(rem@) =~= rv.subrange(1, rv.len() as int));
            assert(evs_view(rem@) =~= evs.subrange(evs.len() - rem@.len(), evs.len() as int));
        }
        let st2 = step_event(st, ev, rs, re, content, ctx, shortcodes, outs);
        st = st2;
    }
    proof {
        assert(fold_spec(
            evs,
            evs.len() as int,
            pass_view(st),
            content@,
            ctx@,
            spans,
            ov,
        ) == pass_view(st));
    }
    st
}

/// Drops the empty text and raw-HTML events the splicing left behind.
pub open spec fn filter_empty(evs: Seq<EvView>, i: int, acc: Seq<EvView>) -> Seq<EvView>
    decreases evs.len() - i,
{
    if i < 0 || i >= evs.len() {
        acc
    } else {
        let keep = match evs[i] {
            EvView::Text(t) => t.len() > 0,
            EvView::Html(t) => t.len() > 0,
            _ => true,
        };
        filter_empty(
            evs,
            i + 1,
            if keep {
                acc.push(evs[i])
            } else {
                acc
            },
        )
    }
}

fn filter_empties(events: Vec<MdEvent>) -> (r: Vec<MdEvent>)
    ensures
        ev_seq_view(r@) == filter_empty(ev_seq_view(events@), 0, Seq::empty()),
{
    let ghost full = ev_seq_view(events@);
    let mut out: Vec<MdEvent> = Vec::new();
    let mut rem = events;
    proof {
        assert(ev_seq_view(rem@) =~= full.subrange(full.len() - rem@.len(), full.len() as int));
        assert(ev_seq_view(out@) =~= Seq::<EvView>::empty());
    }
    while rem.len() > 0
        invariant
            rem@.len() <= full.len(),
            ev_seq_view(rem@) == full.subrange(full.len() - rem@.len(), full.len() as int),
            filter_empty(full, 0, Seq::empty()) == filter_empty(
                full,
                full.len() - rem@.len(),
                ev_seq_view(out@),
            ),
        decreases rem@.len(),
    {
        let ghost i = full.len() - rem@.len();
        let ghost rv = ev_seq_view(rem@);
        let keep = match &rem[0] {
            MdEvent::Text(t) => !t.as_str().is_empty(),
            MdEvent::Html(t) => !t.as_str().is_empty(),
            _ => true,
        };
        let e = rem.remove(0);
        proof {
            assert(rv[0] == e@);
            assert(rv[0] == full[i]);
            assert(ev_seq_view(rem@) =~= rv.subrange(1, rv.len() as int));
            assert(ev_seq_view(rem@) =~= full.subrange(full.len() - rem@.len(), full.len() as int));
        }
        if keep {
            let ghost outv = ev_seq_view(out@);
            out.push(e);
            proof {
                assert(ev_seq_view(out@) =~= outv.push(full[i]));
            }
        }
    }
    out
}

/// The concatenated text of the `Text` and `Code` events in `evs[lo..hi]`:
/// a heading's title.
pub open spec fn text_of(evs: Seq<EvView>, lo: int, hi: int) -> Seq<char>
    decreases hi - lo,
{
    if lo < 0 || lo >= hi || hi > evs.len() {
        Seq::empty()
    } else {
        (match evs[lo] {
            EvView::Text(t) => t,
            EvView::Code(t) => t,
            _ => Seq::empty(),
        }) + text_of(evs, lo + 1, hi)
    }
}

fn get_text_range(events: &Vec<MdEvent>, lo: usize, hi: usize) -> (title: String)
    requires
        lo <= hi <= events@.len(),
    ensures
        title@ == text_of(ev_seq_view(events@), lo as int, hi as int),
    decreases hi - lo,
{
    let ghost evs = ev_seq_view(events@);
    if lo >= hi {
        return String::new();
    }
    let rest = get_text_range(events, lo + 1, hi);
    proof {
        assert(evs[lo as int] == events@[lo as int]@);
    }
    match &events[lo] {
        MdEvent::Text(t) => {
            let mut s = t.clone();
            s.append(rest.as_str());
            s
        },
        MdEvent::Code(t) => {
            let mut s = t.clone();
            s.append(rest.as_str());
            s
        },
        _ => {
            proof {
                assert(Seq::<char>::empty() + text_of(evs, lo + 1 as int, hi as int) =~= text_of(
                    evs,
                    lo + 1 as int,
                    hi as int,
                ));
            }
            rest
        },
    }
}

/// Returns only the text of a slice of events.
pub fn get_text(parser_slice: &[MdEvent]) -> (title: String)
    ensures
        title@ == text_of(ev_seq_view(parser_slice@), 0, parser_slice@.len() as int),
{
    let ghost evs = ev_seq_view(parser_slice@);
    let n = parser_slice.len();
    let mut acc = String::new();
    let mut i = n;
    while i > 0
        invariant
            0 <= i <= n == parser_slice@.len(),
            evs == ev_seq_view(parser_slice@),
            acc@ == text_of(evs, i as int, n as int),
        decreases i,
    {
        i -= 1;
        proof {
            assert(evs[i as int] == parser_slice@[i as int]@);
        }
        match &parser_slice[i] {
            MdEvent::Text(t) => {
                let mut s = t.clone();
                s.append(acc.as_str());
                acc = s;
            },
            MdEvent::Code(t) => {
                let mut s = t.clone();
                s.append(acc.as_str());
                acc = s;
            },
            _ => {
                proof {
                    assert(Seq::<char>::empty() + text_of(evs, i + 1 as int, n as int) =~= text_of(
                        evs,
                        i + 1 as int,
                        n as int,
                    ));
                }
            },
        }
    }
    acc
}

/// Tracks a heading in a slice of events.
pub struct HeadingRef {
    pub start_idx: usize,
    pub end_idx: usize,
    pub level: u32,
    pub id: Option<String>,
}

/// Mathematical model of a `HeadingRef`.
#[verifier::ext_equal]
pub struct HRefView {
    pub start: int,
    pub end: int,
    pub level: u32,
    pub id: Option<Seq<char>>,
}

impl HeadingRef {
    pub open spec fn view(&self) -> HRefView {
        HRefView {
            start: self.start_idx as int,
            end: self.end_idx as int,
            level: self.level,
            id: match self.id {
                Option::Some(ref s) => Option::Some(s@),
                Option::None => Option::None,
            },
        }
    }

    pub fn new(start: usize, level: u32) -> (r: HeadingRef)
        ensures
            r@ == (HRefView { start: start as int, end: 0, level, id: Option::None }),
    {
        HeadingRef { start_idx: start, end_idx: 0, level, id: None }
    }
}

pub open spec fn hrefs_view(v: Seq<HeadingRef>) -> Seq<HRefView> {
    v.map(|i: int, h: HeadingRef| h@)
}

/// The headings of an event sequence: each `Start(Heading)` opens one, and a
/// matching `End(Heading)` closes the most recently opened one.
pub open spec fn heading_refs_spec(evs: Seq<EvView>, i: int, acc: Seq<HRefView>) -> Seq<HRefView>
    decreases evs.len() - i,
{
    if i < 0 || i >= evs.len() {
        acc
    } else {
        let acc2 = match evs[i] {
            EvView::Start(TagView::Heading(l)) => acc.push(
                HRefView { start: i, end: 0, level: l, id: Option::None },
            ),
            EvView::End(TagView::Heading(l)) => if acc.len() > 0 {
                acc.update(
                    acc.len() - 1,
                    HRefView { end: i, ..acc[acc.len() - 1] },
                )
            } else {
                acc
            },
            _ => acc,
        };
        heading_refs_spec(evs, i + 1, acc2)
    }
}

/// Collects the heading spans of the event stream.
pub fn get_heading_refs(events: &Vec<MdEvent>) -> (refs: Vec<HeadingRef>)
    ensures
        hrefs_view(refs@) == heading_refs_spec(ev_seq_view(events@), 0, Seq::empty()),
{
    let ghost evs = ev_seq_view(events@);
    let mut refs: Vec<HeadingRef> = Vec::new();
    proof {
        assert(hrefs_view(refs@) =~= Seq::<HRefView>::empty());
    }
    let mut i: usize = 0;
    while i < events.len()
        invariant
            0 <= i <= events@.len(),
            evs == ev_seq_view(events@),
            heading_refs_spec(evs, 0, Seq::empty()) == heading_refs_spec(
                evs,
                i as int,
                hrefs_view(refs@),
            ),
        decreases events@.len() - i,
    {
        let ghost acc0 = hrefs_view(refs@);
        proof {
            assert(evs[i as int] == events@[i as int]@);
        }
        match &events[i] {
            MdEvent::Start(MdTag::Heading(l)) => {
                refs.push(HeadingRef::new(i, *l));
                proof {
                    assert(hrefs_view(refs@) =~= acc0.push(
                        HRefView { start: i as int, end: 0, level: *l, id: Option::None },
                    ));
                }
            },
            MdEvent::End(MdTag::Heading(l)) => {
                if refs.len() > 0 {
                    let last = refs.len() - 1;
                    let mut hr = refs.remove(last);
                    hr.end_idx = i;
                    refs.push(hr);
                    proof {
                        assert(hrefs_view(refs@) =~= acc0.update(
                            acc0.len() - 1,
                            HRefView { end: i as int, ..acc0[acc0.len() - 1] },
                        ));
                    }
                }
            },
            _ => {},
        }
        i += 1;
    }
    refs
}


fn set_event(events: &mut Vec<MdEvent>, idx: usize, e: MdEvent)
    requires
        idx < old(events)@.len(),
    ensures
        ev_seq_view(final(events)@) == ev_seq_view(old(events)@).update(idx as int, e@),
        final(events)@.len() == old(events)@.len(),
{
    let ghost before = ev_seq_view(events@);
    let ghost evv = e@;
    let _ = events.remove(idx);
    events.insert(idx, e);
    proof {
        assert(ev_seq_view(events@) =~= before.update(idx as int, evv));
    }
}

/// Trailing-space backtrack: the first position at or before `k` with no
/// space immediately before it.
pub open spec fn back_spaces(t: Seq<char>, k: int) -> int
    decreases k,
{
    if k > 0 && 0 < k <= t.len() && t[k - 1] == ' ' {
        back_spaces(t, k - 1)
    } else {
        k
    }
}

/// State of the heading-identification passes.
#[verifier::ext_equal]
pub struct ManualView {
    pub events: Seq<EvView>,
    pub refs: Seq<HRefView>,
    pub anchors: Seq<Seq<char>>,
}

/// The manual-id pass: for each heading whose last inner event is a text run
/// ending in `}` and holding `{#`, the id between `{#` and `}` is
/// deduplicated against the anchors reserved so far (so two identical manual
/// markers cannot yield the same id twice) and reserved document-wide, the
/// marker (and spaces before it) is stripped from the text, and the heading
/// remembers its id.
pub open spec fn manual_spec(st: ManualView, j: int) -> ManualView
    decreases st.refs.len() - j,
{
    if j < 0 || j >= st.refs.len() {
        st
    } else {
        let hr = st.refs[j];
        let e = hr.end;
        let st2 = if 1 <= e <= st.events.len() && (st.events[e - 1] is Text) {
            let t = st.events[e - 1]->Text_0;
            if t.len() > 0 && t.last() == '}' && has_sub(t, "{#"@) {
                let i0 = find_sub(t, "{#"@, 0);
                let id = dedup_anchor(st.anchors, t.subrange(i0 + 2, t.len() - 1));
                let i1 = back_spaces(t, i0);
                ManualView {
                    events: st.events.update(e - 1, EvView::Text(t.subrange(0, i1))),
                    refs: st.refs.update(j, HRefView { id: Option::Some(id), ..hr }),
                    anchors: st.anchors.push(id),
                }
            } else {
                st
            }
        } else {
            st
        };
        manual_spec(st2, j + 1)
    }
}

/// The manual pass touches ids only: the heading list keeps its length.
pub proof fn lemma_manual_refs_len(st: ManualView, j: int)
    ensures
        manual_spec(st, j).refs.len() == st.refs.len(),
    decreases st.refs.len() - j,
{
    if 0 <= j < st.refs.len() {
        let hr = st.refs[j];
        let e = hr.end;
        if 1 <= e <= st.events.len() && (st.events[e - 1] is Text) {
            let t = st.events[e - 1]->Text_0;
            if t.len() > 0 && t.last() == '}' && has_sub(t, "{#"@) {
                let i0 = find_sub(t, "{#"@, 0);
                let id = dedup_anchor(st.anchors, t.subrange(i0 + 2, t.len() - 1));
                let i1 = back_spaces(t, i0);
                lemma_manual_refs_len(
                    ManualView {
                        events: st.events.update(e - 1, EvView::Text(t.subrange(0, i1))),
                        refs: st.refs.update(j, HRefView { id: Option::Some(id), ..hr }),
                        anchors: st.anchors.push(id),
                    },
                    j + 1,
                );
            } else {
                lemma_manual_refs_len(st, j + 1);
            }
        } else {
            lemma_manual_refs_len(st, j + 1);
        }
    }
}

/// Runs the manual-id pass.
fn manual_pass(events: Vec<MdEvent>, refs: Vec<HeadingRef>, anchors: Vec<String>) -> (r: (
    Vec<MdEvent>,
    Vec<HeadingRef>,
    Vec<String>,
))
    ensures
        ({
            let mv = manual_spec(
                ManualView {
                    events: ev_seq_view(events@),
                    refs: hrefs_view(refs@),
                    anchors: strings_deep(anchors@),
                },
                0,
            );
            ev_seq_view(r.0@) == mv.events && hrefs_view(r.1@) == mv.refs && strings_deep(r.2@)
                == mv.anchors
        }),
{
    let ghost st0 = ManualView {
        events: ev_seq_view(events@),
        refs: hrefs_view(refs@),
        anchors: strings_deep(anchors@),
    };
    let mut events = events;
    let mut refs = refs;
    let mut anchors = anchors;
    let mut j: usize = 0;
    proof {
        reveal_strlit("{#");
    }
    while j < refs.len()
        invariant
            0 <= j <= refs@.len(),
            "{#"@.len() == 2,
            manual_spec(st0, 0) == manual_spec(
                ManualView {
                    events: ev_seq_view(events@),
                    refs: hrefs_view(refs@),
                    anchors: strings_deep(anchors@),
                },
                j as int,
            ),
        decreases refs@.len() - j,
    {
        let ghost stj = ManualView {
            events: ev_seq_view(events@),
            refs: hrefs_view(refs@),
            anchors: strings_deep(anchors@),
        };
        proof {
            assert(stj.refs[j as int] == refs@[j as int]@);
        }
        let e = refs[j].end_idx;
        let mut did: bool = false;
        if 1 <= e && e <= events.len() {
            proof {
                assert(stj.events[e - 1] == events@[e - 1 as int]@);
            }
            let is_text_case = match &events[e - 1] {
                MdEvent::Text(t) => {
                    let tn = t.unicode_len();
                    tn > 0 && t.get_char(tn - 1) == '}' && contains_sub(t.as_str(), "{#")
                },
                _ => false,
            };
            if is_text_case {
                match &events[e - 1] {
                    MdEvent::Text(t) => {
                        let tn = t.unicode_len();
                        let i0 = find_sub_from(t.as_str(), "{#", 0);
                        proof {
                            reveal_strlit("{#");
                            lemma_find_sub_bounds(t@, "{#"@, 0);
                            assert(t@.subrange(i0 as int, i0 + 2 as int)[1] == t@[i0 + 1]);
                            assert(t@[i0 + 1] == '#');
                            if i0 + 2 == tn {
                                assert(t@[tn - 1] == '#');
                            }
                        }
                        let raw = t.substring_char(i0 + 2, tn - 1).to_owned();
                        let id = find_anchor(anchors.as_slice(), raw, 0);
                        let mut i1 = i0;
                        while i1 > 0 && t.get_char(i1 - 1) == ' '
                            invariant
                                0 <= i1 <= i0 <= t@.len(),
                                back_spaces(t@, i0 as int) == back_spaces(t@, i1 as int),
                            decreases i1,
                        {
                            i1 -= 1;
                        }
                        proof {
                            assert(back_spaces(t@, i1 as int) == i1 as int);
                        }
                        let newt = t.substring_char(0, i1).to_owned();
                        let ghost idv = id@;
                        let ghost refs0 = hrefs_view(refs@);
                        let ghost anchors0 = strings_deep(anchors@);
                        anchors.push(id.clone());
                        let last_ref = refs.remove(j);
                        let nr = HeadingRef {
                            start_idx: last_ref.start_idx,
                            end_idx: last_ref.end_idx,
                            level: last_ref.level,
                            id: Some(id),
                        };
                        refs.insert(j, nr);
                        set_event(&mut events, e - 1, MdEvent::Text(newt));
                        proof {
                            assert(strings_deep(anchors@) =~= anchors0.push(idv));
                            assert(hrefs_view(refs@) =~= refs0.update(
                                j as int,
                                HRefView { id: Option::Some(idv), ..refs0[j as int] },
                            ));
                        }
                        did = true;
                    },
                    _ => {},
                }
            }
        }
        proof {
            let stj2 = ManualView {
                events: ev_seq_view(events@),
                refs: hrefs_view(refs@),
                anchors: strings_deep(anchors@),
            };
            assert(manual_spec(stj, j as int) == manual_spec(stj2, j + 1 as int));
        }
        j += 1;
    }
    (events, refs, anchors)
}

/// The HTML a heading's start token is rewritten to.
pub open spec fn heading_open(level: u32, id: Seq<char>) -> Seq<char> {
    "<h"@ + dec_digits(level as nat) + " id=\""@ + id + "\">"@
}

fn heading_open_exec(level: u32, id: &str) -> (r: String)
    ensures
        r@ == heading_open(level, id@),
{
    let mut t = "<h".to_owned();
    let d = dec_string(level as u128);
    t.append(d.as_str());
    t.append(" id=\"");
    t.append(id);
    t.append("\">");
    t
}

/// State of the auto-id pass.
#[verifier::ext_equal]
pub struct AutoView {
    pub events: Seq<EvView>,
    pub anchors: Seq<Seq<char>>,
    pub headings: Seq<HeadingView>,
    pub inserts: Seq<(int, EvView)>,
}

/// The auto-id pass: each heading without a manual id gets the deduplicated
/// slug of its title; every id is reserved in order; the heading's start
/// token becomes an HTML tag carrying the id; when anchor insertion is
/// configured, the externally rendered fragment `frags[j]` is queued at the
/// position the mode dictates; and one `Heading` per heading is recorded,
/// its permalink the page's plus `#id`.
pub open spec fn auto_spec(
    st: AutoView,
    refs: Seq<HRefView>,
    j: int,
    cv: CtxView,
    frags: Seq<Seq<char>>,
) -> AutoView
    decreases refs.len() - j,
{
    if j < 0 || j >= refs.len() {
        st
    } else {
        let hr = refs[j];
        let title = text_of(st.events, hr.start + 1, hr.end);
        let id = match hr.id {
            Option::Some(i) => i,
            Option::None => dedup_anchor(st.anchors, slug_of(title)),
        };
        let events2 = if 0 <= hr.start < st.events.len() {
            st.events.update(hr.start, EvView::Html(heading_open(hr.level, id)))
        } else {
            st.events
        };
        let inserts2 = if cv.insert_anchor == InsertAnchor::NoAnchor {
            st.inserts
        } else {
            let idx: int = if cv.insert_anchor == InsertAnchor::Left {
                if hr.start >= st.events.len() {
                    st.events.len() as int
                } else {
                    hr.start + 1
                }
            } else {
                hr.end
            };
            if 0 <= j < frags.len() {
                st.inserts.push((idx, EvView::Html(frags[j])))
            } else {
                st.inserts
            }
        };
        let h = HeadingView {
            level: hr.level,
            id: id,
            permalink: cv.current_page_permalink + seq!['#'] + id,
            title: title,
            children: Seq::empty(),
        };
        auto_spec(
            AutoView {
                events: events2,
                anchors: st.anchors.push(id),
                headings: st.headings.push(h),
                inserts: inserts2,
            },
            refs,
            j + 1,
            cv,
            frags,
        )
    }
}

pub open spec fn inserts_view(v: Seq<(usize, MdEvent)>) -> Seq<(int, EvView)> {
    v.map(|i: int, p: (usize, MdEvent)| (p.0 as int, p.1@))
}

/// Applies the queued anchor insertions as one batch: the positions were
/// computed against the pre-insertion event list, in ascending order, so
/// each lands `j` places later than queued.
pub open spec fn insert_many_spec(evs: Seq<EvView>, ins: Seq<(int, EvView)>, j: int) -> Seq<EvView>
    decreases ins.len() - j,
{
    if j < 0 || j >= ins.len() {
        evs
    } else if 0 <= ins[j].0 + j <= evs.len() {
        insert_many_spec(evs.insert(ins[j].0 + j, ins[j].1), ins, j + 1)
    } else {
        insert_many_spec(evs, ins, j + 1)
    }
}

fn insert_many(events: Vec<MdEvent>, ins: Vec<(usize, MdEvent)>) -> (r: Vec<MdEvent>)
    ensures
        ev_seq_view(r@) == insert_many_spec(ev_seq_view(events@), inserts_view(ins@), 0),
{
    let ghost insv = inserts_view(ins@);
    let mut acc = events;
    let mut rem = ins;
    let mut jx: usize = 0;
    let n0 = rem.len();
    proof {
        assert(insv.len() == n0 as int);
        assert(inserts_view(rem@) =~= insv.subrange(insv.len() - rem@.len(), insv.len() as int));
    }
    while rem.len() > 0
        invariant
            rem@.len() <= insv.len(),
            insv.len() <= usize::MAX,
            jx as int == insv.len() - rem@.len(),
            inserts_view(rem@) == insv.subrange(insv.len() - rem@.len(), insv.len() as int),
            insert_many_spec(ev_seq_view(events@), insv, 0) == insert_many_spec(
                ev_seq_view(acc@),
                insv,
                jx as int,
            ),
        decreases rem@.len(),
    {
        let ghost rv = inserts_view(rem@);
        let (idx, ev) = rem.remove(0);
        proof {
            assert(rv[0] == (idx as int, ev@));
            assert(rv[0] == insv[jx as int]);
            assert(inserts_view(rem@) =~= rv.subrange(1, rv.len() as int));
            assert(inserts_view(rem@) =~= insv.subrange(
                insv.len() - rem@.len(),
                insv.len() as int,
            ));
        }
        let cur_len = acc.len();
        if idx <= cur_len && jx <= cur_len - idx {
            let ghost accv = ev_seq_view(acc@);
            let ghost evv = ev@;
            acc.insert(idx + jx, ev);
            proof {
                assert(ev_seq_view(acc@) =~= accv.insert(idx + jx as int, evv));
            }
        }
        jx += 1;
    }
    acc
}


/// Ids assigned to the headings, in document order.
#[verifier::ext_equal]
pub struct IdsView {
    pub ids: Seq<Seq<char>>,
    pub anchors: Seq<Seq<char>>,
}

/// The id-assignment pass: a heading keeps its manual id; one without gets
/// the deduplicated slug of its title; every id is reserved in order.
pub open spec fn ids_spec(events: Seq<EvView>, refs: Seq<HRefView>, st: IdsView, j: int) -> IdsView
    decreases refs.len() - j,
{
    if j < 0 || j >= refs.len() {
        st
    } else {
        let hr = refs[j];
        let title = text_of(events, hr.start + 1, hr.end);
        let id = match hr.id {
            Option::Some(i) => i,
            Option::None => dedup_anchor(st.anchors, slug_of(title)),
        };
        ids_spec(
            events,
            refs,
            IdsView { ids: st.ids.push(id), anchors: st.anchors.push(id) },
            j + 1,
        )
    }
}

fn heading_title(events: &Vec<MdEvent>, hr: &HeadingRef) -> (title: String)
    ensures
        title@ == text_of(ev_seq_view(events@), hr@.start + 1, hr@.end),
{
    let ghost evs = ev_seq_view(events@);
    if hr.end_idx <= events.len() && hr.start_idx < hr.end_idx && hr.start_idx + 1 < hr.end_idx {
        get_text_range(events, hr.start_idx + 1, hr.end_idx)
    } else {
        proof {
            assert(text_of(evs, hr@.start + 1, hr@.end) =~= Seq::<char>::empty());
        }
        String::new()
    }
}

/// Runs the id-assignment pass; returns the ids (one per heading, in order)
/// and the grown reserved-anchor list.
fn assign_ids(events: &Vec<MdEvent>, refs: &Vec<HeadingRef>, anchors: Vec<String>) -> (r: (
    Vec<String>,
    Vec<String>,
))
    ensures
        ({
            let iv = ids_spec(
                ev_seq_view(events@),
                hrefs_view(refs@),
                IdsView { ids: Seq::empty(), anchors: strings_deep(anchors@) },
                0,
            );
            strings_deep(r.0@) == iv.ids && strings_deep(r.1@) == iv.anchors && r.0@.len()
                == refs@.len()
        }),
{
    let ghost evs = ev_seq_view(events@);
    let ghost refv = hrefs_view(refs@);
    let mut ids: Vec<String> = Vec::new();
    let mut anchs = anchors;
    let mut j: usize = 0;
    proof {
        assert(strings_deep(ids@) =~= Seq::<Seq<char>>::empty());
    }
    while j < refs.len()
        invariant
            0 <= j <= refs@.len(),
            ids@.len() == j,
            evs == ev_seq_view(events@),
            refv == hrefs_view(refs@),
            refv.len() == refs@.len(),
            ids_spec(
                evs,
                refv,
                IdsView { ids: Seq::empty(), anchors: strings_deep(anchors@) },
                0,
            ) == ids_spec(
                evs,
                refv,
                IdsView { ids: strings_deep(ids@), anchors: strings_deep(anchs@) },
                j as int,
            ),
        decreases refs@.len() - j,
    {
        let ghost ids0 = strings_deep(ids@);
        let ghost anchors0 = strings_deep(anchs@);
        proof {
            assert(refv[j as int] == refs@[j as int]@);
        }
        let title = heading_title(events, &refs[j]);
        let id: String = match &refs[j].id {
            Some(i) => i.clone(),
            None => {
                let slug = slugify_anchors(title.as_str());
                find_anchor(anchs.as_slice(), slug, 0)
            },
        };
        let ghost idv = id@;
        ids.push(id.clone());
        anchs.push(id);
        proof {
            assert(strings_deep(ids@) =~= ids0.push(idv));
            assert(strings_deep(anchs@) =~= anchors0.push(idv));
        }
        j += 1;
    }
    (ids, anchs)
}

/// What the build pass produces.
#[verifier::ext_equal]
pub struct BuildView {
    pub events: Seq<EvView>,
    pub headings: Seq<HeadingView>,
    pub inserts: Seq<(int, EvView)>,
}

/// The build pass: each heading's start token becomes an HTML tag carrying
/// its id; when anchor insertion is configured the externally rendered
/// fragment `frags[j]` is queued after the start token (`Left`) or at the end
/// token (`Right`); and one `Heading` per heading is recorded, its permalink
/// the page's plus `#id`.
pub open spec fn build_spec(
    events0: Seq<EvView>,
    refs: Seq<HRefView>,
    ids: Seq<Seq<char>>,
    frags: Seq<Seq<char>>,
    cv: CtxView,
    st: BuildView,
    j: int,
) -> BuildView
    decreases refs.len() - j,
{
    if j < 0 || j >= refs.len() {
        st
    } else {
        let hr = refs[j];
        let id: Seq<char> = if 0 <= j < ids.len() {
            ids[j]
        } else {
            Seq::empty()
        };
        let title = text_of(events0, hr.start + 1, hr.end);
        let events2 = if 0 <= hr.start < st.events.len() {
            st.events.update(hr.start, EvView::Html(heading_open(hr.level, id)))
        } else {
            st.events
        };
        let inserts2 = if cv.insert_anchor == InsertAnchor::NoAnchor {
            st.inserts
        } else {
            let idx: int = if cv.insert_anchor == InsertAnchor::Left {
                if hr.start >= st.events.len() {
                    st.events.len() as int
                } else {
                    hr.start + 1
                }
            } else {
                hr.end
            };
            if 0 <= j < frags.len() {
                st.inserts.push((idx, EvView::Html(frags[j])))
            } else {
                st.inserts
            }
        };
        let h = HeadingView {
            level: hr.level,
            id: id,
            permalink: cv.current_page_permalink + seq!['#'] + id,
            title: title,
            children: Seq::empty(),
        };
        build_spec(
            events0,
            refs,
            ids,
            frags,
            cv,
            BuildView { events: events2, headings: st.headings.push(h), inserts: inserts2 },
            j + 1,
        )
    }
}

proof fn lemma_headings_view_push(v: Seq<Heading>, h: Heading)
    ensures
        headings_view(v.push(h)) == headings_view(v).push(heading_view(h)),
{
    crate::toc::lemma_headings_view_concat(v, seq![h]);
    assert(v.push(h) =~= v + seq![h]);
    assert(seq![h].subrange(1, 1) =~= Seq::<Heading>::empty());
    assert(headings_view(Seq::<Heading>::empty()) =~= Seq::<HeadingView>::empty());
    assert(headings_view(seq![h]) =~= seq![heading_view(h)] + Seq::<HeadingView>::empty());
    assert(headings_view(v) + headings_view(seq![h]) =~= headings_view(v).push(heading_view(h)));
}

/// Runs the build pass against pre-rendered anchor fragments.
#[verifier::rlimit(60)]
fn build_pass(
    events: Vec<MdEvent>,
    refs: &Vec<HeadingRef>,
    ids: &Vec<String>,
    frags: &Vec<String>,
    ctx: &RenderContext,
) -> (r: (Vec<MdEvent>, Vec<Heading>, Vec<(usize, MdEvent)>))
    ensures
        ({
            let bv = build_spec(
                ev_seq_view(events@),
                hrefs_view(refs@),
                strings_deep(ids@),
                strings_deep(frags@),
                ctx@,
                BuildView {
                    events: ev_seq_view(events@),
                    headings: Seq::empty(),
                    inserts: Seq::empty(),
                },
                0,
            );
            ev_seq_view(r.0@) == bv.events && headings_view(r.1@) == bv.headings && inserts_view(
                r.2@,
            ) == bv.inserts
        }),
{
    let ghost evs0 = ev_seq_view(events@);
    let ghost refv = hrefs_view(refs@);
    let ghost idsv = strings_deep(ids@);
    let ghost fragv = strings_deep(frags@);
    // titles are read from the pre-rewrite events
    let mut titles: Vec<String> = Vec::new();
    let mut t: usize = 0;
    while t < refs.len()
        invariant
            0 <= t <= refs@.len(),
            titles@.len() == t,
            evs0 == ev_seq_view(events@),
            refv == hrefs_view(refs@),
            refv.len() == refs@.len(),
            forall|q: int|
                0 <= q < t ==> #[trigger] titles@[q]@ == text_of(
                    evs0,
                    refv[q].start + 1,
                    refv[q].end,
                ),
        decreases refs@.len() - t,
    {
        proof {
            assert(refv[t as int] == refs@[t as int]@);
        }
        let title = heading_title(&events, &refs[t]);
        titles.push(title);
        t += 1;
    }
    let mut evsm = events;
    let mut headings: Vec<Heading> = Vec::new();
    let mut inserts: Vec<(usize, MdEvent)> = Vec::new();
    let mut j: usize = 0;
    proof {
        assert(headings_view(headings@) =~= Seq::<HeadingView>::empty());
        assert(inserts_view(inserts@) =~= Seq::<(int, EvView)>::empty());
    }
    while j < refs.len()
        invariant
            0 <= j <= refs@.len(),
            titles@.len() == refs@.len(),
            refv == hrefs_view(refs@),
            refv.len() == refs@.len(),
            idsv == strings_deep(ids@),
            idsv.len() == ids@.len(),
            fragv == strings_deep(frags@),
            fragv.len() == frags@.len(),
            forall|q: int|
                0 <= q < refs@.len() ==> #[trigger] titles@[q]@ == text_of(
                    evs0,
                    refv[q].start + 1,
                    refv[q].end,
                ),
            build_spec(
                evs0,
                refv,
                idsv,
                fragv,
                ctx@,
                BuildView { events: evs0, headings: Seq::empty(), inserts: Seq::empty() },
                0,
            ) == build_spec(
                evs0,
                refv,
                idsv,
                fragv,
                ctx@,
                BuildView {
                    events: ev_seq_view(evsm@),
                    headings: headings_view(headings@),
                    inserts: inserts_view(inserts@),
                },
                j as int,
            ),
        decreases refs@.len() - j,
    {
        let ghost stj = BuildView {
            events: ev_seq_view(evsm@),
            headings: headings_view(headings@),
            inserts: inserts_view(inserts@),
        };
        proof {
            assert(refv[j as int] == refs@[j as int]@);
        }
        let id: String = if j < ids.len() {
            proof {
                assert(idsv[j as int] == ids@[j as int]@);
            }
            ids[j].clone()
        } else {
            String::new()
        };
        let ghost idv = id@;
        let start = refs[j].start_idx;
        let endi = refs[j].end_idx;
        let level = refs[j].level;
        if start < evsm.len() {
            let open = heading_open_exec(level, id.as_str());
            set_event(&mut evsm, start, MdEvent::Html(open));
        }
        if !(ctx.insert_anchor == InsertAnchor::NoAnchor) {
            let idx: usize = if ctx.insert_anchor == InsertAnchor::Left {
                if start >= evsm.len() {
                    evsm.len()
                } else {
                    start + 1
                }
            } else {
                endi
            };
            if j < frags.len() {
                proof {
                    assert(fragv[j as int] == frags@[j as int]@);
                }
                let ghost ins0 = inserts_view(inserts@);
                inserts.push((idx, MdEvent::Html(frags[j].clone())));
                proof {
                    assert(inserts_view(inserts@) =~= ins0.push(
                        (idx as int, EvView::Html(fragv[j as int])),
                    ));
                }
            }
        }
        let mut permalink = ctx.current_page_permalink.clone();
        push_char(&mut permalink, '#');
        permalink.append(id.as_str());
        let h = Heading {
            level,
            id,
            permalink,
            title: titles[j].clone(),
            children: Vec::new(),
        };
        let ghost hs0 = headings@;
        proof {
            assert(heading_view(h) =~= HeadingView {
                level,
                id: idv,
                permalink: ctx@.current_page_permalink + seq!['#'] + idv,
                title: titles@[j as int]@,
                children: Seq::empty(),
            }) by {
                assert(headings_view(h.children@) =~= Seq::<HeadingView>::empty());
                assert(h.permalink@ =~= ctx@.current_page_permalink + seq!['#'] + idv);
            }
        }
        headings.push(h);
        proof {
            lemma_headings_view_push(hs0, headings@[headings@.len() - 1]);
            assert(headings@ =~= hs0.push(headings@[headings@.len() - 1]));
        }
        j += 1;
        proof {
            let stj2 = BuildView {
                events: ev_seq_view(evsm@),
                headings: headings_view(headings@),
                inserts: inserts_view(inserts@),
            };
            assert(build_spec(evs0, refv, idsv, fragv, ctx@, stj, j - 1 as int) == build_spec(
                evs0,
                refv,
                idsv,
                fragv,
                ctx@,
                stj2,
                j as int,
            ));
        }
    }
    (evsm, headings, inserts)
}


/// Renders the anchor-link fragment for each heading through the external
/// template engine; nothing is assumed of the fragments themselves.
fn render_anchor_fragments(ids: &Vec<String>, refs: &Vec<HeadingRef>, ctx: &RenderContext) -> (r:
    Result<Vec<String>, RenderError>)
    ensures
        r matches Err(e) ==> (err_view(e) is TemplateError) && ids@.len() > 0,
        r matches Ok(f) ==> f@.len() == ids@.len(),
{
    let mut frags: Vec<String> = Vec::new();
    let mut j: usize = 0;
    while j < ids.len()
        invariant
            0 <= j <= ids@.len(),
            frags@.len() == j,
        decreases ids@.len() - j,
    {
        let mut c = context_new();
        context_insert_str(&mut c, "id", ids[j].as_str());
        if j < refs.len() {
            context_insert_u32(&mut c, "level", refs[j].level);
        }
        context_insert_str(&mut c, "lang", ctx.lang.as_str());
        match tera_render(ctx.tera, "anchor-link.html", &c) {
            Ok(f) => {
                frags.push(f);
            },
            Err(e) => {
                let mut msg = "failed to render anchor link template: ".to_owned();
                let em = tera_error_msg(&e);
                msg.append(em.as_str());
                return Err(RenderError::TemplateError(msg));
            },
        }
        j += 1;
    }
    Ok(frags)
}

/// The excerpt-boundary marker the break comment is replaced with.
pub open spec fn continue_reading() -> Seq<char> {
    "<span id=\"continue-reading\"></span>"@
}

/// How many headings the token pass leaves for the identification passes:
/// one anchor fragment is rendered for each when anchor insertion is on.
pub open spec fn pipeline_heading_count(
    evs: Seq<(EvView, int, int)>,
    content: Seq<char>,
    cv: CtxView,
    spans: Seq<(int, int)>,
    outs: Seq<Result<Seq<char>, ErrView>>,
) -> int {
    heading_refs_spec(
        filter_empty(
            fold_spec(evs, 0, init_pass(), content, cv, spans, outs).events,
            0,
            Seq::empty(),
        ),
        0,
        Seq::empty(),
    ).len() as int
}

/// Whether `r` is an admissible outcome of the pipeline under the macro
/// expansions `outs`: a `TemplateError` (possible only with anchor insertion
/// on and at least one heading), or exactly `pipeline_spec` under one anchor
/// fragment per heading (none with anchor insertion off).
pub open spec fn render_outcome_matches(
    r: Result<Rendered, RenderError>,
    content: Seq<char>,
    cv: CtxView,
    spans: Seq<(int, int)>,
    outs: Seq<Result<Seq<char>, ErrView>>,
    smart: bool,
) -> bool {
    let evs = md_events_of(content, smart);
    let hc = pipeline_heading_count(evs, content, cv, spans, outs);
    ((r matches Err(e) && (err_view(e) is TemplateError)) && cv.insert_anchor
        != InsertAnchor::NoAnchor && hc > 0) || (exists|frags: Seq<Seq<char>>|
        frags.len() == (if cv.insert_anchor == InsertAnchor::NoAnchor {
            0int
        } else {
            hc
        }) && result_view(r) == #[trigger] pipeline_spec(evs, content, cv, spans, outs, frags))
}

/// The whole pipeline on a tokenized document, as one mathematical function
/// of the event stream, the source text, the context, the pending macros'
/// spans, the macro expansions and the anchor fragments that the external
/// engines produced.
pub open spec fn pipeline_spec(
    evs: Seq<(EvView, int, int)>,
    content: Seq<char>,
    cv: CtxView,
    spans: Seq<(int, int)>,
    outs: Seq<Result<Seq<char>, ErrView>>,
    frags: Seq<Seq<char>>,
) -> Result<RenderedView, ErrView> {
    let st = fold_spec(evs, 0, init_pass(), content, cv, spans, outs);
    let filtered = filter_empty(st.events, 0, Seq::empty());
    let refs0 = heading_refs_spec(filtered, 0, Seq::empty());
    let m = manual_spec(
        ManualView { events: filtered, refs: refs0, anchors: Seq::empty() },
        0,
    );
    let iv = ids_spec(m.events, m.refs, IdsView { ids: Seq::empty(), anchors: m.anchors }, 0);
    let b = build_spec(
        m.events,
        m.refs,
        iv.ids,
        frags,
        cv,
        BuildView { events: m.events, headings: Seq::empty(), inserts: Seq::empty() },
        0,
    );
    let finals = if cv.insert_anchor == InsertAnchor::NoAnchor {
        b.events
    } else {
        insert_many_spec(b.events, b.inserts, 0)
    };
    let html = html_of(finals);
    match st.error {
        Option::Some(e) => Result::Err(e),
        Option::None => Result::Ok(
            RenderedView {
                body: html,
                summary_len: if st.has_summary && has_sub(html, continue_reading()) {
                    Option::Some(
                        (bytes_len(html.take(find_sub(html, continue_reading(), 0))) as usize)
                            as int,
                    )
                } else {
                    Option::None
                },
                toc: toc_spec(b.headings),
                internal_links: st.internal_links,
                external_links: st.external_links,
            },
        ),
    }
}

/// Renders one document body to HTML plus its outline and link lists.
///
/// The contract pins the result as a function of what the external engines
/// returned: either the anchor-link template failed (a `TemplateError`), or
/// the result equals `pipeline_spec` applied to the tokenizer's event stream
/// for `content`, the macros' spans, some sequence of macro-expansion
/// outcomes (one per pending macro) and some anchor fragments. With no
/// pending macros and anchor insertion off, those sequences are empty and
/// the result is fully determined by `content` and the context. A failed
/// macro expansion always carries the `ShortcodeRender` shape; a
/// `TemplateError` can arise only when anchor insertion is on and the token
/// pass left at least one heading; and exactly one anchor fragment per
/// heading is consumed when anchor insertion is on.
pub fn markdown_to_html(content: &str, context: &RenderContext, html_shortcodes: Vec<Shortcode>)
    -> (r: Result<Rendered, RenderError>)
    ensures
        (r matches Err(e) && (err_view(e) is TemplateError)) || (exists|
            outs: Seq<Result<Seq<char>, ErrView>>,
            frags: Seq<Seq<char>>,
        |
            outs.len() == html_shortcodes@.len() && result_view(r) == #[trigger] pipeline_spec(
                md_events_of(content@, context.smart_punctuation),
                content@,
                context@,
                sc_spans(html_shortcodes@),
                outs,
                frags,
            )),
        context.insert_anchor == InsertAnchor::NoAnchor ==> (exists|
            outs: Seq<Result<Seq<char>, ErrView>>,
            frags: Seq<Seq<char>>,
        |
            outs.len() == html_shortcodes@.len() && result_view(r) == #[trigger] pipeline_spec(
                md_events_of(content@, context.smart_punctuation),
                content@,
                context@,
                sc_spans(html_shortcodes@),
                outs,
                frags,
            )),
        exists|outs: Seq<Result<Seq<char>, ErrView>>|
            outs.len() == html_shortcodes@.len() && (forall|q: int|
                0 <= q < outs.len() ==> ((#[trigger] outs[q]) is Err ==> outs[q]->Err_0
                    is ShortcodeRender)) && #[trigger] render_outcome_matches(
                r,
                content@,
                context@,
                sc_spans(html_shortcodes@),
                outs,
                context.smart_punctuation,
            ),
{
    let ghost cv = context@;
    let ghost spansv = sc_spans(html_shortcodes@);
    // expand every pending macro up front; a failure is recorded and, per
    // the accept-last-error policy, the last one recorded wins
    let mut outs: Vec<Result<String, RenderError>> = Vec::new();
    let mut i: usize = 0;
    while i < html_shortcodes.len()
        invariant
            outs@.len() == i,
            0 <= i <= html_shortcodes@.len(),
            forall|q: int|
                0 <= q < outs@.len() ==> ((#[trigger] outs_view(outs@)[q]) is Err ==> outs_view(
                    outs@,
                )[q]->Err_0 is ShortcodeRender),
        decreases html_shortcodes@.len() - i,
    {
        let ghost o0 = outs_view(outs@);
        let rr = html_shortcodes[i].render(context.tera, &context.tera_context);
        proof {
            if rr is Err {
                assert(err_view(rr->Err_0) is ShortcodeRender);
            }
        }
        outs.push(rr);
        proof {
            assert(outs_view(outs@) =~= o0.push(
                match outs@[outs@.len() - 1] {
                    Result::Ok(x) => Result::<Seq<char>, ErrView>::Ok(x@),
                    Result::Err(e) => Result::<Seq<char>, ErrView>::Err(err_view(e)),
                },
            ));
        }
        i += 1;
    }
    let ghost outsv = outs_view(outs@);
    let parsed = parse_md_events(content, context.smart_punctuation);
    let st = process_events(parsed, content, context, &html_shortcodes, &outs);
    let PassState {
        events,
        in_code: _,
        sc: _,
        stop_next_end_p: _,
        error,
        internal_links,
        external_links,
        has_summary,
    } = st;
    let filtered = filter_empties(events);
    let refs = get_heading_refs(&filtered);
    let ghost filteredv = ev_seq_view(filtered@);
    let ghost refsv = hrefs_view(refs@);
    let ghost hc = pipeline_heading_count(
        md_events_of(content@, context.smart_punctuation),
        content@,
        cv,
        spansv,
        outsv,
    );
    proof {
        assert(refsv.len() == refs@.len());
        assert(refsv.len() == hc);
    }
    let empty_anchors: Vec<String> = Vec::new();
    proof {
        assert(strings_deep(empty_anchors@) =~= Seq::<Seq<char>>::empty());
    }
    let (events2, refs2, anchors) = manual_pass(filtered, refs, empty_anchors);
    proof {
        lemma_manual_refs_len(
            ManualView { events: filteredv, refs: refsv, anchors: Seq::empty() },
            0,
        );
        assert(hrefs_view(refs2@).len() == refs2@.len());
        assert(refs2@.len() == hc);
    }
    let (ids, _grown) = assign_ids(&events2, &refs2, anchors);
    let frags: Vec<String> = if !(context.insert_anchor == InsertAnchor::NoAnchor) {
        match render_anchor_fragments(&ids, &refs2, context) {
            Ok(f) => f,
            Err(e) => {
                let r: Result<Rendered, RenderError> = Err(e);
                proof {
                    assert(hc > 0);
                    assert(render_outcome_matches(
                        r,
                        content@,
                        cv,
                        spansv,
                        outsv,
                        context.smart_punctuation,
                    ));
                }
                return r;
            },
        }
    } else {
        Vec::new()
    };
    let ghost fragsv = strings_deep(frags@);
    proof {
        assert(fragsv.len() == (if context.insert_anchor == InsertAnchor::NoAnchor {
            0int
        } else {
            hc
        }));
    }
    let (events3, headings, inserts) = build_pass(events2, &refs2, &ids, &frags, context);
    let events4 = if context.insert_anchor == InsertAnchor::NoAnchor {
        events3
    } else {
        insert_many(events3, inserts)
    };
    let html = push_html_events(events4);
    let ghost expected = pipeline_spec(
        md_events_of(content@, context.smart_punctuation),
        content@,
        cv,
        spansv,
        outsv,
        fragsv,
    );
    match error {
        Some(e) => {
            let r: Result<Rendered, RenderError> = Err(e);
            proof {
                assert(result_view(r) =~= expected);
                assert(outsv.len() == html_shortcodes@.len());
                assert(render_outcome_matches(
                    r,
                    content@,
                    cv,
                    spansv,
                    outsv,
                    context.smart_punctuation,
                ));
            }
            r
        },
        None => {
            let summary_len: Option<usize> = if has_summary {
                let n = html.as_str().unicode_len();
                let m = "<span id=\"continue-reading\"></span>".unicode_len();
                let idx = find_sub_from(html.as_str(), "<span id=\"continue-reading\"></span>", 0);
                if m <= n - idx {
                    let prefix = html.as_str().substring_char(0, idx);
                    Some(prefix.len())
                } else {
                    None
                }
            } else {
                None
            };
            let toc = make_table_of_contents(headings);
            let r: Result<Rendered, RenderError> = Ok(
                Rendered { body: html, summary_len, toc, internal_links, external_links },
            );
            proof {
                assert(result_view(r) =~= expected);
                assert(outsv.len() == html_shortcodes@.len());
                assert(render_outcome_matches(
                    r,
                    content@,
                    cv,
                    spansv,
                    outsv,
                    context.smart_punctuation,
                ));
            }
            r
        },
    }
}

} // verus!
