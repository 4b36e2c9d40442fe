//! Trusted boundary to the external Markdown tokenizer: parsing a source
//! text into the library's event model, serializing an event sequence back
//! to HTML, and the tokenizer's two escaping routines. Each result is a
//! function of the arguments alone, named by an uninterpreted spec function;
//! the enum conversions move each variant's fields one for one.

use vstd::prelude::*;
use crate::events::{ev_seq_view, evs_view, EvView, LinkKind, MdAlign, MdEvent, MdTag};
use pulldown_cmark::{Alignment, CodeBlockKind, Event, LinkType, Options, Parser, Tag};

verus! {

/// What the external tokenizer produces for a source text: one record per
/// event, with the byte range of the source the event was generated from.
pub uninterp spec fn md_events_of(text: Seq<char>, smart: bool) -> Seq<(EvView, int, int)>;

/// The HTML the external serializer writes for an event sequence.
pub uninterp spec fn html_of(events: Seq<EvView>) -> Seq<char>;

/// The tokenizer's href escaping of a URL.
pub uninterp spec fn escaped_href_of(url: Seq<char>) -> Seq<char>;

/// The tokenizer's HTML body escaping of a text run.
pub uninterp spec fn escaped_html_of(text: Seq<char>) -> Seq<char>;

#[verifier::external_type_specification]
#[verifier::external_body]
pub struct ExEvent<'a>(Event<'a>);

#[verifier::external_type_specification]
#[verifier::external_body]
pub struct ExTag<'a>(Tag<'a>);

#[verifier::external_type_specification]
#[verifier::external_body]
pub struct ExLinkType(LinkType);

#[verifier::external_type_specification]
#[verifier::external_body]
pub struct ExAlignment(Alignment);

/// Relies on pulldown_cmark's `Parser::new_ext` and `into_offset_iter`:
/// tokenizes `text` with tables, footnotes, strikethrough and task lists
/// enabled, and smart punctuation when asked.
#[verifier::external_body]
fn parse_raw<'a>(text: &'a str, smart: bool) -> Vec<(Event<'a>, usize, usize)> {
    let mut opts = Options::empty();
    opts.insert(Options::ENABLE_TABLES);
    opts.insert(Options::ENABLE_FOOTNOTES);
    opts.insert(Options::ENABLE_STRIKETHROUGH);
    opts.insert(Options::ENABLE_TASKLISTS);
    if smart {
        opts.insert(Options::ENABLE_SMART_PUNCTUATION);
    }
    let parser = Parser::new_ext(text, opts);
    parser.into_offset_iter().map(|(e, rg)| (e, rg.start, rg.end)).collect()
}

/// One-for-one reading of the tokenizer's link-kind enum.
#[verifier::external_body]
fn to_link_kind(k: LinkType) -> LinkKind {
    match k {
        LinkType::Inline => LinkKind::Inline,
        LinkType::Reference => LinkKind::Reference,
        LinkType::ReferenceUnknown => LinkKind::ReferenceUnknown,
        LinkType::Collapsed => LinkKind::Collapsed,
        LinkType::CollapsedUnknown => LinkKind::CollapsedUnknown,
        LinkType::Shortcut => LinkKind::Shortcut,
        LinkType::ShortcutUnknown => LinkKind::ShortcutUnknown,
        LinkType::Autolink => LinkKind::Autolink,
        LinkType::Email => LinkKind::Email,
    }
}

/// One-for-one reading of the tokenizer's column-alignment enum.
#[verifier::external_body]
fn to_md_align(a: &Alignment) -> MdAlign {
    match a {
        Alignment::None => MdAlign::Unaligned,
        Alignment::Left => MdAlign::Left,
        Alignment::Center => MdAlign::Center,
        Alignment::Right => MdAlign::Right,
    }
}

/// One-for-one reading of the tokenizer's tags that carry a payload; the
/// unit tags are read by `to_md_tag`, which is the only caller, so its
/// wildcard arm here is never reached.
#[verifier::external_body]
fn to_md_tag_payload(t: Tag<'_>) -> MdTag {
    match t {
        Tag::Heading(l) => MdTag::Heading(l),
        Tag::CodeBlock(CodeBlockKind::Fenced(i)) => MdTag::CodeBlock(true, i.to_string()),
        Tag::CodeBlock(CodeBlockKind::Indented) => MdTag::CodeBlock(false, String::new()),
        Tag::List(n) => MdTag::List(n),
        Tag::FootnoteDefinition(s) => MdTag::FootnoteDefinition(s.to_string()),
        Tag::Table(a) => MdTag::Table(a.iter().map(to_md_align).collect()),
        Tag::Link(k, u, ti) => MdTag::Link(to_link_kind(k), u.to_string(), ti.to_string()),
        Tag::Image(k, u, ti) => MdTag::Image(to_link_kind(k), u.to_string(), ti.to_string()),
        _ => MdTag::Paragraph,
    }
}

/// One-for-one reading of the tokenizer's tag enum.
#[verifier::external_body]
fn to_md_tag(t: Tag<'_>) -> MdTag {
    match t {
        Tag::Paragraph => MdTag::Paragraph,
        Tag::BlockQuote => MdTag::BlockQuote,
        Tag::Item => MdTag::Item,
        Tag::TableHead => MdTag::TableHead,
        Tag::TableRow => MdTag::TableRow,
        Tag::TableCell => MdTag::TableCell,
        Tag::Emphasis => MdTag::Emphasis,
        Tag::Strong => MdTag::Strong,
        Tag::Strikethrough => MdTag::Strikethrough,
        other => to_md_tag_payload(other),
    }
}

/// One-for-one reading of the tokenizer's event enum.
#[verifier::external_body]
fn to_md_event(e: Event<'_>) -> MdEvent {
    match e {
        Event::Start(t) => MdEvent::Start(to_md_tag(t)),
        Event::End(t) => MdEvent::End(to_md_tag(t)),
        Event::Text(s) => MdEvent::Text(s.to_string()),
        Event::Code(s) => MdEvent::Code(s.to_string()),
        Event::Html(s) => MdEvent::Html(s.to_string()),
        Event::FootnoteReference(s) => MdEvent::FootnoteReference(s.to_string()),
        Event::SoftBreak => MdEvent::SoftBreak,
        Event::HardBreak => MdEvent::HardBreak,
        Event::Rule => MdEvent::Rule,
        Event::TaskListMarker(b) => MdEvent::TaskListMarker(b),
    }
}

/// Relies on pulldown_cmark's parser (through `parse_raw`): tokenizes `text`
/// into the library's event model, one event converted one-for-one per
/// record, with each event's source byte range. The result depends on the
/// arguments alone.
#[verifier::external_body]
pub fn parse_md_events(text: &str, smart: bool) -> (r: Vec<(MdEvent, usize, usize)>)
    ensures
        evs_view(r@) == md_events_of(text@, smart),
{
    parse_raw(text, smart).into_iter().map(|(e, s, en)| (to_md_event(e), s, en)).collect()
}

/// One-for-one writing of the library's link-kind enum.
#[verifier::external_body]
fn from_link_kind(k: LinkKind) -> LinkType {
    match k {
        LinkKind::Inline => LinkType::Inline,
        LinkKind::Reference => LinkType::Reference,
        LinkKind::ReferenceUnknown => LinkType::ReferenceUnknown,
        LinkKind::Collapsed => LinkType::Collapsed,
        LinkKind::CollapsedUnknown => LinkType::CollapsedUnknown,
        LinkKind::Shortcut => LinkType::Shortcut,
        LinkKind::ShortcutUnknown => LinkType::ShortcutUnknown,
        LinkKind::Autolink => LinkType::Autolink,
        LinkKind::Email => LinkType::Email,
    }
}

/// One-for-one writing of the library's column-alignment enum.
#[verifier::external_body]
fn from_md_align(a: MdAlign) -> Alignment {
    match a {
        MdAlign::Unaligned => Alignment::None,
        MdAlign::Left => Alignment::Left,
        MdAlign::Center => Alignment::Center,
        MdAlign::Right => Alignment::Right,
    }
}

/// One-for-one writing of the library's tags that carry a payload; the unit
/// tags are written by `from_md_tag`, the only caller, so the wildcard arm
/// here is never reached.
#[verifier::external_body]
fn from_md_tag_payload(t: MdTag) -> Tag<'static> {
    match t {
        MdTag::Heading(l) => Tag::Heading(l),
        MdTag::CodeBlock(true, i) => Tag::CodeBlock(CodeBlockKind::Fenced(i.into())),
        MdTag::CodeBlock(false, _) => Tag::CodeBlock(CodeBlockKind::Indented),
        MdTag::List(n) => Tag::List(n),
        MdTag::FootnoteDefinition(s) => Tag::FootnoteDefinition(s.into()),
        MdTag::Table(a) => Tag::Table(a.into_iter().map(from_md_align).collect()),
        MdTag::Link(k, u, ti) => Tag::Link(from_link_kind(k), u.into(), ti.into()),
        MdTag::Image(k, u, ti) => Tag::Image(from_link_kind(k), u.into(), ti.into()),
        _ => Tag::Paragraph,
    }
}

/// One-for-one writing of the library's tag enum.
#[verifier::external_body]
fn from_md_tag(t: MdTag) -> Tag<'static> {
    match t {
        MdTag::Paragraph => Tag::Paragraph,
        MdTag::BlockQuote => Tag::BlockQuote,
        MdTag::Item => Tag::Item,
        MdTag::TableHead => Tag::TableHead,
        MdTag::TableRow => Tag::TableRow,
        MdTag::TableCell => Tag::TableCell,
        MdTag::Emphasis => Tag::Emphasis,
        MdTag::Strong => Tag::Strong,
        MdTag::Strikethrough => Tag::Strikethrough,
        other => from_md_tag_payload(other),
    }
}

/// One-for-one writing of the library's event enum.
#[verifier::external_body]
fn from_md_event(e: MdEvent) -> Event<'static> {
    match e {
        MdEvent::Start(t) => Event::Start(from_md_tag(t)),
        MdEvent::End(t) => Event::End(from_md_tag(t)),
        MdEvent::Text(s) => Event::Text(s.into()),
        MdEvent::Code(s) => Event::Code(s.into()),
        MdEvent::Html(s) => Event::Html(s.into()),
        MdEvent::FootnoteReference(s) => Event::FootnoteReference(s.into()),
        MdEvent::SoftBreak => Event::SoftBreak,
        MdEvent::HardBreak => Event::HardBreak,
        MdEvent::Rule => Event::Rule,
        MdEvent::TaskListMarker(b) => Event::TaskListMarker(b),
    }
}

/// Relies on pulldown_cmark's `html::push_html`: serializes the events,
/// converted back one-for-one, to an HTML string. The result depends on the
/// events alone.
#[verifier::external_body]
pub fn push_html_events(events: Vec<MdEvent>) -> (r: String)
    ensures
        r@ == html_of(ev_seq_view(events@)),
{
    let mut out = String::new();
    pulldown_cmark::html::push_html(&mut out, events.into_iter().map(from_md_event));
    out
}

/// Relies on pulldown_cmark's `escape::escape_href`: percent-escapes a URL
/// for use in an `href` attribute. Writing into a `String` cannot fail.
#[verifier::external_body]
pub fn escape_href_str(url: &str) -> (r: String)
    ensures
        r@ == escaped_href_of(url@),
{
    let mut out = String::new();
    let _ = pulldown_cmark::escape::escape_href(&mut out, url);
    out
}

/// Relies on pulldown_cmark's `escape::escape_html`: escapes `&`, `<`, `>`
/// and quotes for HTML body text. Writing into a `String` cannot fail.
#[verifier::external_body]
pub fn escape_html_str(text: &str) -> (r: String)
    ensures
        r@ == escaped_html_of(text@),
{
    let mut out = String::new();
    let _ = pulldown_cmark::escape::escape_html(&mut out, text);
    out
}

} // verus!
