//! The library's own model of the Markdown tokenizer's event stream. The
//! pipeline's logic reads and rewrites these values; trusted conversions at
//! the boundary carry them to and from the external tokenizer's types.

use vstd::prelude::*;

verus! {

/// How a link was written in the source.
#[derive(Clone, Copy, PartialEq, Eq, Structural, Debug)]
pub enum LinkKind {
    Inline,
    Reference,
    ReferenceUnknown,
    Collapsed,
    CollapsedUnknown,
    Shortcut,
    ShortcutUnknown,
    Autolink,
    Email,
}

/// Text alignment of one table column.
#[derive(Clone, Copy, PartialEq, Eq, Structural, Debug)]
pub enum MdAlign {
    Unaligned,
    Left,
    Center,
    Right,
}

/// A structural tag: what a start or end event opens or closes.
#[derive(Debug)]
pub enum MdTag {
    Paragraph,
    Heading(u32),
    BlockQuote,
    /// `true` for a fenced block, with its fence info string.
    CodeBlock(bool, String),
    List(Option<u64>),
    Item,
    FootnoteDefinition(String),
    Table(Vec<MdAlign>),
    TableHead,
    TableRow,
    TableCell,
    Emphasis,
    Strong,
    Strikethrough,
    /// Kind, destination URL, title.
    Link(LinkKind, String, String),
    Image(LinkKind, String, String),
}

/// One event of the token stream.
#[derive(Debug)]
pub enum MdEvent {
    Start(MdTag),
    End(MdTag),
    Text(String),
    Code(String),
    Html(String),
    FootnoteReference(String),
    SoftBreak,
    HardBreak,
    Rule,
    TaskListMarker(bool),
}

/// Mathematical model of a tag.
#[verifier::ext_equal]
pub enum TagView {
    Paragraph,
    Heading(u32),
    BlockQuote,
    CodeBlock(bool, Seq<char>),
    List(Option<u64>),
    Item,
    FootnoteDefinition(Seq<char>),
    Table(Seq<MdAlign>),
    TableHead,
    TableRow,
    TableCell,
    Emphasis,
    Strong,
    Strikethrough,
    Link(LinkKind, Seq<char>, Seq<char>),
    Image(LinkKind, Seq<char>, Seq<char>),
}

/// Mathematical model of an event.
#[verifier::ext_equal]
pub enum EvView {
    Start(TagView),
    End(TagView),
    Text(Seq<char>),
    Code(Seq<char>),
    Html(Seq<char>),
    FootnoteReference(Seq<char>),
    SoftBreak,
    HardBreak,
    Rule,
    TaskListMarker(bool),
}

pub open spec fn tag_view(t: MdTag) -> TagView {
    match t {
        MdTag::Paragraph => TagView::Paragraph,
        MdTag::Heading(l) => TagView::Heading(l),
        MdTag::BlockQuote => TagView::BlockQuote,
        MdTag::CodeBlock(f, info) => TagView::CodeBlock(f, info@),
        MdTag::List(n) => TagView::List(n),
        MdTag::Item => TagView::Item,
        MdTag::FootnoteDefinition(s) => TagView::FootnoteDefinition(s@),
        MdTag::Table(a) => TagView::Table(a@),
        MdTag::TableHead => TagView::TableHead,
        MdTag::TableRow => TagView::TableRow,
        MdTag::TableCell => TagView::TableCell,
        MdTag::Emphasis => TagView::Emphasis,
        MdTag::Strong => TagView::Strong,
        MdTag::Strikethrough => TagView::Strikethrough,
        MdTag::Link(k, u, t2) => TagView::Link(k, u@, t2@),
        MdTag::Image(k, u, t2) => TagView::Image(k, u@, t2@),
    }
}

impl View for MdEvent {
    type V = EvView;

    open spec fn view(&self) -> EvView {
        match *self {
            MdEvent::Start(t) => EvView::Start(tag_view(t)),
            MdEvent::End(t) => EvView::End(tag_view(t)),
            MdEvent::Text(s) => EvView::Text(s@),
            MdEvent::Code(s) => EvView::Code(s@),
            MdEvent::Html(s) => EvView::Html(s@),
            MdEvent::FootnoteReference(s) => EvView::FootnoteReference(s@),
            MdEvent::SoftBreak => EvView::SoftBreak,
            MdEvent::HardBreak => EvView::HardBreak,
            MdEvent::Rule => EvView::Rule,
            MdEvent::TaskListMarker(b) => EvView::TaskListMarker(b),
        }
    }
}

/// The views of an event sequence with the source byte range of each event.
pub open spec fn evs_view(v: Seq<(MdEvent, usize, usize)>) -> Seq<(EvView, int, int)> {
    v.map(|i: int, e: (MdEvent, usize, usize)| (e.0@, e.1 as int, e.2 as int))
}

/// The views of a bare event sequence.
pub open spec fn ev_seq_view(v: Seq<MdEvent>) -> Seq<EvView> {
    v.map(|i: int, e: MdEvent| e@)
}

} // verus!
