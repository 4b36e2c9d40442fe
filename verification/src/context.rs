//! The immutable inputs one document render is given.

use vstd::prelude::*;

verus! {

/// Where the anchor-permalink fragment is inserted for each heading.
#[derive(Clone, Copy, PartialEq, Eq, Structural, Debug)]
pub enum InsertAnchor {
    NoAnchor,
    Left,
    Right,
}

/// One known macro: its name and whether its template produces Markdown
/// (expanded before tokenizing) or HTML (spliced into the token stream).
pub struct ShortcodeDef {
    pub name: String,
    pub is_md: bool,
}

/// Everything a render call reads besides the document body. The permalink
/// table and the macro definitions are shared, immutable inputs; the tera
/// instance and context drive the external template engine.
pub struct RenderContext<'a> {
    pub tera: &'a tera::Tera,
    pub tera_context: tera::Context,
    pub permalinks: Vec<(String, String)>,
    pub current_page_permalink: String,
    pub lang: String,
    pub insert_anchor: InsertAnchor,
    pub smart_punctuation: bool,
    pub render_emoji: bool,
    pub external_links_target_blank: bool,
    pub external_links_no_follow: bool,
    pub external_links_no_referrer: bool,
    pub shortcode_definitions: Vec<ShortcodeDef>,
}

/// The flags and tables the verified pipeline logic reads, as one
/// mathematical record.
#[verifier::ext_equal]
pub struct CtxView {
    pub permalinks: Seq<(Seq<char>, Seq<char>)>,
    pub current_page_permalink: Seq<char>,
    pub insert_anchor: InsertAnchor,
    pub smart_punctuation: bool,
    pub render_emoji: bool,
    pub external_links_target_blank: bool,
    pub external_links_no_follow: bool,
    pub external_links_no_referrer: bool,
}

impl<'a> RenderContext<'a> {
    pub open spec fn view(&self) -> CtxView {
        CtxView {
            permalinks: crate::links::table_view(self.permalinks@),
            current_page_permalink: self.current_page_permalink@,
            insert_anchor: self.insert_anchor,
            smart_punctuation: self.smart_punctuation,
            render_emoji: self.render_emoji,
            external_links_target_blank: self.external_links_target_blank,
            external_links_no_follow: self.external_links_no_follow,
            external_links_no_referrer: self.external_links_no_referrer,
        }
    }

    /// Whether rewriting of external links is configured at all.
    pub open spec fn spec_has_external_link_tweaks(&self) -> bool {
        self.external_links_target_blank || self.external_links_no_follow
            || self.external_links_no_referrer
    }

    #[verifier::when_used_as_spec(spec_has_external_link_tweaks)]
    pub fn has_external_link_tweaks(&self) -> (r: bool)
        ensures
            r == self.spec_has_external_link_tweaks(),
    {
        self.external_links_target_blank || self.external_links_no_follow
            || self.external_links_no_referrer
    }

    /// A context with everything switched off: no smart punctuation, no emoji
    /// substitution, no external-link decoration, no anchor insertion, and no
    /// known macros.
    pub fn new(
        tera: &'a tera::Tera,
        tera_context: tera::Context,
        lang: &str,
        current_page_permalink: &str,
        permalinks: Vec<(String, String)>,
        insert_anchor: InsertAnchor,
    ) -> (r: RenderContext<'a>)
        ensures
            r.permalinks == permalinks,
            r.current_page_permalink@ == current_page_permalink@,
            r.lang@ == lang@,
            r.insert_anchor == insert_anchor,
            !r.smart_punctuation && !r.render_emoji && !r.external_links_target_blank
                && !r.external_links_no_follow && !r.external_links_no_referrer,
            r.shortcode_definitions@.len() == 0,
    {
        RenderContext {
            tera,
            tera_context,
            permalinks,
            current_page_permalink: current_page_permalink.to_owned(),
            lang: lang.to_owned(),
            insert_anchor,
            smart_punctuation: false,
            render_emoji: false,
            external_links_target_blank: false,
            external_links_no_follow: false,
            external_links_no_referrer: false,
            shortcode_definitions: Vec::new(),
        }
    }
}

} // verus!
