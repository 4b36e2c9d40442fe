//! Errors a document render can end with.

use vstd::prelude::*;

verus! {

/// Terminal failures of one document's render. No failure here is retried;
/// each is surfaced to the caller for per-document reporting.
#[derive(Debug, Clone)]
pub enum RenderError {
    /// A macro invocation named a macro absent from the definition table.
    UndefinedShortcode(String),
    /// The external template engine failed while expanding a macro.
    ShortcodeRender(String),
    /// A link token carried an empty URL.
    MissingLinkUrl,
    /// A site-local reference resolved to no known document.
    BrokenInternalLink(String),
    /// A site-local document identifier missing from the permalink table.
    UnknownDocument(String),
    /// The external template engine failed on the anchor-link template.
    TemplateError(String),
}

/// Mathematical model of `RenderError`.
#[verifier::ext_equal]
pub enum ErrView {
    UndefinedShortcode(Seq<char>),
    ShortcodeRender(Seq<char>),
    MissingLinkUrl,
    BrokenInternalLink(Seq<char>),
    UnknownDocument(Seq<char>),
    TemplateError(Seq<char>),
}

pub open spec fn err_view(e: RenderError) -> ErrView {
    match e {
        RenderError::UndefinedShortcode(s) => ErrView::UndefinedShortcode(s@),
        RenderError::ShortcodeRender(s) => ErrView::ShortcodeRender(s@),
        RenderError::MissingLinkUrl => ErrView::MissingLinkUrl,
        RenderError::BrokenInternalLink(s) => ErrView::BrokenInternalLink(s@),
        RenderError::UnknownDocument(s) => ErrView::UnknownDocument(s@),
        RenderError::TemplateError(s) => ErrView::TemplateError(s@),
    }
}

pub open spec fn opt_err_view(e: Option<RenderError>) -> Option<ErrView> {
    match e {
        Option::Some(x) => Option::Some(err_view(x)),
        Option::None => Option::None,
    }
}

/// Structural copy of an error value.
pub(crate) fn clone_render_error(e: &RenderError) -> (r: RenderError)
    ensures
        err_view(r) == err_view(*e),
{
    match e {
        RenderError::UndefinedShortcode(s) => RenderError::UndefinedShortcode(s.clone()),
        RenderError::ShortcodeRender(s) => RenderError::ShortcodeRender(s.clone()),
        RenderError::MissingLinkUrl => RenderError::MissingLinkUrl,
        RenderError::BrokenInternalLink(s) => RenderError::BrokenInternalLink(s.clone()),
        RenderError::UnknownDocument(s) => RenderError::UnknownDocument(s.clone()),
        RenderError::TemplateError(s) => RenderError::TemplateError(s.clone()),
    }
}

} // verus!
