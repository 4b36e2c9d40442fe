//! Markdown rendering core for a static-site generator: wiki-link rewriting,
//! shortcode extraction and splicing, a verified event-stream pipeline over an
//! external Markdown tokenizer, heading-anchor assignment, link resolution,
//! and a table-of-contents builder.

pub mod anchors;
pub mod context;
pub mod emoji;
pub mod errors;
pub mod events;
pub mod laws;
pub mod links;
pub mod markdown;
pub mod mdparse;
pub mod render;
pub mod shortcode;
pub mod strutil;
pub mod templates;
pub mod textpos;
pub mod toc;
pub mod wiki;

pub use context::{InsertAnchor, RenderContext, ShortcodeDef};
pub use errors::RenderError;
pub use markdown::{markdown_to_html, Rendered};
pub use render::render_content;
pub use toc::{has_anchor, make_table_of_contents, Heading};
pub use wiki::parse_wiki_style_links;
