//! Trusted boundary to the emoji-shortcode substitution.

use vstd::prelude::*;

verus! {

/// What the emoji replacer makes of a text run.
pub uninterp spec fn emoji_of(text: Seq<char>) -> Seq<char>;

/// Relies on gh_emoji's `Replacer::replace_all`: replaces `:name:` emoji
/// shortcodes with their glyphs. The replacement table is fixed data compiled
/// into that crate, so the result depends on the text alone.
#[verifier::external_body]
pub fn replace_emoji(text: &str) -> (r: String)
    ensures
        r@ == emoji_of(text@),
{
    gh_emoji::Replacer::new().replace_all(text).into_owned()
}

} // verus!
