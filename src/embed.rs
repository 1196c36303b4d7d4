//! Social-media embed tags for a page head.

use crate::timestamp::opt_text;
use vstd::prelude::*;

verus! {

/// Custom embed info for a page: what an unfurled link shows.
#[derive(Clone, Debug)]
pub struct EmbedMetadata {
    pub title: String,
    pub site_name: String,
    pub description: Option<String>,
    pub url: Option<String>,
    pub image: Option<String>,
    pub theme_color: String,
    pub large_image: bool,
}

/// A `meta` tag whose `content` is `content`, closed by `tail` (which names
/// the property).
pub open spec fn meta_tag(content: Seq<char>, tail: Seq<char>) -> Seq<char> {
    "<meta content=\""@ + content + tail
}

/// An optional `meta` tag: empty when there is no content.
pub open spec fn optional_meta_tag(content: Option<Seq<char>>, tail: Seq<char>) -> Seq<char> {
    match content {
        Some(c) => meta_tag(c, tail),
        None => Seq::empty(),
    }
}

/// The embed tags, in order: title, site name, then description, URL and
/// image when present, theme colour, and the large-card tag when asked.
pub open spec fn embed_text(
    title: Seq<char>,
    site_name: Seq<char>,
    description: Option<Seq<char>>,
    url: Option<Seq<char>>,
    image: Option<Seq<char>>,
    theme_color: Seq<char>,
    large_image: bool,
) -> Seq<char> {
    meta_tag(title, "\" property=\"og:title\">"@)
        + meta_tag(site_name, "\" property=\"og:site_name\">"@)
        + optional_meta_tag(description, "\" property=\"og:description\">"@)
        + optional_meta_tag(url, "\" property=\"og:url\">"@)
        + optional_meta_tag(image, "\" property=\"og:image\">"@)
        + meta_tag(theme_color, "\" name=\"theme-color\">"@)
        + (if large_image { "<meta name=\"twitter:card\" content=\"summary_large_image\">"@ } else { Seq::empty() })
}

/// The embed tags of `e`.
pub open spec fn embed_html(e: EmbedMetadata) -> Seq<char> {
    embed_text(e.title@, e.site_name@, opt_text(e.description), opt_text(e.url), opt_text(e.image), e.theme_color@, e.large_image)
}

fn push_meta(s: &mut String, content: &str, tail: &str)
    ensures
        final(s)@ == old(s)@ + meta_tag(content@, tail@),
{
    s.append("<meta content=\"");
    s.append(content);
    s.append(tail);
}

fn push_optional_meta(s: &mut String, content: &Option<String>, tail: &str)
    ensures
        final(s)@ == old(s)@ + optional_meta_tag(opt_text(*content), tail@),
{
    match content {
        Some(c) => push_meta(s, c.as_str(), tail),
        None => {
            assert(old(s)@ + Seq::<char>::empty() == old(s)@);
        },
    }
}

impl EmbedMetadata {
    /// Builds the embed HTML tags.
    pub fn build(self) -> (r: String)
        ensures
            r@ == embed_html(self),
    {
        let mut s = String::new();
        push_meta(&mut s, self.title.as_str(), "\" property=\"og:title\">");
        push_meta(&mut s, self.site_name.as_str(), "\" property=\"og:site_name\">");
        push_optional_meta(&mut s, &self.description, "\" property=\"og:description\">");
        push_optional_meta(&mut s, &self.url, "\" property=\"og:url\">");
        push_optional_meta(&mut s, &self.image, "\" property=\"og:image\">");
        push_meta(&mut s, self.theme_color.as_str(), "\" name=\"theme-color\">");
        if self.large_image {
            s.append("<meta name=\"twitter:card\" content=\"summary_large_image\">");
        }
        proof {
            let e = self;
            assert(s@ == embed_html(e));
        }
        s
    }

    /// The theme colour used when a page names none.
    pub fn default_theme_color() -> (r: String)
        ensures
            r@ == "#ffc4fc"@,
    {
        String::from_str("#ffc4fc")
    }
}

} // verus!
