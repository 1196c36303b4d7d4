//! The blog resource type.

use crate::resource::ResourceBuilderConfig;
use crate::timestamp::opt_text;
use crate::web::{url_join, url_join_of};
use vstd::prelude::*;

verus! {

/// Source and output directory of blog posts.
pub const BLOG_PATH: &'static str = "blog";

/// Gets the blog's resource configuration, with `posts_per_page` posts on a
/// list page.
pub fn get_blog_resource_config(posts_per_page: usize) -> (r: ResourceBuilderConfig)
    ensures
        r.source_path@ == BLOG_PATH@,
        r.output_path_short@ == BLOG_PATH@,
        r.output_path_long@ == BLOG_PATH@,
        r.resource_template@ == "blog-post"@,
        r.resource_list_template@ == "blog-list"@,
        r.rss_template@ == "rss/blog-post"@,
        r.rss_title@ == "zyl's blog"@,
        r.rss_description@ == "Feed of recent blog posts on zyl's website."@,
        r.list_title@ == "blog"@,
        r.tag_list_title@ == "blog tags"@,
        r.resource_name_plural@ == "blog posts"@,
        r.resources_per_page == posts_per_page,
{
    ResourceBuilderConfig {
        source_path: String::from_str(BLOG_PATH),
        output_path_short: String::from_str(BLOG_PATH),
        output_path_long: String::from_str(BLOG_PATH),
        resource_template: String::from_str("blog-post"),
        resource_list_template: String::from_str("blog-list"),
        rss_template: String::from_str("rss/blog-post"),
        rss_title: String::from_str("zyl's blog"),
        rss_description: String::from_str("Feed of recent blog posts on zyl's website."),
        list_title: String::from_str("blog"),
        tag_list_title: String::from_str("blog tags"),
        resource_name_plural: String::from_str("blog posts"),
        resources_per_page: posts_per_page,
    }
}

/// Metadata for a blog post.
#[derive(Debug)]
pub struct BlogPostMetadata {
    /// A short description about the post.
    pub desc: String,
    /// Path to the post's header image.
    pub header_image_file: String,
    /// Alt text for the post's header image.
    pub header_image_alt: String,
    /// Optional custom object fit value.
    pub image_fit: Option<String>,
    /// Optional custom object position value.
    pub image_center: Option<String>,
}

/// Template data for a blog post.
#[derive(Debug)]
pub struct BlogPostTemplateData {
    /// CDN path to the post's header image.
    pub header_image: String,
    /// Custom object fit value.
    pub object_fit: String,
    /// Custom object position value.
    pub object_position: String,
}

/// `o`'s text, or `default` when it is absent.
pub open spec fn text_or(o: Option<String>, default: Seq<char>) -> Seq<char> {
    match o {
        Some(s) => s@,
        None => default,
    }
}

fn text_or_default(o: &Option<String>, default: &str) -> (r: String)
    ensures
        r@ == text_or(*o, default@),
{
    match o {
        Some(s) => s.clone(),
        None => String::from_str(default),
    }
}

/// The head tags of a blog post page.
pub open spec fn blog_head(site_title: Seq<char>, title: Seq<char>, image: Seq<char>, desc: Seq<char>) -> Seq<char> {
    "\n\t\t<meta property=\"og:site_name\" content=\""@ + site_title
        + "\">\n\t\t<meta name=\"twitter:card\" content=\"summary_large_image\">\n\t\t<meta name=\"twitter:title\" content=\""@
        + title + "\">\n\t\t<meta name=\"twitter:image\" content=\""@ + image
        + "\">\n\t\t<meta name=\"og:description\" content=\""@ + desc + "\">\n\t\t"@
}

impl BlogPostMetadata {
    /// The CDN URL of the post's header image, if it resolves against
    /// `cdn_url`.
    pub fn get_header_image(&self, cdn_url: &str) -> (r: Option<String>)
        ensures
            opt_text(r) == url_join_of(cdn_url@, self.header_image_file@),
    {
        url_join(cdn_url, self.header_image_file.as_str())
    }

    /// The post's short description.
    pub fn get_short_desc(&self) -> (r: String)
        ensures
            r@ == self.desc@,
    {
        self.desc.clone()
    }

    /// Extra template fields of a post: its header image's CDN URL, and its
    /// image fit and centre ("cover" and "50% 50%" when unset). `None` when
    /// the header image does not resolve against `cdn_url`.
    pub fn get_extra_resource_template_data(&self, cdn_url: &str) -> (r: Option<BlogPostTemplateData>)
        ensures
            r is Some <==> url_join_of(cdn_url@, self.header_image_file@) is Some,
            r matches Some(d) ==> {
                &&& Some(d.header_image@) == url_join_of(cdn_url@, self.header_image_file@)
                &&& d.object_fit@ == text_or(self.image_fit, "cover"@)
                &&& d.object_position@ == text_or(self.image_center, "50% 50%"@)
            },
    {
        let header_image = match self.get_header_image(cdn_url) {
            None => return None,
            Some(u) => u,
        };
        Some(BlogPostTemplateData {
            header_image,
            object_fit: text_or_default(&self.image_fit, "cover"),
            object_position: text_or_default(&self.image_center, "50% 50%"),
        })
    }

    /// The head tags of the page of the post titled `title`; `None` when the
    /// header image does not resolve against `cdn_url`.
    pub fn get_head_data(&self, title: &str, site_title: &str, cdn_url: &str) -> (r: Option<String>)
        ensures
            r is Some <==> url_join_of(cdn_url@, self.header_image_file@) is Some,
            r matches Some(h) ==> h@ == blog_head(site_title@, title@, url_join_of(cdn_url@, self.header_image_file@)->Some_0, self.desc@),
    {
        let image = match self.get_header_image(cdn_url) {
            None => return None,
            Some(u) => u,
        };
        let mut s = String::from_str("\n\t\t<meta property=\"og:site_name\" content=\"");
        s.append(site_title);
        s.append("\">\n\t\t<meta name=\"twitter:card\" content=\"summary_large_image\">\n\t\t<meta name=\"twitter:title\" content=\"");
        s.append(title);
        s.append("\">\n\t\t<meta name=\"twitter:image\" content=\"");
        s.append(image.as_str());
        s.append("\">\n\t\t<meta name=\"og:description\" content=\"");
        s.append(self.desc.as_str());
        s.append("\">\n\t\t");
        Some(s)
    }
}

} // verus!
