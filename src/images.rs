//! The image resource type.

use crate::embed::{embed_text, EmbedMetadata};
use crate::resource::ResourceBuilderConfig;
use crate::timestamp::opt_text;
use crate::web::{url_join, url_join_of};
use vstd::prelude::*;

verus! {

/// Source directory of images.
pub const IMAGES_PATH: &'static str = "images";

/// Output directory of image pages.
pub const IMAGES_OUT_PATH: &'static str = "i";

/// Gets the resource configuration for images, with `images_per_page` images
/// on a list page.
pub fn get_images_resource_config(images_per_page: usize) -> (r: ResourceBuilderConfig)
    ensures
        r.source_path@ == IMAGES_PATH@,
        r.output_path_short@ == IMAGES_OUT_PATH@,
        r.output_path_long@ == "images"@,
        r.resource_template@ == "image"@,
        r.resource_list_template@ == "images"@,
        r.rss_template@ == "rss/image"@,
        r.rss_title@ == "zyl's images"@,
        r.rss_description@ == "feed of newly uploaded images from zyl's website."@,
        r.list_title@ == "images"@,
        r.tag_list_title@ == "image tags"@,
        r.resource_name_plural@ == "images"@,
        r.resources_per_page == images_per_page,
{
    ResourceBuilderConfig {
        source_path: String::from_str(IMAGES_PATH),
        output_path_short: String::from_str(IMAGES_OUT_PATH),
        output_path_long: String::from_str("images"),
        resource_template: String::from_str("image"),
        resource_list_template: String::from_str("images"),
        rss_template: String::from_str("rss/image"),
        rss_title: String::from_str("zyl's images"),
        rss_description: String::from_str("feed of newly uploaded images from zyl's website."),
        list_title: String::from_str("images"),
        tag_list_title: String::from_str("image tags"),
        resource_name_plural: String::from_str("images"),
        resources_per_page: images_per_page,
    }
}

/// Definition for a remote image.
#[derive(Debug)]
pub struct ImageMetadata {
    /// The image's alt text.
    pub alt: String,
    /// The image's extra description, if any.
    pub desc: Option<String>,
    /// The image's file path.
    pub file: String,
}

/// Template data for a specific image.
#[derive(Debug)]
pub struct ImageTemplateData {
    /// Direct URL to the image's CDN location.
    pub src: String,
}

/// Theme colour of image pages.
pub const IMAGE_THEME_COLOR: &'static str = "rgb(255, 196, 252)";

/// The head embed of the page of the image titled `title`, once its CDN URL
/// `image` is known.
pub open spec fn image_head(title: Seq<char>, site_title: Seq<char>, desc: Option<Seq<char>>, image: Seq<char>) -> Seq<char> {
    embed_text(title, site_title, desc, None, Some(image), IMAGE_THEME_COLOR@, true)
}

impl ImageMetadata {
    /// The CDN URL of the image, if it resolves against `cdn_url`.
    pub fn get_image_url(&self, cdn_url: &str) -> (r: Option<String>)
        ensures
            opt_text(r) == url_join_of(cdn_url@, self.file@),
    {
        url_join(cdn_url, self.file.as_str())
    }

    /// The image's short description: its description, or nothing.
    pub fn get_short_desc(&self) -> (r: String)
        ensures
            r@ == (match self.desc {
                Some(d) => d@,
                None => Seq::<char>::empty(),
            }),
    {
        match &self.desc {
            Some(d) => d.clone(),
            None => String::new(),
        }
    }

    /// Extra template fields of an image: its CDN URL; `None` when the file
    /// does not resolve against `cdn_url`.
    pub fn get_extra_resource_template_data(&self, cdn_url: &str) -> (r: Option<ImageTemplateData>)
        ensures
            r is Some <==> url_join_of(cdn_url@, self.file@) is Some,
            r matches Some(d) ==> Some(d.src@) == url_join_of(cdn_url@, self.file@),
    {
        match self.get_image_url(cdn_url) {
            None => None,
            Some(src) => Some(ImageTemplateData { src }),
        }
    }

    /// The head embed of the page of the image titled `title`: title, site
    /// name, description, the image itself, the image theme colour and a
    /// large card. `None` when the file does not resolve against `cdn_url`.
    pub fn get_head_data(&self, title: &str, site_title: &str, cdn_url: &str) -> (r: Option<String>)
        ensures
            r is Some <==> url_join_of(cdn_url@, self.file@) is Some,
            r matches Some(h) ==> h@ == image_head(title@, site_title@, opt_text(self.desc), url_join_of(cdn_url@, self.file@)->Some_0),
    {
        let image = match self.get_image_url(cdn_url) {
            None => return None,
            Some(u) => u,
        };
        let embed = EmbedMetadata {
            title: String::from_str(title),
            site_name: String::from_str(site_title),
            description: crate::publisher::copy_text(&self.desc),
            url: None,
            image: Some(image),
            theme_color: String::from_str(IMAGE_THEME_COLOR),
            large_image: true,
        };
        Some(embed.build())
    }
}

} // verus!
