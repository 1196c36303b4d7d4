//! The per-type extension point: what each resource type adds to its items'
//! pages.

use crate::blog::{BlogPostMetadata, BlogPostTemplateData};
use crate::images::{ImageMetadata, ImageTemplateData};
use vstd::prelude::*;

verus! {

/// The fields particular to an item's resource type: a blog post's, an
/// image's, or those of another type, which the core only carries along.
#[derive(Debug)]
pub enum ResourceExtra<V> {
    Blog(BlogPostMetadata),
    Image(ImageMetadata),
    Other(V),
}

/// Extra template fields of an item page, by resource type.
#[derive(Debug)]
pub enum ExtraTemplateData {
    Blog(BlogPostTemplateData),
    Image(ImageTemplateData),
    Nothing,
}

} // verus!
