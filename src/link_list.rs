//! Links shown in generated link lists.

use vstd::prelude::*;

verus! {

/// Helper for links.
#[derive(Clone, Debug)]
pub struct Link {
    /// The link's actual link.
    pub link: String,
    /// The link's title.
    pub title: String,
}

impl Link {
    /// Creates a new link.
    pub fn new(link: String, title: String) -> (r: Link)
        ensures
            r.link == link,
            r.title == title,
    {
        Link { link, title }
    }
}

} // verus!
