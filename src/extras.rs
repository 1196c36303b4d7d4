//! Extras: named post-processing steps that a page can ask for.

use crate::util::same_text;
use vstd::prelude::*;

verus! {

/// Types of extras.
#[derive(Clone, Copy, Debug, PartialEq, Eq, Structural)]
pub enum Extra {
    /// Appends a template to the page's main content.
    Basic,
    /// Adds a list of a resource type's most recent items beside the content.
    ResourceListOutside,
}

/// Gets the extra for the given name.
pub fn get_extra(extra: &str) -> (r: Option<Extra>)
    ensures
        r == (if extra@ == "basic"@ {
            Some(Extra::Basic)
        } else if extra@ == "resource-list-outside"@ {
            Some(Extra::ResourceListOutside)
        } else {
            None
        }),
{
    if same_text(extra, "basic") {
        Some(Extra::Basic)
    } else if same_text(extra, "resource-list-outside") {
        Some(Extra::ResourceListOutside)
    } else {
        None
    }
}

} // verus!
