//! Resolving links against a base URL.

use vstd::prelude::*;

verus! {

/// The URL that `reference` resolves to against the absolute URL `base`, as
/// text, if `base` parses and `reference` resolves.
pub uninterp spec fn url_join_of(base: Seq<char>, reference: Seq<char>) -> Option<Seq<char>>;

/// Relies on url's `Url::parse` of the base and `Url::join`: the resolved URL
/// depends on the two texts alone; `None` where either step fails.
#[verifier::external_body]
pub(crate) fn url_join(base: &str, reference: &str) -> (r: Option<String>)
    ensures
        crate::timestamp::opt_text(r) == url_join_of(base@, reference@),
{
    let joined = url::Url::parse(base).ok()?.join(reference).ok()?;
    Some(joined.into())
}

} // verus!
