//! Small helpers on names and titles.

use crate::resource::last_dot;
use crate::text::{chars_of, string_of};
use vstd::prelude::*;

verus! {

/// Position of the last `/` in `s`, or -1.
pub open spec fn last_slash(s: Seq<char>) -> int
    decreases s.len(),
{
    if s.len() == 0 {
        -1
    } else if s.last() == '/' {
        s.len() - 1
    } else {
        last_slash(s.drop_last())
    }
}

/// The "name" of a relative path: the path with the extension of its last
/// component removed (a leading dot starts no extension).
pub open spec fn name_of(path: Seq<char>) -> Seq<char> {
    let start = last_slash(path) + 1;
    let last = path.subrange(start, path.len() as int);
    if last_dot(last) > 0 {
        path.subrange(0, start + last_dot(last))
    } else {
        path
    }
}

proof fn lemma_last_slash(s: Seq<char>, i: int)
    requires
        -1 <= i < s.len(),
        i == -1 || s[i] == '/',
        forall|j: int| i < j < s.len() ==> s[j] != '/',
    ensures
        last_slash(s) == i,
    decreases s.len(),
{
    if s.len() > 0 && s.last() != '/' {
        lemma_last_slash(s.drop_last(), i);
    }
}

proof fn lemma_last_dot_at(s: Seq<char>, i: int)
    requires
        -1 <= i < s.len(),
        i == -1 || s[i] == '.',
        forall|j: int| i < j < s.len() ==> s[j] != '.',
    ensures
        last_dot(s) == i,
    decreases s.len(),
{
    if s.len() > 0 && s.last() != '.' {
        lemma_last_dot_at(s.drop_last(), i);
    }
}

/// Helper to get the "name" of a path, with `/` as its separator.
pub fn get_name(path: &str) -> (r: String)
    ensures
        r@ == name_of(path@),
{
    let cs = chars_of(path);
    let n = cs.len();
    let mut s = n;
    while s > 0 && cs[s - 1] != '/'
        invariant
            s <= n,
            n == cs@.len(),
            forall|j: int| s <= j < n ==> cs@[j] != '/',
        decreases s,
    {
        s = s - 1;
    }
    proof {
        lemma_last_slash(cs@, s - 1);
    }
    let start = s;
    let mut d = n;
    while d > start && cs[d - 1] != '.'
        invariant
            start <= d <= n,
            n == cs@.len(),
            forall|j: int| d <= j < n ==> cs@[j] != '.',
        decreases d,
    {
        d = d - 1;
    }
    let ghost last = cs@.subrange(start as int, n as int);
    proof {
        if d > start {
            lemma_last_dot_at(last, d - 1 - start);
        } else {
            lemma_last_dot_at(last, -1);
        }
    }
    if d > start && d - 1 > start {
        string_of(&cs, 0, d - 1)
    } else {
        assert(cs@.subrange(0, n as int) == cs@);
        string_of(&cs, 0, n)
    }
}

/// The title of a page: the site's title, followed by the page's own title
/// when it has one.
pub fn page_title(site_title: &str, title: &Option<String>) -> (r: String)
    ensures
        r@ == (match title {
            Some(t) => site_title@ + " / "@ + t@,
            None => site_title@,
        }),
{
    let mut r = String::from_str(site_title);
    if let Some(t) = title {
        r.append(" / ");
        r.append(t.as_str());
    }
    r
}

/// Whether two texts are equal.
pub fn same_text(a: &str, b: &str) -> (r: bool)
    ensures
        r == (a@ == b@),
{
    let ca = chars_of(a);
    let cb = chars_of(b);
    if ca.len() != cb.len() {
        return false;
    }
    let mut i: usize = 0;
    while i < ca.len()
        invariant
            ca@ == a@,
            cb@ == b@,
            ca@.len() == cb@.len(),
            i <= ca@.len(),
            forall|j: int| 0 <= j < i ==> ca@[j] == cb@[j],
        decreases ca@.len() - i,
    {
        if ca[i] != cb[i] {
            return false;
        }
        i = i + 1;
    }
    assert(ca@ == cb@);
    true
}

} // verus!
