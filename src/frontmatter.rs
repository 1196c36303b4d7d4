//! Splitting a document into its front matter block and its body.

use crate::text::{chars_of, string_of};
use vstd::prelude::*;

verus! {

/// A document split into its body and, if it had one, its front matter.
#[derive(Debug)]
pub struct FrontMatter<T> {
    /// The content past the front matter.
    pub content: String,
    /// The front matter found, if any.
    pub data: Option<T>,
}

/// The delimiter line `---` (with its line break) starts at position `j` of `s`.
pub open spec fn is_delim_at(s: Seq<char>, j: int) -> bool {
    &&& 0 <= j
    &&& j + 4 <= s.len()
    &&& s[j] == '-'
    &&& s[j + 1] == '-'
    &&& s[j + 2] == '-'
    &&& s[j + 3] == '\n'
}

/// `s` opens with a delimiter line, and `j` is where the first closing
/// delimiter after the opening dashes starts.
pub open spec fn closes_at(s: Seq<char>, j: int) -> bool {
    &&& is_delim_at(s, 0)
    &&& 3 <= j
    &&& is_delim_at(s, j)
    &&& forall|i: int| 3 <= i < j ==> !#[trigger] is_delim_at(s, i)
}

/// `s` has a front matter block.
pub open spec fn has_front_matter(s: Seq<char>) -> bool {
    is_delim_at(s, 0) && exists|j: int| 3 <= j && #[trigger] is_delim_at(s, j)
}

fn delim_at(cs: &Vec<char>, j: usize) -> (r: bool)
    ensures
        r == is_delim_at(cs@, j as int),
{
    j <= cs.len() && cs.len() - j >= 4 && cs[j] == '-' && cs[j + 1] == '-' && cs[j + 2] == '-'
        && cs[j + 3] == '\n'
}

/// `r` is `input` split into front matter and body.
pub open spec fn is_split(input: Seq<char>, r: FrontMatter<String>) -> bool {
    &&& r.data is Some <==> has_front_matter(input)
    &&& r.data is None ==> r.content@ == input
    &&& r.data matches Some(d) ==> exists|j: int|
        #[trigger] closes_at(input, j)
        && d@ == input.subrange(3, j)
        && r.content@ == input.subrange(j + 4, input.len() as int)
}

/// The document `---` line, `front`, `---` line, `body`.
pub open spec fn with_front_matter(front: Seq<char>, body: Seq<char>) -> Seq<char> {
    "---\n"@ + front + "---\n"@ + body
}

/// Splitting gives back what was joined: a document made of a `---` line,
/// the text `front`, a `---` line and `body` splits into the front matter
/// (the line break after the opening dashes, then `front`) and `body`,
/// provided no `---` line starts inside `front` or where it meets the
/// closing line.
pub proof fn law_front_matter_round_trip(front: Seq<char>, body: Seq<char>, r: FrontMatter<String>)
    requires
        is_split(with_front_matter(front, body), r),
        forall|i: int| 3 <= i < front.len() + 4 ==> !#[trigger] is_delim_at(with_front_matter(front, body), i),
    ensures
        r.data matches Some(d) && d@ == seq!['\n'] + front,
        r.content@ == body,
{
    let doc = with_front_matter(front, body);
    let k: int = front.len() as int + 4;
    reveal_strlit("---\n");
    assert(doc.len() == front.len() + 8 + body.len());
    assert(is_delim_at(doc, 0));
    assert(doc[k] == '-' && doc[k + 1] == '-' && doc[k + 2] == '-' && doc[k + 3] == '\n');
    assert(is_delim_at(doc, k));
    assert(closes_at(doc, k));
    let d = r.data->Some_0;
    let j = choose|j: int| #[trigger] closes_at(doc, j) && d@ == doc.subrange(3, j) && r.content@ == doc.subrange(j + 4, doc.len() as int);
    if j < k {
        assert(!is_delim_at(doc, j));
    } else if j > k {
        assert(!is_delim_at(doc, k));
    }
    assert(doc.subrange(3, k) == seq!['\n'] + front);
    assert(doc.subrange(k + 4, doc.len() as int) == body);
}

impl FrontMatter<String> {
    /// Splits `input` into its front matter and its body. A document that
    /// starts with a `---` line and has a later `---` line has front matter:
    /// the text between the opening dashes and the closing line. The body is
    /// what follows the closing line; without front matter it is the whole
    /// input.
    pub fn parse(input: String) -> (r: FrontMatter<String>)
        ensures
            is_split(input@, r),
    {
        let cs = chars_of(input.as_str());
        if delim_at(&cs, 0) {
            let mut j: usize = 3;
            while j < cs.len()
                invariant
                    3 <= j <= cs@.len(),
                    cs@ == input@,
                    is_delim_at(cs@, 0),
                    forall|i: int| 3 <= i < j ==> !#[trigger] is_delim_at(cs@, i),
                decreases cs@.len() - j,
            {
                if delim_at(&cs, j) {
                    let data = string_of(&cs, 3, j);
                    let content = string_of(&cs, j + 4, cs.len());
                    assert(closes_at(input@, j as int));
                    return FrontMatter { content, data: Some(data) };
                }
                j = j + 1;
            }
            assert forall|k: int| 3 <= k implies !#[trigger] is_delim_at(input@, k) by {
                if k >= j {
                    assert(k + 4 > input@.len());
                }
            }
        }
        FrontMatter { content: input, data: None }
    }
}

} // verus!
