//! Resource items, their metadata, and loading a collection of them.

use crate::frontmatter::FrontMatter;
use crate::text::{chars_of, string_of};
use crate::timestamp::{earlier, opt_text, Timestamp};
use crate::web::{url_join, url_join_of};
use vstd::prelude::*;

verus! {

/// The HTML that the Markdown text `md` renders to.
pub uninterp spec fn html_of_markdown(md: Seq<char>) -> Seq<char>;

/// Relies on pulldown_cmark's `Parser::new_ext` with every extension enabled
/// and `html::push_html`: the HTML depends on the Markdown text alone.
#[verifier::external_body]
fn markdown_to_html(md: &str) -> (r: String)
    ensures
        r@ == html_of_markdown(md@),
{
    let mut html = String::new();
    pulldown_cmark::html::push_html(&mut html, pulldown_cmark::Parser::new_ext(md, pulldown_cmark::Options::all()));
    html
}

/// Metadata of one resource item. `T` holds the fields particular to the
/// resource type, which the core only carries to the templates.
#[derive(Debug)]
pub struct ResourceMetadata<T> {
    /// The resource's title.
    pub title: String,
    /// The resource's timestamp.
    pub timestamp: Timestamp,
    /// The resource's tags.
    pub tags: Vec<String>,
    /// A CDN path, turned into the full CDN URL on load.
    pub cdn_file: Option<String>,
    /// The resource's description, if any.
    pub desc: Option<String>,
    /// Fields particular to the resource type.
    pub inner: T,
    /// Whether the resource is a draft, left out of published builds.
    pub draft: bool,
    /// The resource's rendered HTML; empty until loaded.
    pub content: String,
}

/// What the logic sees of a [`ResourceMetadata`].
pub struct MetadataView<T> {
    pub title: Seq<char>,
    pub timestamp: Timestamp,
    pub tags: Seq<Seq<char>>,
    pub cdn_file: Option<Seq<char>>,
    pub desc: Option<Seq<char>>,
    pub inner: T,
    pub draft: bool,
    pub content: Seq<char>,
}

/// The texts of a sequence of strings.
pub open spec fn texts(v: Seq<String>) -> Seq<Seq<char>> {
    v.map_values(|s: String| s@)
}

impl<T> View for ResourceMetadata<T> {
    type V = MetadataView<T>;

    open spec fn view(&self) -> MetadataView<T> {
        MetadataView {
            title: self.title@,
            timestamp: self.timestamp,
            tags: texts(self.tags@),
            cdn_file: opt_text(self.cdn_file),
            desc: opt_text(self.desc),
            inner: self.inner,
            draft: self.draft,
            content: self.content@,
        }
    }
}

/// An item as the logic sees it: its id and its metadata.
pub type ItemView<T> = (Seq<char>, MetadataView<T>);

/// What the logic sees of a loaded collection.
pub open spec fn items_view<T>(v: Seq<(String, ResourceMetadata<T>)>) -> Seq<ItemView<T>> {
    v.map_values(|e: (String, ResourceMetadata<T>)| (e.0@, e.1@))
}

/// Position of the last `.` in `s`, or -1.
pub open spec fn last_dot(s: Seq<char>) -> int
    decreases s.len(),
{
    if s.len() == 0 {
        -1
    } else if s.last() == '.' {
        s.len() - 1
    } else {
        last_dot(s.drop_last())
    }
}

/// A file name without its extension; a leading dot starts no extension.
pub open spec fn stem(name: Seq<char>) -> Seq<char> {
    if last_dot(name) > 0 {
        name.subrange(0, last_dot(name))
    } else {
        name
    }
}

/// The extension of a file name, if it has one.
pub open spec fn extension(name: Seq<char>) -> Option<Seq<char>> {
    if last_dot(name) > 0 {
        Some(name.subrange(last_dot(name) + 1, name.len() as int))
    } else {
        None
    }
}

proof fn lemma_last_dot(s: Seq<char>, i: int)
    requires
        -1 <= i < s.len(),
        i == -1 || s[i] == '.',
        forall|j: int| i < j < s.len() ==> s[j] != '.',
    ensures
        last_dot(s) == i,
    decreases s.len(),
{
    if s.len() > 0 && s.last() != '.' {
        lemma_last_dot(s.drop_last(), i);
    }
}

fn find_last_dot(cs: &Vec<char>) -> (r: usize)
    ensures
        r <= cs@.len(),
        last_dot(cs@) == (if r < cs@.len() { r as int } else { -1 }),
{
    let mut i = cs.len();
    while i > 0 && cs[i - 1] != '.'
        invariant
            i <= cs@.len(),
            forall|j: int| i <= j < cs@.len() ==> cs@[j] != '.',
        decreases i,
    {
        i = i - 1;
    }
    if i == 0 {
        proof {
            lemma_last_dot(cs@, -1);
        }
        cs.len()
    } else {
        proof {
            lemma_last_dot(cs@, i - 1);
        }
        i - 1
    }
}

/// The file name `name` without its extension.
pub fn file_stem(name: &str) -> (r: String)
    ensures
        r@ == stem(name@),
{
    let cs = chars_of(name);
    let p = find_last_dot(&cs);
    if 0 < p && p < cs.len() {
        string_of(&cs, 0, p)
    } else {
        proof {
            assert(cs@.subrange(0, cs@.len() as int) == cs@);
        }
        string_of(&cs, 0, cs.len())
    }
}

/// The extension that resource source documents carry.
pub open spec fn source_extension() -> Seq<char> {
    seq!['m', 'd']
}

/// Whether a file of this name is a resource source document (it ends in
/// `.md`).
pub fn is_resource_source(name: &str) -> (r: bool)
    ensures
        r == (extension(name@) == Some(source_extension())),
{
    let cs = chars_of(name);
    let p = find_last_dot(&cs);
    if 0 < p && p < cs.len() {
        let r = cs.len() - p == 3 && cs[p + 1] == 'm' && cs[p + 2] == 'd';
        proof {
            let e = cs@.subrange(p + 1, cs@.len() as int);
            if r {
                assert(e == source_extension());
            } else if e.len() == 2 {
                assert(e[0] == cs@[p + 1]);
                assert(e[1] == cs@[p + 2]);
            }
        }
        r
    } else {
        false
    }
}

/// Why a collection failed to load.
#[derive(Debug)]
pub enum LoadError {
    /// The front matter of item `id` did not parse into metadata.
    Parse { id: String, message: String },
    /// Item `id` has no front matter.
    MissingFrontMatter { id: String },
    /// The CDN path of item `id` does not resolve against the CDN URL.
    InvalidCdnUrl { id: String },
}

/// What the logic sees of a [`LoadError`].
pub enum LoadErrorView {
    Parse { id: Seq<char>, message: Seq<char> },
    MissingFrontMatter { id: Seq<char> },
    InvalidCdnUrl { id: Seq<char> },
}

impl View for LoadError {
    type V = LoadErrorView;

    open spec fn view(&self) -> LoadErrorView {
        match self {
            LoadError::Parse { id, message } => LoadErrorView::Parse { id: id@, message: message@ },
            LoadError::MissingFrontMatter { id } => LoadErrorView::MissingFrontMatter { id: id@ },
            LoadError::InvalidCdnUrl { id } => LoadErrorView::InvalidCdnUrl { id: id@ },
        }
    }
}

/// One source document of a resource type: its file name and what parsing
/// its front matter gave (the body with the typed metadata, or the parser's
/// message).
pub struct SourceFile<T> {
    pub name: String,
    pub document: Result<FrontMatter<ResourceMetadata<T>>, String>,
}

/// What loading one source document gives, against the CDN base URL `cdn`.
pub open spec fn load_outcome<T>(f: SourceFile<T>, cdn: Seq<char>) -> Result<ItemView<T>, LoadErrorView> {
    let id = stem(f.name@);
    match f.document {
        Err(m) => Err(LoadErrorView::Parse { id, message: m@ }),
        Ok(fm) => match fm.data {
            None => Err(LoadErrorView::MissingFrontMatter { id }),
            Some(d) => {
                let v = MetadataView { content: html_of_markdown(fm.content@), ..d@ };
                match d.cdn_file {
                    None => Ok((id, v)),
                    Some(c) => match url_join_of(cdn, c@) {
                        None => Err(LoadErrorView::InvalidCdnUrl { id }),
                        Some(u) => Ok((id, MetadataView { cdn_file: Some(u), ..v })),
                    },
                }
            },
        },
    }
}

/// Build modes: a published build leaves drafts out, a preview keeps them.
#[derive(Clone, Copy, Debug, PartialEq, Eq, Structural)]
pub enum BuildMode {
    Published,
    Preview,
}

/// Item metadata `v` is part of a build in `mode`.
pub open spec fn shown_in(v: MetadataView<impl Sized>, mode: BuildMode) -> bool {
    mode is Preview || !v.draft
}


/// `x` placed into `s` after every item that is not older than it.
pub open spec fn insert_newest_first<T>(s: Seq<ItemView<T>>, x: ItemView<T>) -> Seq<ItemView<T>>
    decreases s.len(),
{
    if s.len() == 0 {
        seq![x]
    } else if earlier(s[0].1.timestamp, x.1.timestamp) {
        seq![x] + s
    } else {
        seq![s[0]] + insert_newest_first(s.drop_first(), x)
    }
}

/// `s` ordered from the most recent item to the oldest; items with equal
/// timestamps keep their order in `s`.
pub open spec fn newest_first<T>(s: Seq<ItemView<T>>) -> Seq<ItemView<T>>
    decreases s.len(),
{
    if s.len() == 0 {
        s
    } else {
        insert_newest_first(newest_first(s.drop_last()), s.last())
    }
}

/// The items of `s` that are part of a build in `mode`, in order.
pub open spec fn kept<T>(s: Seq<ItemView<T>>, mode: BuildMode) -> Seq<ItemView<T>>
    decreases s.len(),
{
    if s.len() == 0 {
        s
    } else if shown_in(s.last().1, mode) {
        kept(s.drop_last(), mode).push(s.last())
    } else {
        kept(s.drop_last(), mode)
    }
}

/// Every document of `files` loads.
pub open spec fn all_load<T>(files: Seq<SourceFile<T>>, cdn: Seq<char>) -> bool {
    forall|i: int| 0 <= i < files.len() ==> (#[trigger] load_outcome(files[i], cdn)) is Ok
}

/// The items that `files` load to, in order.
pub open spec fn loaded_items<T>(files: Seq<SourceFile<T>>, cdn: Seq<char>) -> Seq<ItemView<T>> {
    files.map_values(|f: SourceFile<T>| load_outcome(f, cdn)->Ok_0)
}

/// The collection that `files` give in `mode`: the loaded items that the mode
/// keeps, newest first.
pub open spec fn collection_of<T>(files: Seq<SourceFile<T>>, cdn: Seq<char>, mode: BuildMode) -> Seq<ItemView<T>> {
    newest_first(kept(loaded_items(files, cdn), mode))
}

/// `e` is the error that loading `files` stops at: every document before
/// position `k` loads and the one at `k` fails with `e`.
pub open spec fn first_failure<T>(files: Seq<SourceFile<T>>, cdn: Seq<char>, k: int, e: LoadErrorView) -> bool {
    &&& 0 <= k < files.len()
    &&& forall|j: int| 0 <= j < k ==> (#[trigger] load_outcome(files[j], cdn)) is Ok
    &&& load_outcome(files[k], cdn) == Err::<ItemView<T>, LoadErrorView>(e)
}

proof fn lemma_insert_at<T>(s: Seq<ItemView<T>>, x: ItemView<T>, p: int)
    requires
        0 <= p <= s.len(),
        forall|j: int| 0 <= j < p ==> !earlier(#[trigger] s[j].1.timestamp, x.1.timestamp),
        p == s.len() || earlier(s[p].1.timestamp, x.1.timestamp),
    ensures
        insert_newest_first(s, x) == s.insert(p, x),
    decreases p,
{
    if p == 0 {
        if s.len() == 0 {
            assert(s.insert(0, x) == seq![x]);
        } else {
            assert(s.insert(0, x) == seq![x] + s);
        }
    } else {
        let t = s.drop_first();
        assert forall|j: int| 0 <= j < p - 1 implies !earlier(#[trigger] t[j].1.timestamp, x.1.timestamp) by {
            assert(t[j] == s[j + 1]);
        }
        lemma_insert_at(t, x, p - 1);
        assert(!earlier(s[0].1.timestamp, x.1.timestamp));
        assert(seq![s[0]] + t.insert(p - 1, x) == s.insert(p, x));
    }
}

/// Inserts `x` into `v` after every item that is not older than it.
fn insert_item<T>(v: &mut Vec<(String, ResourceMetadata<T>)>, x: (String, ResourceMetadata<T>))
    ensures
        items_view(final(v)@) == insert_newest_first(items_view(old(v)@), (x.0@, x.1@)),
{
    let ghost xv = (x.0@, x.1@);
    let ghost before = items_view(v@);
    let mut p: usize = 0;
    while p < v.len() && !v[p].1.timestamp.is_earlier_than(&x.1.timestamp)
        invariant
            p <= v@.len(),
            before == items_view(v@),
            forall|j: int| 0 <= j < p ==> !earlier(#[trigger] v@[j].1.timestamp, x.1.timestamp),
        decreases v@.len() - p,
    {
        p = p + 1;
    }
    proof {
        assert forall|j: int| 0 <= j < p implies !earlier(#[trigger] before[j].1.timestamp, xv.1.timestamp) by {
            assert(before[j].1.timestamp == v@[j].1.timestamp);
        }
        if p < v@.len() {
            assert(before[p as int].1.timestamp == v@[p as int].1.timestamp);
        }
        lemma_insert_at(before, xv, p as int);
    }
    v.insert(p, x);
    assert(items_view(v@) == before.insert(p as int, xv));
}

proof fn lemma_insert_members<T>(s: Seq<ItemView<T>>, x: ItemView<T>)
    ensures
        insert_newest_first(s, x).len() == s.len() + 1,
        forall|y: ItemView<T>| #[trigger] insert_newest_first(s, x).contains(y) <==> (s.contains(y) || y == x),
    decreases s.len(),
{
    if s.len() > 0 {
        let t = s.drop_first();
        lemma_insert_members(t, x);
        assert(s == seq![s[0]] + t);
        assert forall|y: ItemView<T>| #[trigger] insert_newest_first(s, x).contains(y) <==> (s.contains(y) || y == x) by {
            let r = insert_newest_first(s, x);
            if earlier(s[0].1.timestamp, x.1.timestamp) {
                assert(r == seq![x] + s);
                if r.contains(y) {
                    let k = choose|k: int| 0 <= k < r.len() && r[k] == y;
                    if k > 0 {
                        assert(s[k - 1] == y);
                    }
                }
                if s.contains(y) {
                    let k = choose|k: int| 0 <= k < s.len() && s[k] == y;
                    assert(r[k + 1] == y);
                }
                if y == x {
                    assert(r[0] == y);
                }
            } else {
                let rt = insert_newest_first(t, x);
                assert(r == seq![s[0]] + rt);
                assert(rt.len() == t.len() + 1);
                assert(r.len() == rt.len() + 1);
                assert forall|m: int| 0 <= m < rt.len() implies r[m + 1] == rt[m] by {}
                assert forall|m: int| 0 <= m < t.len() implies s[m + 1] == t[m] by {}
                if r.contains(y) {
                    let k = choose|k: int| 0 <= k < r.len() && r[k] == y;
                    if k > 0 {
                        assert(rt[k - 1] == y);
                        assert(rt.contains(y));
                        assert(t.contains(y) || y == x);
                        if t.contains(y) {
                            let m = choose|m: int| 0 <= m < t.len() && t[m] == y;
                            assert(s[m + 1] == y);
                            assert(s.contains(y));
                        }
                    } else {
                        assert(s[0] == y);
                    }
                }
                if s.contains(y) {
                    let k = choose|k: int| 0 <= k < s.len() && s[k] == y;
                    if k > 0 {
                        assert(t[k - 1] == y);
                        assert(t.contains(y));
                        assert(rt.contains(y));
                        let m = choose|m: int| 0 <= m < rt.len() && rt[m] == y;
                        assert(r[m + 1] == y);
                    } else {
                        assert(r[0] == y);
                    }
                }
                if y == x {
                    assert(rt.contains(y));
                    let m = choose|m: int| 0 <= m < rt.len() && rt[m] == y;
                    assert(r[m + 1] == y);
                }
            }
        }
    } else {
        assert forall|y: ItemView<T>| #[trigger] insert_newest_first(s, x).contains(y) <==> (s.contains(y) || y == x) by {
            if y == x {
                assert(insert_newest_first(s, x)[0] == y);
            }
        }
    }
}

/// Ordering a collection newest first keeps exactly its items.
pub proof fn lemma_newest_first_members<T>(s: Seq<ItemView<T>>)
    ensures
        newest_first(s).len() == s.len(),
        forall|y: ItemView<T>| #[trigger] newest_first(s).contains(y) <==> s.contains(y),
    decreases s.len(),
{
    if s.len() > 0 {
        let t = s.drop_last();
        lemma_newest_first_members(t);
        lemma_insert_members(newest_first(t), s.last());
        assert(s == t.push(s.last()));
        assert forall|y: ItemView<T>| #[trigger] newest_first(s).contains(y) <==> s.contains(y) by {
            if t.contains(y) {
                let k = choose|k: int| 0 <= k < t.len() && t[k] == y;
                assert(s[k] == y);
            }
            if s.contains(y) {
                let k = choose|k: int| 0 <= k < s.len() && s[k] == y;
                if k < t.len() {
                    assert(t[k] == y);
                }
            }
        }
    }
}

/// A build keeps exactly the loaded items that its mode shows.
pub proof fn lemma_kept_members<T>(s: Seq<ItemView<T>>, mode: BuildMode)
    ensures
        forall|y: ItemView<T>| #[trigger] kept(s, mode).contains(y) <==> (s.contains(y) && shown_in(y.1, mode)),
        mode is Preview ==> kept(s, mode) == s,
    decreases s.len(),
{
    if s.len() > 0 {
        let t = s.drop_last();
        lemma_kept_members(t, mode);
        assert(s == t.push(s.last()));
        assert forall|y: ItemView<T>| #[trigger] kept(s, mode).contains(y) <==> (s.contains(y) && shown_in(y.1, mode)) by {
            let kt = kept(t, mode);
            if shown_in(s.last().1, mode) {
                assert(kept(s, mode) == kt.push(s.last()));
                if kept(s, mode).contains(y) {
                    let k = choose|k: int| 0 <= k < kept(s, mode).len() && kept(s, mode)[k] == y;
                    if k < kt.len() {
                        assert(kt[k] == y);
                        assert(kt.contains(y));
                        let m = choose|m: int| 0 <= m < t.len() && t[m] == y;
                        assert(s[m] == y);
                    } else {
                        assert(s[s.len() - 1] == y);
                    }
                }
                if s.contains(y) && shown_in(y.1, mode) {
                    let k = choose|k: int| 0 <= k < s.len() && s[k] == y;
                    if k < t.len() {
                        assert(t[k] == y);
                        assert(kt.contains(y));
                        let m = choose|m: int| 0 <= m < kt.len() && kt[m] == y;
                        assert(kept(s, mode)[m] == y);
                    } else {
                        assert(kept(s, mode)[kt.len() as int] == y);
                    }
                }
            } else {
                assert(kept(s, mode) == kt);
                if kept(s, mode).contains(y) {
                    let m = choose|m: int| 0 <= m < t.len() && t[m] == y;
                    assert(s[m] == y);
                }
                if s.contains(y) && shown_in(y.1, mode) {
                    let k = choose|k: int| 0 <= k < s.len() && s[k] == y;
                    if k < t.len() {
                        assert(t[k] == y);
                    }
                }
            }
        }
    }
}

/// No item of `s` is older than an item after it.
pub open spec fn is_newest_first<T>(s: Seq<ItemView<T>>) -> bool {
    forall|a: int, b: int| 0 <= a < b < s.len() ==> !earlier(#[trigger] s[a].1.timestamp, #[trigger] s[b].1.timestamp)
}

proof fn lemma_insert_keeps_order<T>(s: Seq<ItemView<T>>, x: ItemView<T>)
    requires
        is_newest_first(s),
    ensures
        is_newest_first(insert_newest_first(s, x)),
    decreases s.len(),
{
    lemma_insert_members(s, x);
    if s.len() > 0 {
        let r = insert_newest_first(s, x);
        let t = s.drop_first();
        if earlier(s[0].1.timestamp, x.1.timestamp) {
            assert(r == seq![x] + s);
            assert forall|a: int, b: int| 0 <= a < b < r.len() implies !earlier(#[trigger] r[a].1.timestamp, #[trigger] r[b].1.timestamp) by {
                if a == 0 {
                    assert(r[b] == s[b - 1]);
                    if b > 1 {
                        assert(!earlier(s[0].1.timestamp, s[b - 1].1.timestamp));
                    }
                } else {
                    assert(r[a] == s[a - 1]);
                    assert(r[b] == s[b - 1]);
                }
            }
        } else {
            assert forall|a: int, b: int| 0 <= a < b < t.len() implies !earlier(#[trigger] t[a].1.timestamp, #[trigger] t[b].1.timestamp) by {
                assert(t[a] == s[a + 1]);
                assert(t[b] == s[b + 1]);
            }
            lemma_insert_keeps_order(t, x);
            lemma_insert_members(t, x);
            let rt = insert_newest_first(t, x);
            assert(r == seq![s[0]] + rt);
            assert forall|a: int, b: int| 0 <= a < b < r.len() implies !earlier(#[trigger] r[a].1.timestamp, #[trigger] r[b].1.timestamp) by {
                if a == 0 {
                    let y = rt[b - 1];
                    assert(r[b] == y);
                    assert(rt.contains(y));
                    if y != x {
                        assert(t.contains(y));
                        let m = choose|m: int| 0 <= m < t.len() && t[m] == y;
                        assert(s[m + 1] == y);
                        assert(!earlier(s[0].1.timestamp, s[m + 1].1.timestamp));
                    }
                } else {
                    assert(r[a] == rt[a - 1]);
                    assert(r[b] == rt[b - 1]);
                }
            }
        }
    }
}

/// A loaded collection is ordered newest first: no item is older than one
/// after it.
pub proof fn law_collection_newest_first<T>(s: Seq<ItemView<T>>)
    ensures
        is_newest_first(newest_first(s)),
    decreases s.len(),
{
    if s.len() > 0 {
        law_collection_newest_first(s.drop_last());
        lemma_insert_keeps_order(newest_first(s.drop_last()), s.last());
    }
}

/// Two timestamps name the same instant.
pub open spec fn same_instant(a: Timestamp, b: Timestamp) -> bool {
    a.unix_seconds == b.unix_seconds && a.nanosecond == b.nanosecond
}

/// The items of `s` at instant `t`, in order.
pub open spec fn at_instant<T>(s: Seq<ItemView<T>>, t: Timestamp) -> Seq<ItemView<T>>
    decreases s.len(),
{
    if s.len() == 0 {
        s
    } else if same_instant(s[0].1.timestamp, t) {
        seq![s[0]] + at_instant(s.drop_first(), t)
    } else {
        at_instant(s.drop_first(), t)
    }
}

proof fn lemma_at_instant_push<T>(s: Seq<ItemView<T>>, x: ItemView<T>, t: Timestamp)
    ensures
        at_instant(s.push(x), t) == (if same_instant(x.1.timestamp, t) { at_instant(s, t).push(x) } else { at_instant(s, t) }),
    decreases s.len(),
{
    if s.len() == 0 {
        assert(s.push(x).drop_first() == s);
    } else {
        assert(s.push(x).drop_first() == s.drop_first().push(x));
        lemma_at_instant_push(s.drop_first(), x, t);
        if same_instant(s[0].1.timestamp, t) && same_instant(x.1.timestamp, t) {
            assert(seq![s[0]] + at_instant(s.drop_first(), t).push(x) == (seq![s[0]] + at_instant(s.drop_first(), t)).push(x));
        }
    }
}

proof fn lemma_at_instant_none<T>(s: Seq<ItemView<T>>, t: Timestamp)
    requires
        forall|k: int| 0 <= k < s.len() ==> earlier(#[trigger] s[k].1.timestamp, t),
    ensures
        at_instant(s, t).len() == 0,
    decreases s.len(),
{
    if s.len() > 0 {
        assert forall|k: int| 0 <= k < s.drop_first().len() implies earlier(#[trigger] s.drop_first()[k].1.timestamp, t) by {
            assert(s.drop_first()[k] == s[k + 1]);
        }
        lemma_at_instant_none(s.drop_first(), t);
    }
}

proof fn lemma_at_instant_insert<T>(r: Seq<ItemView<T>>, x: ItemView<T>, t: Timestamp)
    requires
        is_newest_first(r),
    ensures
        at_instant(insert_newest_first(r, x), t) == (if same_instant(x.1.timestamp, t) { at_instant(r, t).push(x) } else { at_instant(r, t) }),
    decreases r.len(),
{
    if r.len() == 0 {
        assert(insert_newest_first(r, x) == seq![x]);
        assert(seq![x].drop_first().len() == 0);
        if same_instant(x.1.timestamp, t) {
            assert(at_instant(r, t).push(x) == seq![x]);
            assert(seq![x] + at_instant(seq![x].drop_first(), t) == seq![x]);
        }
    } else if earlier(r[0].1.timestamp, x.1.timestamp) {
        let ins = insert_newest_first(r, x);
        assert(ins == seq![x] + r);
        assert(ins.drop_first() == r);
        if same_instant(x.1.timestamp, t) {
            assert forall|k: int| 0 <= k < r.len() implies earlier(#[trigger] r[k].1.timestamp, t) by {
                if k > 0 {
                    assert(!earlier(r[0].1.timestamp, r[k].1.timestamp));
                }
            }
            lemma_at_instant_none(r, t);
            assert(at_instant(r, t) == Seq::<ItemView<T>>::empty());
            assert(seq![x] + at_instant(r, t) == at_instant(r, t).push(x));
        }
    } else {
        let t0 = r.drop_first();
        assert forall|a: int, b: int| 0 <= a < b < t0.len() implies !earlier(#[trigger] t0[a].1.timestamp, #[trigger] t0[b].1.timestamp) by {
            assert(t0[a] == r[a + 1]);
            assert(t0[b] == r[b + 1]);
        }
        lemma_at_instant_insert(t0, x, t);
        let ins = insert_newest_first(r, x);
        assert(ins == seq![r[0]] + insert_newest_first(t0, x));
        assert(ins[0] == r[0]);
        assert(ins.drop_first() == insert_newest_first(t0, x));
        if same_instant(r[0].1.timestamp, t) && same_instant(x.1.timestamp, t) {
            assert(seq![r[0]] + at_instant(t0, t).push(x) == (seq![r[0]] + at_instant(t0, t)).push(x));
        }
    }
}

/// Ordering newest first is stable: the items at any one instant come out
/// in the order they had in `s`.
pub proof fn law_collection_order_stable<T>(s: Seq<ItemView<T>>, t: Timestamp)
    ensures
        at_instant(newest_first(s), t) == at_instant(s, t),
    decreases s.len(),
{
    if s.len() > 0 {
        let prefix = s.drop_last();
        law_collection_order_stable(prefix, t);
        law_collection_newest_first(prefix);
        lemma_at_instant_insert(newest_first(prefix), s.last(), t);
        lemma_at_instant_push(prefix, s.last(), t);
        assert(s == prefix.push(s.last()));
    }
}

/// No two items of `s` share an id.
pub open spec fn ids_distinct<T>(s: Seq<ItemView<T>>) -> bool {
    forall|a: int, b: int| 0 <= a < b < s.len() ==> #[trigger] s[a].0 != #[trigger] s[b].0
}

proof fn lemma_source_name(name: Seq<char>)
    requires
        extension(name) == Some(source_extension()),
    ensures
        name == stem(name) + seq!['.', 'm', 'd'],
{
    let p = last_dot(name);
    lemma_last_dot_bounds(name);
    let e = name.subrange(p + 1, name.len() as int);
    assert(e == seq!['m', 'd']);
    assert(name[p + 1] == e[0] && name[p + 2] == e[1]);
    assert(name == stem(name) + seq!['.', 'm', 'd']);
}

proof fn lemma_last_dot_bounds(s: Seq<char>)
    ensures
        -1 <= last_dot(s) < s.len(),
        last_dot(s) >= 0 ==> s[last_dot(s)] == '.',
    decreases s.len(),
{
    if s.len() > 0 && s.last() != '.' {
        lemma_last_dot_bounds(s.drop_last());
    }
}

proof fn lemma_loaded_id<T>(f: SourceFile<T>, cdn: Seq<char>)
    requires
        load_outcome(f, cdn) is Ok,
    ensures
        load_outcome(f, cdn)->Ok_0.0 == stem(f.name@),
{
}

proof fn lemma_kept_distinct<T>(s: Seq<ItemView<T>>, mode: BuildMode)
    requires
        ids_distinct(s),
    ensures
        ids_distinct(kept(s, mode)),
    decreases s.len(),
{
    if s.len() > 0 {
        let t = s.drop_last();
        assert forall|a: int, b: int| 0 <= a < b < t.len() implies #[trigger] t[a].0 != #[trigger] t[b].0 by {
            assert(t[a] == s[a] && t[b] == s[b]);
        }
        lemma_kept_distinct(t, mode);
        lemma_kept_members(t, mode);
        let k = kept(t, mode);
        if shown_in(s.last().1, mode) {
            assert forall|a: int, b: int| 0 <= a < b < k.push(s.last()).len() implies #[trigger] k.push(s.last())[a].0 != #[trigger] k.push(s.last())[b].0 by {
                if b == k.len() {
                    let y = k[a];
                    assert(k.contains(y));
                    assert(t.contains(y));
                    let m = choose|m: int| 0 <= m < t.len() && t[m] == y;
                    assert(s[m] == y);
                    assert(s[m].0 != s[s.len() - 1].0);
                }
            }
        }
    }
}

proof fn lemma_insert_distinct<T>(s: Seq<ItemView<T>>, x: ItemView<T>)
    requires
        ids_distinct(s),
        forall|k: int| 0 <= k < s.len() ==> #[trigger] s[k].0 != x.0,
    ensures
        ids_distinct(insert_newest_first(s, x)),
    decreases s.len(),
{
    lemma_insert_members(s, x);
    if s.len() > 0 {
        let r = insert_newest_first(s, x);
        let t = s.drop_first();
        if earlier(s[0].1.timestamp, x.1.timestamp) {
            assert(r == seq![x] + s);
            assert forall|a: int, b: int| 0 <= a < b < r.len() implies #[trigger] r[a].0 != #[trigger] r[b].0 by {
                assert(r[b] == s[b - 1]);
                if a > 0 {
                    assert(r[a] == s[a - 1]);
                }
            }
        } else {
            assert forall|a: int, b: int| 0 <= a < b < t.len() implies #[trigger] t[a].0 != #[trigger] t[b].0 by {
                assert(t[a] == s[a + 1] && t[b] == s[b + 1]);
            }
            assert forall|k: int| 0 <= k < t.len() implies #[trigger] t[k].0 != x.0 by {
                assert(t[k] == s[k + 1]);
            }
            lemma_insert_distinct(t, x);
            lemma_insert_members(t, x);
            let rt = insert_newest_first(t, x);
            assert(r == seq![s[0]] + rt);
            assert forall|a: int, b: int| 0 <= a < b < r.len() implies #[trigger] r[a].0 != #[trigger] r[b].0 by {
                assert(r[b] == rt[b - 1]);
                if a == 0 {
                    let y = rt[b - 1];
                    assert(rt.contains(y));
                    if y != x {
                        assert(t.contains(y));
                        let m = choose|m: int| 0 <= m < t.len() && t[m] == y;
                        assert(s[m + 1] == y);
                    } else {
                        assert(s[0].0 != x.0);
                    }
                } else {
                    assert(r[a] == rt[a - 1]);
                }
            }
        }
    }
}

proof fn lemma_newest_first_distinct<T>(s: Seq<ItemView<T>>)
    requires
        ids_distinct(s),
    ensures
        ids_distinct(newest_first(s)),
    decreases s.len(),
{
    if s.len() > 0 {
        let t = s.drop_last();
        assert forall|a: int, b: int| 0 <= a < b < t.len() implies #[trigger] t[a].0 != #[trigger] t[b].0 by {
            assert(t[a] == s[a] && t[b] == s[b]);
        }
        lemma_newest_first_distinct(t);
        lemma_newest_first_members(t);
        let r = newest_first(t);
        assert forall|k: int| 0 <= k < r.len() implies #[trigger] r[k].0 != s.last().0 by {
            assert(r.contains(r[k]));
            assert(t.contains(r[k]));
            let m = choose|m: int| 0 <= m < t.len() && t[m] == r[k];
            assert(s[m] == r[k]);
        }
        lemma_insert_distinct(r, s.last());
    }
}

/// Source files with distinct names give a collection with distinct ids, and
/// the collection holds exactly the loaded items that the mode keeps, each
/// once: it is an ordering of them.
pub proof fn law_collection_ids_distinct<T>(files: Seq<SourceFile<T>>, cdn: Seq<char>, mode: BuildMode)
    requires
        all_load(files, cdn),
        forall|a: int, b: int| 0 <= a < b < files.len() ==> #[trigger] files[a].name@ != #[trigger] files[b].name@,
        forall|i: int| 0 <= i < files.len() ==> extension(#[trigger] files[i].name@) == Some(source_extension()),
    ensures
        ids_distinct(collection_of(files, cdn, mode)),
        ids_distinct(kept(loaded_items(files, cdn), mode)),
        collection_of(files, cdn, mode).len() == kept(loaded_items(files, cdn), mode).len(),
        forall|y: ItemView<T>| #[trigger] collection_of(files, cdn, mode).contains(y)
            <==> kept(loaded_items(files, cdn), mode).contains(y),
{
    let loaded = loaded_items(files, cdn);
    assert forall|a: int, b: int| 0 <= a < b < loaded.len() implies #[trigger] loaded[a].0 != #[trigger] loaded[b].0 by {
        assert(load_outcome(files[a], cdn) is Ok);
        assert(load_outcome(files[b], cdn) is Ok);
        lemma_loaded_id(files[a], cdn);
        lemma_loaded_id(files[b], cdn);
        lemma_source_name(files[a].name@);
        lemma_source_name(files[b].name@);
        if loaded[a].0 == loaded[b].0 {
            assert(files[a].name@ == files[b].name@);
        }
    }
    lemma_kept_distinct(loaded, mode);
    lemma_newest_first_distinct(kept(loaded, mode));
    lemma_newest_first_members(kept(loaded, mode));
}

/// Config for the resource builder.
#[derive(Clone, Debug, Default)]
pub struct ResourceBuilderConfig {
    /// Path to where the resources should be loaded from.
    pub source_path: String,
    /// Path to where the resource pages should be written to.
    pub output_path_short: String,
    /// Path to where the main list should be written to.
    pub output_path_long: String,
    /// The template used to render a single resource.
    pub resource_template: String,
    /// The template used to render a list of resources.
    pub resource_list_template: String,
    /// Template used when rendering the RSS feed.
    pub rss_template: String,
    /// The RSS feed's title.
    pub rss_title: String,
    /// The description for the RSS feed.
    pub rss_description: String,
    /// Title for the main list of resources.
    pub list_title: String,
    /// Title for the page containing a list of tags.
    pub tag_list_title: String,
    /// Name for the resource type in plural.
    pub resource_name_plural: String,
    /// The number of resources to display on a single page.
    pub resources_per_page: usize,
}

/// One resource type: its config and its currently loaded collection.
#[derive(Debug)]
pub struct ResourceBuilder<T> {
    /// The builder's config.
    pub config: ResourceBuilderConfig,
    /// The currently loaded resource metadata, newest first.
    pub loaded_metadata: Vec<(String, ResourceMetadata<T>)>,
}

impl<T> ResourceBuilder<T> {
    /// Creates a new resource builder with nothing loaded.
    pub fn new(config: ResourceBuilderConfig) -> (r: Self)
        ensures
            r.config == config,
            r.loaded_metadata@.len() == 0,
    {
        ResourceBuilder { config, loaded_metadata: Vec::new() }
    }

    /// Gets a resource's id from its file name.
    pub fn get_id(name: &str) -> (r: String)
        ensures
            r@ == stem(name@),
    {
        file_stem(name)
    }

    /// Loads one source document: its id, its metadata with the body
    /// rendered to HTML, and its CDN path resolved against `cdn_url`.
    fn load(file: SourceFile<T>, cdn_url: &str) -> (r: Result<(String, ResourceMetadata<T>), LoadError>)
        ensures
            r is Ok <==> load_outcome(file, cdn_url@) is Ok,
            r matches Ok(x) ==> load_outcome(file, cdn_url@) == Ok::<ItemView<T>, LoadErrorView>((x.0@, x.1@)),
            r matches Err(e) ==> load_outcome(file, cdn_url@) == Err::<ItemView<T>, LoadErrorView>(e@),
    {
        let id = Self::get_id(file.name.as_str());
        let page = match file.document {
            Err(message) => return Err(LoadError::Parse { id, message }),
            Ok(page) => page,
        };
        let mut data = match page.data {
            None => return Err(LoadError::MissingFrontMatter { id }),
            Some(data) => data,
        };
        data.content = markdown_to_html(page.content.as_str());
        let resolved = match &data.cdn_file {
            None => None,
            Some(cdn_file) => match url_join(cdn_url, cdn_file.as_str()) {
                None => return Err(LoadError::InvalidCdnUrl { id }),
                Some(u) => Some(u),
            },
        };
        if resolved.is_some() {
            data.cdn_file = resolved;
        }
        Ok((id, data))
    }

    /// Loads the collection from `files`: every document is loaded, the
    /// drafts are left out unless `mode` is a preview, and the items are
    /// ordered newest first. If any document fails to load, the error of the
    /// first one that fails comes back and the builder keeps the collection it
    /// had.
    pub fn load_all(&mut self, files: Vec<SourceFile<T>>, mode: BuildMode, cdn_url: &str) -> (r: Result<(), LoadError>)
        ensures
            r is Ok <==> all_load(files@, cdn_url@),
            r is Ok ==> items_view(final(self).loaded_metadata@) == collection_of(files@, cdn_url@, mode),
            final(self).config == old(self).config,
            r matches Err(e) ==> *final(self) == *old(self) && exists|k: int| #[trigger] first_failure(files@, cdn_url@, k, e@),
    {
        let ghost all = files@;
        let ghost cdn = cdn_url@;
        let n = files.len();
        let mut rest = files;
        let mut sorted: Vec<(String, ResourceMetadata<T>)> = Vec::new();
        let mut failure: Option<LoadError> = None;
        let mut i: usize = 0;
        while failure.is_none() && rest.len() > 0
            invariant
                n == all.len(),
                cdn == cdn_url@,
                i <= n,
                failure is None ==> rest@ == all.subrange(i as int, n as int),
                forall|j: int| 0 <= j < i ==> (#[trigger] load_outcome(all[j], cdn)) is Ok,
                failure is None ==> items_view(sorted@) == newest_first(kept(loaded_items(all.take(i as int), cdn), mode)),
                failure matches Some(e) ==> first_failure(all, cdn, i as int, e@),
            decreases rest@.len() + (if failure is None { 1int } else { 0int }),
        {
            let f = rest.remove(0);
            assert(f == all[i as int]);
            let loaded = Self::load(f, cdn_url);
            match loaded {
                Err(e) => {
                    failure = Some(e);
                },
                Ok(item) => {
                    let ghost xv = (item.0@, item.1@);
                    let ghost prefix = loaded_items(all.take(i as int), cdn);
                    let ghost kept_before = kept(prefix, mode);
                    proof {
                        assert(loaded_items(all.take(i + 1), cdn) == prefix.push(xv));
                        assert(prefix.push(xv).drop_last() == prefix);
                        if shown_in(xv.1, mode) {
                            assert(kept_before.push(xv).drop_last() == kept_before);
                        }
                    }
                    if mode == BuildMode::Preview || !item.1.draft {
                        insert_item(&mut sorted, item);
                    }
                    i = i + 1;
                },
            }
        }
        if let Some(e) = failure {
            return Err(e);
        }
        proof {
            assert(all.take(n as int) == all);
        }
        self.loaded_metadata = sorted;
        Ok(())
    }
}

} // verus!
