//! What a resource type's build writes: item pages, the main list, one list
//! per tag, the tag index and the feed, all derived from one loaded
//! collection. Rendering templates and writing files is left to the caller;
//! this module decides every output path and every page's data.

use crate::blog::{blog_head, text_or};
use crate::embed::{embed_text, EmbedMetadata};
use crate::extension::{ExtraTemplateData, ResourceExtra};
use crate::images::image_head;
use crate::link_list::Link;
use crate::pagination::{is_page, page_count_spec, paginate, PageInfo};
use crate::resource::{
    all_load, collection_of, items_view, kept, lemma_kept_members, lemma_newest_first_members, loaded_items, texts, BuildMode,
    ItemView, MetadataView, ResourceBuilder, ResourceBuilderConfig, ResourceMetadata, SourceFile,
};
use crate::tags::holds_carriers;
use crate::tags::{collect_tags, is_tag_aggregation, ranks_before, tag_index_order, TagBucket};
use crate::text::{decimal, lemma_lex_irreflexive, lemma_lex_total, lex_lt, push_decimal};
use crate::timestamp::{opt_text, rfc2822_of};
use crate::web::{url_join, url_join_of};
use vstd::prelude::*;

verus! {

/// One page of a paginated list: its position data, the collection positions
/// it shows, and the files it is written to (the first page goes to
/// `index.html` and `1.html` from the one render).
#[derive(Debug)]
pub struct ListPage {
    pub title: String,
    pub tag: Option<String>,
    pub page: PageInfo,
    pub items: Vec<usize>,
    pub paths: Vec<String>,
}

/// `dir` joined with the file name `name`.
pub open spec fn in_dir(dir: Seq<char>, name: Seq<char>) -> Seq<char> {
    dir + "/"@ + name
}

/// The files that page `k` (0-based) of a list in `dir` is written to.
pub open spec fn page_paths(dir: Seq<char>, k: nat) -> Seq<Seq<char>> {
    if k == 0 {
        seq![in_dir(dir, "index.html"@), in_dir(dir, "1.html"@)]
    } else {
        seq![in_dir(dir, decimal(k + 1) + ".html"@)]
    }
}

/// `lp` is page `k` of the list `members` at `size` per page, titled `title`,
/// for `tag`, written in `dir`.
pub open spec fn is_list_page(
    lp: ListPage,
    members: Seq<usize>,
    size: nat,
    title: Seq<char>,
    tag: Option<Seq<char>>,
    dir: Seq<char>,
    k: nat,
) -> bool {
    &&& is_page(lp.page, members.len(), size, k)
    &&& lp.items@ == members.subrange(lp.page.start as int, lp.page.end as int)
    &&& lp.title@ == title
    &&& opt_text(lp.tag) == tag
    &&& texts(lp.paths@) == page_paths(dir, k)
}

fn file_in(dir: &str, name: &str) -> (r: String)
    ensures
        r@ == in_dir(dir@, name@),
{
    let mut r = String::from_str(dir);
    r.append("/");
    r.append(name);
    r
}

fn paths_of_page(dir: &str, k: usize) -> (r: Vec<String>)
    requires
        k < usize::MAX,
    ensures
        texts(r@) == page_paths(dir@, k as nat),
{
    let mut r: Vec<String> = Vec::new();
    if k == 0 {
        r.push(file_in(dir, "index.html"));
        r.push(file_in(dir, "1.html"));
    } else {
        let mut name = String::new();
        push_decimal(&mut name, k + 1);
        name.append(".html");
        r.push(file_in(dir, name.as_str()));
    }
    assert(texts(r@) == page_paths(dir@, k as nat));
    r
}

fn slice_of(v: &Vec<usize>, lo: usize, hi: usize) -> (r: Vec<usize>)
    requires
        lo <= hi <= v@.len(),
    ensures
        r@ == v@.subrange(lo as int, hi as int),
{
    let mut r: Vec<usize> = Vec::new();
    let mut i = lo;
    while i < hi
        invariant
            lo <= i <= hi <= v@.len(),
            r@ == v@.subrange(lo as int, i as int),
        decreases hi - i,
    {
        r.push(v[i]);
        i = i + 1;
    }
    r
}

/// The pages of the list `members` (collection positions, in order) at
/// `per_page` items per page, titled `title`, for `tag`, written in `dir`.
pub fn list_pages(members: &Vec<usize>, per_page: usize, title: &String, tag: &Option<String>, dir: &String) -> (r: Vec<ListPage>)
    requires
        per_page > 0,
    ensures
        r@.len() == page_count_spec(members@.len(), per_page as nat),
        forall|k: int| 0 <= k < r@.len() ==> is_list_page(#[trigger] r@[k], members@, per_page as nat, title@, opt_text(*tag), dir@, k as nat),
{
    let pages = paginate(members.len(), per_page);
    let mut r: Vec<ListPage> = Vec::new();
    let mut k: usize = 0;
    while k < pages.len()
        invariant
            per_page > 0,
            pages@.len() == page_count_spec(members@.len(), per_page as nat),
            forall|j: int| 0 <= j < pages@.len() ==> is_page(#[trigger] pages@[j], members@.len(), per_page as nat, j as nat),
            k <= pages@.len(),
            r@.len() == k,
            forall|j: int| 0 <= j < k ==> is_list_page(#[trigger] r@[j], members@, per_page as nat, title@, opt_text(*tag), dir@, j as nat),
        decreases pages@.len() - k,
    {
        let page = pages[k];
        assert(page == pages@[k as int]);
        let ghost ki = k as int;
        assert(0 <= ki < pages@.len());
        assert(is_page(pages@[ki], members@.len(), per_page as nat, ki as nat));
        let items = slice_of(members, page.start, page.end);
        let paths = paths_of_page(dir.as_str(), k);
        let lp = ListPage { title: title.clone(), tag: tag.clone(), page, items, paths };
        assert(is_list_page(lp, members@, per_page as nat, title@, opt_text(*tag), dir@, k as nat));
        r.push(lp);
        k = k + 1;
    }
    r
}


/// Site-wide values that a build needs: the site's title, its base URL and
/// the CDN's base URL.
#[derive(Clone, Debug)]
pub struct SiteInfo {
    pub title: String,
    pub base_url: String,
    pub cdn_url: String,
}

/// The page of one item: which item, where it goes, its title and the embed
/// tags for its head.
#[derive(Debug)]
pub struct ItemPage {
    pub index: usize,
    pub path: String,
    pub title: String,
    pub head: String,
    pub extra: ExtraTemplateData,
}

/// The pages of one tag's list.
#[derive(Debug)]
pub struct TagList {
    pub bucket: TagBucket,
    pub pages: Vec<ListPage>,
}

/// One entry of the feed; its content is rendered by the caller.
#[derive(Debug)]
pub struct FeedEntry {
    pub index: usize,
    pub title: String,
    pub link: String,
    pub description: Option<String>,
    pub pub_date: String,
}

/// Everything one build of a resource type writes, derived from one
/// collection.
#[derive(Debug)]
pub struct BuildPlan {
    pub item_pages: Vec<ItemPage>,
    pub main_list: Vec<ListPage>,
    pub tag_lists: Vec<TagList>,
    /// Positions of `tag_lists` in tag index order.
    pub tag_order: Vec<usize>,
    /// The tag index's links, in tag index order.
    pub tag_links: Vec<Link>,
    pub tag_index_path: String,
    pub feed_path: String,
    pub feed_link: String,
    pub feed_entries: Vec<FeedEntry>,
}

/// Why a build could not be planned.
#[derive(Debug)]
pub enum BuildError {
    /// The CDN path of item `id` does not resolve against the CDN URL.
    InvalidCdnUrl { id: String },
    /// The permalink of item `id` does not resolve against the base URL.
    InvalidItemLink { id: String },
    /// The timestamp of item `id` has no RFC 2822 form.
    InvalidDate { id: String },
    /// The list's URL does not resolve against the base URL.
    InvalidFeedLink,
    /// The feed did not pass validation.
    InvalidFeed,
}

/// Where the page of item `id` goes.
pub open spec fn item_path(short: Seq<char>, id: Seq<char>) -> Seq<char> {
    in_dir(short, id + ".html"@)
}

/// The embed image of an item: `Some(None)` without a CDN file, `None` when
/// its CDN file does not resolve.
pub open spec fn item_image<T>(cdn: Seq<char>, v: MetadataView<T>) -> Option<Option<Seq<char>>> {
    match v.cdn_file {
        None => Some(None),
        Some(c) => match url_join_of(cdn, c) {
            None => None,
            Some(u) => Some(Some(u)),
        },
    }
}

/// The head embed of an item's page.
pub open spec fn generic_head<T>(site_title: Seq<char>, cdn: Seq<char>, v: MetadataView<T>) -> Seq<char> {
    embed_text(v.title, site_title, v.desc, None, item_image(cdn, v)->Some_0, "#ffc4fc"@, true)
}

/// The images that the page of an item names resolve against `cdn`.
pub open spec fn item_images_resolve<V>(cdn: Seq<char>, v: MetadataView<ResourceExtra<V>>) -> bool {
    match v.inner {
        ResourceExtra::Blog(b) => url_join_of(cdn, b.header_image_file@) is Some,
        ResourceExtra::Image(m) => url_join_of(cdn, m.file@) is Some,
        ResourceExtra::Other(_) => item_image(cdn, v) is Some,
    }
}

/// The head tags of an item's page, from its resource type's extension
/// point: a blog post's or an image's own head, or the generic embed.
pub open spec fn item_head<V>(site_title: Seq<char>, cdn: Seq<char>, v: MetadataView<ResourceExtra<V>>) -> Seq<char> {
    match v.inner {
        ResourceExtra::Blog(b) => blog_head(site_title, v.title, url_join_of(cdn, b.header_image_file@)->Some_0, b.desc@),
        ResourceExtra::Image(m) => image_head(v.title, site_title, opt_text(m.desc), url_join_of(cdn, m.file@)->Some_0),
        ResourceExtra::Other(_) => generic_head(site_title, cdn, v),
    }
}

/// `x` holds the extra template fields of an item's page, from its resource
/// type's extension point.
pub open spec fn is_item_extra<V>(x: ExtraTemplateData, cdn: Seq<char>, v: MetadataView<ResourceExtra<V>>) -> bool {
    match v.inner {
        ResourceExtra::Blog(b) => x matches ExtraTemplateData::Blog(d) && Some(d.header_image@) == url_join_of(cdn, b.header_image_file@)
            && d.object_fit@ == text_or(b.image_fit, "cover"@) && d.object_position@ == text_or(b.image_center, "50% 50%"@),
        ResourceExtra::Image(m) => x matches ExtraTemplateData::Image(d) && Some(d.src@) == url_join_of(cdn, m.file@),
        ResourceExtra::Other(_) => x is Nothing,
    }
}

/// `p` is the page of item `i` of `c`.
pub open spec fn is_item_page<V>(p: ItemPage, c: Seq<ItemView<ResourceExtra<V>>>, i: int, site_title: Seq<char>, cdn: Seq<char>, short: Seq<char>) -> bool {
    &&& p.index == i
    &&& p.path@ == item_path(short, c[i].0)
    &&& p.title@ == c[i].1.title
    &&& p.head@ == item_head(site_title, cdn, c[i].1)
    &&& is_item_extra(p.extra, cdn, c[i].1)
}

/// The permalink of item `id`.
pub open spec fn item_link(base: Seq<char>, short: Seq<char>, id: Seq<char>) -> Option<Seq<char>> {
    url_join_of(base, in_dir(short, id))
}

/// The feed date of item metadata `v`.
pub open spec fn item_date<T>(v: MetadataView<T>) -> Option<Seq<char>> {
    rfc2822_of(v.timestamp.unix_seconds as int, v.timestamp.offset_seconds as int)
}

/// `e` is the feed entry of item `i` of `c`.
pub open spec fn is_feed_entry<T>(e: FeedEntry, c: Seq<ItemView<T>>, i: int, base: Seq<char>, short: Seq<char>) -> bool {
    &&& e.index == i
    &&& e.title@ == c[i].1.title
    &&& Some(e.link@) == item_link(base, short, c[i].0)
    &&& opt_text(e.description) == c[i].1.desc
    &&& Some(e.pub_date@) == item_date(c[i].1)
}

/// Item `i` of `c` can be published: its embed image, its permalink and its
/// date all exist.
pub open spec fn item_publishable<V>(c: Seq<ItemView<ResourceExtra<V>>>, i: int, base: Seq<char>, cdn: Seq<char>, short: Seq<char>) -> bool {
    &&& item_images_resolve(cdn, c[i].1)
    &&& item_link(base, short, c[i].0) is Some
    &&& item_date(c[i].1) is Some
}

/// The directory of the list of `tag`.
pub open spec fn tag_dir(short: Seq<char>, tag: Seq<char>) -> Seq<char> {
    short + "/tag/"@ + tag
}

/// The title of the list of `tag`.
pub open spec fn tagged_title(plural: Seq<char>, tag: Seq<char>) -> Seq<char> {
    plural + " tagged "@ + tag
}

/// The tag index's link to the list of `tag`.
pub open spec fn tag_link_target(short: Seq<char>, tag: Seq<char>) -> Seq<char> {
    "/"@ + short + "/tag/"@ + tag + "/"@
}

/// The tag index's text for `tag` carried by `count` items.
pub open spec fn tag_link_title(tag: Seq<char>, count: nat) -> Seq<char> {
    tag + " ("@ + decimal(count) + ")"@
}

/// The positions `0..n`.
pub open spec fn positions(n: nat) -> Seq<usize> {
    Seq::new(n, |i: int| i as usize)
}

/// The buckets of `lists`.
pub open spec fn buckets_of(lists: Seq<TagList>) -> Seq<TagBucket> {
    lists.map_values(|l: TagList| l.bucket)
}

/// A copy of an optional string.
pub fn copy_text(o: &Option<String>) -> (r: Option<String>)
    ensures
        opt_text(r) == opt_text(*o),
{
    match o {
        Some(s) => Some(s.clone()),
        None => None,
    }
}

fn item_page<V>(c: &Vec<(String, ResourceMetadata<ResourceExtra<V>>)>, i: usize, site: &SiteInfo, short: &String) -> (r: Result<ItemPage, BuildError>)
    requires
        i < c@.len(),
    ensures
        r is Ok <==> item_images_resolve(site.cdn_url@, items_view(c@)[i as int].1),
        r matches Ok(p) ==> is_item_page(p, items_view(c@), i as int, site.title@, site.cdn_url@, short@),
        r matches Err(e) ==> e is InvalidCdnUrl,
{
    let ghost v = items_view(c@)[i as int];
    let (id, item) = (&c[i].0, &c[i].1);
    assert(v == (id@, item@));
    let cdn = site.cdn_url.as_str();
    let (head, extra) = match &item.inner {
        ResourceExtra::Blog(b) => {
            let head = match b.get_head_data(item.title.as_str(), site.title.as_str(), cdn) {
                None => return Err(BuildError::InvalidCdnUrl { id: id.clone() }),
                Some(h) => h,
            };
            let data = match b.get_extra_resource_template_data(cdn) {
                None => return Err(BuildError::InvalidCdnUrl { id: id.clone() }),
                Some(d) => d,
            };
            (head, ExtraTemplateData::Blog(data))
        },
        ResourceExtra::Image(m) => {
            let head = match m.get_head_data(item.title.as_str(), site.title.as_str(), cdn) {
                None => return Err(BuildError::InvalidCdnUrl { id: id.clone() }),
                Some(h) => h,
            };
            let data = match m.get_extra_resource_template_data(cdn) {
                None => return Err(BuildError::InvalidCdnUrl { id: id.clone() }),
                Some(d) => d,
            };
            (head, ExtraTemplateData::Image(data))
        },
        ResourceExtra::Other(_) => {
            let image = match &item.cdn_file {
                None => None,
                Some(f) => match url_join(cdn, f.as_str()) {
                    None => return Err(BuildError::InvalidCdnUrl { id: id.clone() }),
                    Some(u) => Some(u),
                },
            };
            assert(opt_text(image) == item_image(site.cdn_url@, v.1)->Some_0);
            let embed = EmbedMetadata {
                title: item.title.clone(),
                site_name: site.title.clone(),
                description: copy_text(&item.desc),
                url: None,
                image,
                theme_color: EmbedMetadata::default_theme_color(),
                large_image: true,
            };
            (embed.build(), ExtraTemplateData::Nothing)
        },
    };
    let mut name = id.clone();
    name.append(".html");
    let path = file_in(short.as_str(), name.as_str());
    Ok(ItemPage { index: i, path, title: item.title.clone(), head, extra })
}

fn feed_entry<T>(c: &Vec<(String, ResourceMetadata<T>)>, i: usize, site: &SiteInfo, short: &String) -> (r: Result<FeedEntry, BuildError>)
    requires
        i < c@.len(),
    ensures
        r is Ok <==> (item_link(site.base_url@, short@, items_view(c@)[i as int].0) is Some
            && item_date(items_view(c@)[i as int].1) is Some),
        r matches Ok(e) ==> is_feed_entry(e, items_view(c@), i as int, site.base_url@, short@),
        r matches Err(e) ==> (e is InvalidItemLink || e is InvalidDate),
        r matches Err(e) ==> (e is InvalidItemLink ==> item_link(site.base_url@, short@, items_view(c@)[i as int].0) is None),
        r matches Err(e) ==> (e is InvalidDate ==> item_date(items_view(c@)[i as int].1) is None),
{
    let ghost v = items_view(c@)[i as int];
    let (id, item) = (&c[i].0, &c[i].1);
    assert(v == (id@, item@));
    let link = match url_join(site.base_url.as_str(), file_in(short.as_str(), id.as_str()).as_str()) {
        None => return Err(BuildError::InvalidItemLink { id: id.clone() }),
        Some(l) => l,
    };
    let pub_date = match item.timestamp.to_rfc2822() {
        None => return Err(BuildError::InvalidDate { id: id.clone() }),
        Some(d) => d,
    };
    Ok(FeedEntry { index: i, title: item.title.clone(), link, description: copy_text(&item.desc), pub_date })
}

/// The pages of every tag's list, in bucket order.
fn tag_lists(buckets: Vec<TagBucket>, per_page: usize, short: &String, plural: &String) -> (r: Vec<TagList>)
    requires
        per_page > 0,
    ensures
        buckets_of(r@) == buckets@,
        forall|b: int| 0 <= b < r@.len() ==> (#[trigger] r@[b]).pages@.len() == page_count_spec(r@[b].bucket.items@.len(), per_page as nat),
        forall|b: int, k: int| 0 <= b < r@.len() && 0 <= k < r@[b].pages@.len() ==> is_list_page(#[trigger] r@[b].pages@[k],
            r@[b].bucket.items@,
            per_page as nat,
            tagged_title(plural@, r@[b].bucket.tag@),
            Some(r@[b].bucket.tag@),
            tag_dir(short@, r@[b].bucket.tag@),
            k as nat,
        ),
{
    let ghost all = buckets@;
    let n = buckets.len();
    let mut rest = buckets;
    let mut r: Vec<TagList> = Vec::new();
    let mut b: usize = 0;
    while rest.len() > 0
        invariant
            per_page > 0,
            n == all.len(),
            b <= n,
            rest@ == all.subrange(b as int, n as int),
            r@.len() == b,
            buckets_of(r@) == all.take(b as int),
            forall|x: int| 0 <= x < r@.len() ==> (#[trigger] r@[x]).pages@.len() == page_count_spec(r@[x].bucket.items@.len(), per_page as nat),
            forall|x: int, k: int| 0 <= x < r@.len() && 0 <= k < r@[x].pages@.len() ==> is_list_page(#[trigger] r@[x].pages@[k],
                r@[x].bucket.items@,
                per_page as nat,
                tagged_title(plural@, r@[x].bucket.tag@),
                Some(r@[x].bucket.tag@),
                tag_dir(short@, r@[x].bucket.tag@),
                k as nat,
            ),
        decreases rest@.len(),
    {
        let bucket = rest.remove(0);
        let mut title = plural.clone();
        title.append(" tagged ");
        title.append(bucket.tag.as_str());
        let mut dir = short.clone();
        dir.append("/tag/");
        dir.append(bucket.tag.as_str());
        let tag = Some(bucket.tag.clone());
        let pages = list_pages(&bucket.items, per_page, &title, &tag, &dir);
        let ghost before = r@;
        r.push(TagList { bucket, pages });
        proof {
            assert(buckets_of(r@) == buckets_of(before).push(all[b as int]));
            assert(all.take(b + 1) == all.take(b as int).push(all[b as int]));
            assert forall|x: int, k: int| 0 <= x < r@.len() && 0 <= k < r@[x].pages@.len() implies is_list_page(#[trigger] r@[x].pages@[k],
                r@[x].bucket.items@,
                per_page as nat,
                tagged_title(plural@, r@[x].bucket.tag@),
                Some(r@[x].bucket.tag@),
                tag_dir(short@, r@[x].bucket.tag@),
                k as nat,
            ) by {
                if x < b {
                    assert(r@[x] == before[x]);
                }
            }
        }
        b = b + 1;
    }
    proof {
        assert(all.take(n as int) == all);
    }
    r
}

/// The tag index's links, in the order `order` gives.
fn tag_links(buckets: &Vec<TagBucket>, order: &Vec<usize>, short: &String) -> (r: Vec<Link>)
    requires
        forall|k: int| 0 <= k < order@.len() ==> #[trigger] order@[k] < buckets@.len(),
    ensures
        r@.len() == order@.len(),
        forall|k: int| 0 <= k < r@.len() ==> (#[trigger] r@[k]).link@ == tag_link_target(short@, buckets@[order@[k] as int].tag@)
            && r@[k].title@ == tag_link_title(buckets@[order@[k] as int].tag@, buckets@[order@[k] as int].items@.len()),
{
    let mut r: Vec<Link> = Vec::new();
    let mut k: usize = 0;
    while k < order.len()
        invariant
            forall|x: int| 0 <= x < order@.len() ==> #[trigger] order@[x] < buckets@.len(),
            k <= order@.len(),
            r@.len() == k,
            forall|x: int| 0 <= x < r@.len() ==> (#[trigger] r@[x]).link@ == tag_link_target(short@, buckets@[order@[x] as int].tag@)
                && r@[x].title@ == tag_link_title(buckets@[order@[x] as int].tag@, buckets@[order@[x] as int].items@.len()),
        decreases order@.len() - k,
    {
        let bucket = &buckets[order[k]];
        let mut link = String::from_str("/");
        link.append(short.as_str());
        link.append("/tag/");
        link.append(bucket.tag.as_str());
        link.append("/");
        let mut title = bucket.tag.clone();
        title.append(" (");
        push_decimal(&mut title, bucket.items.len());
        title.append(")");
        r.push(Link::new(link, title));
        k = k + 1;
    }
    r
}

/// The positions `0..n`, in order.
fn positions_upto(n: usize) -> (r: Vec<usize>)
    ensures
        r@ == positions(n as nat),
{
    let mut r: Vec<usize> = Vec::new();
    let mut i: usize = 0;
    while i < n
        invariant
            i <= n,
            r@ == positions(i as nat),
        decreases n - i,
    {
        r.push(i);
        i = i + 1;
        assert(r@ == positions(i as nat));
    }
    r
}


/// Every item of `c` can be published and the list's URL resolves.
pub open spec fn plan_possible<V>(c: Seq<ItemView<ResourceExtra<V>>>, site: SiteInfo, cfg: ResourceBuilderConfig) -> bool {
    &&& forall|i: int| 0 <= i < c.len() ==> #[trigger] item_publishable(c, i, site.base_url@, site.cdn_url@, cfg.output_path_short@)
    &&& url_join_of(site.base_url@, cfg.output_path_long@ + "/"@) is Some
}

/// `e` names a real obstacle to publishing `c`.
pub open spec fn explains<V>(e: BuildError, c: Seq<ItemView<ResourceExtra<V>>>, site: SiteInfo, cfg: ResourceBuilderConfig) -> bool {
    match e {
        BuildError::InvalidCdnUrl { id } => exists|i: int| 0 <= i < c.len() && #[trigger] c[i].0 == id@
            && !item_images_resolve(site.cdn_url@, c[i].1),
        BuildError::InvalidItemLink { id } => exists|i: int| 0 <= i < c.len() && #[trigger] c[i].0 == id@
            && item_link(site.base_url@, cfg.output_path_short@, c[i].0) is None,
        BuildError::InvalidDate { id } => exists|i: int| 0 <= i < c.len() && #[trigger] c[i].0 == id@
            && item_date(c[i].1) is None,
        BuildError::InvalidFeedLink => url_join_of(site.base_url@, cfg.output_path_long@ + "/"@) is None,
        BuildError::InvalidFeed => false,
    }
}

/// `p` is the build of collection `c` for `site` under `cfg`.
pub open spec fn is_plan<V>(p: BuildPlan, c: Seq<ItemView<ResourceExtra<V>>>, site: SiteInfo, cfg: ResourceBuilderConfig) -> bool {
    let short = cfg.output_path_short@;
    let long = cfg.output_path_long@;
    let size = cfg.resources_per_page as nat;
    &&& p.item_pages@.len() == c.len()
    &&& forall|i: int| 0 <= i < c.len() ==> is_item_page(#[trigger] p.item_pages@[i], c, i, site.title@, site.cdn_url@, short)
    &&& p.main_list@.len() == page_count_spec(c.len(), size)
    &&& forall|k: int| 0 <= k < p.main_list@.len() ==> is_list_page(#[trigger] p.main_list@[k], positions(c.len()), size, cfg.list_title@, None, long, k as nat)
    &&& is_tag_aggregation(buckets_of(p.tag_lists@), c)
    &&& forall|b: int| 0 <= b < p.tag_lists@.len() ==> (#[trigger] p.tag_lists@[b]).pages@.len() == page_count_spec(p.tag_lists@[b].bucket.items@.len(), size)
    &&& forall|b: int, k: int| 0 <= b < p.tag_lists@.len() && 0 <= k < p.tag_lists@[b].pages@.len() ==> is_list_page(#[trigger] p.tag_lists@[b].pages@[k],
        p.tag_lists@[b].bucket.items@,
        size,
        tagged_title(cfg.resource_name_plural@, p.tag_lists@[b].bucket.tag@),
        Some(p.tag_lists@[b].bucket.tag@),
        tag_dir(short, p.tag_lists@[b].bucket.tag@),
        k as nat,
    )
    &&& p.tag_order@.len() == p.tag_lists@.len()
    &&& forall|k: int| 0 <= k < p.tag_order@.len() ==> #[trigger] p.tag_order@[k] < p.tag_lists@.len()
    &&& forall|a: int, b: int| 0 <= a < b < p.tag_order@.len() ==> #[trigger] p.tag_order@[a] != #[trigger] p.tag_order@[b]
    &&& forall|b: usize| b < p.tag_lists@.len() ==> #[trigger] p.tag_order@.contains(b)
    &&& p.tag_lists@.len() <= usize::MAX
    &&& forall|a: int, b: int| 0 <= a < b < p.tag_order@.len() ==> ranks_before(
        p.tag_lists@[#[trigger] p.tag_order@[a] as int].bucket,
        p.tag_lists@[#[trigger] p.tag_order@[b] as int].bucket,
    )
    &&& p.tag_links@.len() == p.tag_order@.len()
    &&& forall|k: int| 0 <= k < p.tag_links@.len() ==> (#[trigger] p.tag_links@[k]).link@ == tag_link_target(short, p.tag_lists@[p.tag_order@[k] as int].bucket.tag@)
        && p.tag_links@[k].title@ == tag_link_title(p.tag_lists@[p.tag_order@[k] as int].bucket.tag@, p.tag_lists@[p.tag_order@[k] as int].bucket.items@.len())
    &&& p.tag_index_path@ == in_dir(short, "tags.html"@)
    &&& p.feed_path@ == in_dir(long, "rss.xml"@)
    &&& Some(p.feed_link@) == url_join_of(site.base_url@, long + "/"@)
    &&& p.feed_entries@.len() == c.len()
    &&& forall|i: int| 0 <= i < c.len() ==> is_feed_entry(#[trigger] p.feed_entries@[i], c, i, site.base_url@, short)
}

impl<V> ResourceBuilder<ResourceExtra<V>> {
    /// Everything one build of this resource type writes, from the collection
    /// loaded now: one page per item, the main list, one list per tag, the
    /// tag index (most-used tag first) and the feed entries. It fails when an
    /// item's CDN file, permalink or date, or the list's URL, cannot be formed.
    #[verifier::loop_isolation(false)]
    pub fn build_all(&self, site: &SiteInfo) -> (r: Result<BuildPlan, BuildError>)
        requires
            self.config.resources_per_page > 0,
        ensures
            r is Ok <==> plan_possible(items_view(self.loaded_metadata@), *site, self.config),
            r matches Ok(p) ==> is_plan(p, items_view(self.loaded_metadata@), *site, self.config),
            r matches Err(e) ==> explains(e, items_view(self.loaded_metadata@), *site, self.config),
    {
        let ghost c = items_view(self.loaded_metadata@);
        let lmd = &self.loaded_metadata;
        let cfg = &self.config;
        let short = &cfg.output_path_short;
        let n = lmd.len();
        let mut item_pages: Vec<ItemPage> = Vec::new();
        let mut i: usize = 0;
        while i < n
            invariant
                n == lmd@.len(),
                c == items_view(lmd@),
                i <= n,
                item_pages@.len() == i,
                forall|j: int| 0 <= j < i ==> is_item_page(#[trigger] item_pages@[j], c, j, site.title@, site.cdn_url@, short@),
                forall|j: int| 0 <= j < i ==> item_images_resolve(site.cdn_url@, #[trigger] c[j].1),
            decreases n - i,
        {
            match item_page(lmd, i, site, short) {
                Ok(p) => item_pages.push(p),
                Err(_) => {
                    assert(c[i as int].0 == lmd@[i as int].0@);
                    assert(explains(BuildError::InvalidCdnUrl { id: lmd@[i as int].0 }, c, *site, *cfg));
                    assert(!item_publishable(c, i as int, site.base_url@, site.cdn_url@, short@));
                    return Err(BuildError::InvalidCdnUrl { id: lmd[i].0.clone() });
                },
            }
            i = i + 1;
        }
        let mut feed_entries: Vec<FeedEntry> = Vec::new();
        let mut i: usize = 0;
        while i < n
            invariant
                n == lmd@.len(),
                c == items_view(lmd@),
                i <= n,
                feed_entries@.len() == i,
                forall|j: int| 0 <= j < i ==> is_feed_entry(#[trigger] feed_entries@[j], c, j, site.base_url@, short@),
                forall|j: int| 0 <= j < n ==> item_images_resolve(site.cdn_url@, #[trigger] c[j].1),
                forall|j: int| 0 <= j < i ==> item_link(site.base_url@, short@, #[trigger] c[j].0) is Some && item_date(c[j].1) is Some,
            decreases n - i,
        {
            let ghost ci = c[i as int];
            assert(ci.0 == lmd@[i as int].0@);
            match feed_entry(lmd, i, site, short) {
                Ok(e) => feed_entries.push(e),
                Err(e) => {
                    if let BuildError::InvalidItemLink { .. } = e {
                        assert(explains(BuildError::InvalidItemLink { id: lmd@[i as int].0 }, c, *site, *cfg));
                        assert(!item_publishable(c, i as int, site.base_url@, site.cdn_url@, short@));
                        return Err(BuildError::InvalidItemLink { id: lmd[i].0.clone() });
                    } else {
                        assert(explains(BuildError::InvalidDate { id: lmd@[i as int].0 }, c, *site, *cfg));
                        assert(!item_publishable(c, i as int, site.base_url@, site.cdn_url@, short@));
                        return Err(BuildError::InvalidDate { id: lmd[i].0.clone() });
                    }
                },
            }
            i = i + 1;
        }
        let mut long_dir = cfg.output_path_long.clone();
        long_dir.append("/");
        let feed_link = match url_join(site.base_url.as_str(), long_dir.as_str()) {
            None => return Err(BuildError::InvalidFeedLink),
            Some(l) => l,
        };
        let all_positions = positions_upto(n);
        let main_list = list_pages(&all_positions, cfg.resources_per_page, &cfg.list_title, &None, &cfg.output_path_long);
        let buckets = collect_tags(lmd);
        let tag_order = tag_index_order(&buckets);
        let tag_links = tag_links(&buckets, &tag_order, short);
        let tag_lists = tag_lists(buckets, cfg.resources_per_page, short, &cfg.resource_name_plural);
        let plan = BuildPlan {
            item_pages,
            main_list,
            tag_lists,
            tag_order,
            tag_links,
            tag_index_path: file_in(short.as_str(), "tags.html"),
            feed_path: file_in(cfg.output_path_long.as_str(), "rss.xml"),
            feed_link,
            feed_entries,
        };
        // Asking a vector for its length bounds it by `usize::MAX`.
        let _ = plan.tag_lists.len();
        proof {
            assert forall|i: int| 0 <= i < c.len() implies #[trigger] item_publishable(c, i, site.base_url@, site.cdn_url@, short@) by {}
        }
        Ok(plan)
    }
}


/// The first page of every list is written to both `index.html` and `1.html`
/// from its one render, so the two files are identical; every later page is
/// written once, to its numbered file.
pub proof fn law_first_page_written_twice(lp: ListPage, members: Seq<usize>, size: nat, title: Seq<char>, tag: Option<Seq<char>>, dir: Seq<char>, k: nat)
    requires
        size > 0,
        is_list_page(lp, members, size, title, tag, dir, k),
    ensures
        k == 0 ==> texts(lp.paths@) == seq![dir + "/"@ + "index.html"@, dir + "/"@ + "1.html"@],
        k > 0 ==> texts(lp.paths@).len() == 1,
        lp.page.page == k + 1,
{
}

/// Drafts follow the build mode in every output alike. In a published build
/// no item page, main list page, tag list page or feed entry shows a draft;
/// in a preview build every loaded item, drafts included, is in the
/// collection that all outputs come from, so it has its item page and its
/// feed entry.
pub proof fn law_drafts_follow_mode<V>(
    files: Seq<SourceFile<ResourceExtra<V>>>,
    cdn: Seq<char>,
    mode: BuildMode,
    p: BuildPlan,
    site: SiteInfo,
    cfg: ResourceBuilderConfig,
)
    requires
        all_load(files, cdn),
        cfg.resources_per_page > 0,
        is_plan(p, collection_of(files, cdn, mode), site, cfg),
    ensures
        mode is Published ==> forall|i: int| 0 <= i < p.item_pages@.len()
            ==> !collection_of(files, cdn, mode)[(#[trigger] p.item_pages@[i]).index as int].1.draft,
        mode is Published ==> forall|i: int| 0 <= i < p.feed_entries@.len()
            ==> !collection_of(files, cdn, mode)[(#[trigger] p.feed_entries@[i]).index as int].1.draft,
        mode is Published ==> forall|k: int, x: int| 0 <= k < p.main_list@.len() && 0 <= x < p.main_list@[k].items@.len()
            ==> #[trigger] p.main_list@[k].items@[x] < collection_of(files, cdn, mode).len()
            && !collection_of(files, cdn, mode)[p.main_list@[k].items@[x] as int].1.draft,
        mode is Published ==> forall|b: int, k: int, x: int| 0 <= b < p.tag_lists@.len() && 0 <= k < p.tag_lists@[b].pages@.len()
            && 0 <= x < p.tag_lists@[b].pages@[k].items@.len()
            ==> #[trigger] p.tag_lists@[b].pages@[k].items@[x] < collection_of(files, cdn, mode).len()
            && !collection_of(files, cdn, mode)[p.tag_lists@[b].pages@[k].items@[x] as int].1.draft,
        mode is Preview ==> forall|j: int| 0 <= j < files.len() ==> #[trigger] collection_of(files, cdn, mode).contains(loaded_items(files, cdn)[j]),
{
    let loaded = loaded_items(files, cdn);
    let c = collection_of(files, cdn, mode);
    lemma_kept_members(loaded, mode);
    lemma_newest_first_members(kept(loaded, mode));
    let size = cfg.resources_per_page as nat;
    assert forall|i: int| 0 <= i < c.len() implies mode is Published ==> !(#[trigger] c[i]).1.draft by {
        assert(c.contains(c[i]));
        assert(kept(loaded, mode).contains(c[i]));
    }
    if mode is Published {
        assert forall|i: int| 0 <= i < p.item_pages@.len() implies !c[(#[trigger] p.item_pages@[i]).index as int].1.draft by {
            assert(is_item_page(p.item_pages@[i], c, i, site.title@, site.cdn_url@, cfg.output_path_short@));
        }
        assert forall|i: int| 0 <= i < p.feed_entries@.len() implies !c[(#[trigger] p.feed_entries@[i]).index as int].1.draft by {
            assert(is_feed_entry(p.feed_entries@[i], c, i, site.base_url@, cfg.output_path_short@));
        }
        assert forall|k: int, x: int| 0 <= k < p.main_list@.len() && 0 <= x < p.main_list@[k].items@.len()
            implies #[trigger] p.main_list@[k].items@[x] < c.len() && !c[p.main_list@[k].items@[x] as int].1.draft by {
            let lp = p.main_list@[k];
            assert(is_list_page(lp, positions(c.len()), size, cfg.list_title@, None, cfg.output_path_long@, k as nat));
            assert(lp.items@[x] == positions(c.len())[lp.page.start + x]);
            let v = lp.items@[x] as int;
            assert(0 <= v < c.len());
            assert(!c[v].1.draft);
        }
        assert forall|b: int, k: int, x: int| 0 <= b < p.tag_lists@.len() && 0 <= k < p.tag_lists@[b].pages@.len()
            && 0 <= x < p.tag_lists@[b].pages@[k].items@.len()
            implies #[trigger] p.tag_lists@[b].pages@[k].items@[x] < c.len() && !c[p.tag_lists@[b].pages@[k].items@[x] as int].1.draft by {
            let tl = p.tag_lists@[b];
            let lp = tl.pages@[k];
            assert(buckets_of(p.tag_lists@)[b] == tl.bucket);
            assert(holds_carriers(tl.bucket, c));
            assert(is_list_page(lp, tl.bucket.items@, size, tagged_title(cfg.resource_name_plural@, tl.bucket.tag@),
                Some(tl.bucket.tag@), tag_dir(cfg.output_path_short@, tl.bucket.tag@), k as nat));
            assert(lp.items@[x] == tl.bucket.items@[lp.page.start + x]);
            let v = lp.items@[x] as int;
            assert(0 <= v < c.len());
            assert(!c[v].1.draft);
        }
    } else {
        assert forall|j: int| 0 <= j < files.len() implies #[trigger] c.contains(loaded[j]) by {
            assert(loaded.contains(loaded[j]));
        }
    }
}


/// Some list of `lists` is the list of `tag`.
pub open spec fn lists_tag(lists: Seq<TagList>, tag: Seq<char>) -> bool {
    exists|b: int| 0 <= b < lists.len() && #[trigger] lists[b].bucket.tag@ == tag
}

/// Rebuilding from unchanged sources repeats the build: two builds of the
/// collection that the same source files load to write the same item pages,
/// the same main list pages, the same feed entries, the same tag index links
/// and the same list pages for every tag. (The position at which each build
/// keeps a tag's pages in `tag_lists` is not compared; every file is.)
pub proof fn law_rebuild_repeats_outputs<V>(
    files: Seq<SourceFile<ResourceExtra<V>>>,
    cdn: Seq<char>,
    mode: BuildMode,
    first: BuildPlan,
    second: BuildPlan,
    site: SiteInfo,
    cfg: ResourceBuilderConfig,
)
    requires
        all_load(files, cdn),
        is_plan(first, collection_of(files, cdn, mode), site, cfg),
        is_plan(second, collection_of(files, cdn, mode), site, cfg),
    ensures
        first.item_pages@.len() == second.item_pages@.len(),
        forall|i: int| 0 <= i < first.item_pages@.len() ==> {
            &&& (#[trigger] first.item_pages@[i]).path@ == second.item_pages@[i].path@
            &&& first.item_pages@[i].title@ == second.item_pages@[i].title@
            &&& first.item_pages@[i].head@ == second.item_pages@[i].head@
        },
        first.main_list@.len() == second.main_list@.len(),
        forall|k: int| 0 <= k < first.main_list@.len() ==> {
            &&& (#[trigger] first.main_list@[k]).page == second.main_list@[k].page
            &&& first.main_list@[k].items@ == second.main_list@[k].items@
            &&& texts(first.main_list@[k].paths@) == texts(second.main_list@[k].paths@)
            &&& first.main_list@[k].title@ == second.main_list@[k].title@
        },
        first.feed_entries@.len() == second.feed_entries@.len(),
        first.feed_link@ == second.feed_link@,
        first.feed_path@ == second.feed_path@,
        first.tag_index_path@ == second.tag_index_path@,
        forall|i: int| 0 <= i < first.feed_entries@.len() ==> {
            &&& (#[trigger] first.feed_entries@[i]).title@ == second.feed_entries@[i].title@
            &&& first.feed_entries@[i].link@ == second.feed_entries@[i].link@
            &&& opt_text(first.feed_entries@[i].description) == opt_text(second.feed_entries@[i].description)
            &&& first.feed_entries@[i].pub_date@ == second.feed_entries@[i].pub_date@
        },
        forall|b1: int, b2: int| 0 <= b1 < first.tag_lists@.len() && 0 <= b2 < second.tag_lists@.len()
            && (#[trigger] first.tag_lists@[b1]).bucket.tag@ == (#[trigger] second.tag_lists@[b2]).bucket.tag@ ==> {
            &&& first.tag_lists@[b1].bucket.items@ == second.tag_lists@[b2].bucket.items@
            &&& first.tag_lists@[b1].pages@.len() == second.tag_lists@[b2].pages@.len()
            &&& forall|k: int| 0 <= k < first.tag_lists@[b1].pages@.len() ==> {
                &&& (#[trigger] first.tag_lists@[b1].pages@[k]).page == second.tag_lists@[b2].pages@[k].page
                &&& first.tag_lists@[b1].pages@[k].items@ == second.tag_lists@[b2].pages@[k].items@
                &&& texts(first.tag_lists@[b1].pages@[k].paths@) == texts(second.tag_lists@[b2].pages@[k].paths@)
                &&& first.tag_lists@[b1].pages@[k].title@ == second.tag_lists@[b2].pages@[k].title@
            }
        },
        forall|b1: int| 0 <= b1 < first.tag_lists@.len() ==> #[trigger] lists_tag(second.tag_lists@, first.tag_lists@[b1].bucket.tag@),
        first.tag_links@.len() == second.tag_links@.len(),
        forall|k: int| 0 <= k < first.tag_links@.len() ==> {
            &&& (#[trigger] first.tag_links@[k]).link@ == second.tag_links@[k].link@
            &&& first.tag_links@[k].title@ == second.tag_links@[k].title@
        },
{
    let c = collection_of(files, cdn, mode);
    let short = cfg.output_path_short@;
    let size = cfg.resources_per_page as nat;
    assert forall|i: int| 0 <= i < first.item_pages@.len() implies {
        &&& (#[trigger] first.item_pages@[i]).path@ == second.item_pages@[i].path@
        &&& first.item_pages@[i].title@ == second.item_pages@[i].title@
        &&& first.item_pages@[i].head@ == second.item_pages@[i].head@
    } by {
        assert(is_item_page(first.item_pages@[i], c, i, site.title@, site.cdn_url@, short));
        assert(is_item_page(second.item_pages@[i], c, i, site.title@, site.cdn_url@, short));
    }
    assert forall|k: int| 0 <= k < first.main_list@.len() implies {
        &&& (#[trigger] first.main_list@[k]).page == second.main_list@[k].page
        &&& first.main_list@[k].items@ == second.main_list@[k].items@
        &&& texts(first.main_list@[k].paths@) == texts(second.main_list@[k].paths@)
        &&& first.main_list@[k].title@ == second.main_list@[k].title@
    } by {
        assert(is_list_page(first.main_list@[k], positions(c.len()), size, cfg.list_title@, None, cfg.output_path_long@, k as nat));
        assert(is_list_page(second.main_list@[k], positions(c.len()), size, cfg.list_title@, None, cfg.output_path_long@, k as nat));
    }
    assert forall|i: int| 0 <= i < first.feed_entries@.len() implies {
        &&& (#[trigger] first.feed_entries@[i]).title@ == second.feed_entries@[i].title@
        &&& first.feed_entries@[i].link@ == second.feed_entries@[i].link@
        &&& opt_text(first.feed_entries@[i].description) == opt_text(second.feed_entries@[i].description)
        &&& first.feed_entries@[i].pub_date@ == second.feed_entries@[i].pub_date@
    } by {
        assert(is_feed_entry(first.feed_entries@[i], c, i, site.base_url@, short));
        assert(is_feed_entry(second.feed_entries@[i], c, i, site.base_url@, short));
    }
    assert forall|b1: int, b2: int| 0 <= b1 < first.tag_lists@.len() && 0 <= b2 < second.tag_lists@.len()
        && (#[trigger] first.tag_lists@[b1]).bucket.tag@ == (#[trigger] second.tag_lists@[b2]).bucket.tag@ implies {
        &&& first.tag_lists@[b1].bucket.items@ == second.tag_lists@[b2].bucket.items@
        &&& first.tag_lists@[b1].pages@.len() == second.tag_lists@[b2].pages@.len()
        &&& forall|k: int| 0 <= k < first.tag_lists@[b1].pages@.len() ==> {
            &&& (#[trigger] first.tag_lists@[b1].pages@[k]).page == second.tag_lists@[b2].pages@[k].page
            &&& first.tag_lists@[b1].pages@[k].items@ == second.tag_lists@[b2].pages@[k].items@
            &&& texts(first.tag_lists@[b1].pages@[k].paths@) == texts(second.tag_lists@[b2].pages@[k].paths@)
            &&& first.tag_lists@[b1].pages@[k].title@ == second.tag_lists@[b2].pages@[k].title@
        }
    } by {
        let x = first.tag_lists@[b1].bucket;
        let y = second.tag_lists@[b2].bucket;
        assert(buckets_of(first.tag_lists@)[b1] == x);
        assert(buckets_of(second.tag_lists@)[b2] == y);
        assert(holds_carriers(x, c));
        assert(holds_carriers(y, c));
        assert forall|v: usize| v < c.len() implies (#[trigger] x.items@.contains(v) <==> y.items@.contains(v)) by {
            let j = v as int;
            assert(c[j].1.tags.contains(x.tag@) == c[j].1.tags.contains(y.tag@));
            assert(j as usize == v);
        }
        lemma_same_carriers(x.items@, y.items@, c.len());
        assert forall|k: int| 0 <= k < first.tag_lists@[b1].pages@.len() implies {
            &&& (#[trigger] first.tag_lists@[b1].pages@[k]).page == second.tag_lists@[b2].pages@[k].page
            &&& first.tag_lists@[b1].pages@[k].items@ == second.tag_lists@[b2].pages@[k].items@
            &&& texts(first.tag_lists@[b1].pages@[k].paths@) == texts(second.tag_lists@[b2].pages@[k].paths@)
            &&& first.tag_lists@[b1].pages@[k].title@ == second.tag_lists@[b2].pages@[k].title@
        } by {
            assert(is_list_page(first.tag_lists@[b1].pages@[k], x.items@, size, tagged_title(cfg.resource_name_plural@, x.tag@),
                Some(x.tag@), tag_dir(short, x.tag@), k as nat));
            assert(is_list_page(second.tag_lists@[b2].pages@[k], y.items@, size, tagged_title(cfg.resource_name_plural@, y.tag@),
                Some(y.tag@), tag_dir(short, y.tag@), k as nat));
        }
    }
    assert forall|b1: int| 0 <= b1 < first.tag_lists@.len() implies #[trigger] lists_tag(second.tag_lists@, first.tag_lists@[b1].bucket.tag@) by {
        let x = first.tag_lists@[b1].bucket;
        assert(buckets_of(first.tag_lists@)[b1] == x);
        assert(holds_carriers(x, c));
        assert(x.items@.len() > 0);
        let j = x.items@[0] as int;
        assert(j as usize == x.items@[0]);
        assert(x.items@.contains(x.items@[0]));
        assert(0 <= j < c.len());
        assert(c[j].1.tags.contains(x.tag@));
        let b2 = choose|b2: int| 0 <= b2 < buckets_of(second.tag_lists@).len() && #[trigger] buckets_of(second.tag_lists@)[b2].tag@ == x.tag@;
        assert(buckets_of(second.tag_lists@)[b2] == second.tag_lists@[b2].bucket);
        assert(second.tag_lists@[b2].bucket.tag@ == x.tag@);
    }
    lemma_index_members(first, second, c, site, cfg);
    lemma_index_members(second, first, c, site, cfg);
    lemma_index_sorted(first, c, site, cfg);
    lemma_index_sorted(second, c, site, cfg);
    lemma_sorted_keys_unique(index_keys(first), index_keys(second));
    assert forall|k: int| 0 <= k < first.tag_links@.len() implies {
        &&& (#[trigger] first.tag_links@[k]).link@ == second.tag_links@[k].link@
        &&& first.tag_links@[k].title@ == second.tag_links@[k].title@
    } by {
        assert(index_keys(first)[k] == index_keys(second)[k]);
    }
}

/// The tag and item count of the `k`-th entry of the tag index of `p`.
pub open spec fn index_key(p: BuildPlan, k: int) -> (Seq<char>, nat) {
    let b = p.tag_lists@[p.tag_order@[k] as int].bucket;
    (b.tag@, b.items@.len())
}

/// The tags and item counts of the tag index of `p`, in order.
pub open spec fn index_keys(p: BuildPlan) -> Seq<(Seq<char>, nat)> {
    Seq::new(p.tag_order@.len(), |k: int| index_key(p, k))
}

/// Tag index order on (tag, count) pairs.
pub open spec fn key_before(x: (Seq<char>, nat), y: (Seq<char>, nat)) -> bool {
    x.1 > y.1 || (x.1 == y.1 && lex_lt(x.0, y.0))
}

/// `s` is strictly ordered by [`key_before`].
pub open spec fn keys_sorted(s: Seq<(Seq<char>, nat)>) -> bool {
    forall|a: int, b: int| 0 <= a < b < s.len() ==> key_before(#[trigger] s[a], #[trigger] s[b])
}

proof fn lemma_key_asymmetric(x: (Seq<char>, nat), y: (Seq<char>, nat))
    ensures
        !(key_before(x, y) && key_before(y, x)),
{
    if x.0 == y.0 {
        lemma_lex_irreflexive(x.0);
    } else {
        lemma_lex_total(x.0, y.0);
    }
}

proof fn lemma_sorted_keys_unique(a: Seq<(Seq<char>, nat)>, b: Seq<(Seq<char>, nat)>)
    requires
        keys_sorted(a),
        keys_sorted(b),
        forall|x: (Seq<char>, nat)| #[trigger] a.contains(x) ==> b.contains(x),
        forall|x: (Seq<char>, nat)| #[trigger] b.contains(x) ==> a.contains(x),
    ensures
        a == b,
    decreases a.len(),
{
    if a.len() == 0 {
        if b.len() > 0 {
            assert(b.contains(b[0]));
        }
    } else if b.len() == 0 {
        assert(a.contains(a[0]));
    } else {
        assert(a.contains(a[0]));
        assert(b.contains(b[0]));
        let m = choose|m: int| 0 <= m < b.len() && b[m] == a[0];
        let n = choose|n: int| 0 <= n < a.len() && a[n] == b[0];
        if m > 0 && n > 0 {
            assert(key_before(b[0], b[m]));
            assert(key_before(a[0], a[n]));
            lemma_key_asymmetric(a[0], b[0]);
        } else if m > 0 {
            assert(key_before(b[0], b[m]));
            lemma_key_asymmetric(b[0], b[0]);
        } else if n > 0 {
            assert(key_before(a[0], a[n]));
            lemma_key_asymmetric(a[0], a[0]);
        }
        assert(a[0] == b[0]);
        let ta = a.drop_first();
        let tb = b.drop_first();
        assert forall|x: (Seq<char>, nat)| #[trigger] ta.contains(x) implies tb.contains(x) by {
            let i = choose|i: int| 0 <= i < ta.len() && ta[i] == x;
            assert(a[i + 1] == x);
            assert(a.contains(x));
            assert(b.contains(x));
            let j = choose|j: int| 0 <= j < b.len() && b[j] == x;
            if j == 0 {
                assert(key_before(a[0], a[i + 1]));
                lemma_key_asymmetric(x, x);
            }
            assert(tb[j - 1] == x);
        }
        assert forall|x: (Seq<char>, nat)| #[trigger] tb.contains(x) implies ta.contains(x) by {
            let i = choose|i: int| 0 <= i < tb.len() && tb[i] == x;
            assert(b[i + 1] == x);
            assert(b.contains(x));
            assert(a.contains(x));
            let j = choose|j: int| 0 <= j < a.len() && a[j] == x;
            if j == 0 {
                assert(key_before(b[0], b[i + 1]));
                lemma_key_asymmetric(x, x);
            }
            assert(ta[j - 1] == x);
        }
        assert forall|x: int, y: int| 0 <= x < y < ta.len() implies key_before(#[trigger] ta[x], #[trigger] ta[y]) by {
            assert(key_before(a[x + 1], a[y + 1]));
        }
        assert forall|x: int, y: int| 0 <= x < y < tb.len() implies key_before(#[trigger] tb[x], #[trigger] tb[y]) by {
            assert(key_before(b[x + 1], b[y + 1]));
        }
        lemma_sorted_keys_unique(ta, tb);
        assert(a == seq![a[0]] + ta);
        assert(b == seq![b[0]] + tb);
    }
}

proof fn lemma_index_sorted<V>(p: BuildPlan, c: Seq<ItemView<ResourceExtra<V>>>, site: SiteInfo, cfg: ResourceBuilderConfig)
    requires
        is_plan(p, c, site, cfg),
    ensures
        keys_sorted(index_keys(p)),
{
    let s = index_keys(p);
    assert forall|a: int, b: int| 0 <= a < b < s.len() implies key_before(#[trigger] s[a], #[trigger] s[b]) by {
        assert(ranks_before(p.tag_lists@[p.tag_order@[a] as int].bucket, p.tag_lists@[p.tag_order@[b] as int].bucket));
    }
}

proof fn lemma_index_members<V>(first: BuildPlan, second: BuildPlan, c: Seq<ItemView<ResourceExtra<V>>>, site: SiteInfo, cfg: ResourceBuilderConfig)
    requires
        is_plan(first, c, site, cfg),
        is_plan(second, c, site, cfg),
    ensures
        forall|x: (Seq<char>, nat)| #[trigger] index_keys(first).contains(x) ==> index_keys(second).contains(x),
{
    assert forall|x: (Seq<char>, nat)| #[trigger] index_keys(first).contains(x) implies index_keys(second).contains(x) by {
        let k = choose|k: int| 0 <= k < index_keys(first).len() && index_keys(first)[k] == x;
        let b1 = first.tag_order@[k] as int;
        let xb = first.tag_lists@[b1].bucket;
        assert(buckets_of(first.tag_lists@)[b1] == xb);
        assert(holds_carriers(xb, c));
        assert(xb.items@.len() > 0);
        let j = xb.items@[0] as int;
        assert(j as usize == xb.items@[0]);
        assert(xb.items@.contains(xb.items@[0]));
        assert(c[j].1.tags.contains(xb.tag@));
        let b2 = choose|b2: int| 0 <= b2 < buckets_of(second.tag_lists@).len() && #[trigger] buckets_of(second.tag_lists@)[b2].tag@ == xb.tag@;
        let yb = second.tag_lists@[b2].bucket;
        assert(buckets_of(second.tag_lists@)[b2] == yb);
        assert(holds_carriers(yb, c));
        assert forall|v: usize| v < c.len() implies (#[trigger] xb.items@.contains(v) <==> yb.items@.contains(v)) by {
            let jj = v as int;
            assert(c[jj].1.tags.contains(xb.tag@) == c[jj].1.tags.contains(yb.tag@));
            assert(jj as usize == v);
        }
        lemma_same_carriers(xb.items@, yb.items@, c.len());
        assert(second.tag_order@.contains(b2 as usize));
        let k2 = choose|k2: int| 0 <= k2 < second.tag_order@.len() && second.tag_order@[k2] == b2 as usize;
        assert(index_keys(first)[k] == index_key(first, k));
        assert(x == (xb.tag@, xb.items@.len()));
        assert(index_keys(second)[k2] == index_key(second, k2));
        assert(second.tag_order@[k2] as int == b2);
        assert(index_key(second, k2) == (yb.tag@, yb.items@.len()));
        assert(index_keys(second)[k2] == x);
    }
}

/// Two increasing sequences of positions below `n` with the same members are
/// the same sequence.
proof fn lemma_same_carriers(a: Seq<usize>, b: Seq<usize>, n: nat)
    requires
        crate::tags::increasing(a),
        crate::tags::increasing(b),
        forall|v: usize| v < n ==> (#[trigger] a.contains(v) <==> b.contains(v)),
        forall|k: int| 0 <= k < a.len() ==> #[trigger] a[k] < n,
        forall|k: int| 0 <= k < b.len() ==> #[trigger] b[k] < n,
    ensures
        a == b,
    decreases a.len() + b.len(),
{
    if a.len() == 0 {
        if b.len() > 0 {
            assert(b.contains(b[0]));
            assert(!a.contains(b[0]));
        }
    } else if b.len() == 0 {
        assert(a.contains(a[0]));
    } else {
        assert(a.contains(a[0]));
        assert(b.contains(b[0]));
        assert(b.contains(a[0]));
        assert(a.contains(b[0]));
        let ka = choose|k: int| 0 <= k < b.len() && b[k] == a[0];
        let kb = choose|k: int| 0 <= k < a.len() && a[k] == b[0];
        if ka > 0 {
            assert(b[0] < b[ka]);
            if kb > 0 {
                assert(a[0] < a[kb]);
            }
        }
        if kb > 0 {
            assert(a[0] < a[kb]);
        }
        assert(a[0] == b[0]);
        let ta = a.drop_first();
        let tb = b.drop_first();
        assert forall|v: usize| v < n implies (#[trigger] ta.contains(v) <==> tb.contains(v)) by {
            if ta.contains(v) {
                let k = choose|k: int| 0 <= k < ta.len() && ta[k] == v;
                assert(a[k + 1] == v);
                assert(a[0] < a[k + 1]);
                assert(a.contains(v));
                assert(b.contains(v));
                let m = choose|m: int| 0 <= m < b.len() && b[m] == v;
                assert(m != 0);
                assert(tb[m - 1] == v);
            }
            if tb.contains(v) {
                let k = choose|k: int| 0 <= k < tb.len() && tb[k] == v;
                assert(b[k + 1] == v);
                assert(b[0] < b[k + 1]);
                assert(b.contains(v));
                assert(a.contains(v));
                let m = choose|m: int| 0 <= m < a.len() && a[m] == v;
                assert(m != 0);
                assert(ta[m - 1] == v);
            }
        }
        assert forall|x: int, y: int| 0 <= x < y < ta.len() implies #[trigger] ta[x] < #[trigger] ta[y] by {
            assert(a[x + 1] < a[y + 1]);
        }
        assert forall|x: int, y: int| 0 <= x < y < tb.len() implies #[trigger] tb[x] < #[trigger] tb[y] by {
            assert(b[x + 1] < b[y + 1]);
        }
        lemma_same_carriers(ta, tb, n);
        assert(a == seq![a[0]] + ta);
        assert(b == seq![b[0]] + tb);
    }
}

} // verus!
