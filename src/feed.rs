//! The RSS feed of a resource type, assembled and checked with the rss crate.

use crate::publisher::{is_plan, law_rebuild_repeats_outputs, BuildError, BuildPlan, FeedEntry, SiteInfo};
use crate::resource::{all_load, collection_of, texts, BuildMode, SourceFile};
use crate::resource::ResourceBuilderConfig;
use crate::extension::ResourceExtra;
use crate::timestamp::opt_text;
use vstd::prelude::*;

verus! {

/// What a feed item is made of: title, link, description, publication date
/// and rendered content.
pub type FeedItemText = (Seq<char>, Seq<char>, Option<Seq<char>>, Seq<char>, Seq<char>);

/// The feed items of `entries`, the content of entry `i` being `contents[i]`.
pub open spec fn feed_item_texts(entries: Seq<FeedEntry>, contents: Seq<String>) -> Seq<FeedItemText> {
    Seq::new(
        entries.len(),
        |i: int| (entries[i].title@, entries[i].link@, opt_text(entries[i].description), entries[i].pub_date@, contents[i]@),
    )
}

/// The RSS document of a channel with this title, link, description and last
/// build date, holding `items` in order, if the channel passes validation.
pub uninterp spec fn rss_document_of(
    title: Seq<char>,
    link: Seq<char>,
    description: Seq<char>,
    last_build_date: Seq<char>,
    items: Seq<FeedItemText>,
) -> Option<Seq<char>>;

/// Relies on rss's `ItemBuilder` and `ChannelBuilder` (the fields as given),
/// `Validate::validate` for channels (links parse as URLs, dates as RFC 2822)
/// and `Display` for channels: the document depends on these values alone,
/// and is absent exactly when validation fails.
#[verifier::external_body]
fn rss_document(title: &str, link: &str, description: &str, last_build_date: &str, entries: &Vec<FeedEntry>, contents: &Vec<String>) -> (r: Option<String>)
    requires
        contents@.len() == entries@.len(),
    ensures
        opt_text(r) == rss_document_of(title@, link@, description@, last_build_date@, feed_item_texts(entries@, contents@)),
{
    let items: Vec<rss::Item> = entries.iter().zip(contents).map(|(e, c)| rss::ItemBuilder::default()
        .title(e.title.clone()).link(e.link.clone()).description(e.description.clone())
        .pub_date(e.pub_date.clone()).content(c.clone()).build()).collect();
    let channel = rss::ChannelBuilder::default().title(title).link(link).description(description)
        .last_build_date(last_build_date.to_string()).items(items).build();
    rss::validation::Validate::validate(&channel).ok()?;
    Some(channel.to_string())
}

/// The RSS document of a planned build: one item per feed entry, in order,
/// with `contents[i]` as the rendered content of entry `i`, under a channel
/// with the configured title and description, the list's URL, and
/// `last_build_date`. It is an error exactly when the channel fails
/// validation.
pub fn render_feed(cfg: &ResourceBuilderConfig, plan: &BuildPlan, contents: Vec<String>, last_build_date: &str) -> (r: Result<String, BuildError>)
    requires
        contents@.len() == plan.feed_entries@.len(),
    ensures
        r is Ok <==> rss_document_of(cfg.rss_title@, plan.feed_link@, cfg.rss_description@, last_build_date@,
            feed_item_texts(plan.feed_entries@, contents@)) is Some,
        r matches Ok(s) ==> Some(s@) == rss_document_of(cfg.rss_title@, plan.feed_link@, cfg.rss_description@,
            last_build_date@, feed_item_texts(plan.feed_entries@, contents@)),
        r matches Err(e) ==> e is InvalidFeed,
{
    match rss_document(
        cfg.rss_title.as_str(),
        plan.feed_link.as_str(),
        cfg.rss_description.as_str(),
        last_build_date,
        &plan.feed_entries,
        &contents,
    ) {
        Some(document) => Ok(document),
        None => Err(BuildError::InvalidFeed),
    }
}


/// Rebuilding from unchanged sources repeats the feed document: two builds of
/// the collection that the same source files load, rendered with the same
/// item contents and stamped with the same build date, give the same RSS
/// document, or both fail validation.
pub proof fn law_rebuild_repeats_feed<V>(
    files: Seq<SourceFile<ResourceExtra<V>>>,
    cdn: Seq<char>,
    mode: BuildMode,
    first: BuildPlan,
    second: BuildPlan,
    site: SiteInfo,
    cfg: ResourceBuilderConfig,
    first_contents: Seq<String>,
    second_contents: Seq<String>,
    last_build_date: Seq<char>,
)
    requires
        all_load(files, cdn),
        is_plan(first, collection_of(files, cdn, mode), site, cfg),
        is_plan(second, collection_of(files, cdn, mode), site, cfg),
        first_contents.len() == first.feed_entries@.len(),
        texts(first_contents) == texts(second_contents),
    ensures
        rss_document_of(cfg.rss_title@, first.feed_link@, cfg.rss_description@, last_build_date,
            feed_item_texts(first.feed_entries@, first_contents))
        == rss_document_of(cfg.rss_title@, second.feed_link@, cfg.rss_description@, last_build_date,
            feed_item_texts(second.feed_entries@, second_contents)),
{
    law_rebuild_repeats_outputs(files, cdn, mode, first, second, site, cfg);
    assert(second_contents.len() == first_contents.len()) by {
        assert(texts(first_contents).len() == first_contents.len());
        assert(texts(second_contents).len() == second_contents.len());
    }
    assert forall|i: int| 0 <= i < first_contents.len() implies first_contents[i]@ == second_contents[i]@ by {
        assert(texts(first_contents)[i] == texts(second_contents)[i]);
    }
    assert(feed_item_texts(first.feed_entries@, first_contents) == feed_item_texts(second.feed_entries@, second_contents));
}

} // verus!
