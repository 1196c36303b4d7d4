use zyl_site::blog::{get_blog_resource_config, BlogPostMetadata};
use zyl_site::extension::{ExtraTemplateData, ResourceExtra};
use zyl_site::images::ImageMetadata;
use zyl_site::feed::render_feed;
use zyl_site::frontmatter::FrontMatter;
use zyl_site::publisher::{BuildError, SiteInfo};
use zyl_site::resource::{BuildMode, LoadError, ResourceBuilder, ResourceMetadata, SourceFile};
use zyl_site::timestamp::Timestamp;

const JAN_1_2024: i64 = 1704067200;
const DAY: i64 = 86400;

fn meta(title: &str, unix_seconds: i64, tags: &[&str], draft: bool) -> ResourceMetadata<ResourceExtra<()>> {
    ResourceMetadata {
        title: title.to_string(),
        timestamp: Timestamp { unix_seconds, nanosecond: 0, offset_seconds: 0 },
        tags: tags.iter().map(|t| t.to_string()).collect(),
        cdn_file: None,
        desc: None,
        inner: ResourceExtra::Other(()),
        draft,
        content: String::new(),
    }
}

fn source(name: &str, m: ResourceMetadata<ResourceExtra<()>>) -> SourceFile<ResourceExtra<()>> {
    SourceFile {
        name: name.to_string(),
        document: Ok(FrontMatter { content: "Some *text*.".to_string(), data: Some(m) }),
    }
}

fn site() -> SiteInfo {
    SiteInfo {
        title: "site".to_string(),
        base_url: "https://example.com/".to_string(),
        cdn_url: "https://cdn.example.com/".to_string(),
    }
}

fn builder(per_page: usize) -> ResourceBuilder<ResourceExtra<()>> {
    ResourceBuilder::new(get_blog_resource_config(per_page))
}

fn ids(b: &ResourceBuilder<ResourceExtra<()>>) -> Vec<String> {
    b.loaded_metadata.iter().map(|(id, _)| id.clone()).collect()
}

#[test]
fn three_items_two_per_page() {
    let mut b = builder(2);
    let files = vec![
        source("first.md", meta("first", JAN_1_2024, &[], false)),
        source("third.md", meta("third", JAN_1_2024 + 2 * DAY, &[], false)),
        source("second.md", meta("second", JAN_1_2024 + DAY, &[], false)),
    ];
    assert!(b.load_all(files, BuildMode::Published, "https://cdn.example.com/").is_ok());
    assert_eq!(ids(&b), vec!["third", "second", "first"]);
    let plan = b.build_all(&site()).unwrap();
    assert_eq!(plan.main_list.len(), 2);
    let first = &plan.main_list[0];
    assert_eq!(first.items, vec![0, 1]);
    assert_eq!(first.page.page, 1);
    assert_eq!(first.page.previous, None);
    assert_eq!(first.page.next, Some(2));
    let second = &plan.main_list[1];
    assert_eq!(second.items, vec![2]);
    assert_eq!(second.page.previous, Some(1));
    assert_eq!(second.page.next, None);
    assert_eq!(second.page.page_max, 2);
}

#[test]
fn first_page_goes_to_index_and_numbered_file() {
    let mut b = builder(2);
    let files = vec![
        source("a.md", meta("a", JAN_1_2024, &[], false)),
        source("b.md", meta("b", JAN_1_2024 + DAY, &[], false)),
        source("c.md", meta("c", JAN_1_2024 + 2 * DAY, &[], false)),
    ];
    b.load_all(files, BuildMode::Published, "https://cdn.example.com/").unwrap();
    let plan = b.build_all(&site()).unwrap();
    assert_eq!(plan.main_list[0].paths, vec!["blog/index.html", "blog/1.html"]);
    assert_eq!(plan.main_list[1].paths, vec!["blog/2.html"]);
}

#[test]
fn tag_index_orders_by_count() {
    let mut b = builder(10);
    let files = vec![
        source("one.md", meta("one", JAN_1_2024, &["a", "b"], false)),
        source("two.md", meta("two", JAN_1_2024 + DAY, &["a"], false)),
    ];
    b.load_all(files, BuildMode::Published, "https://cdn.example.com/").unwrap();
    let plan = b.build_all(&site()).unwrap();
    let titles: Vec<&str> = plan.tag_links.iter().map(|l| l.title.as_str()).collect();
    assert_eq!(titles, vec!["a (2)", "b (1)"]);
    assert_eq!(plan.tag_links[0].link, "/blog/tag/a/");
    assert_eq!(plan.tag_index_path, "blog/tags.html");
}

#[test]
fn tag_index_breaks_ties_lexicographically() {
    let mut b = builder(10);
    let files = vec![
        source("one.md", meta("one", JAN_1_2024, &["zeta", "alpha", "mid"], false)),
        source("two.md", meta("two", JAN_1_2024 + DAY, &["mid"], false)),
    ];
    b.load_all(files, BuildMode::Published, "https://cdn.example.com/").unwrap();
    let plan = b.build_all(&site()).unwrap();
    let titles: Vec<&str> = plan.tag_links.iter().map(|l| l.title.as_str()).collect();
    assert_eq!(titles, vec!["mid (2)", "alpha (1)", "zeta (1)"]);
}

#[test]
fn each_item_in_one_bucket_per_distinct_tag() {
    let mut b = builder(10);
    let files = vec![
        source("one.md", meta("one", JAN_1_2024, &["x", "y", "x"], false)),
        source("two.md", meta("two", JAN_1_2024 + DAY, &["y"], false)),
    ];
    b.load_all(files, BuildMode::Published, "https://cdn.example.com/").unwrap();
    let plan = b.build_all(&site()).unwrap();
    assert_eq!(plan.tag_lists.len(), 2);
    for list in &plan.tag_lists {
        match list.bucket.tag.as_str() {
            "x" => assert_eq!(list.bucket.items, vec![1]),
            "y" => assert_eq!(list.bucket.items, vec![0, 1]),
            other => panic!("unexpected tag {other}"),
        }
    }
    let main: Vec<usize> = plan.main_list.iter().flat_map(|p| p.items.clone()).collect();
    assert_eq!(main, vec![0, 1]);
}

#[test]
fn tag_list_pages_titles_and_paths() {
    let mut b = builder(1);
    let files = vec![
        source("one.md", meta("one", JAN_1_2024, &["rust"], false)),
        source("two.md", meta("two", JAN_1_2024 + DAY, &["rust"], false)),
    ];
    b.load_all(files, BuildMode::Published, "https://cdn.example.com/").unwrap();
    let plan = b.build_all(&site()).unwrap();
    let pages = &plan.tag_lists[0].pages;
    assert_eq!(pages.len(), 2);
    assert_eq!(pages[0].title, "blog posts tagged rust");
    assert_eq!(pages[0].tag.as_deref(), Some("rust"));
    assert_eq!(pages[0].paths, vec!["blog/tag/rust/index.html", "blog/tag/rust/1.html"]);
    assert_eq!(pages[1].paths, vec!["blog/tag/rust/2.html"]);
    assert_eq!(pages[0].items, vec![0]);
    assert_eq!(pages[1].items, vec![1]);
}

#[test]
fn drafts_left_out_of_published_build() {
    let mut b = builder(10);
    let files = vec![
        source("kept.md", meta("kept", JAN_1_2024, &["t"], false)),
        source("draft.md", meta("draft", JAN_1_2024 + DAY, &["t", "secret"], true)),
    ];
    b.load_all(files, BuildMode::Published, "https://cdn.example.com/").unwrap();
    assert_eq!(ids(&b), vec!["kept"]);
    let plan = b.build_all(&site()).unwrap();
    assert_eq!(plan.item_pages.len(), 1);
    assert_eq!(plan.feed_entries.len(), 1);
    assert_eq!(plan.tag_lists.len(), 1);
    assert_eq!(plan.tag_lists[0].bucket.tag, "t");
}

#[test]
fn drafts_kept_in_preview_build() {
    let mut b = builder(10);
    let files = vec![
        source("kept.md", meta("kept", JAN_1_2024, &["t"], false)),
        source("draft.md", meta("draft", JAN_1_2024 + DAY, &["t", "secret"], true)),
    ];
    b.load_all(files, BuildMode::Preview, "https://cdn.example.com/").unwrap();
    assert_eq!(ids(&b), vec!["draft", "kept"]);
    let plan = b.build_all(&site()).unwrap();
    assert_eq!(plan.item_pages.len(), 2);
    assert_eq!(plan.feed_entries.len(), 2);
    assert_eq!(plan.tag_lists.len(), 2);
}

#[test]
fn rebuild_from_same_sources_is_identical() {
    let make = || {
        vec![
            source("one.md", meta("one", JAN_1_2024, &["a", "b"], false)),
            source("two.md", meta("two", JAN_1_2024 + DAY, &["a"], false)),
        ]
    };
    let mut b1 = builder(1);
    b1.load_all(make(), BuildMode::Published, "https://cdn.example.com/").unwrap();
    let plan_a = b1.build_all(&site()).unwrap();
    let mut b2 = builder(1);
    b2.load_all(make(), BuildMode::Published, "https://cdn.example.com/").unwrap();
    b2.load_all(make(), BuildMode::Published, "https://cdn.example.com/").unwrap();
    let plan_b = b2.build_all(&site()).unwrap();
    assert_eq!(format!("{:?}", plan_a), format!("{:?}", plan_b));
    let feed_a = render_feed(&b1.config, &plan_a, vec!["x".to_string(), "y".to_string()], "Mon, 01 Jan 2024 00:00:00 +0000").unwrap();
    let feed_b = render_feed(&b2.config, &plan_b, vec!["x".to_string(), "y".to_string()], "Mon, 01 Jan 2024 00:00:00 +0000").unwrap();
    assert_eq!(feed_a, feed_b);
}

#[test]
fn feed_of_two_items_validates() {
    let mut b = builder(10);
    let files = vec![
        source("one.md", meta("one", JAN_1_2024, &[], false)),
        source("two.md", meta("two", JAN_1_2024 + DAY, &[], false)),
    ];
    b.load_all(files, BuildMode::Published, "https://cdn.example.com/").unwrap();
    let plan = b.build_all(&site()).unwrap();
    assert_eq!(plan.feed_link, "https://example.com/blog/");
    assert_eq!(plan.feed_path, "blog/rss.xml");
    assert_eq!(plan.feed_entries[0].link, "https://example.com/blog/two");
    assert_eq!(plan.feed_entries[0].pub_date, "Tue, 02 Jan 2024 00:00:00 +0000");
    assert_eq!(plan.feed_entries[1].pub_date, "Mon, 01 Jan 2024 00:00:00 +0000");
    let feed = render_feed(
        &b.config,
        &plan,
        vec!["<p>two</p>".to_string(), "<p>one</p>".to_string()],
        "Wed, 03 Jan 2024 00:00:00 +0000",
    )
    .unwrap();
    assert_eq!(feed.matches("<item>").count(), 2);
    assert!(feed.contains("<pubDate>Tue, 02 Jan 2024 00:00:00 +0000</pubDate>"));
    assert!(feed.contains("<pubDate>Mon, 01 Jan 2024 00:00:00 +0000</pubDate>"));
}

#[test]
fn feed_with_bad_date_fails_validation() {
    let mut b = builder(10);
    b.load_all(vec![source("one.md", meta("one", JAN_1_2024, &[], false))], BuildMode::Published, "https://cdn.example.com/").unwrap();
    let plan = b.build_all(&site()).unwrap();
    let r = render_feed(&b.config, &plan, vec!["x".to_string()], "not a date");
    assert!(matches!(r, Err(BuildError::InvalidFeed)));
}

#[test]
fn unparseable_metadata_fails_load_and_keeps_collection() {
    let mut b = builder(10);
    b.load_all(vec![source("good.md", meta("good", JAN_1_2024, &[], false))], BuildMode::Published, "https://cdn.example.com/").unwrap();
    let files = vec![
        source("fine.md", meta("fine", JAN_1_2024, &[], false)),
        SourceFile { name: "broken.md".to_string(), document: Err("invalid type: expected a map".to_string()) },
    ];
    let r = b.load_all(files, BuildMode::Published, "https://cdn.example.com/");
    match r {
        Err(LoadError::Parse { id, message }) => {
            assert_eq!(id, "broken");
            assert_eq!(message, "invalid type: expected a map");
        }
        other => panic!("unexpected {other:?}"),
    }
    assert_eq!(ids(&b), vec!["good"]);
}

#[test]
fn missing_front_matter_fails_load() {
    let mut b = builder(10);
    let files = vec![SourceFile::<ResourceExtra<()>> {
        name: "bare.md".to_string(),
        document: Ok(FrontMatter { content: "just text".to_string(), data: None }),
    }];
    let r = b.load_all(files, BuildMode::Published, "https://cdn.example.com/");
    assert!(matches!(r, Err(LoadError::MissingFrontMatter { ref id }) if id == "bare"));
    assert!(b.loaded_metadata.is_empty());
}

#[test]
fn invalid_cdn_url_fails_load() {
    let mut b = builder(10);
    let mut m = meta("pic", JAN_1_2024, &[], false);
    m.cdn_file = Some("x.png".to_string());
    let r = b.load_all(vec![source("pic.md", m)], BuildMode::Published, "not a url");
    assert!(matches!(r, Err(LoadError::InvalidCdnUrl { ref id }) if id == "pic"));
}

#[test]
fn load_renders_markdown_and_resolves_cdn_file() {
    let mut b = builder(10);
    let mut m = meta("pic", JAN_1_2024, &[], false);
    m.cdn_file = Some("img/x.png".to_string());
    b.load_all(vec![source("pic.md", m)], BuildMode::Published, "https://cdn.example.com/").unwrap();
    let (id, item) = &b.loaded_metadata[0];
    assert_eq!(id, "pic");
    assert_eq!(item.content, "<p>Some <em>text</em>.</p>\n");
    assert_eq!(item.cdn_file.as_deref(), Some("https://cdn.example.com/img/x.png"));
}

#[test]
fn equal_timestamps_keep_source_order() {
    let mut b = builder(10);
    let files = vec![
        source("x.md", meta("x", JAN_1_2024, &[], false)),
        source("y.md", meta("y", JAN_1_2024, &[], false)),
        source("z.md", meta("z", JAN_1_2024 + DAY, &[], false)),
    ];
    b.load_all(files, BuildMode::Published, "https://cdn.example.com/").unwrap();
    assert_eq!(ids(&b), vec!["z", "x", "y"]);
}

#[test]
fn empty_collection_has_one_empty_page() {
    let b = builder(5);
    let plan = b.build_all(&site()).unwrap();
    assert_eq!(plan.main_list.len(), 1);
    assert!(plan.main_list[0].items.is_empty());
    assert_eq!(plan.main_list[0].page.next, None);
    assert!(plan.tag_links.is_empty());
    assert!(plan.item_pages.is_empty());
}

#[test]
fn item_pages_paths_and_heads() {
    let mut b = builder(5);
    let mut m = meta("Hello", JAN_1_2024, &[], false);
    m.desc = Some("a post".to_string());
    b.load_all(vec![source("hello.md", m)], BuildMode::Published, "https://cdn.example.com/").unwrap();
    let plan = b.build_all(&site()).unwrap();
    let page = &plan.item_pages[0];
    assert_eq!(page.path, "blog/hello.html");
    assert_eq!(page.title, "Hello");
    assert_eq!(
        page.head,
        "<meta content=\"Hello\" property=\"og:title\"><meta content=\"site\" property=\"og:site_name\"><meta content=\"a post\" property=\"og:description\"><meta content=\"#ffc4fc\" name=\"theme-color\"><meta name=\"twitter:card\" content=\"summary_large_image\">"
    );
}

#[test]
fn bad_base_url_fails_build() {
    let mut b = builder(5);
    b.load_all(vec![source("a.md", meta("a", JAN_1_2024, &[], false))], BuildMode::Published, "https://cdn.example.com/").unwrap();
    let mut s = site();
    s.base_url = "nope".to_string();
    assert!(matches!(b.build_all(&s), Err(BuildError::InvalidItemLink { ref id }) if id == "a"));
    let empty = builder(5);
    assert!(matches!(empty.build_all(&s), Err(BuildError::InvalidFeedLink)));
}

#[test]
fn date_before_1900_fails_build() {
    let mut b = builder(5);
    b.load_all(vec![source("old.md", meta("old", -2_300_000_000, &[], false))], BuildMode::Published, "https://cdn.example.com/").unwrap();
    assert!(matches!(b.build_all(&site()), Err(BuildError::InvalidDate { ref id }) if id == "old"));
}

#[test]
fn unresolvable_cdn_file_fails_build() {
    let mut b = builder(5);
    let mut m = meta("pic", JAN_1_2024, &[], false);
    m.cdn_file = Some("x.png".to_string());
    b.load_all(vec![source("pic.md", m)], BuildMode::Published, "https://cdn.example.com/").unwrap();
    let mut s = site();
    s.cdn_url = "not a url".to_string();
    assert!(matches!(b.build_all(&s), Err(BuildError::InvalidCdnUrl { ref id }) if id == "pic"));
    let plan = b.build_all(&site()).unwrap();
    assert!(plan.item_pages[0].head.contains("<meta content=\"https://cdn.example.com/x.png\" property=\"og:image\">"));
}

#[test]
fn item_pages_use_the_type_extension_point() {
    let mut b = builder(5);
    let mut post = meta("Post", JAN_1_2024, &[], false);
    post.inner = ResourceExtra::Blog(BlogPostMetadata {
        desc: "about".to_string(),
        header_image_file: "head.png".to_string(),
        header_image_alt: "alt".to_string(),
        image_fit: Some("contain".to_string()),
        image_center: None,
    });
    let mut pic = meta("Pic", JAN_1_2024 + DAY, &[], false);
    pic.inner = ResourceExtra::Image(ImageMetadata { alt: "a".to_string(), desc: Some("d".to_string()), file: "p.jpg".to_string() });
    b.load_all(vec![source("post.md", post), source("pic.md", pic)], BuildMode::Published, "https://cdn.example.com/").unwrap();
    let plan = b.build_all(&site()).unwrap();
    let pic_page = &plan.item_pages[0];
    assert_eq!(
        pic_page.head,
        "<meta content=\"Pic\" property=\"og:title\"><meta content=\"site\" property=\"og:site_name\"><meta content=\"d\" property=\"og:description\"><meta content=\"https://cdn.example.com/p.jpg\" property=\"og:image\"><meta content=\"rgb(255, 196, 252)\" name=\"theme-color\"><meta name=\"twitter:card\" content=\"summary_large_image\">"
    );
    assert!(matches!(&pic_page.extra, ExtraTemplateData::Image(d) if d.src == "https://cdn.example.com/p.jpg"));
    let post_page = &plan.item_pages[1];
    assert!(post_page.head.contains("<meta name=\"twitter:image\" content=\"https://cdn.example.com/head.png\">"));
    assert!(post_page.head.starts_with("\n\t\t<meta property=\"og:site_name\" content=\"site\">"));
    match &post_page.extra {
        ExtraTemplateData::Blog(d) => {
            assert_eq!(d.header_image, "https://cdn.example.com/head.png");
            assert_eq!(d.object_fit, "contain");
            assert_eq!(d.object_position, "50% 50%");
        }
        other => panic!("unexpected {other:?}"),
    }
    let mut s = site();
    s.cdn_url = "relative".to_string();
    assert!(matches!(b.build_all(&s), Err(BuildError::InvalidCdnUrl { ref id }) if id == "pic"));
}

#[test]
fn generic_items_have_no_extra_fields() {
    let mut b = builder(5);
    b.load_all(vec![source("a.md", meta("a", JAN_1_2024, &[], false))], BuildMode::Published, "https://cdn.example.com/").unwrap();
    let plan = b.build_all(&site()).unwrap();
    assert!(matches!(plan.item_pages[0].extra, ExtraTemplateData::Nothing));
}
