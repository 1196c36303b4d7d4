use zyl_site::blog::{get_blog_resource_config, BlogPostMetadata};
use zyl_site::embed::EmbedMetadata;
use zyl_site::extras::{get_extra, Extra};
use zyl_site::frontmatter::FrontMatter;
use zyl_site::images::{get_images_resource_config, ImageMetadata};
use zyl_site::link_list::Link;
use zyl_site::pagination::{page_count, paginate};
use zyl_site::registry::{ReloadError, ResourceRegistry};
use zyl_site::resource::{is_resource_source, BuildMode, ResourceBuilder, ResourceMetadata, SourceFile};
use zyl_site::tags::{collect_tags, tag_index_order};
use zyl_site::text::{decimal_string, str_lt};
use zyl_site::timestamp::Timestamp;
use zyl_site::util::{get_name, page_title};

fn meta<T>(title: &str, unix_seconds: i64, tags: &[&str], inner: T) -> ResourceMetadata<T> {
    ResourceMetadata {
        title: title.to_string(),
        timestamp: Timestamp { unix_seconds, nanosecond: 0, offset_seconds: 0 },
        tags: tags.iter().map(|t| t.to_string()).collect(),
        cdn_file: None,
        desc: None,
        inner,
        draft: false,
        content: String::new(),
    }
}

#[test]
fn page_count_is_ceiling() {
    assert_eq!(page_count(0, 3), 1);
    assert_eq!(page_count(1, 3), 1);
    assert_eq!(page_count(3, 3), 1);
    assert_eq!(page_count(4, 3), 2);
    assert_eq!(page_count(7, 2), 4);
    assert_eq!(page_count(usize::MAX, 1), usize::MAX);
    assert_eq!(page_count(usize::MAX, 2), usize::MAX / 2 + 1);
}

#[test]
fn page_sizes_sum_to_total() {
    for n in 1..30usize {
        for size in 1..8usize {
            let pages = paginate(n, size);
            let total: usize = pages.iter().map(|p| p.end - p.start).sum();
            assert_eq!(total, n);
            assert_eq!(pages.len(), (n + size - 1) / size);
        }
    }
}

#[test]
fn pages_link_to_neighbours() {
    let pages = paginate(5, 2);
    assert_eq!(pages.len(), 3);
    assert_eq!((pages[0].start, pages[0].end, pages[0].previous, pages[0].next), (0, 2, None, Some(2)));
    assert_eq!((pages[1].start, pages[1].end, pages[1].previous, pages[1].next), (2, 4, Some(1), Some(3)));
    assert_eq!((pages[2].start, pages[2].end, pages[2].previous, pages[2].next), (4, 5, Some(2), None));
    assert!(pages.iter().all(|p| p.page_max == 3));
}

#[test]
fn empty_list_paginates_to_one_page() {
    let pages = paginate(0, 4);
    assert_eq!(pages.len(), 1);
    assert_eq!((pages[0].page, pages[0].start, pages[0].end, pages[0].previous, pages[0].next), (1, 0, 0, None, None));
}

#[test]
fn front_matter_is_split() {
    let fm = FrontMatter::parse("---\ntitle: x\n---\nbody\n".to_string());
    assert_eq!(fm.data.as_deref(), Some("\ntitle: x\n"));
    assert_eq!(fm.content, "body\n");
}

#[test]
fn document_without_front_matter_is_all_body() {
    let fm = FrontMatter::parse("no front matter\n---\n".to_string());
    assert_eq!(fm.data, None);
    assert_eq!(fm.content, "no front matter\n---\n");
    let unclosed = FrontMatter::parse("---\ntitle: x\n".to_string());
    assert_eq!(unclosed.data, None);
    assert_eq!(unclosed.content, "---\ntitle: x\n");
    let empty = FrontMatter::parse(String::new());
    assert_eq!(empty.data, None);
    assert_eq!(empty.content, "");
}

#[test]
fn empty_front_matter_block() {
    let fm = FrontMatter::parse("---\n---\nbody".to_string());
    assert_eq!(fm.data.as_deref(), Some("\n"));
    assert_eq!(fm.content, "body");
}

#[test]
fn embed_tags_in_order() {
    let e = EmbedMetadata {
        title: "T".to_string(),
        site_name: "S".to_string(),
        description: Some("D".to_string()),
        url: Some("U".to_string()),
        image: Some("I".to_string()),
        theme_color: EmbedMetadata::default_theme_color(),
        large_image: false,
    };
    assert_eq!(
        e.build(),
        "<meta content=\"T\" property=\"og:title\"><meta content=\"S\" property=\"og:site_name\"><meta content=\"D\" property=\"og:description\"><meta content=\"U\" property=\"og:url\"><meta content=\"I\" property=\"og:image\"><meta content=\"#ffc4fc\" name=\"theme-color\">"
    );
}

#[test]
fn default_theme_color_value() {
    assert_eq!(EmbedMetadata::default_theme_color(), "#ffc4fc");
}

#[test]
fn link_new_keeps_fields() {
    let l = Link::new("/a/".to_string(), "A".to_string());
    assert_eq!(l.link, "/a/");
    assert_eq!(l.title, "A");
}

#[test]
fn names_of_paths_and_files() {
    assert_eq!(get_name("blog/post.md"), "blog/post");
    assert_eq!(get_name("a.b/c"), "a.b/c");
    assert_eq!(get_name("dir/.hidden"), "dir/.hidden");
    assert_eq!(get_name("x.tar.gz"), "x.tar");
    assert_eq!(ResourceBuilder::<()>::get_id("hello.md"), "hello");
    assert_eq!(ResourceBuilder::<()>::get_id(".md"), ".md");
    assert_eq!(ResourceBuilder::<()>::get_id("noext"), "noext");
}

#[test]
fn resource_sources_end_in_md() {
    assert!(is_resource_source("post.md"));
    assert!(!is_resource_source("post.mdx"));
    assert!(!is_resource_source("post.txt"));
    assert!(!is_resource_source(".md"));
    assert!(!is_resource_source("md"));
}

#[test]
fn decimal_and_order() {
    assert_eq!(decimal_string(0), "0");
    assert_eq!(decimal_string(1204), "1204");
    assert!(str_lt("a", "b"));
    assert!(str_lt("ab", "abc"));
    assert!(!str_lt("abc", "ab"));
    assert!(!str_lt("same", "same"));
    assert!(str_lt("Z", "a"));
}

#[test]
fn tags_collected_and_ordered() {
    let items = vec![
        ("p".to_string(), meta("p", 3, &["b", "a", "a"], ())),
        ("q".to_string(), meta("q", 2, &["c"], ())),
        ("r".to_string(), meta("r", 1, &["a", "c"], ())),
    ];
    let buckets = collect_tags(&items);
    let order = tag_index_order(&buckets);
    let ranked: Vec<(String, Vec<usize>)> = order.iter().map(|&i| (buckets[i].tag.clone(), buckets[i].items.clone())).collect();
    assert_eq!(
        ranked,
        vec![("a".to_string(), vec![0, 2]), ("c".to_string(), vec![1, 2]), ("b".to_string(), vec![0])]
    );
}

#[test]
fn registry_reloads_one_type_only() {
    let mut reg: ResourceRegistry<()> = ResourceRegistry::new();
    reg.reload(vec![
        ("blog".to_string(), get_blog_resource_config(5)),
        ("images".to_string(), get_images_resource_config(12)),
    ]);
    assert_eq!(reg.builders.len(), 2);
    let files = vec![SourceFile {
        name: "one.md".to_string(),
        document: Ok(FrontMatter { content: String::new(), data: Some(meta("one", 1, &[], ())) }),
    }];
    reg.reload_resource_builder("images", files, BuildMode::Published, "https://cdn.example.com/").unwrap();
    assert_eq!(reg.builders[1].1.loaded_metadata.len(), 1);
    assert!(reg.builders[0].1.loaded_metadata.is_empty());
    let bad = vec![SourceFile::<()> { name: "bad.md".to_string(), document: Err("nope".to_string()) }];
    assert!(matches!(
        reg.reload_resource_builder("images", bad, BuildMode::Published, "https://cdn.example.com/"),
        Err(ReloadError::Load(_))
    ));
    assert_eq!(reg.builders[1].1.loaded_metadata.len(), 1);
    assert!(matches!(
        reg.reload_resource_builder("music", Vec::new(), BuildMode::Published, "https://cdn.example.com/"),
        Err(ReloadError::MissingResourceBuilder { ref name }) if name == "music"
    ));
}

#[test]
fn blog_config_values() {
    let c = get_blog_resource_config(7);
    assert_eq!(c.source_path, "blog");
    assert_eq!(c.resource_template, "blog-post");
    assert_eq!(c.rss_template, "rss/blog-post");
    assert_eq!(c.resource_name_plural, "blog posts");
    assert_eq!(c.resources_per_page, 7);
}

#[test]
fn images_config_values() {
    let c = get_images_resource_config(9);
    assert_eq!(c.source_path, "images");
    assert_eq!(c.output_path_short, "i");
    assert_eq!(c.output_path_long, "images");
    assert_eq!(c.rss_title, "zyl's images");
    assert_eq!(c.resources_per_page, 9);
}

#[test]
fn blog_extra_data_defaults() {
    let post = BlogPostMetadata {
        desc: "about".to_string(),
        header_image_file: "head.png".to_string(),
        header_image_alt: "alt".to_string(),
        image_fit: None,
        image_center: Some("10% 20%".to_string()),
    };
    let extra = post.get_extra_resource_template_data("https://cdn.example.com/").unwrap();
    assert_eq!(extra.header_image, "https://cdn.example.com/head.png");
    assert_eq!(extra.object_fit, "cover");
    assert_eq!(extra.object_position, "10% 20%");
    assert_eq!(post.get_short_desc(), "about");
    let head = post.get_head_data("Post", "site", "https://cdn.example.com/").unwrap();
    assert_eq!(
        head,
        "\n\t\t<meta property=\"og:site_name\" content=\"site\">\n\t\t<meta name=\"twitter:card\" content=\"summary_large_image\">\n\t\t<meta name=\"twitter:title\" content=\"Post\">\n\t\t<meta name=\"twitter:image\" content=\"https://cdn.example.com/head.png\">\n\t\t<meta name=\"og:description\" content=\"about\">\n\t\t"
    );
    assert!(post.get_head_data("Post", "site", "relative").is_none());
}

#[test]
fn image_extension_point() {
    let img = ImageMetadata { alt: "a".to_string(), desc: None, file: "p.jpg".to_string() };
    assert_eq!(img.get_short_desc(), "");
    assert_eq!(img.get_extra_resource_template_data("https://cdn.example.com/x/").unwrap().src, "https://cdn.example.com/x/p.jpg");
    assert_eq!(
        img.get_head_data("Pic", "site", "https://cdn.example.com/").unwrap(),
        "<meta content=\"Pic\" property=\"og:title\"><meta content=\"site\" property=\"og:site_name\"><meta content=\"https://cdn.example.com/p.jpg\" property=\"og:image\"><meta content=\"rgb(255, 196, 252)\" name=\"theme-color\"><meta name=\"twitter:card\" content=\"summary_large_image\">"
    );
}

#[test]
fn extras_by_name() {
    assert_eq!(get_extra("basic"), Some(Extra::Basic));
    assert_eq!(get_extra("resource-list-outside"), Some(Extra::ResourceListOutside));
    assert_eq!(get_extra("other"), None);
}

#[test]
fn page_titles() {
    assert_eq!(page_title("site", &Some("about".to_string())), "site / about");
    assert_eq!(page_title("site", &None), "site");
}

#[test]
fn timestamps_format() {
    let t = Timestamp { unix_seconds: 1704153600, nanosecond: 0, offset_seconds: 3600 };
    assert_eq!(t.to_rfc2822().unwrap(), "Tue, 02 Jan 2024 01:00:00 +0100");
    assert_eq!(t.to_long_date().unwrap(), "Tuesday, January 02, 2024");
    let odd = Timestamp { unix_seconds: 1704153600, nanosecond: 0, offset_seconds: 30 };
    assert!(odd.to_rfc2822().is_none());
    let early = Timestamp { unix_seconds: 0, nanosecond: 5, offset_seconds: 0 };
    assert!(early.is_earlier_than(&t));
    assert!(!t.is_earlier_than(&early));
    let later_nanos = Timestamp { unix_seconds: 0, nanosecond: 6, offset_seconds: -3600 };
    assert!(early.is_earlier_than(&later_nanos));
}
