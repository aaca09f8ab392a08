use bird_blog::link::parse_interactive_params as parse_link;
use bird_blog::post::{
    calculate_word_count, get_post_by_slug, post_metadata, posts_by_tag, posts_with_tag, sort_posts_by_date,
    split_frontmatter, PostMetadata,
};
use bird_blog::tag::Tag;
use bird_blog::theme::{AppLocale, AppTheme};
use bird_blog::url::{parse_interactive_params, percent_decode, Params};
use std::str::FromStr;

fn meta(title: &str, date: &str, slug: &str) -> PostMetadata {
    post_metadata(title.to_string(), date.to_string(), slug.to_string(), None, "one two")
}

#[test]
fn tag_keys_and_urls() {
    assert_eq!(Tag::AsyncProgramming.i18n_key(), "tag-async-programming");
    assert_eq!(Tag::DevKit.i18n_key(), "tag-devkit");
    assert_eq!(Tag::AsyncProgramming.to_url_string(), "async_programming");
    assert_eq!(Tag::Talk.to_string(), "talk");
    assert_eq!(
        Tag::all(),
        vec![Tag::Dioxus, Tag::Web, Tag::Rust, Tag::AsyncProgramming, Tag::DevKit, Tag::Book, Tag::Talk]
    );
}

#[test]
fn tags_parse_in_any_case() {
    assert_eq!(Tag::from_str("RUST"), Ok(Tag::Rust));
    assert_eq!(Tag::from_str("Dioxus"), Ok(Tag::Dioxus));
    assert_eq!(Tag::from_str("tool"), Ok(Tag::DevKit));
    assert_eq!(Tag::from_str("异步编程"), Ok(Tag::AsyncProgramming));
    assert_eq!(Tag::from_str("书籍"), Ok(Tag::Book));
    assert_eq!(Tag::from_str("devkit"), Err("Unknown tag: devkit".to_string()));
    assert_eq!(Tag::from_lowercase("web"), Some(Tag::Web));
    assert_eq!(Tag::from_lowercase("Web"), None);
}

#[test]
fn percent_decoding() {
    assert_eq!(percent_decode("hello%20world"), "hello world");
    assert_eq!(percent_decode("a+b"), "a b");
    assert_eq!(percent_decode("%41%62c"), "Abc");
    assert_eq!(percent_decode("%zz!"), "%zz!");
    assert_eq!(percent_decode("50%"), "50%");
    assert_eq!(percent_decode("%4"), "%4");
    assert_eq!(percent_decode("%+9"), "\u{9}");
    assert_eq!(percent_decode("%e9"), "\u{e9}");
    assert_eq!(percent_decode(""), "");
}

#[test]
fn params_keep_the_last_value() {
    let mut p = Params::new();
    p.insert("a", "1");
    p.insert("b", "2");
    p.insert("a", "3");
    assert_eq!(p.get("a"), Some("3".to_string()));
    assert_eq!(p.get("b"), Some("2".to_string()));
    assert_eq!(p.get("c"), None);
}

#[test]
fn key_value_parameters() {
    let p = parse_interactive_params("  key1=\"value one\" key2=value2  ");
    assert_eq!(p.get("key1"), Some("value one".to_string()));
    assert_eq!(p.get("key2"), Some("value2".to_string()));
    let p = parse_interactive_params("\"a=\\\"q\\\" b=x\"");
    assert_eq!(p.get("b"), Some("x".to_string()));
    let p = parse_interactive_params("k = v");
    assert_eq!(p.get("k"), Some("v".to_string()));
    let p = parse_interactive_params("   ");
    assert_eq!(p.get(""), None);
    let p = parse_interactive_params("t=\\ x");
    assert_eq!(p.get("t"), Some(" x".to_string()));
}

#[test]
fn interactive_links() {
    let (name, p) = parse_link("interactive:color-picker?color=%23ff0000&size=3&bad", "Pick".to_string());
    assert_eq!(name, "color-picker");
    assert_eq!(p.get("label"), Some("Pick".to_string()));
    assert_eq!(p.get("color"), Some("#ff0000".to_string()));
    assert_eq!(p.get("size"), Some("3".to_string()));
    assert_eq!(p.get("bad"), None);
    let (name, p) = parse_link("code-runner", "Run".to_string());
    assert_eq!(name, "code-runner");
    assert_eq!(p.get("label"), Some("Run".to_string()));
    let (_, p) = parse_link("interactive:x?label=other&a=b=c", "Run".to_string());
    assert_eq!(p.get("label"), Some("other".to_string()));
    assert_eq!(p.get("a"), Some("b=c".to_string()));
}

#[test]
fn word_counts() {
    assert_eq!(calculate_word_count("hello  world\n foo"), 3);
    assert_eq!(calculate_word_count(""), 0);
    assert_eq!(calculate_word_count("  \t "), 0);
    assert_eq!(calculate_word_count("one\u{3000}two"), 2);
}

#[test]
fn frontmatter_split() {
    let r = split_frontmatter("---\ntitle: x\n---\n\n  Body text");
    assert_eq!(r, Some(("\ntitle: x\n".to_string(), "Body text".to_string())));
    assert_eq!(split_frontmatter("no markers"), None);
    assert_eq!(split_frontmatter("---only one"), None);
    let r = split_frontmatter("a---b---c---d");
    assert_eq!(r, Some(("b".to_string(), "c---d".to_string())));
}

#[test]
fn metadata_tags_and_words() {
    let m = post_metadata(
        "T".to_string(),
        "2024-01-01".to_string(),
        "t".to_string(),
        Some(vec!["rust".to_string(), "nope".to_string(), "Web".to_string()]),
        "a b c",
    );
    assert_eq!(m.tags, Some(vec![Tag::Rust, Tag::Web]));
    assert_eq!(m.word_count, 3);
    let m = post_metadata("T".to_string(), "d".to_string(), "t".to_string(), Some(vec!["nope".to_string()]), "");
    assert_eq!(m.tags, None);
    assert_eq!(m.word_count, 0);
}

#[test]
fn posts_sort_newest_first() {
    let mut posts = vec![
        (meta("old", "2023-01-02", "old"), "x".to_string()),
        (meta("bad", "someday", "bad"), "x".to_string()),
        (meta("new", "2024-05-01", "new"), "x".to_string()),
        (meta("mid", "2023-11-30", "mid"), "x".to_string()),
    ];
    sort_posts_by_date(&mut posts);
    let titles: Vec<&str> = posts.iter().map(|p| p.0.title.as_str()).collect();
    assert_eq!(titles, vec!["new", "mid", "old", "bad"]);
}

#[test]
fn posts_found_by_decoded_slug() {
    let posts = vec![
        (meta("A", "2024-01-01", "hello world"), "body a".to_string()),
        (meta("B", "2024-01-02", "other"), "body b".to_string()),
    ];
    let (m, content) = get_post_by_slug(&posts, "hello%20world").unwrap();
    assert_eq!(m.title, "A");
    assert_eq!(content, "body a");
    assert!(get_post_by_slug(&posts, "missing").is_none());
}

#[test]
fn theme_and_locale() {
    assert_eq!(AppTheme::default(), AppTheme::Light);
    assert_eq!(AppTheme::Light.toggled(), AppTheme::Dark);
    assert_eq!(AppTheme::from_stored("dark"), AppTheme::Dark);
    assert_eq!(AppTheme::from_stored("Dark"), AppTheme::Light);
    assert_eq!(AppTheme::Dark.as_str(), "dark");
    assert_eq!(AppLocale::default(), AppLocale::CN);
    assert_eq!(AppLocale::CN.toggled(), AppLocale::EN);
    assert_eq!(AppLocale::from_stored("en"), AppLocale::EN);
    assert_eq!(AppLocale::EN.language_tag(), "en-US");
    assert_eq!(AppLocale::CN.as_str(), "cn");
}

fn tagged_post(title: &str, tags: &[&str]) -> (PostMetadata, String) {
    let names = tags.iter().map(|t| t.to_string()).collect();
    (post_metadata(title.to_string(), "2024-01-01".to_string(), title.to_string(), Some(names), ""), String::new())
}

#[test]
fn posts_filtered_by_tag() {
    let posts = vec![
        tagged_post("a", &["rust", "web"]),
        tagged_post("b", &["talk"]),
        tagged_post("c", &["Rust"]),
        (meta("d", "2024-01-01", "d"), String::new()),
    ];
    assert_eq!(posts_with_tag(&posts, Tag::Rust), vec![0, 2]);
    assert_eq!(posts_with_tag(&posts, Tag::Book), Vec::<usize>::new());
}

#[test]
fn tag_index_in_name_order() {
    let posts = vec![
        tagged_post("a", &["web", "rust"]),
        tagged_post("b", &["talk", "异步编程"]),
        tagged_post("c", &["web"]),
    ];
    let index = posts_by_tag(&posts);
    let tags: Vec<Tag> = index.iter().map(|e| e.0).collect();
    assert_eq!(tags, vec![Tag::AsyncProgramming, Tag::Rust, Tag::Talk, Tag::Web]);
    assert_eq!(index[3].1, vec![0, 2]);
    assert!(posts_by_tag(&Vec::new()).is_empty());
}
