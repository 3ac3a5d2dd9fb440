use quatweb::ext::Tag;
use quatweb::markdown::{ENABLE_FOOTNOTES, ENABLE_STRIKETHROUGH, ENABLE_TABLES, ENABLE_TASKLISTS};
use quatweb::number::NumberErr;
use quatweb::post::{split_tags, Post, PostErr, POST_EXTENSIONS};
use quatweb::time::{Date, DateErr, Month, MonthErr};

const FULL: &str = "# my first post\n\
slug=hello-world\n\
author=quat\n\
title=Hello, world\n\
description=The first one\n\
created_date=Jan 3, 2020\n\
modified_date=Feb 4, 2021\n\
tags=rust, web ,rust\n\
unknown=kept and ignored\n\
---\n\
Hello *world*\n";

fn load(text: &str) -> Post {
    Post::from_file("posts/p.md".to_string(), text).unwrap()
}

fn fault(text: &str) -> PostErr {
    Post::from_file("posts/p.md".to_string(), text).unwrap_err()
}

fn tags(list: &[&str]) -> Vec<Tag> {
    list.iter().map(|t| Tag(t.to_string())).collect()
}

#[test]
fn post_is_read_from_header_and_body() {
    let post = load(FULL);
    assert_eq!(post.path, "posts/p.md");
    assert_eq!(post.meta.slug, "hello-world");
    assert_eq!(post.meta.author, "quat");
    assert_eq!(post.meta.title, "Hello, world");
    assert_eq!(post.meta.description, Some("The first one".to_string()));
    assert_eq!(post.meta.created_date, Date { year: 2020, month: Month::January, day: 3 });
    assert_eq!(
        post.meta.modified_date,
        Some(Date { year: 2021, month: Month::February, day: 4 })
    );
    assert_eq!(post.meta.tags, tags(&["rust", "web", "rust"]));
    assert_eq!(post.content, "<p>Hello <em>world</em></p>\n");
}

#[test]
fn post_without_optional_entries_has_none_of_them() {
    let post = load("slug=s\nauthor=a\ntitle=t\ncreated_date=Jan 1, 2020\n---\n");
    assert_eq!(post.meta.description, None);
    assert_eq!(post.meta.modified_date, None);
    assert_eq!(post.meta.tags, Vec::<Tag>::new());
    assert_eq!(post.content, "");
}

#[test]
fn post_without_slug_is_refused() {
    assert!(matches!(
        fault("author=a\ntitle=t\ncreated_date=Jan 1, 2020\n---\n"),
        PostErr::NoSlug
    ));
}

#[test]
fn post_without_author_is_refused() {
    assert!(matches!(
        fault("slug=s\ntitle=t\ncreated_date=Jan 1, 2020\n---\n"),
        PostErr::NoAuthor
    ));
}

#[test]
fn post_without_title_is_refused() {
    assert!(matches!(
        fault("slug=s\nauthor=a\ncreated_date=Jan 1, 2020\n---\n"),
        PostErr::NoTitle
    ));
}

#[test]
fn post_without_creation_date_is_refused() {
    assert!(matches!(fault("slug=s\nauthor=a\ntitle=t\n---\n"), PostErr::NoDate));
}

#[test]
fn post_with_a_date_that_is_none_is_refused() {
    assert!(matches!(
        fault("slug=s\nauthor=a\ntitle=t\ncreated_date=yesterday\n---\n"),
        PostErr::DateParse(DateErr::Not3Parts)
    ));
    assert!(matches!(
        fault("slug=s\nauthor=a\ntitle=t\ncreated_date=Jan 1, 2020\nmodified_date=Jan 300, 2020\n---\n"),
        PostErr::DateParse(DateErr::DayParse(NumberErr::PosOverflow))
    ));
    match fault("slug=s\nauthor=a\ntitle=t\ncreated_date=Smarch 1, 2020\n---\n") {
        PostErr::DateParse(DateErr::Month(MonthErr::NotMonth(name))) => assert_eq!(name, "sma"),
        other => panic!("unexpected: {:?}", other),
    }
}

#[test]
fn post_faults_are_reported_in_a_fixed_order() {
    // A bad modification date comes before anything that is missing.
    assert!(matches!(fault("modified_date=never\n---\n"), PostErr::DateParse(_)));
    // What is missing is named in the order slug, author, title, date.
    assert!(matches!(fault("created_date=never\n---\n"), PostErr::NoSlug));
    assert!(matches!(fault("slug=s\ncreated_date=never\n---\n"), PostErr::NoAuthor));
    assert!(matches!(fault("slug=s\nauthor=a\ncreated_date=never\n---\n"), PostErr::NoTitle));
    assert!(matches!(
        fault("slug=s\nauthor=a\ntitle=t\ncreated_date=never\n---\n"),
        PostErr::DateParse(_)
    ));
}

#[test]
fn post_with_a_broken_header_is_refused() {
    assert!(matches!(fault("slug=s\nwhat is this\n---\n"), PostErr::FrontMatterSyntax));
}

#[test]
fn post_that_ends_before_the_delimiter_is_refused() {
    match fault("slug=s\nauthor=a\ntitle=t\ncreated_date=Jan 1, 2020\n") {
        PostErr::Io(message) => {
            assert_eq!(message, "unexpected end of file before the front-matter delimiter")
        }
        other => panic!("unexpected: {:?}", other),
    }
    assert!(matches!(fault(""), PostErr::Io(_)));
}

#[test]
fn tags_are_split_at_commas_and_trimmed() {
    assert_eq!(split_tags("x,y"), tags(&["x", "y"]));
    assert_eq!(split_tags("  one tag  "), tags(&["one tag"]));
    assert_eq!(split_tags("a , b,c ,  d"), tags(&["a", "b", "c", "d"]));
}

#[test]
fn tags_keep_empty_pieces() {
    assert_eq!(split_tags(""), tags(&[""]));
    assert_eq!(split_tags(","), tags(&["", ""]));
    assert_eq!(split_tags("a,,b,"), tags(&["a", "", "b", ""]));
    // An entry without a value lists one empty tag; no entry lists none.
    let post = load("slug=s\nauthor=a\ntitle=t\ncreated_date=Jan 1, 2020\ntags=\n---\n");
    assert_eq!(post.meta.tags, tags(&[""]));
}

#[test]
fn body_is_handed_to_markdown_whole() {
    // A paragraph that runs over two lines stays one paragraph, and a
    // reference that is defined below is resolved.
    let post = load(
        "slug=s\nauthor=a\ntitle=t\ncreated_date=Jan 1, 2020\n---\nfirst\nsecond [site]\n\n[site]: http://example.com\n",
    );
    assert_eq!(
        post.content,
        "<p>first\nsecond <a href=\"http://example.com\">site</a></p>\n"
    );
}

#[test]
fn markdown_is_rendered_to_html() {
    assert_eq!(Post::parse_content("# Title\n\ntext\n"), "<h1>Title</h1>\n<p>text</p>\n");
    assert_eq!(Post::parse_content(""), "");
}

#[test]
fn markdown_strikethrough_is_enabled() {
    assert_eq!(Post::parse_content("~~gone~~\n"), "<p><del>gone</del></p>\n");
}

#[test]
fn markdown_tables_are_enabled() {
    let html = Post::parse_content("| a | b |\n|---|---|\n| 1 | 2 |\n");
    assert!(html.starts_with("<table>"), "{}", html);
    assert!(html.contains("<td>1</td>"), "{}", html);
}

#[test]
fn markdown_task_lists_are_enabled() {
    let html = Post::parse_content("- [x] done\n- [ ] open\n");
    assert!(html.contains("type=\"checkbox\""), "{}", html);
    assert!(html.contains("checked"), "{}", html);
}

#[test]
fn markdown_footnotes_are_enabled() {
    let html = Post::parse_content("Text[^1]\n\n[^1]: The note.\n");
    assert!(html.contains("footnote-reference"), "{}", html);
    assert!(html.contains("footnote-definition"), "{}", html);
}

#[test]
fn markdown_smart_punctuation_is_not_enabled() {
    assert_eq!(Post::parse_content("\"quoted\" -- text\n"), "<p>&quot;quoted&quot; -- text</p>\n");
}

#[test]
fn the_extensions_of_a_post_are_the_four() {
    assert_eq!(POST_EXTENSIONS, 2 | 4 | 8 | 16);
    let wanted = pulldown_cmark::Options::ENABLE_FOOTNOTES
        | pulldown_cmark::Options::ENABLE_STRIKETHROUGH
        | pulldown_cmark::Options::ENABLE_TABLES
        | pulldown_cmark::Options::ENABLE_TASKLISTS;
    assert_eq!(pulldown_cmark::Options::from_bits(POST_EXTENSIONS), Some(wanted));
}

#[test]
fn the_bits_of_the_extensions_are_those_of_the_renderer() {
    assert_eq!(ENABLE_TABLES, pulldown_cmark::Options::ENABLE_TABLES.bits());
    assert_eq!(ENABLE_FOOTNOTES, pulldown_cmark::Options::ENABLE_FOOTNOTES.bits());
    assert_eq!(ENABLE_STRIKETHROUGH, pulldown_cmark::Options::ENABLE_STRIKETHROUGH.bits());
    assert_eq!(ENABLE_TASKLISTS, pulldown_cmark::Options::ENABLE_TASKLISTS.bits());
}

#[test]
fn a_post_is_rendered_as_the_renderer_renders_its_body() {
    let body = "# Title\n\n| a |\n|---|\n| 1 |\n\n~~x~~ and [^n]\n\n- [ ] task\n\n[^n]: note\n";
    let wanted = {
        let options = pulldown_cmark::Options::from_bits_truncate(POST_EXTENSIONS);
        let mut html = String::new();
        pulldown_cmark::html::push_html(&mut html, pulldown_cmark::Parser::new_ext(body, options));
        html
    };
    let text = format!("slug=s\nauthor=a\ntitle=t\ncreated_date=Jan 1, 2020\n---\n{}", body);
    assert_eq!(load(&text).content, wanted);
    assert_ne!(wanted, body);
}

#[test]
fn the_collection_is_reached_from_the_posts_module_too() {
    let c = quatweb::post::PostCollection::from_posts(vec![load(FULL)]).ok().unwrap();
    assert_eq!(c.get_by_slug("hello-world").unwrap().meta.author, "quat");
}
