use quatweb::collection::{PostCollection, SourceFile};
use quatweb::ext::Tag;
use quatweb::post::{Post, PostErr};
use quatweb::sorting::sort_by_date;
use quatweb::time::DateErr;

fn file(path: &str, text: &str) -> SourceFile {
    SourceFile::Read { path: path.to_string(), text: text.to_string() }
}

fn unreadable(message: &str) -> SourceFile {
    SourceFile::Failed { message: message.to_string() }
}

fn read(file: &SourceFile) -> Post {
    match file {
        SourceFile::Read { path, text } => Post::from_file(path.clone(), text).unwrap(),
        SourceFile::Failed { message } => panic!("unreadable: {}", message),
    }
}

fn post_file(slug: &str, date: &str, tags: Option<&str>) -> SourceFile {
    let mut text = format!("slug={}\nauthor=quat\ntitle=Post {}\ncreated_date={}\n", slug, slug, date);
    if let Some(tags) = tags {
        text.push_str(&format!("tags={}\n", tags));
    }
    text.push_str(&format!("---\nBody of {}.\n", slug));
    file(&format!("posts/{}.md", slug), &text)
}

fn build(files: Vec<SourceFile>) -> PostCollection {
    match PostCollection::from_folder(&files) {
        Ok(c) => c,
        Err(e) => panic!("no snapshot: {:?}", e),
    }
}

fn fault(files: Vec<SourceFile>) -> PostErr {
    match PostCollection::from_folder(&files) {
        Ok(_) => panic!("a snapshot was made"),
        Err(e) => e,
    }
}

fn slugs(posts: &[&Post]) -> Vec<String> {
    posts.iter().map(|p| p.meta.slug.clone()).collect()
}

fn all_slugs(c: &PostCollection) -> Vec<String> {
    c.posts().iter().map(|p| p.meta.slug.clone()).collect()
}

fn tag(name: &str) -> Tag {
    Tag(name.to_string())
}

#[test]
fn two_posts_are_sorted_and_indexed() {
    let c = build(vec![
        post_file("a", "Jan 1, 2020", Some("x,y")),
        post_file("b", "Feb 2, 2021", Some("y")),
    ]);
    assert_eq!(all_slugs(&c), vec!["b", "a"]);
    assert_eq!(c.index_of_slug("a"), Some(1));
    assert_eq!(c.index_of_slug("b"), Some(0));
    assert_eq!(c.index_of_slug("c"), None);
    assert_eq!(c.indices_of_tag(&tag("x")), vec![1]);
    assert_eq!(c.indices_of_tag(&tag("y")), vec![0, 1]);
    assert_eq!(c.indices_of_tag(&tag("z")), Vec::<usize>::new());
    assert_eq!(c.get_by_slug("a").unwrap().meta.title, "Post a");
    assert_eq!(c.get_by_slug("b").unwrap().content, "<p>Body of b.</p>\n");
    assert!(c.get_by_slug("c").is_none());
    assert_eq!(slugs(&c.get_by_tag(&tag("x"))), vec!["a"]);
    assert_eq!(slugs(&c.get_by_tag(&tag("y"))), vec!["b", "a"]);
    assert!(c.get_by_tag(&tag("z")).is_empty());
    assert_eq!(c.posts()[1].path, "posts/a.md");
}

#[test]
fn two_posts_with_one_slug_make_no_snapshot() {
    let e = fault(vec![
        post_file("dup", "Jan 1, 2020", None),
        post_file("dup", "Feb 2, 2021", None),
    ]);
    assert!(matches!(e, PostErr::DuplicateSlug(slug) if slug == "dup"));
}

#[test]
fn the_duplicate_named_is_the_first_in_sorted_order() {
    // Sorted: n1 (2023), old (2022), n1 (2021), old (2020). The first post
    // whose slug came before is the third.
    let e = fault(vec![
        post_file("old", "Jan 1, 2020", None),
        post_file("n1", "Jan 1, 2021", None),
        post_file("old", "Jan 1, 2022", None),
        post_file("n1", "Jan 1, 2023", None),
    ]);
    assert!(matches!(e, PostErr::DuplicateSlug(slug) if slug == "n1"));
}

#[test]
fn a_file_without_title_aborts_the_build() {
    let e = fault(vec![
        post_file("a", "Jan 1, 2020", None),
        file("posts/bad.md", "slug=bad\nauthor=quat\ncreated_date=Jan 1, 2020\n---\n"),
        post_file("b", "Feb 2, 2021", None),
    ]);
    assert!(matches!(e, PostErr::NoTitle));
}

#[test]
fn the_first_file_that_fails_decides_the_error() {
    let e = fault(vec![
        post_file("a", "Jan 1, 2020", None),
        file("posts/1.md", "slug=one\nauthor=quat\ntitle=t\ncreated_date=soon\n---\n"),
        file("posts/2.md", "no header at all"),
        post_file("a", "Jan 1, 2020", None),
    ]);
    assert!(matches!(e, PostErr::DateParse(DateErr::Not3Parts)));
}

#[test]
fn no_files_make_an_empty_snapshot() {
    let c = build(Vec::new());
    assert!(c.posts().is_empty());
    assert!(c.tags().is_empty());
    assert_eq!(c.index_of_slug(""), None);
    assert!(c.get_by_tag(&tag("")).is_empty());
}

#[test]
fn posts_run_from_the_newest_to_the_oldest() {
    let c = build(vec![
        post_file("post-3", "Mar 3, 2020", None),
        post_file("post-1", "Dec 31, 2021", None),
        post_file("post-5", "Jan 1, 1999", None),
        post_file("post-2", "Mar 4, 2020", None),
        post_file("post-4", "Feb 28, 2020", None),
    ]);
    assert_eq!(all_slugs(&c), vec!["post-1", "post-2", "post-3", "post-4", "post-5"]);
    let posts = c.posts();
    for i in 1..posts.len() {
        assert!(posts[i - 1].meta.created_date >= posts[i].meta.created_date);
    }
    for (i, post) in posts.iter().enumerate() {
        assert_eq!(c.index_of_slug(&post.meta.slug), Some(i));
    }
}

#[test]
fn posts_of_one_date_keep_the_order_of_the_files() {
    let c = build(vec![
        post_file("first", "Jan 1, 2020", None),
        post_file("newer", "Jan 2, 2020", None),
        post_file("second", "Jan 1, 2020", None),
        post_file("older", "Dec 31, 2019", None),
        post_file("third", "Jan 01, 2020", None),
    ]);
    assert_eq!(all_slugs(&c), vec!["newer", "first", "second", "third", "older"]);
}

#[test]
fn sorting_alone_is_stable_too() {
    let files = vec![
        post_file("a", "Jan 1, 2020", None),
        post_file("b", "Jan 1, 2020", None),
        post_file("c", "Jan 1, 2021", None),
        post_file("d", "Jan 1, 2020", None),
    ];
    let posts: Vec<Post> = files.iter().map(read).collect();
    let sorted = sort_by_date(posts);
    let order: Vec<&str> = sorted.iter().map(|p| p.meta.slug.as_str()).collect();
    assert_eq!(order, vec!["c", "a", "b", "d"]);
}

#[test]
fn a_tag_written_twice_on_a_post_counts_once() {
    let c = build(vec![
        post_file("a", "Jan 1, 2020", Some("x, y, x,x")),
        post_file("b", "Jan 2, 2020", Some("y,y")),
    ]);
    assert_eq!(c.indices_of_tag(&tag("x")), vec![1]);
    assert_eq!(c.indices_of_tag(&tag("y")), vec![0, 1]);
    assert_eq!(slugs(&c.get_by_tag(&tag("x"))), vec!["a"]);
    // The post itself keeps its tags as written.
    assert_eq!(c.get_by_slug("a").unwrap().meta.tags, vec![tag("x"), tag("y"), tag("x"), tag("x")]);
}

#[test]
fn tags_are_listed_once_each() {
    let c = build(vec![
        post_file("a", "Jan 1, 2020", Some("x,y")),
        post_file("b", "Feb 2, 2021", Some("y,z,y")),
        post_file("c", "Feb 2, 2019", None),
    ]);
    assert_eq!(c.tags(), &vec![tag("x"), tag("y"), tag("z")]);
    for t in c.tags() {
        assert!(!c.get_by_tag(t).is_empty());
    }
}

#[test]
fn a_tag_leads_to_exactly_the_posts_that_carry_it() {
    let c = build(vec![
        post_file("post-0", "Jan 5, 2020", Some("even")),
        post_file("post-1", "Jan 4, 2020", Some("odd")),
        post_file("post-2", "Jan 3, 2020", Some("even, small")),
        post_file("post-3", "Jan 2, 2020", Some("odd")),
        post_file("post-4", "Jan 1, 2020", Some("even")),
    ]);
    for name in ["even", "odd", "small", "none"] {
        let wanted: Vec<usize> = c
            .posts()
            .iter()
            .enumerate()
            .filter(|(_, p)| p.meta.tags.contains(&tag(name)))
            .map(|(i, _)| i)
            .collect();
        assert_eq!(c.indices_of_tag(&tag(name)), wanted);
    }
    assert_eq!(c.indices_of_tag(&tag("even")), vec![0, 2, 4]);
}

#[test]
fn a_snapshot_is_made_of_posts_as_of_files() {
    let files = vec![
        post_file("a", "Jan 1, 2020", Some("x")),
        post_file("b", "Feb 2, 2021", None),
    ];
    let posts: Vec<Post> = files.iter().map(read).collect();
    let c = PostCollection::from_posts(posts).ok().unwrap();
    assert_eq!(all_slugs(&c), vec!["b", "a"]);
    assert_eq!(c.indices_of_tag(&tag("x")), vec![1]);
}

#[test]
fn a_file_that_could_not_be_read_aborts_the_build() {
    let e = fault(vec![
        post_file("a", "Jan 1, 2020", None),
        unreadable("permission denied"),
        post_file("b", "Feb 2, 2021", None),
    ]);
    assert!(matches!(e, PostErr::Io(message) if message == "permission denied"));
    let e = fault(vec![unreadable("no such folder")]);
    assert!(matches!(e, PostErr::Io(message) if message == "no such folder"));
}

#[test]
fn a_post_that_fails_comes_before_a_later_file_that_could_not_be_read() {
    let e = fault(vec![
        file("posts/bad.md", "slug=bad\n---\n"),
        unreadable("permission denied"),
    ]);
    assert!(matches!(e, PostErr::NoAuthor));
    // Reading comes before the slugs are compared.
    let e = fault(vec![
        post_file("dup", "Jan 1, 2020", None),
        post_file("dup", "Jan 1, 2020", None),
        unreadable("permission denied"),
    ]);
    assert!(matches!(e, PostErr::Io(_)));
}

#[test]
fn tags_are_listed_in_the_order_of_dictionaries() {
    let c = build(vec![
        post_file("a", "Jan 1, 2020", Some("web, Rust, rust, , ab, a, \u{e4}, z\u{1f600}, zz")),
        post_file("b", "Feb 2, 2021", Some("b, abc, rust")),
    ]);
    let listed: Vec<Tag> = c.tags().clone();
    let mut sorted = listed.clone();
    sorted.sort();
    assert_eq!(listed, sorted);
    let names: Vec<&str> = listed.iter().map(|t| t.0.as_str()).collect();
    assert_eq!(
        names,
        vec!["", "Rust", "a", "ab", "abc", "b", "rust", "web", "zz", "z\u{1f600}", "\u{e4}"]
    );
}
