use quatweb::collection::{PostCollection, SourceFile};
use quatweb::post::PostErr;
use quatweb::routes::{
    error_reply, find_post, find_tagged, landing_posts, DynamicContent, InitContentErr, RouteErr,
    LANDING_POSTS,
};
use ramhorns::Ramhorns;
use std::collections::hash_map::RandomState;

fn post_file(slug: &str, date: &str, tags: &str) -> SourceFile {
    SourceFile::Read {
        path: format!("posts/{}.md", slug),
        text: format!(
            "slug={}\nauthor=quat\ntitle=T\ncreated_date={}\ntags={}\n---\nbody\n",
            slug, date, tags
        ),
    }
}

fn snapshot(count: usize) -> PostCollection {
    let mut files = Vec::new();
    for i in 0..count {
        files.push(post_file(&format!("post-{}", i), &format!("Jan {}, 2020", i + 1), "all"));
    }
    PostCollection::from_folder(&files).ok().unwrap()
}

fn templates(names: &[&str]) -> Ramhorns<RandomState> {
    let mut t: Ramhorns<RandomState> = Ramhorns::lazy(".").unwrap();
    for name in names {
        t.insert("<h1>{{title}}</h1>", name.to_string()).unwrap();
    }
    t
}

#[test]
fn route_errors_say_what_is_missing() {
    assert_eq!(
        RouteErr::NoTemplate("post.template.html".to_string()).to_string(),
        "Could not load template post.template.html"
    );
    assert_eq!(RouteErr::NoPost("hello".to_string()).to_string(), "No post with slug hello");
    assert_eq!(RouteErr::NoTag("rust".to_string()).to_string(), "No tag rust");
    assert_eq!(RouteErr::NoTag(String::new()).to_string(), "No tag ");
}

#[test]
fn route_errors_have_their_status() {
    assert_eq!(RouteErr::NoTemplate("t".to_string()).status_code(), 500);
    assert_eq!(RouteErr::NoPost("p".to_string()).status_code(), 404);
    assert_eq!(RouteErr::NoTag("t".to_string()).status_code(), 404);
}

#[test]
fn error_page_for_a_route_that_is_not_there() {
    assert_eq!(error_reply(true, None, "whatever"), (404, "Not Found".to_string()));
    // Not found comes first.
    let e = RouteErr::NoTemplate("t".to_string());
    assert_eq!(error_reply(true, Some(&e), "whatever"), (404, "Not Found".to_string()));
}

#[test]
fn error_page_for_an_error_of_the_site() {
    let e = RouteErr::NoTemplate("index.template.html".to_string());
    assert_eq!(
        error_reply(false, Some(&e), "x"),
        (500, "Could not load template index.template.html".to_string())
    );
    let e = RouteErr::NoPost("nope".to_string());
    assert_eq!(error_reply(false, Some(&e), "x"), (404, "No post with slug nope".to_string()));
    let e = RouteErr::NoTag("nope".to_string());
    assert_eq!(error_reply(false, Some(&e), "x"), (404, "No tag nope".to_string()));
}

#[test]
fn error_page_for_anything_else() {
    assert_eq!(
        error_reply(false, None, "MethodNotAllowed"),
        (500, "Unhandled: MethodNotAllowed".to_string())
    );
}

#[test]
fn a_post_is_found_by_its_slug_or_reported_missing() {
    let c = snapshot(3);
    assert_eq!(find_post(&c, "post-1".to_string()).unwrap().meta.slug, "post-1");
    match find_post(&c, "post-9".to_string()) {
        Err(RouteErr::NoPost(slug)) => assert_eq!(slug, "post-9"),
        other => panic!("unexpected: {:?}", other),
    }
}

#[test]
fn a_tag_without_posts_is_reported_missing() {
    let c = snapshot(3);
    let found = find_tagged(&c, "all".to_string()).unwrap();
    let slugs: Vec<&str> = found.iter().map(|p| p.meta.slug.as_str()).collect();
    assert_eq!(slugs, vec!["post-2", "post-1", "post-0"]);
    match find_tagged(&c, "none".to_string()) {
        Err(RouteErr::NoTag(tag)) => assert_eq!(tag, "none"),
        other => panic!("unexpected: {:?}", other),
    }
}

#[test]
fn the_landing_page_shows_the_newest_five() {
    assert_eq!(LANDING_POSTS, 5);
    let c = snapshot(8);
    let shown: Vec<&str> = landing_posts(&c).iter().map(|p| p.meta.slug.as_str()).collect();
    assert_eq!(shown, vec!["post-7", "post-6", "post-5", "post-4", "post-3"]);
    let c = snapshot(2);
    let shown: Vec<&str> = landing_posts(&c).iter().map(|p| p.meta.slug.as_str()).collect();
    assert_eq!(shown, vec!["post-1", "post-0"]);
    assert!(landing_posts(&snapshot(0)).is_empty());
}

#[test]
fn a_template_is_found_by_its_name_or_reported_missing() {
    let files = vec![post_file("a", "Jan 1, 2020", "x")];
    let content = DynamicContent::init(Ok(templates(&["post.template.html"])), &files)
        .ok()
        .unwrap();
    let template = content.get_template("post.template.html").unwrap();
    assert_eq!(template.source(), "<h1>{{title}}</h1>");
    match content.get_template("tag.template.html") {
        Err(RouteErr::NoTemplate(name)) => assert_eq!(name, "tag.template.html"),
        other => panic!("unexpected: {:?}", other.map(|t| t.source().to_string())),
    }
}

#[test]
fn content_is_made_of_templates_and_posts() {
    let files = vec![post_file("a", "Jan 1, 2020", "x"), post_file("b", "Jan 2, 2020", "x")];
    let content = DynamicContent::init(Ok(templates(&["t"])), &files).ok().unwrap();
    assert_eq!(content.posts.posts().len(), 2);
    assert!(content.ramhorns.get("t").is_some());
}

#[test]
fn content_is_not_made_without_templates() {
    let files = vec![post_file("a", "Jan 1, 2020", "x")];
    let r = DynamicContent::init(Err(ramhorns::Error::UnclosedTag), &files);
    assert!(matches!(r, Err(InitContentErr::Ramhorns(ramhorns::Error::UnclosedTag))));
    // The templates come first, whatever the posts are like.
    let r = DynamicContent::init(Err(ramhorns::Error::StackOverflow), &Vec::new());
    assert!(matches!(r, Err(InitContentErr::Ramhorns(ramhorns::Error::StackOverflow))));
    let bad = vec![SourceFile::Read { path: "p".to_string(), text: String::new() }];
    let r = DynamicContent::init(Err(ramhorns::Error::UnclosedTag), &bad);
    assert!(matches!(r, Err(InitContentErr::Ramhorns(_))));
}

#[test]
fn content_is_not_made_of_posts_that_fail() {
    let files = vec![post_file("a", "Jan 1, 2020", "x"), post_file("a", "Jan 2, 2020", "x")];
    let r = DynamicContent::init(Ok(templates(&[])), &files);
    assert!(matches!(r, Err(InitContentErr::Post(PostErr::DuplicateSlug(slug))) if slug == "a"));
}
