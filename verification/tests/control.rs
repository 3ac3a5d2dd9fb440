use quatweb::collection::SourceFile;
use quatweb::control::{rebuild_dynamic_content, Command, ContentStore};
use quatweb::post::PostErr;
use quatweb::routes::{DynamicContent, InitContentErr};
use ramhorns::Ramhorns;
use std::collections::hash_map::RandomState;
use std::sync::Arc;

fn post_file(slug: &str, date: &str) -> SourceFile {
    SourceFile::Read {
        path: format!("posts/{}.md", slug),
        text: format!("slug={}\nauthor=quat\ntitle=T\ncreated_date={}\n---\nbody\n", slug, date),
    }
}

fn templates() -> Result<Ramhorns<RandomState>, ramhorns::Error> {
    let mut t: Ramhorns<RandomState> = Ramhorns::lazy(".")?;
    t.insert("{{title}}", "page")?;
    Ok(t)
}

fn content(files: &Vec<SourceFile>) -> DynamicContent {
    DynamicContent::init(templates(), files).ok().unwrap()
}

fn slugs(content: &DynamicContent) -> Vec<String> {
    content.posts.posts().iter().map(|p| p.meta.slug.clone()).collect()
}

#[test]
fn commands_are_read_from_lines() {
    assert!(matches!(Command::parse("reload"), Command::Reload));
    assert!(matches!(Command::parse("quit"), Command::Quit));
    assert!(matches!(Command::parse("  reload\r\n"), Command::Reload));
    assert!(matches!(Command::parse("\tquit \n"), Command::Quit));
}

#[test]
fn anything_else_is_no_command() {
    for (line, word) in [
        ("Reload", "Reload"),
        ("QUIT\n", "QUIT"),
        ("reload now\n", "reload now"),
        ("re load", "re load"),
        ("reloads", "reloads"),
        ("quit!", "quit!"),
        ("", ""),
        ("   \n", ""),
        ("help\n", "help"),
    ] {
        match Command::parse(line) {
            Command::Unknown(text) => assert_eq!(text, word),
            other => panic!("unexpected: {:?}", other),
        }
    }
}

#[test]
fn store_serves_what_it_was_made_with() {
    let store = ContentStore::new(content(&vec![post_file("a", "Jan 1, 2020")]));
    assert_eq!(slugs(&store.current()), vec!["a"]);
}

#[test]
fn publishing_replaces_the_live_content_and_spares_what_was_handed_out() {
    let mut store = ContentStore::new(content(&vec![post_file("a", "Jan 1, 2020")]));
    let before: Arc<DynamicContent> = store.current();
    store.publish(content(&vec![post_file("b", "Jan 1, 2020"), post_file("c", "Jan 2, 2020")]));
    assert_eq!(slugs(&store.current()), vec!["c", "b"]);
    assert_eq!(slugs(&before), vec!["a"]);
}

#[test]
fn a_failed_reload_leaves_the_live_content_alone() {
    let mut store = ContentStore::new(content(&vec![post_file("a", "Jan 1, 2020")]));
    let before = store.current();
    let broken = vec![
        post_file("b", "Jan 1, 2020"),
        SourceFile::Read {
            path: "posts/bad.md".to_string(),
            text: "slug=bad\nauthor=quat\ncreated_date=Jan 1, 2020\n---\n".to_string(),
        },
    ];
    let r = rebuild_dynamic_content(&mut store, templates(), &broken);
    assert!(matches!(r, Err(InitContentErr::Post(PostErr::NoTitle))));
    assert_eq!(slugs(&store.current()), vec!["a"]);
    // The very same content is still live.
    assert!(Arc::ptr_eq(&before, &store.current()));
}

#[test]
fn a_reload_without_templates_leaves_the_live_content_alone() {
    let mut store = ContentStore::new(content(&vec![post_file("a", "Jan 1, 2020")]));
    let before = store.current();
    let files = vec![post_file("b", "Jan 1, 2020")];
    let r = rebuild_dynamic_content(&mut store, Err(ramhorns::Error::UnclosedTag), &files);
    assert!(matches!(r, Err(InitContentErr::Ramhorns(ramhorns::Error::UnclosedTag))));
    assert!(Arc::ptr_eq(&before, &store.current()));
}

#[test]
fn a_reload_of_duplicate_slugs_leaves_the_live_content_alone() {
    let mut store = ContentStore::new(content(&vec![post_file("a", "Jan 1, 2020")]));
    let files = vec![post_file("dup", "Jan 1, 2020"), post_file("dup", "Jan 2, 2020")];
    let r = rebuild_dynamic_content(&mut store, templates(), &files);
    assert!(matches!(r, Err(InitContentErr::Post(PostErr::DuplicateSlug(slug))) if slug == "dup"));
    assert_eq!(slugs(&store.current()), vec!["a"]);
}

#[test]
fn a_corrected_reload_after_a_failed_one_is_published() {
    let mut store = ContentStore::new(content(&vec![post_file("a", "Jan 1, 2020")]));
    let broken = vec![SourceFile::Read { path: "posts/b.md".to_string(), text: "slug=b\n".to_string() }];
    assert!(rebuild_dynamic_content(&mut store, templates(), &broken).is_err());
    assert_eq!(slugs(&store.current()), vec!["a"]);
    let mended = vec![post_file("b", "Jan 1, 2020"), post_file("c", "Jan 1, 2021")];
    assert!(rebuild_dynamic_content(&mut store, templates(), &mended).is_ok());
    assert_eq!(slugs(&store.current()), vec!["c", "b"]);
    // Every later read sees the new content.
    assert_eq!(slugs(&store.current()), vec!["c", "b"]);
    assert!(store.current().posts.get_by_slug("a").is_none());
}

#[test]
fn reload_decides_on_what_was_built() {
    let mut store = ContentStore::new(content(&vec![post_file("a", "Jan 1, 2020")]));
    let r = store.reload(Err(InitContentErr::Post(PostErr::NoSlug)));
    assert!(matches!(r, Err(InitContentErr::Post(PostErr::NoSlug))));
    assert_eq!(slugs(&store.current()), vec!["a"]);
    let r = store.reload(Ok(content(&vec![post_file("z", "Jan 1, 2020")])));
    assert!(r.is_ok());
    assert_eq!(slugs(&store.current()), vec!["z"]);
}

#[test]
fn a_reload_that_could_not_read_a_file_leaves_the_live_content_alone() {
    let mut store = ContentStore::new(content(&vec![post_file("a", "Jan 1, 2020")]));
    let files = vec![
        post_file("b", "Jan 1, 2020"),
        SourceFile::Failed { message: "disk on fire".to_string() },
    ];
    let r = rebuild_dynamic_content(&mut store, templates(), &files);
    assert!(matches!(r, Err(InitContentErr::Post(PostErr::Io(m))) if m == "disk on fire"));
    assert_eq!(slugs(&store.current()), vec!["a"]);
}
