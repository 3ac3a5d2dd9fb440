//! What the pages of the site are made of: the templates and the posts, and
//! what a request for a page that is not there comes to.

use vstd::prelude::*;
use std::collections::hash_map::RandomState;
use crate::collection::{post_ref_views, snapshot_posts, PostCollection, SourceFile};
use crate::ext::Tag;
use crate::post::{Post, PostErr};
use crate::sorting::post_views;

verus! {

/// The template collection of `ramhorns`.
#[verifier::external_type_specification]
#[verifier::external_body]
#[verifier::reject_recursive_types(H)]
pub struct ExRamhorns<H>(ramhorns::Ramhorns<H>);

/// A parsed template of `ramhorns`.
#[verifier::external_type_specification]
#[verifier::external_body]
pub struct ExTemplate<'tpl>(ramhorns::Template<'tpl>);

/// The error of `ramhorns`.
#[verifier::external_type_specification]
#[verifier::external_body]
pub struct ExTemplateError(ramhorns::Error);

/// The names under which a template collection holds templates.
pub uninterp spec fn template_names(templates: ramhorns::Ramhorns<RandomState>) -> Set<Seq<char>>;

/// `Ramhorns::get`: the template held under `name`, where the collection
/// holds one under that name.
#[verifier::external_body]
fn find_template<'a>(templates: &'a ramhorns::Ramhorns<RandomState>, name: &str) -> (t: Option<
    &'a ramhorns::Template<'static>,
>)
    ensures
        t is Some <==> template_names(*templates).contains(name@),
{
    templates.get(name)
}

/// Why a page cannot be shown.
#[derive(Debug)]
pub enum RouteErr {
    /// No template of this name is loaded.
    NoTemplate(String),
    /// No post has this slug.
    NoPost(String),
    /// No post carries this tag.
    NoTag(String),
}

/// A `RouteErr` as a value.
pub enum RouteErrView {
    NoTemplate(Seq<char>),
    NoPost(Seq<char>),
    NoTag(Seq<char>),
}

impl View for RouteErr {
    type V = RouteErrView;

    open spec fn view(&self) -> RouteErrView {
        match self {
            RouteErr::NoTemplate(s) => RouteErrView::NoTemplate(s@),
            RouteErr::NoPost(s) => RouteErrView::NoPost(s@),
            RouteErr::NoTag(s) => RouteErrView::NoTag(s@),
        }
    }
}

impl RouteErrView {
    /// What the error says to a visitor.
    pub open spec fn message(self) -> Seq<char> {
        match self {
            RouteErrView::NoTemplate(s) => "Could not load template "@ + s,
            RouteErrView::NoPost(s) => "No post with slug "@ + s,
            RouteErrView::NoTag(s) => "No tag "@ + s,
        }
    }

    /// The HTTP status that the error is answered with: 500 for a template
    /// that is missing, which is the site's fault, 404 for a post or a tag
    /// that is not there.
    pub open spec fn status(self) -> int {
        match self {
            RouteErrView::NoTemplate(_) => 500,
            RouteErrView::NoPost(_) => 404,
            RouteErrView::NoTag(_) => 404,
        }
    }
}

impl RouteErr {
    /// What the error says to a visitor.
    pub fn to_string(&self) -> (s: String)
        ensures
            s@ == self@.message(),
    {
        match self {
            RouteErr::NoTemplate(name) => {
                let mut s = "Could not load template ".to_owned();
                s.append(name.as_str());
                s
            },
            RouteErr::NoPost(name) => {
                let mut s = "No post with slug ".to_owned();
                s.append(name.as_str());
                s
            },
            RouteErr::NoTag(name) => {
                let mut s = "No tag ".to_owned();
                s.append(name.as_str());
                s
            },
        }
    }

    /// The HTTP status that the error is answered with.
    pub fn status_code(&self) -> (code: u16)
        ensures
            code == self@.status(),
    {
        match self {
            RouteErr::NoTemplate(_) => 500,
            RouteErr::NoPost(_) => 404,
            RouteErr::NoTag(_) => 404,
        }
    }
}

/// What a request that was turned down is answered with: the status and the
/// message of the error page. A page that is not there at all is a 404; an
/// error of the site's own is answered as that error says; anything else is
/// a 500 with the text given for it.
pub open spec fn error_reply_of(not_found: bool, err: Option<RouteErrView>, other: Seq<char>) -> (
    int,
    Seq<char>,
) {
    if not_found {
        (404, "Not Found"@)
    } else {
        match err {
            Some(e) => (e.status(), e.message()),
            None => (500, "Unhandled: "@ + other),
        }
    }
}

/// The status and the message of the error page for a request that was
/// turned down. `not_found` says that no route took the request, `err` is
/// the site's own error where the request failed with one, and `other`
/// describes the failure where it is neither.
pub fn error_reply(not_found: bool, err: Option<&RouteErr>, other: &str) -> (r: (u16, String))
    ensures
        (r.0 as int, r.1@) == error_reply_of(
            not_found,
            match err {
                Some(e) => Some(e@),
                None => None,
            },
            other@,
        ),
{
    if not_found {
        (404, "Not Found".to_owned())
    } else {
        match err {
            Some(e) => (e.status_code(), e.to_string()),
            None => {
                let mut s = "Unhandled: ".to_owned();
                s.append(other);
                (500, s)
            },
        }
    }
}

/// How many posts the landing page shows.
pub const LANDING_POSTS: usize = 5;

/// The post that the page of `slug` shows.
pub fn find_post<'a>(posts: &'a PostCollection, slug: String) -> (r: Result<&'a Post, RouteErr>)
    ensures
        match r {
            Ok(p) => posts@.post_of_slug(slug@) == Some(p@),
            Err(e) => posts@.post_of_slug(slug@) is None && e@ == RouteErrView::NoPost(slug@),
        },
{
    match posts.get_by_slug(slug.as_str()) {
        Some(p) => Ok(p),
        None => Err(RouteErr::NoPost(slug)),
    }
}

/// The posts that the page of `tag` lists: those that carry the tag, which
/// must be one at least.
pub fn find_tagged<'a>(posts: &'a PostCollection, tag: String) -> (r: Result<
    Vec<&'a Post>,
    RouteErr,
>)
    ensures
        match r {
            Ok(found) => found.len() > 0 && post_ref_views(found@) == posts@.posts_of_tag(tag@),
            Err(e) => posts@.posts_of_tag(tag@).len() == 0 && e@ == RouteErrView::NoTag(tag@),
        },
{
    let key = Tag(tag);
    let found = posts.get_by_tag(&key);
    assert(post_ref_views(found@).len() == found@.len());
    if found.len() == 0 {
        Err(RouteErr::NoTag(key.0))
    } else {
        Ok(found)
    }
}

/// The posts that the landing page shows: the newest ones, `LANDING_POSTS`
/// of them at most.
pub fn landing_posts<'a>(posts: &'a PostCollection) -> (r: Vec<&'a Post>)
    ensures
        post_ref_views(r@) == posts@.posts.take(
            if posts@.posts.len() < LANDING_POSTS {
                posts@.posts.len() as int
            } else {
                LANDING_POSTS as int
            },
        ),
{
    let all = posts.posts();
    let n: usize = if all.len() < LANDING_POSTS {
        all.len()
    } else {
        LANDING_POSTS
    };
    let mut shown: Vec<&Post> = Vec::new();
    let mut i: usize = 0;
    assert(post_ref_views(shown@) == posts@.posts.take(0));
    while i < n
        invariant
            i <= n <= all.len(),
            post_views(all@) == posts@.posts,
            post_ref_views(shown@) == posts@.posts.take(i as int),
        decreases n - i,
    {
        let ghost before = post_ref_views(shown@);
        let post = &all[i];
        shown.push(post);
        assert(post_ref_views(shown@) == before.push(post@));
        assert(post_views(all@)[i as int] == post@);
        assert(posts@.posts.take(i + 1) == posts@.posts.take(i as int).push(post@));
        i += 1;
    }
    shown
}

/// Why the content of the site could not be made.
#[derive(Debug)]
pub enum InitContentErr {
    /// The templates could not be loaded.
    Ramhorns(ramhorns::Error),
    /// The posts could not be loaded.
    Post(PostErr),
}

/// Everything that pages are made of and that a reload replaces: the
/// templates and the posts.
pub struct DynamicContent {
    pub ramhorns: ramhorns::Ramhorns<RandomState>,
    pub posts: PostCollection,
}

impl DynamicContent {
    /// Makes the content of the loaded templates, or of the error that
    /// loading them gave, and of the files of the posts folder. A failure of
    /// the templates comes before one of the posts.
    pub fn init(
        templates: Result<ramhorns::Ramhorns<RandomState>, ramhorns::Error>,
        files: &Vec<SourceFile>,
    ) -> (r: Result<DynamicContent, InitContentErr>)
        ensures
            match templates {
                Err(e) => r matches Err(InitContentErr::Ramhorns(f)) && f == e,
                Ok(t) => match snapshot_posts(files@) {
                    Err(e) => r matches Err(InitContentErr::Post(f)) && f@ == e,
                    Ok(posts) => r matches Ok(c) && c.ramhorns == t && c.posts@.posts == posts
                        && c.posts@.wf(),
                },
            },
    {
        let ramhorns = match templates {
            Ok(t) => t,
            Err(e) => {
                return Err(InitContentErr::Ramhorns(e));
            },
        };
        match PostCollection::from_folder(files) {
            Ok(posts) => Ok(DynamicContent { ramhorns, posts }),
            Err(e) => Err(InitContentErr::Post(e)),
        }
    }

    /// The template of the given name.
    pub fn get_template(&self, tmpl: &str) -> (r: Result<&ramhorns::Template<'static>, RouteErr>)
        ensures
            match r {
                Ok(_) => template_names(self.ramhorns).contains(tmpl@),
                Err(e) => !template_names(self.ramhorns).contains(tmpl@) && e@
                    == RouteErrView::NoTemplate(tmpl@),
            },
    {
        match find_template(&self.ramhorns, tmpl) {
            Some(t) => Ok(t),
            None => Err(RouteErr::NoTemplate(tmpl.to_owned())),
        }
    }
}

} // verus!
