//! Posts: one blog entry each, read from one file.

use vstd::prelude::*;
use vstd::hash_map::StringHashMap;
pub use crate::collection::PostCollection;
use crate::ext::Tag;
use crate::front_matter::{entry_texts, header_of, FrontMatter, Header, HeaderErr};
use crate::markdown::{
    markdown_html, render, ENABLE_FOOTNOTES, ENABLE_STRIKETHROUGH, ENABLE_TABLES,
    ENABLE_TASKLISTS,
};
use crate::text::{chars_of, find_char, find_from, lemma_find_from, string_of, trim, trim_range};
use crate::time::{parse_date, Date, DateErr, DateErrView};

verus! {

/// The Markdown extensions that a post's body is rendered with: footnotes,
/// struck-through text, tables and task lists.
pub const POST_EXTENSIONS: u32 = ENABLE_FOOTNOTES | ENABLE_STRIKETHROUGH | ENABLE_TABLES
    | ENABLE_TASKLISTS;

/// What the header of a post says about it.
#[derive(Debug)]
pub struct PostMetadata {
    pub slug: String,
    pub author: String,
    pub title: String,
    pub description: Option<String>,
    pub created_date: Date,
    pub modified_date: Option<Date>,
    pub tags: Vec<Tag>,
}

/// A `PostMetadata` as a value.
pub struct PostMetadataView {
    pub slug: Seq<char>,
    pub author: Seq<char>,
    pub title: Seq<char>,
    pub description: Option<Seq<char>>,
    pub created_date: Date,
    pub modified_date: Option<Date>,
    pub tags: Seq<Seq<char>>,
}

impl View for PostMetadata {
    type V = PostMetadataView;

    open spec fn view(&self) -> PostMetadataView {
        PostMetadataView {
            slug: self.slug@,
            author: self.author@,
            title: self.title@,
            description: match self.description {
                Some(d) => Some(d@),
                None => None,
            },
            created_date: self.created_date,
            modified_date: self.modified_date,
            tags: self.tags@.map_values(|t: Tag| t@),
        }
    }
}

/// One blog entry.
#[derive(Debug)]
pub struct Post {
    /// Where the post was read from.
    pub path: String,
    pub meta: PostMetadata,
    /// The body, rendered to HTML.
    pub content: String,
}

/// A `Post` as a value.
pub struct PostView {
    pub path: Seq<char>,
    pub meta: PostMetadataView,
    pub content: Seq<char>,
}

impl View for Post {
    type V = PostView;

    open spec fn view(&self) -> PostView {
        PostView { path: self.path@, meta: self.meta@, content: self.content@ }
    }
}

/// Why a post, or a collection of posts, could not be made.
#[derive(Debug)]
pub enum PostErr {
    /// Reading failed; the text says how.
    Io(String),
    /// The header has no `slug`.
    NoSlug,
    /// The header has no `author`.
    NoAuthor,
    /// The header has no `title`.
    NoTitle,
    /// The header has no `created_date`.
    NoDate,
    /// A date of the header is no date.
    DateParse(DateErr),
    /// Two posts have this slug.
    DuplicateSlug(String),
    /// A line of the header holds no `=`.
    FrontMatterSyntax,
}

/// A `PostErr` as a value.
pub enum PostErrView {
    Io(Seq<char>),
    NoSlug,
    NoAuthor,
    NoTitle,
    NoDate,
    DateParse(DateErrView),
    DuplicateSlug(Seq<char>),
    FrontMatterSyntax,
}

impl View for PostErr {
    type V = PostErrView;

    open spec fn view(&self) -> PostErrView {
        match self {
            PostErr::Io(m) => PostErrView::Io(m@),
            PostErr::NoSlug => PostErrView::NoSlug,
            PostErr::NoAuthor => PostErrView::NoAuthor,
            PostErr::NoTitle => PostErrView::NoTitle,
            PostErr::NoDate => PostErrView::NoDate,
            PostErr::DateParse(e) => PostErrView::DateParse(e@),
            PostErr::DuplicateSlug(s) => PostErrView::DuplicateSlug(s@),
            PostErr::FrontMatterSyntax => PostErrView::FrontMatterSyntax,
        }
    }
}

/// What `PostErr::Io` says of a file that ends before the delimiter line of
/// its header.
pub open spec fn unterminated_header() -> Seq<char> {
    "unexpected end of file before the front-matter delimiter"@
}

/// The tags that a `tags` entry lists, from index `from` of its value on:
/// the pieces between its commas, each trimmed. An empty piece is a tag too.
pub open spec fn tags_from(s: Seq<char>, from: int) -> Seq<Seq<char>>
    decreases s.len() - from,
{
    let end = find_from(s, ',', from);
    if from < 0 || end >= s.len() {
        seq![trim(s.subrange(from, s.len() as int))]
    } else {
        proof {
            lemma_find_from(s, ',', from);
        }
        seq![trim(s.subrange(from, end))] + tags_from(s, end + 1)
    }
}

/// The tags of a header: none where it has no `tags` entry, else those that
/// the entry lists.
pub open spec fn tags_of(entries: Map<Seq<char>, Seq<char>>) -> Seq<Seq<char>> {
    if entries.contains_key("tags"@) {
        tags_from(entries["tags"@], 0)
    } else {
        Seq::empty()
    }
}

/// The entry of `key`, where there is one.
pub open spec fn entry(entries: Map<Seq<char>, Seq<char>>, key: Seq<char>) -> Option<Seq<char>> {
    if entries.contains_key(key) {
        Some(entries[key])
    } else {
        None
    }
}

/// What the entries of a header say of a post. `slug`, `author`, `title` and
/// `created_date` must be there, and the dates must be dates. Of several
/// faults the one reported is the first of: a `modified_date` that is no
/// date, a missing slug, author, title or creation date, a `created_date`
/// that is no date.
pub open spec fn metadata_of(entries: Map<Seq<char>, Seq<char>>) -> Result<
    PostMetadataView,
    PostErrView,
> {
    if entries.contains_key("modified_date"@) && parse_date(entries["modified_date"@]) is Err {
        Err(PostErrView::DateParse(parse_date(entries["modified_date"@])->Err_0))
    } else if !entries.contains_key("slug"@) {
        Err(PostErrView::NoSlug)
    } else if !entries.contains_key("author"@) {
        Err(PostErrView::NoAuthor)
    } else if !entries.contains_key("title"@) {
        Err(PostErrView::NoTitle)
    } else if !entries.contains_key("created_date"@) {
        Err(PostErrView::NoDate)
    } else if parse_date(entries["created_date"@]) is Err {
        Err(PostErrView::DateParse(parse_date(entries["created_date"@])->Err_0))
    } else {
        Ok(
            PostMetadataView {
                slug: entries["slug"@],
                author: entries["author"@],
                title: entries["title"@],
                description: entry(entries, "description"@),
                created_date: parse_date(entries["created_date"@])->Ok_0,
                modified_date: if entries.contains_key("modified_date"@) {
                    Some(parse_date(entries["modified_date"@])->Ok_0)
                } else {
                    None
                },
                tags: tags_of(entries),
            },
        )
    }
}

/// The post that the file at `path` with the text `text` holds: its header
/// read, its body rendered.
pub open spec fn post_of(path: Seq<char>, text: Seq<char>) -> Result<PostView, PostErrView> {
    match header_of(text) {
        Header::Syntax => Err(PostErrView::FrontMatterSyntax),
        Header::Unterminated => Err(PostErrView::Io(unterminated_header())),
        Header::Entries { entries, body } => match metadata_of(entries) {
            Err(e) => Err(e),
            Ok(meta) => Ok(
                PostView {
                    path,
                    meta,
                    content: markdown_html(
                        text.subrange(body, text.len() as int),
                        POST_EXTENSIONS,
                    ),
                },
            ),
        },
    }
}

/// The tags that the value of a `tags` entry lists.
pub fn split_tags(value: &str) -> (tags: Vec<Tag>)
    ensures
        tags@.map_values(|t: Tag| t@) == tags_from(value@, 0),
{
    let v = chars_of(value);
    let n = v.len();
    let mut tags: Vec<Tag> = Vec::new();
    let mut from: usize = 0;
    loop
        invariant_except_break
            from <= n,
            tags_from(v@, 0) == tags@.map_values(|t: Tag| t@) + tags_from(v@, from as int),
        invariant
            n == v.len(),
            v@ == value@,
        ensures
            tags@.map_values(|t: Tag| t@) == tags_from(v@, 0),
        decreases n - from,
    {
        let end = find_char(&v, ',', from, n);
        assert(v@.subrange(0, n as int) == v@);
        let (a, b) = trim_range(&v, from, end);
        let tag = Tag(string_of(&v, a, b));
        let ghost before = tags@.map_values(|t: Tag| t@);
        tags.push(tag);
        assert(tags@.map_values(|t: Tag| t@) == before.push(tag@));
        if end >= n {
            assert(before + seq![tag@] == before.push(tag@));
            break ;
        }
        proof {
            let rest = tags_from(v@, end + 1);
            assert(before + (seq![tag@] + rest) == before.push(tag@) + rest);
        }
        from = end + 1;
    }
    tags
}

/// A copy of the entry of `key`, where there is one.
fn entry_copy(entries: &StringHashMap<String>, key: &str) -> (r: Option<String>)
    ensures
        match r {
            Some(s) => entry(entry_texts(entries@), key@) == Some(s@),
            None => entry(entry_texts(entries@), key@) is None,
        },
{
    match entries.get(key) {
        Some(s) => Some(s.clone()),
        None => None,
    }
}

impl Post {
    /// Reads a post from the text of its file.
    pub fn from_file(path: String, text: &str) -> (r: Result<Post, PostErr>)
        ensures
            match r {
                Ok(p) => post_of(path@, text@) == Ok::<PostView, PostErrView>(p@),
                Err(e) => post_of(path@, text@) == Err::<PostView, PostErrView>(e@),
            },
    {
        let fm = match FrontMatter::parse(text) {
            Ok(fm) => fm,
            Err(HeaderErr::Syntax) => {
                return Err(PostErr::FrontMatterSyntax);
            },
            Err(HeaderErr::Unterminated) => {
                return Err(
                    PostErr::Io(
                        "unexpected end of file before the front-matter delimiter".to_owned(),
                    ),
                );
            },
        };
        let meta = match Post::parse_metadata(&fm.entries) {
            Ok(meta) => meta,
            Err(e) => {
                return Err(e);
            },
        };
        let content = Post::parse_content(fm.body.as_str());
        Ok(Post { path, meta, content })
    }

    /// Makes a post's metadata of the entries of its header.
    pub fn parse_metadata(entries: &StringHashMap<String>) -> (r: Result<PostMetadata, PostErr>)
        ensures
            match r {
                Ok(meta) => metadata_of(entry_texts(entries@)) == Ok::<
                    PostMetadataView,
                    PostErrView,
                >(meta@),
                Err(e) => metadata_of(entry_texts(entries@)) == Err::<
                    PostMetadataView,
                    PostErrView,
                >(e@),
            },
    {
        let modified_date: Option<Date> = match entries.get("modified_date") {
            None => None,
            Some(text) => match Date::from_str(text.as_str()) {
                Ok(d) => Some(d),
                Err(e) => {
                    return Err(PostErr::DateParse(e));
                },
            },
        };
        let slug = match entry_copy(entries, "slug") {
            Some(s) => s,
            None => {
                return Err(PostErr::NoSlug);
            },
        };
        let author = match entry_copy(entries, "author") {
            Some(s) => s,
            None => {
                return Err(PostErr::NoAuthor);
            },
        };
        let title = match entry_copy(entries, "title") {
            Some(s) => s,
            None => {
                return Err(PostErr::NoTitle);
            },
        };
        let description = entry_copy(entries, "description");
        let created_date: Date = match entries.get("created_date") {
            None => {
                return Err(PostErr::NoDate);
            },
            Some(text) => match Date::from_str(text.as_str()) {
                Ok(d) => d,
                Err(e) => {
                    return Err(PostErr::DateParse(e));
                },
            },
        };
        let tags: Vec<Tag> = match entries.get("tags") {
            None => Vec::new(),
            Some(text) => split_tags(text.as_str()),
        };
        let meta = PostMetadata {
            slug,
            author,
            title,
            description,
            created_date,
            modified_date,
            tags,
        };
        proof {
            let m = entry_texts(entries@);
            if !m.contains_key("tags"@) {
                assert(meta@.tags == Seq::<Seq<char>>::empty());
            }
            assert(meta@ == metadata_of(m)->Ok_0);
        }
        Ok(meta)
    }

    /// Renders the body of a post, which is Markdown, to HTML.
    pub fn parse_content(body: &str) -> (html: String)
        ensures
            html@ == markdown_html(body@, POST_EXTENSIONS),
    {
        render(body, POST_EXTENSIONS)
    }
}

} // verus!
