//! The posts of the site as one snapshot: sorted from the newest to the
//! oldest, and indexed by slug and by tag.
//!
//! The indices hold positions in the sequence of posts, never posts. A
//! snapshot is made as a whole and not changed afterwards.

use vstd::prelude::*;
use vstd::hash_map::StringHashMap;
use crate::ext::Tag;
use crate::post::{post_of, Post, PostErr, PostErrView, PostView};
use crate::sorting::{
    distinct_slugs, lemma_sort_desc_distinct, lemma_sort_desc_len, lemma_sort_desc_permutes,
    lemma_sort_desc_sorted, lemma_sort_desc_stable, of_date, post_views, slug_occurs, sort_by_date,
    sort_desc, sorted_desc,
};
use crate::text::{
    lemma_text_lt_total, lemma_text_lt_transitive, lemma_texts_rise_distinct, text_before,
    text_lt, texts_rise,
};
use crate::time::Date;

verus! {

/// Whether the post carries the tag.
pub open spec fn has_tag(p: PostView, t: Seq<char>) -> bool {
    p.meta.tags.contains(t)
}

/// The indices below `n` of the posts that carry the tag `t`, in rising
/// order.
pub open spec fn tagged(posts: Seq<PostView>, t: Seq<char>, n: int) -> Seq<int>
    decreases n,
{
    if n <= 0 {
        Seq::empty()
    } else if n <= posts.len() && has_tag(posts[n - 1], t) {
        tagged(posts, t, n - 1).push(n - 1)
    } else {
        tagged(posts, t, n - 1)
    }
}

/// Whether an earlier post has the slug of the post at `j`.
pub open spec fn repeats_at(posts: Seq<PostView>, j: int) -> bool {
    exists|i: int| 0 <= i < j && (#[trigger] posts[i]).meta.slug == posts[j].meta.slug
}

/// The first index at or after `j` whose post has the slug of an earlier
/// post, or the number of posts where there is none.
pub open spec fn first_repeat_from(posts: Seq<PostView>, j: int) -> int
    decreases posts.len() - j,
{
    if j < 0 || j >= posts.len() {
        posts.len() as int
    } else if repeats_at(posts, j) {
        j
    } else {
        first_repeat_from(posts, j + 1)
    }
}

/// The posts of a snapshot made of `posts`: sorted, where no two of them
/// share a slug. Where some do, the slug named is that of the first post, in
/// sorted order, whose slug an earlier post has.
pub open spec fn index_posts(posts: Seq<PostView>) -> Result<Seq<PostView>, PostErrView> {
    let sorted = sort_desc(posts);
    let j = first_repeat_from(sorted, 0);
    if 0 <= j < sorted.len() {
        Err(PostErrView::DuplicateSlug(sorted[j].meta.slug))
    } else {
        Ok(sorted)
    }
}

/// A snapshot as a value: the posts and the two indices into them.
pub struct PostCollectionView {
    /// The posts, from the newest to the oldest.
    pub posts: Seq<PostView>,
    /// For each slug the index of its post.
    pub by_slug: Map<Seq<char>, int>,
    /// For each tag the indices of the posts that carry it.
    pub by_tag: Map<Seq<char>, Seq<int>>,
    /// The tags, each once, in the order of dictionaries.
    pub tags: Seq<Seq<char>>,
}

impl PostCollectionView {
    /// What holds of every snapshot: the posts are sorted, `by_slug` leads
    /// from the slug of each post to its index and holds nothing else, and
    /// `by_tag` holds, for each tag that some post carries and for no other,
    /// the indices of the posts that carry it, in rising order. `tags` lists
    /// the tags that `by_tag` has, in the order of dictionaries.
    pub open spec fn wf(self) -> bool {
        &&& sorted_desc(self.posts)
        &&& forall|i: int|
            0 <= i < self.posts.len() ==> self.by_slug.contains_key(
                (#[trigger] self.posts[i]).meta.slug,
            ) && self.by_slug[self.posts[i].meta.slug] == i
        &&& forall|s: Seq<char>| #[trigger]
            self.by_slug.contains_key(s) ==> 0 <= self.by_slug[s] < self.posts.len()
                && self.posts[self.by_slug[s]].meta.slug == s
        &&& forall|t: Seq<char>| #[trigger]
            self.by_tag.contains_key(t) <==> tagged(self.posts, t, self.posts.len() as int).len()
                > 0
        &&& forall|t: Seq<char>| #[trigger]
            self.by_tag.contains_key(t) ==> self.by_tag[t] == tagged(
                self.posts,
                t,
                self.posts.len() as int,
            )
        &&& texts_rise(self.tags)
        &&& forall|t: Seq<char>| self.tags.contains(t) <==> #[trigger] self.by_tag.contains_key(t)
    }

    /// The post with the slug, where there is one.
    pub open spec fn post_of_slug(self, slug: Seq<char>) -> Option<PostView> {
        if self.by_slug.contains_key(slug) {
            Some(self.posts[self.by_slug[slug]])
        } else {
            None
        }
    }

    /// The posts that carry the tag, in the order of `posts`.
    pub open spec fn posts_of_tag(self, tag: Seq<char>) -> Seq<PostView> {
        if self.by_tag.contains_key(tag) {
            self.by_tag[tag].map_values(|i: int| self.posts[i])
        } else {
            Seq::empty()
        }
    }
}

/// The indices of a list, as numbers.
pub open spec fn index_seq(v: Seq<usize>) -> Seq<int> {
    v.map_values(|i: usize| i as int)
}

/// The tags of a list, each as its text.
pub open spec fn tag_texts(tags: Seq<Tag>) -> Seq<Seq<char>> {
    tags.map_values(|t: Tag| t@)
}

/// `tagged` holds indices below `n` of posts that carry the tag, in rising
/// order, and misses none.
pub proof fn lemma_tagged(posts: Seq<PostView>, t: Seq<char>, n: int)
    requires
        0 <= n <= posts.len(),
    ensures
        forall|k: int|
            0 <= k < tagged(posts, t, n).len() ==> 0 <= (#[trigger] tagged(posts, t, n)[k]) < n
                && has_tag(posts[tagged(posts, t, n)[k]], t),
        forall|a: int, b: int|
            0 <= a < b < tagged(posts, t, n).len() ==> (#[trigger] tagged(posts, t, n)[a]) < (
            #[trigger] tagged(posts, t, n)[b]),
        forall|i: int| 0 <= i < n && has_tag(#[trigger] posts[i], t) ==> tagged(posts, t, n).contains(i),
    decreases n,
{
    if n > 0 {
        lemma_tagged(posts, t, n - 1);
        let before = tagged(posts, t, n - 1);
        let now = tagged(posts, t, n);
        if has_tag(posts[n - 1], t) {
            assert(now[before.len() as int] == n - 1);
            assert forall|i: int| 0 <= i < n && has_tag(#[trigger] posts[i], t) implies now.contains(
                i,
            ) by {
                if i < n - 1 {
                    let k = choose|k: int| 0 <= k < before.len() && before[k] == i;
                    assert(now[k] == i);
                }
            }
        }
    }
}

/// What the slug index holds when the first `n` posts are indexed.
spec fn slugs_indexed(m: Map<Seq<char>, usize>, ps: Seq<PostView>, n: int) -> bool {
    &&& forall|i: int|
        0 <= i < n ==> m.contains_key((#[trigger] ps[i]).meta.slug) && m[ps[i].meta.slug] == i
    &&& forall|s: Seq<char>| #[trigger]
        m.contains_key(s) ==> 0 <= m[s] < n && ps[m[s] as int].meta.slug == s
}

/// The indices that the tag index holds for `t` when the first `n` posts are
/// indexed and, of the post at `n`, the tags `extra`.
spec fn tagged_so_far(ps: Seq<PostView>, t: Seq<char>, n: int, extra: Seq<Seq<char>>) -> Seq<int> {
    if extra.contains(t) {
        tagged(ps, t, n).push(n)
    } else {
        tagged(ps, t, n)
    }
}

/// What the tag index and the list of tags hold at that point.
spec fn tags_indexed(
    tm: Map<Seq<char>, Vec<usize>>,
    names: Seq<Tag>,
    ps: Seq<PostView>,
    n: int,
    extra: Seq<Seq<char>>,
) -> bool {
    &&& forall|t: Seq<char>| #[trigger]
        tm.contains_key(t) <==> tagged_so_far(ps, t, n, extra).len() > 0
    &&& forall|t: Seq<char>| #[trigger]
        tm.contains_key(t) ==> index_seq(tm[t]@) == tagged_so_far(ps, t, n, extra)
    &&& texts_rise(tag_texts(names))
    &&& forall|t: Seq<char>| tag_texts(names).contains(t) <==> #[trigger] tm.contains_key(t)
}

/// A copy of a list of indices.
fn copy_indices(list: &Vec<usize>) -> (copy: Vec<usize>)
    ensures
        copy@ == list@,
{
    let mut copy: Vec<usize> = Vec::new();
    let mut i: usize = 0;
    while i < list.len()
        invariant
            i <= list.len(),
            copy@ == list@.take(i as int),
        decreases list.len() - i,
    {
        copy.push(list[i]);
        assert(list@.take(i + 1) == list@.take(i as int).push(list@[i as int]));
        i += 1;
    }
    assert(list@.take(list.len() as int) == list@);
    copy
}

/// Puts a tag that the list does not hold at its place in the list.
fn list_tag(names: &mut Vec<Tag>, tag: &Tag)
    requires
        texts_rise(tag_texts(old(names)@)),
        !tag_texts(old(names)@).contains(tag@),
    ensures
        texts_rise(tag_texts(final(names)@)),
        forall|t: Seq<char>|
            tag_texts(final(names)@).contains(t) <==> (tag_texts(old(names)@).contains(t) || t
                == tag@),
{
    let ghost before = tag_texts(names@);
    let mut k: usize = 0;
    while k < names.len() && text_before(names[k].0.as_str(), tag.0.as_str())
        invariant
            k <= names.len(),
            before == tag_texts(names@),
            forall|i: int| 0 <= i < k ==> text_lt(#[trigger] before[i], tag@),
        decreases names.len() - k,
    {
        assert(before[k as int] == names@[k as int]@);
        k += 1;
    }
    proof {
        if k < names.len() {
            assert(before[k as int] == names@[k as int]@);
            assert(before.contains(before[k as int]));
            lemma_text_lt_total(before[k as int], tag@);
        }
    }
    names.insert(k, tag.clone());
    proof {
        let after = tag_texts(names@);
        assert(after == before.insert(k as int, tag@));
        assert forall|i: int, j: int| 0 <= i < j < after.len() implies text_lt(
            #[trigger] after[i],
            #[trigger] after[j],
        ) by {
            if j < k {
                assert(after[i] == before[i] && after[j] == before[j]);
            } else if j == k {
                assert(after[i] == before[i]);
            } else if i < k {
                assert(after[i] == before[i] && after[j] == before[j - 1]);
            } else if i == k {
                assert(after[j] == before[j - 1]);
                if j - 1 > k {
                    assert(text_lt(before[k as int], before[j - 1]));
                    lemma_text_lt_transitive(tag@, before[k as int], before[j - 1]);
                }
            } else {
                assert(after[i] == before[i - 1] && after[j] == before[j - 1]);
            }
        }
        assert forall|t: Seq<char>| after.contains(t) <==> (before.contains(t) || t == tag@) by {
            if after.contains(t) {
                let i = choose|i: int| 0 <= i < after.len() && after[i] == t;
                if i < k {
                    assert(before[i] == t);
                } else if i > k {
                    assert(before[i - 1] == t);
                }
            }
            if before.contains(t) {
                let i = choose|i: int| 0 <= i < before.len() && before[i] == t;
                if i < k {
                    assert(after[i] == t);
                } else {
                    assert(after[i + 1] == t);
                }
            }
            if t == tag@ {
                assert(after[k as int] == t);
            }
        }
    }
}

/// Notes in the tag index that the post at `idx` carries `tag`.
fn index_tag(
    by_tag: &mut StringHashMap<Vec<usize>>,
    names: &mut Vec<Tag>,
    tag: &Tag,
    idx: usize,
    Ghost(ps): Ghost<Seq<PostView>>,
    Ghost(extra): Ghost<Seq<Seq<char>>>,
)
    requires
        idx < ps.len(),
        tags_indexed(old(by_tag)@, old(names)@, ps, idx as int, extra),
    ensures
        tags_indexed(final(by_tag)@, final(names)@, ps, idx as int, extra.push(tag@)),
{
    let ghost t0 = tag@;
    let ghost tm = by_tag@;
    let ghost old_names = tag_texts(names@);
    let ghost more = extra.push(t0);
    proof {
        lemma_tagged(ps, t0, idx as int);
        assert forall|t: Seq<char>| more.contains(t) <==> (extra.contains(t) || t == t0) by {
            if extra.contains(t) {
                let k = choose|k: int| 0 <= k < extra.len() && extra[k] == t;
                assert(more[k] == t);
            }
            if t == t0 {
                assert(more[extra.len() as int] == t);
            }
        }
    }
    let grown: Option<Vec<usize>> = match by_tag.get(tag.0.as_str()) {
        None => {
            let mut list: Vec<usize> = Vec::new();
            list.push(idx);
            proof {
                assert(tagged_so_far(ps, t0, idx as int, extra).len() == 0);
                assert(!extra.contains(t0));
                assert(index_seq(list@) == tagged_so_far(ps, t0, idx as int, more));
            }
            Some(list)
        },
        Some(list) => {
            let len = list.len();
            proof {
                let known = tagged_so_far(ps, t0, idx as int, extra);
                assert(index_seq(list@) == known);
                assert(known.len() > 0);
                assert(index_seq(list@)[len - 1] == list@[len - 1] as int);
                if extra.contains(t0) {
                    assert(known[len - 1] == idx);
                } else {
                    assert(known[len - 1] < idx);
                }
            }
            if list[len - 1] == idx {
                None
            } else {
                let mut longer = copy_indices(list);
                longer.push(idx);
                proof {
                    assert(index_seq(longer@) == index_seq(list@).push(idx as int));
                }
                Some(longer)
            }
        },
    };
    match grown {
        None => {
            proof {
                assert forall|t: Seq<char>|
                    tagged_so_far(ps, t, idx as int, more) == tagged_so_far(
                        ps,
                        t,
                        idx as int,
                        extra,
                    ) by {}
            }
        },
        Some(list) => {
            let fresh = !by_tag.contains_key(tag.0.as_str());
            by_tag.insert(tag.0.clone(), list);
            if fresh {
                list_tag(names, tag);
            }
            proof {
                let now = by_tag@;
                assert(now == tm.insert(t0, list));
                assert forall|t: Seq<char>| t != t0 implies tagged_so_far(ps, t, idx as int, more)
                    == tagged_so_far(ps, t, idx as int, extra) by {}
                assert forall|t: Seq<char>| #[trigger]
                    now.contains_key(t) <==> tagged_so_far(ps, t, idx as int, more).len()
                        > 0 by {
                    if t != t0 {
                        assert(now.contains_key(t) == tm.contains_key(t));
                    }
                }
                assert forall|t: Seq<char>| #[trigger] now.contains_key(t) implies index_seq(
                    now[t]@,
                ) == tagged_so_far(ps, t, idx as int, more) by {
                    if t != t0 {
                        assert(tm.contains_key(t));
                        assert(now[t] == tm[t]);
                    }
                }
                if !fresh {
                    assert(tag_texts(names@) == old_names);
                }
                assert forall|t: Seq<char>|
                    tag_texts(names@).contains(t) <==> #[trigger] now.contains_key(t) by {
                    if t != t0 {
                        assert(now.contains_key(t) == tm.contains_key(t));
                    }
                }
            }
        },
    }
}

/// What reading one file of the posts folder gave.
#[derive(Debug)]
pub enum SourceFile {
    /// The file was read: where it lies and what it holds.
    Read { path: String, text: String },
    /// The file, or the folder itself, could not be read; the text says why.
    Failed { message: String },
}

/// The post that a file of the folder holds. A file that could not be read
/// holds none.
pub open spec fn file_post(file: SourceFile) -> Result<PostView, PostErrView> {
    match file {
        SourceFile::Read { path, text } => post_of(path@, text@),
        SourceFile::Failed { message } => Err(PostErrView::Io(message@)),
    }
}

/// The posts that the files hold, in the order of the files; the error of
/// the first file that holds no post, where there is one.
pub open spec fn loaded(files: Seq<SourceFile>) -> Result<Seq<PostView>, PostErrView>
    decreases files.len(),
{
    if files.len() == 0 {
        Ok(Seq::empty())
    } else {
        match loaded(files.drop_last()) {
            Err(e) => Err(e),
            Ok(posts) => match file_post(files.last()) {
                Err(e) => Err(e),
                Ok(post) => Ok(posts.push(post)),
            },
        }
    }
}

/// The posts of the snapshot that the files make.
pub open spec fn snapshot_posts(files: Seq<SourceFile>) -> Result<Seq<PostView>, PostErrView> {
    match loaded(files) {
        Err(e) => Err(e),
        Ok(posts) => index_posts(posts),
    }
}

/// An error among the first `n` files is the error of all of them.
pub proof fn lemma_loaded_prefix(files: Seq<SourceFile>, n: int)
    requires
        0 <= n <= files.len(),
        loaded(files.take(n)) is Err,
    ensures
        loaded(files) == loaded(files.take(n)),
    decreases files.len() - n,
{
    if n < files.len() {
        let next = files.take(n + 1);
        assert(next.drop_last() == files.take(n));
        lemma_loaded_prefix(files, n + 1);
    } else {
        assert(files.take(n) == files);
    }
}

/// The posts that a list of references leads to, each as a value.
pub open spec fn post_ref_views(posts: Seq<&Post>) -> Seq<PostView> {
    posts.map_values(|p: &Post| p@)
}

/// The posts of the site, sorted and indexed.
pub struct PostCollection {
    all_posts: Vec<Post>,
    posts_by_slug: StringHashMap<usize>,
    posts_by_tag: StringHashMap<Vec<usize>>,
    tag_names: Vec<Tag>,
}

impl View for PostCollection {
    type V = PostCollectionView;

    closed spec fn view(&self) -> PostCollectionView {
        PostCollectionView {
            posts: post_views(self.all_posts@),
            by_slug: self.posts_by_slug@.map_values(|i: usize| i as int),
            by_tag: self.posts_by_tag@.map_values(|v: Vec<usize>| index_seq(v@)),
            tags: tag_texts(self.tag_names@),
        }
    }
}

impl PostCollection {
    #[verifier::type_invariant]
    spec fn inv(&self) -> bool {
        &&& self@.wf()
        &&& forall|t: Seq<char>| #[trigger]
            self.posts_by_tag@.contains_key(t) ==> forall|k: int|
                0 <= k < self.posts_by_tag@[t]@.len() ==> (#[trigger] self.posts_by_tag@[t]@[k])
                    < self.all_posts.len()
    }

    /// Makes a snapshot of posts: sorts them from the newest to the oldest
    /// and indexes them. Two posts with one slug make no snapshot.
    pub fn from_posts(posts: Vec<Post>) -> (r: Result<PostCollection, PostErr>)
        ensures
            match r {
                Ok(c) => c@.wf() && index_posts(post_views(posts@)) == Ok::<
                    Seq<PostView>,
                    PostErrView,
                >(c@.posts),
                Err(e) => index_posts(post_views(posts@)) == Err::<Seq<PostView>, PostErrView>(
                    e@,
                ),
            },
    {
        let ghost given = post_views(posts@);
        let all_posts = sort_by_date(posts);
        let ghost ps = post_views(all_posts@);
        let n = all_posts.len();
        let mut by_slug: StringHashMap<usize> = StringHashMap::new();
        let mut by_tag: StringHashMap<Vec<usize>> = StringHashMap::new();
        let mut names: Vec<Tag> = Vec::new();
        let mut idx: usize = 0;
        proof {
            lemma_sort_desc_sorted(given);
            assert(tag_texts(names@) == Seq::<Seq<char>>::empty());
            assert forall|t: Seq<char>|
                tagged_so_far(ps, t, 0, Seq::empty()).len() == 0 by {}
        }
        while idx < n
            invariant
                idx <= n,
                n == all_posts.len(),
                ps == post_views(all_posts@),
                ps == sort_desc(given),
                given == post_views(posts@),
                sorted_desc(ps),
                first_repeat_from(ps, 0) == first_repeat_from(ps, idx as int),
                slugs_indexed(by_slug@, ps, idx as int),
                tags_indexed(by_tag@, names@, ps, idx as int, Seq::empty()),
                forall|t: Seq<char>| #[trigger]
                    by_tag@.contains_key(t) ==> forall|k: int|
                        0 <= k < by_tag@[t]@.len() ==> (#[trigger] by_tag@[t]@[k]) < n,
            decreases n - idx,
        {
            let post = &all_posts[idx];
            assert(post@ == ps[idx as int]);
            if by_slug.contains_key(post.meta.slug.as_str()) {
                proof {
                    let i = by_slug@[post.meta.slug@] as int;
                    assert(ps[i].meta.slug == ps[idx as int].meta.slug);
                    assert(repeats_at(ps, idx as int));
                }
                return Err(PostErr::DuplicateSlug(post.meta.slug.clone()));
            }
            proof {
                if repeats_at(ps, idx as int) {
                    let i = choose|i: int|
                        0 <= i < idx && (#[trigger] ps[i]).meta.slug == ps[idx as int].meta.slug;
                    assert(by_slug@.contains_key(ps[i].meta.slug));
                }
            }
            by_slug.insert(post.meta.slug.clone(), idx);
            let m = post.meta.tags.len();
            let ghost texts = tag_texts(post.meta.tags@);
            assert(texts == ps[idx as int].meta.tags);
            let mut j: usize = 0;
            assert(texts.take(0) == Seq::<Seq<char>>::empty());
            while j < m
                invariant
                    j <= m,
                    idx < n,
                    n == all_posts.len(),
                    n == ps.len(),
                    m == post.meta.tags.len(),
                    texts == tag_texts(post.meta.tags@),
                    tags_indexed(by_tag@, names@, ps, idx as int, texts.take(j as int)),
                decreases m - j,
            {
                let tag = &post.meta.tags[j];
                index_tag(
                    &mut by_tag,
                    &mut names,
                    tag,
                    idx,
                    Ghost(ps),
                    Ghost(texts.take(j as int)),
                );
                assert(texts.take(j as int).push(tag@) == texts.take(j + 1));
                j += 1;
            }
            proof {
                assert(texts.take(m as int) == texts);
                lemma_tags_indexed_next(by_tag@, names@, ps, idx as int);
            }
            idx += 1;
        }
        proof {
            let c = PostCollectionView {
                posts: ps,
                by_slug: by_slug@.map_values(|i: usize| i as int),
                by_tag: by_tag@.map_values(|v: Vec<usize>| index_seq(v@)),
                tags: tag_texts(names@),
            };
            assert forall|t: Seq<char>|
                tagged_so_far(ps, t, n as int, Seq::empty()) == tagged(ps, t, n as int) by {}
            assert(c.wf());
        }
        Ok(
            PostCollection {
                all_posts,
                posts_by_slug: by_slug,
                posts_by_tag: by_tag,
                tag_names: names,
            },
        )
    }

    /// Makes a snapshot of the files of a folder, each given as reading it
    /// left it. Every file must have been read and hold a post: the first
    /// one that does not decides the error, and no snapshot is made.
    pub fn from_folder(files: &Vec<SourceFile>) -> (r: Result<PostCollection, PostErr>)
        ensures
            match r {
                Ok(c) => c@.wf() && snapshot_posts(files@) == Ok::<Seq<PostView>, PostErrView>(
                    c@.posts,
                ),
                Err(e) => snapshot_posts(files@) == Err::<Seq<PostView>, PostErrView>(e@),
            },
    {
        let mut posts: Vec<Post> = Vec::new();
        let mut i: usize = 0;
        assert(files@.take(0) == Seq::<SourceFile>::empty());
        assert(post_views(posts@) == Seq::<PostView>::empty());
        while i < files.len()
            invariant
                i <= files.len(),
                loaded(files@.take(i as int)) == Ok::<Seq<PostView>, PostErrView>(
                    post_views(posts@),
                ),
            decreases files.len() - i,
        {
            let file = &files[i];
            proof {
                let upto = files@.take(i + 1);
                assert(upto.drop_last() == files@.take(i as int));
                assert(upto.last() == files@[i as int]);
            }
            let read = match file {
                SourceFile::Read { path, text } => Post::from_file(path.clone(), text.as_str()),
                SourceFile::Failed { message } => Err(PostErr::Io(message.clone())),
            };
            match read {
                Ok(post) => {
                    let ghost before = post_views(posts@);
                    posts.push(post);
                    assert(post_views(posts@) == before.push(post@));
                },
                Err(e) => {
                    proof {
                        lemma_loaded_prefix(files@, i + 1);
                    }
                    return Err(e);
                },
            }
            i += 1;
        }
        assert(files@.take(files.len() as int) == files@);
        PostCollection::from_posts(posts)
    }

    /// The posts, from the newest to the oldest.
    pub fn posts(&self) -> (r: &Vec<Post>)
        ensures
            self@.wf(),
            post_views(r@) == self@.posts,
    {
        proof {
            use_type_invariant(self);
        }
        &self.all_posts
    }

    /// The tags that posts carry, each once, in the order of dictionaries.
    pub fn tags(&self) -> (r: &Vec<Tag>)
        ensures
            self@.wf(),
            tag_texts(r@) == self@.tags,
    {
        proof {
            use_type_invariant(self);
        }
        &self.tag_names
    }

    /// The index of the post with the slug, where there is one.
    pub fn index_of_slug(&self, slug: &str) -> (r: Option<usize>)
        ensures
            self@.wf(),
            match r {
                Some(i) => self@.by_slug.contains_key(slug@) && self@.by_slug[slug@] == i,
                None => !self@.by_slug.contains_key(slug@),
            },
    {
        proof {
            use_type_invariant(self);
        }
        match self.posts_by_slug.get(slug) {
            Some(i) => Some(*i),
            None => None,
        }
    }

    /// The indices of the posts that carry the tag, in rising order; none
    /// where no post carries it.
    pub fn indices_of_tag(&self, tag: &Tag) -> (r: Vec<usize>)
        ensures
            self@.wf(),
            index_seq(r@) == (if self@.by_tag.contains_key(tag@) {
                self@.by_tag[tag@]
            } else {
                Seq::empty()
            }),
    {
        proof {
            use_type_invariant(self);
        }
        match self.posts_by_tag.get(tag.0.as_str()) {
            Some(list) => copy_indices(list),
            None => {
                let none: Vec<usize> = Vec::new();
                assert(index_seq(none@) == Seq::<int>::empty());
                none
            },
        }
    }

    /// The post with the slug, where there is one.
    pub fn get_by_slug(&self, slug: &str) -> (r: Option<&Post>)
        ensures
            self@.wf(),
            match r {
                Some(p) => self@.post_of_slug(slug@) == Some(p@),
                None => self@.post_of_slug(slug@) is None,
            },
    {
        proof {
            use_type_invariant(self);
        }
        match self.posts_by_slug.get(slug) {
            Some(i) => {
                assert(self@.by_slug.contains_key(slug@));
                assert(self@.by_slug[slug@] == *i as int);
                Some(&self.all_posts[*i])
            },
            None => None,
        }
    }

    /// The posts that carry the tag, from the newest to the oldest; none
    /// where no post carries it.
    pub fn get_by_tag(&self, tag: &Tag) -> (r: Vec<&Post>)
        ensures
            self@.wf(),
            post_ref_views(r@) == self@.posts_of_tag(tag@),
    {
        proof {
            use_type_invariant(self);
        }
        let mut result: Vec<&Post> = Vec::new();
        match self.posts_by_tag.get(tag.0.as_str()) {
            None => {
                assert(post_ref_views(result@) == Seq::<PostView>::empty());
            },
            Some(list) => {
                let ghost wanted = self@.posts_of_tag(tag@);
                assert(self@.by_tag[tag@] == index_seq(list@));
                let mut k: usize = 0;
                while k < list.len()
                    invariant
                        k <= list.len(),
                        wanted.len() == list.len(),
                        forall|j: int|
                            0 <= j < list.len() ==> (#[trigger] list@[j]) < self.all_posts.len(),
                        forall|j: int|
                            0 <= j < list.len() ==> (#[trigger] wanted[j])
                                == self.all_posts@[list@[j] as int]@,
                        post_ref_views(result@) == wanted.take(k as int),
                    decreases list.len() - k,
                {
                    let ghost before = post_ref_views(result@);
                    let post = &self.all_posts[list[k]];
                    result.push(post);
                    assert(post_ref_views(result@) == before.push(post@));
                    assert(wanted.take(k + 1) == wanted.take(k as int).push(wanted[k as int]));
                    k += 1;
                }
                assert(wanted.take(list.len() as int) == wanted);
            },
        }
        result
    }
}

/// When every tag of the post at `n` is noted, the first `n + 1` posts are
/// indexed.
proof fn lemma_tags_indexed_next(
    tm: Map<Seq<char>, Vec<usize>>,
    names: Seq<Tag>,
    ps: Seq<PostView>,
    n: int,
)
    requires
        0 <= n < ps.len(),
        tags_indexed(tm, names, ps, n, ps[n].meta.tags),
    ensures
        tags_indexed(tm, names, ps, n + 1, Seq::empty()),
        forall|t: Seq<char>| #[trigger]
            tm.contains_key(t) ==> forall|k: int|
                0 <= k < tm[t]@.len() ==> (#[trigger] tm[t]@[k]) < ps.len(),
{
    assert forall|t: Seq<char>|
        tagged_so_far(ps, t, n + 1, Seq::empty()) == tagged_so_far(ps, t, n, ps[n].meta.tags) by {}
    assert forall|t: Seq<char>| #[trigger] tm.contains_key(t) implies forall|k: int|
        0 <= k < tm[t]@.len() ==> (#[trigger] tm[t]@[k]) < ps.len() by {
        lemma_tagged(ps, t, n + 1);
        let all = tagged(ps, t, n + 1);
        assert(index_seq(tm[t]@) == all);
        assert forall|k: int| 0 <= k < tm[t]@.len() implies (#[trigger] tm[t]@[k]) < ps.len() by {
            assert(index_seq(tm[t]@)[k] == tm[t]@[k] as int);
            assert(all[k] < n + 1);
        }
    }
}

/// `first_repeat_from` passes no post whose slug an earlier post has, and
/// stops at one.
pub proof fn lemma_first_repeat_from(posts: Seq<PostView>, j: int)
    requires
        0 <= j <= posts.len(),
    ensures
        j <= first_repeat_from(posts, j) <= posts.len(),
        forall|i: int| j <= i < first_repeat_from(posts, j) ==> !repeats_at(posts, i),
        first_repeat_from(posts, j) < posts.len() ==> repeats_at(
            posts,
            first_repeat_from(posts, j),
        ),
    decreases posts.len() - j,
{
    if j < posts.len() && !repeats_at(posts, j) {
        lemma_first_repeat_from(posts, j + 1);
    }
}

/// The posts of a snapshot run from the newest to the oldest: of two posts,
/// the earlier one is no older than the later one.
pub proof fn lemma_snapshot_sorted(c: PostCollectionView, i: int, j: int)
    requires
        c.wf(),
        0 <= i <= j < c.posts.len(),
    ensures
        c.posts[i].meta.created_date.ordinal() >= c.posts[j].meta.created_date.ordinal(),
{
}

/// In a snapshot the slug of a post leads to that post and to no other: two
/// posts with one slug are one post.
pub proof fn lemma_slug_index(c: PostCollectionView, i: int, j: int)
    requires
        c.wf(),
        0 <= i < c.posts.len(),
        0 <= j < c.posts.len(),
    ensures
        c.by_slug.contains_key(c.posts[i].meta.slug),
        c.by_slug[c.posts[i].meta.slug] == i,
        c.post_of_slug(c.posts[i].meta.slug) == Some(c.posts[i]),
        c.posts[i].meta.slug == c.posts[j].meta.slug ==> i == j,
{
    assert(c.by_slug[c.posts[j].meta.slug] == j);
}

/// A snapshot finds a post for a slug exactly when one of its posts has the
/// slug; the post it finds has it.
pub proof fn lemma_slug_lookup(c: PostCollectionView, slug: Seq<char>)
    requires
        c.wf(),
    ensures
        c.post_of_slug(slug) is Some <==> slug_occurs(c.posts, slug),
        c.post_of_slug(slug) matches Some(p) ==> p.meta.slug == slug,
{
    if c.by_slug.contains_key(slug) {
        assert(c.posts[c.by_slug[slug]].meta.slug == slug);
    }
    if slug_occurs(c.posts, slug) {
        let i = choose|i: int| 0 <= i < c.posts.len() && (#[trigger] c.posts[i]).meta.slug == slug;
        assert(c.by_slug.contains_key(c.posts[i].meta.slug));
    }
}

/// A snapshot lists each tag that a post carries, and lists it once.
pub proof fn lemma_tags_listed(c: PostCollectionView, t: Seq<char>)
    requires
        c.wf(),
    ensures
        c.tags.no_duplicates(),
        c.tags.contains(t) <==> exists|i: int|
            0 <= i < c.posts.len() && has_tag(#[trigger] c.posts[i], t),
{
    lemma_texts_rise_distinct(c.tags);
    lemma_tag_index(c, t);
}

/// In a snapshot the entry of a tag holds exactly the indices of the posts
/// that carry the tag, in rising order, which is the order of the posts; a
/// tag that no post carries has no entry.
pub proof fn lemma_tag_index(c: PostCollectionView, t: Seq<char>)
    requires
        c.wf(),
    ensures
        c.by_tag.contains_key(t) <==> exists|i: int|
            0 <= i < c.posts.len() && has_tag(#[trigger] c.posts[i], t),
        c.by_tag.contains_key(t) ==> forall|i: int|
            c.by_tag[t].contains(i) <==> 0 <= i < c.posts.len() && has_tag(c.posts[i], t),
        c.by_tag.contains_key(t) ==> forall|a: int, b: int|
            0 <= a < b < c.by_tag[t].len() ==> (#[trigger] c.by_tag[t][a]) < (
            #[trigger] c.by_tag[t][b]),
{
    let n = c.posts.len() as int;
    let all = tagged(c.posts, t, n);
    lemma_tagged(c.posts, t, n);
    if c.by_tag.contains_key(t) {
        assert(c.by_tag[t] == all);
        assert(all.len() > 0);
        assert(0 <= all[0] < n && has_tag(c.posts[all[0]], t));
        assert forall|i: int| all.contains(i) implies 0 <= i < n && has_tag(c.posts[i], t) by {
            let k = choose|k: int| 0 <= k < all.len() && all[k] == i;
            assert(0 <= all[k] < n);
        }
    }
    if exists|i: int| 0 <= i < c.posts.len() && has_tag(#[trigger] c.posts[i], t) {
        let i = choose|i: int| 0 <= i < c.posts.len() && has_tag(#[trigger] c.posts[i], t);
        assert(all.contains(i));
    }
}

/// What `index_posts` makes of posts. Where it gives posts, they are the
/// given ones, sorted from the newest to the oldest, those of one date in
/// the order in which they were given, and no two share a slug. It gives an error exactly when two of the given posts share a slug,
/// and the error names a slug that two of them share.
pub proof fn lemma_index_posts(posts: Seq<PostView>)
    ensures
        index_posts(posts) is Ok <==> distinct_slugs(posts),
        index_posts(posts) matches Ok(sorted) ==> sorted_desc(sorted) && sorted.to_multiset()
            == posts.to_multiset() && distinct_slugs(sorted) && forall|d: Date|
            of_date(sorted, d) == #[trigger] of_date(posts, d),
        index_posts(posts) matches Err(e) ==> e matches PostErrView::DuplicateSlug(slug)
            && exists|i: int, j: int|
            0 <= i < j < posts.len() && (#[trigger] posts[i]).meta.slug == slug && (
            #[trigger] posts[j]).meta.slug == slug,
{
    broadcast use vstd::seq_lib::group_to_multiset_ensures;

    let sorted = sort_desc(posts);
    lemma_sort_desc_sorted(posts);
    lemma_sort_desc_permutes(posts);
    lemma_sort_desc_distinct(posts);
    lemma_sort_desc_len(posts);
    lemma_first_repeat_from(sorted, 0);
    assert forall|d: Date| of_date(sorted, d) == #[trigger] of_date(posts, d) by {
        lemma_sort_desc_stable(posts, d);
    }
    let r = first_repeat_from(sorted, 0);
    if r < sorted.len() {
        let a = choose|a: int| 0 <= a < r && (#[trigger] sorted[a]).meta.slug == sorted[r].meta.slug;
        assert(sorted[a].meta.slug == sorted[r].meta.slug);
        assert(!distinct_slugs(sorted));
        let slug = sorted[r].meta.slug;
        // The two sorted posts are among the given ones, at two places.
        assert(sorted.contains(sorted[a]) && sorted.contains(sorted[r]));
        assert(posts.to_multiset().count(sorted[a]) > 0);
        assert(posts.to_multiset().count(sorted[r]) > 0);
        let x = choose|x: int| 0 <= x < posts.len() && posts[x] == sorted[a];
        let y = choose|y: int| 0 <= y < posts.len() && posts[y] == sorted[r];
        if x != y {
            if x < y {
                assert(posts[x].meta.slug == slug && posts[y].meta.slug == slug);
            } else {
                assert(posts[y].meta.slug == slug && posts[x].meta.slug == slug);
            }
        } else {
            // One post stands twice among the sorted ones, so twice among
            // the given ones.
            lemma_twice(sorted, a, r);
            lemma_two_places(posts, sorted[a]);
            let (u, v) = choose|u: int, v: int|
                0 <= u < v < posts.len() && posts[u] == sorted[a] && posts[v] == sorted[a];
            assert(posts[u].meta.slug == slug && posts[v].meta.slug == slug);
        }
    } else {
        assert forall|i: int, j: int| 0 <= i < j < sorted.len() implies (
        #[trigger] sorted[i]).meta.slug != (#[trigger] sorted[j]).meta.slug by {
            assert(!repeats_at(sorted, j));
        }
    }
}

/// A value at two places of a sequence counts at least twice.
proof fn lemma_twice(s: Seq<PostView>, a: int, b: int)
    requires
        0 <= a < b < s.len(),
        s[a] == s[b],
    ensures
        s.to_multiset().count(s[a]) >= 2,
{
    broadcast use vstd::seq_lib::group_to_multiset_ensures;

    let once = s.remove(b);
    assert(once[a] == s[a]);
    assert(once.contains(s[a]));
    assert(once.to_multiset().count(s[a]) > 0);
    assert(once.to_multiset() == s.to_multiset().remove(s[b]));
}

/// A value that counts at least twice stands at two places.
proof fn lemma_two_places(s: Seq<PostView>, x: PostView)
    requires
        s.to_multiset().count(x) >= 2,
    ensures
        exists|u: int, v: int| 0 <= u < v < s.len() && s[u] == x && s[v] == x,
{
    broadcast use vstd::seq_lib::group_to_multiset_ensures;

    assert(s.contains(x));
    let v = choose|v: int| 0 <= v < s.len() && s[v] == x;
    let once = s.remove(v);
    assert(once.to_multiset() == s.to_multiset().remove(x));
    assert(once.to_multiset().count(x) > 0);
    assert(once.contains(x));
    let w = choose|w: int| 0 <= w < once.len() && once[w] == x;
    if w < v {
        assert(s[w] == x);
        assert(0 <= w < v < s.len() && s[w] == x && s[v] == x);
    } else {
        assert(s[w + 1] == x);
        assert(0 <= v < w + 1 < s.len() && s[v] == x && s[w + 1] == x);
    }
}

} // verus!
