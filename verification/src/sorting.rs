//! The order of posts: from the newest to the oldest, posts of one date in
//! the order in which they were given.

use vstd::prelude::*;
use crate::post::{Post, PostView};
use crate::time::{lemma_date_order, Date};

verus! {

/// The posts of a sequence, each as a value.
pub open spec fn post_views(posts: Seq<Post>) -> Seq<PostView> {
    posts.map_values(|p: Post| p@)
}

/// Whether the posts run from the newest to the oldest.
pub open spec fn sorted_desc(posts: Seq<PostView>) -> bool {
    forall|i: int, j: int|
        0 <= i <= j < posts.len() ==> (#[trigger] posts[i]).meta.created_date.ordinal() >= (
        #[trigger] posts[j]).meta.created_date.ordinal()
}

/// The first index at or after `from` whose post is not newer than `p`, or
/// the length of `sorted` where every post from `from` on is newer.
pub open spec fn place_from(sorted: Seq<PostView>, p: PostView, from: int) -> int
    decreases sorted.len() - from,
{
    if 0 <= from < sorted.len() && sorted[from].meta.created_date.ordinal()
        > p.meta.created_date.ordinal() {
        place_from(sorted, p, from + 1)
    } else {
        from
    }
}

/// The posts from the newest to the oldest, those of one date in the order
/// in which `posts` has them. Each post, from the last to the first, is put
/// in front of the first post that is not newer than it.
pub open spec fn sort_desc(posts: Seq<PostView>) -> Seq<PostView>
    decreases posts.len(),
{
    if posts.len() == 0 {
        posts
    } else {
        let rest = sort_desc(posts.drop_first());
        rest.insert(place_from(rest, posts[0], 0), posts[0])
    }
}

/// `place_from` lies between `from` and the length, has only newer posts
/// between `from` and itself, and stops at a post that is not newer.
pub proof fn lemma_place_from(sorted: Seq<PostView>, p: PostView, from: int)
    requires
        0 <= from <= sorted.len(),
    ensures
        from <= place_from(sorted, p, from) <= sorted.len(),
        forall|i: int|
            from <= i < place_from(sorted, p, from) ==> (
            #[trigger] sorted[i]).meta.created_date.ordinal() > p.meta.created_date.ordinal(),
        place_from(sorted, p, from) < sorted.len() ==> sorted[place_from(
            sorted,
            p,
            from,
        )].meta.created_date.ordinal() <= p.meta.created_date.ordinal(),
    decreases sorted.len() - from,
{
    if from < sorted.len() && sorted[from].meta.created_date.ordinal()
        > p.meta.created_date.ordinal() {
        lemma_place_from(sorted, p, from + 1);
    }
}

/// Sorting keeps the number of posts.
pub proof fn lemma_sort_desc_len(posts: Seq<PostView>)
    ensures
        sort_desc(posts).len() == posts.len(),
    decreases posts.len(),
{
    if posts.len() > 0 {
        let rest = sort_desc(posts.drop_first());
        lemma_sort_desc_len(posts.drop_first());
        lemma_place_from(rest, posts[0], 0);
    }
}

/// What `sort_desc` gives runs from the newest post to the oldest.
pub proof fn lemma_sort_desc_sorted(posts: Seq<PostView>)
    ensures
        sorted_desc(sort_desc(posts)),
    decreases posts.len(),
{
    if posts.len() > 0 {
        let rest = sort_desc(posts.drop_first());
        let p = posts[0];
        lemma_sort_desc_sorted(posts.drop_first());
        lemma_place_from(rest, p, 0);
        let k = place_from(rest, p, 0);
        let out = rest.insert(k, p);
        assert forall|i: int, j: int| 0 <= i <= j < out.len() implies (
        #[trigger] out[i]).meta.created_date.ordinal() >= (
        #[trigger] out[j]).meta.created_date.ordinal() by {
            let a = if i < k {
                rest[i]
            } else if i == k {
                p
            } else {
                rest[i - 1]
            };
            let b = if j < k {
                rest[j]
            } else if j == k {
                p
            } else {
                rest[j - 1]
            };
            assert(out[i] == a);
            assert(out[j] == b);
            if k < rest.len() {
                assert(rest[k].meta.created_date.ordinal() <= p.meta.created_date.ordinal());
            }
        }
    }
}

/// Sorting keeps the posts: each occurs as often as before.
pub proof fn lemma_sort_desc_permutes(posts: Seq<PostView>)
    ensures
        sort_desc(posts).to_multiset() == posts.to_multiset(),
    decreases posts.len(),
{
    broadcast use vstd::seq_lib::group_to_multiset_ensures;

    if posts.len() > 0 {
        let rest = sort_desc(posts.drop_first());
        let p = posts[0];
        lemma_sort_desc_permutes(posts.drop_first());
        lemma_place_from(rest, p, 0);
        let k = place_from(rest, p, 0);
        let out = rest.insert(k, p);
        assert(out.remove(k) == rest);
        assert(out[k] == p);
        assert(posts.remove(0) == posts.drop_first());
        assert(out.to_multiset() == rest.to_multiset().insert(p)) by {
            assert(out.to_multiset().count(p) > 0);
            assert(out.to_multiset().remove(p).insert(p) == out.to_multiset());
        }
        assert(posts.to_multiset() == posts.drop_first().to_multiset().insert(p)) by {
            assert(posts.to_multiset().count(p) > 0);
            assert(posts.to_multiset().remove(p).insert(p) == posts.to_multiset());
        }
    }
}

/// The posts that were made on the date `d`, in the order of `posts`.
pub open spec fn of_date(posts: Seq<PostView>, d: Date) -> Seq<PostView>
    decreases posts.len(),
{
    if posts.len() == 0 {
        posts
    } else if posts.last().meta.created_date == d {
        of_date(posts.drop_last(), d).push(posts.last())
    } else {
        of_date(posts.drop_last(), d)
    }
}

/// The posts of a date in two sequences, one behind the other, are those of
/// the first followed by those of the second.
pub proof fn lemma_of_date_concat(a: Seq<PostView>, b: Seq<PostView>, d: Date)
    ensures
        of_date(a + b, d) == of_date(a, d) + of_date(b, d),
    decreases b.len(),
{
    if b.len() == 0 {
        assert(a + b == a);
        assert(of_date(a, d) + of_date(b, d) == of_date(a, d));
    } else {
        lemma_of_date_concat(a, b.drop_last(), d);
        assert((a + b).drop_last() == a + b.drop_last());
        assert((a + b).last() == b.last());
        if b.last().meta.created_date == d {
            assert((of_date(a, d) + of_date(b.drop_last(), d)).push(b.last()) == of_date(a, d)
                + of_date(b.drop_last(), d).push(b.last()));
        }
    }
}

/// Where no post was made on `d`, the posts of `d` are none.
pub proof fn lemma_of_date_none(a: Seq<PostView>, d: Date)
    requires
        forall|i: int| 0 <= i < a.len() ==> (#[trigger] a[i]).meta.created_date != d,
    ensures
        of_date(a, d).len() == 0,
    decreases a.len(),
{
    if a.len() > 0 {
        assert forall|i: int| 0 <= i < a.drop_last().len() implies (
        #[trigger] a.drop_last()[i]).meta.created_date != d by {
            assert(a.drop_last()[i] == a[i]);
        }
        lemma_of_date_none(a.drop_last(), d);
        assert(a[a.len() - 1].meta.created_date != d);
    }
}

/// Sorting is stable: the posts of any one date come out in the order in
/// which they went in.
pub proof fn lemma_sort_desc_stable(posts: Seq<PostView>, d: Date)
    ensures
        of_date(sort_desc(posts), d) == of_date(posts, d),
    decreases posts.len(),
{
    if posts.len() > 0 {
        let given = posts.drop_first();
        let rest = sort_desc(given);
        let p = posts[0];
        lemma_sort_desc_stable(given, d);
        lemma_place_from(rest, p, 0);
        let k = place_from(rest, p, 0);
        let front = rest.take(k);
        let back = rest.skip(k);
        let one = seq![p];
        assert(rest.insert(k, p) == front + one + back);
        assert(rest == front + back);
        assert(posts == one + given);
        lemma_of_date_concat(front + one, back, d);
        lemma_of_date_concat(front, one, d);
        lemma_of_date_concat(front, back, d);
        lemma_of_date_concat(one, given, d);
        if p.meta.created_date == d {
            assert forall|i: int| 0 <= i < front.len() implies (
            #[trigger] front[i]).meta.created_date != d by {
                assert(front[i] == rest[i]);
                lemma_date_order(front[i].meta.created_date, d);
            }
            lemma_of_date_none(front, d);
            assert(of_date(front, d) + of_date(one, d) + of_date(back, d) == of_date(one, d) + (
            of_date(front, d) + of_date(back, d)));
        } else {
            assert(one.drop_last().len() == 0);
            assert(of_date(one.drop_last(), d).len() == 0);
            assert(of_date(one, d).len() == 0);
            assert(of_date(front, d) + of_date(one, d) + of_date(back, d) == of_date(one, d) + (
            of_date(front, d) + of_date(back, d)));
        }
    }
}

/// The posts of a date are posts of the sequence and of that date, and a
/// date that a post of the sequence has is not without posts.
pub proof fn lemma_of_date_members(s: Seq<PostView>, d: Date)
    ensures
        forall|k: int|
            0 <= k < of_date(s, d).len() ==> (#[trigger] of_date(s, d)[k]).meta.created_date == d
                && s.contains(of_date(s, d)[k]),
        forall|i: int|
            0 <= i < s.len() && (#[trigger] s[i]).meta.created_date == d ==> of_date(s, d).len()
                > 0,
    decreases s.len(),
{
    if s.len() > 0 {
        let front = s.drop_last();
        lemma_of_date_members(front, d);
        assert forall|k: int| 0 <= k < of_date(s, d).len() implies (
        #[trigger] of_date(s, d)[k]).meta.created_date == d && s.contains(of_date(s, d)[k]) by {
            if k < of_date(front, d).len() {
                let x = of_date(front, d)[k];
                assert(of_date(s, d)[k] == x);
                assert(front.contains(x));
                let i = choose|i: int| 0 <= i < front.len() && front[i] == x;
                assert(s[i] == x);
            } else {
                assert(of_date(s, d)[k] == s[s.len() - 1]);
            }
        }
        assert forall|i: int|
            0 <= i < s.len() && (#[trigger] s[i]).meta.created_date == d implies of_date(
            s,
            d,
        ).len() > 0 by {
            if i < front.len() {
                assert(front[i] == s[i]);
            }
        }
    }
}

/// The posts of a date are those among the posts behind the first one, with
/// the first one in front where it is of that date.
pub proof fn lemma_of_date_first(s: Seq<PostView>, d: Date)
    requires
        s.len() > 0,
    ensures
        of_date(s, d) == if s[0].meta.created_date == d {
            seq![s[0]] + of_date(s.drop_first(), d)
        } else {
            of_date(s.drop_first(), d)
        },
{
    let one = seq![s[0]];
    assert(s == one + s.drop_first());
    lemma_of_date_concat(one, s.drop_first(), d);
    assert(one.drop_last().len() == 0);
    assert(of_date(one.drop_last(), d).len() == 0);
    if s[0].meta.created_date == d {
        assert(of_date(one, d) == one);
    } else {
        assert(of_date(one, d).len() == 0);
        assert(of_date(one, d) + of_date(s.drop_first(), d) == of_date(s.drop_first(), d));
    }
}

/// Two sorted sequences that have, for every date, the same posts of that
/// date in the same order are one sequence.
pub proof fn lemma_sorted_same_dates_equal(a: Seq<PostView>, b: Seq<PostView>)
    requires
        sorted_desc(a),
        sorted_desc(b),
        forall|d: Date| #[trigger] of_date(a, d) == of_date(b, d),
    ensures
        a == b,
    decreases a.len(),
{
    if a.len() == 0 {
        if b.len() > 0 {
            let d = b[0].meta.created_date;
            lemma_of_date_members(b, d);
            assert(of_date(a, d) == of_date(b, d));
        }
        assert(a == b);
    } else {
        let d0 = a[0].meta.created_date;
        lemma_of_date_first(a, d0);
        assert(of_date(a, d0) == of_date(b, d0));
        assert(of_date(a, d0).len() > 0);
        if b.len() == 0 {
            assert(of_date(b, d0).len() == 0);
        }
        let d1 = b[0].meta.created_date;
        lemma_of_date_first(b, d1);
        assert(of_date(a, d1) == of_date(b, d1));
        // Each first post is the newest of both sequences.
        lemma_of_date_members(a, d1);
        let x = of_date(a, d1)[0];
        let i = choose|i: int| 0 <= i < a.len() && a[i] == x;
        assert(a[0].meta.created_date.ordinal() >= a[i].meta.created_date.ordinal());
        lemma_of_date_members(b, d0);
        let y = of_date(b, d0)[0];
        let j = choose|j: int| 0 <= j < b.len() && b[j] == y;
        assert(b[0].meta.created_date.ordinal() >= b[j].meta.created_date.ordinal());
        lemma_date_order(d0, d1);
        assert(d0 == d1);
        assert(a[0] == of_date(a, d0)[0]);
        assert(b[0] == of_date(b, d0)[0]);
        let ra = a.drop_first();
        let rb = b.drop_first();
        assert forall|i: int, j: int| 0 <= i <= j < ra.len() implies (
        #[trigger] ra[i]).meta.created_date.ordinal() >= (
        #[trigger] ra[j]).meta.created_date.ordinal() by {
            assert(ra[i] == a[i + 1] && ra[j] == a[j + 1]);
        }
        assert forall|i: int, j: int| 0 <= i <= j < rb.len() implies (
        #[trigger] rb[i]).meta.created_date.ordinal() >= (
        #[trigger] rb[j]).meta.created_date.ordinal() by {
            assert(rb[i] == b[i + 1] && rb[j] == b[j + 1]);
        }
        assert forall|d: Date| #[trigger] of_date(ra, d) == of_date(rb, d) by {
            lemma_of_date_first(a, d);
            lemma_of_date_first(b, d);
            assert(of_date(a, d) == of_date(b, d));
            if d == d0 {
                let one = seq![a[0]];
                assert((one + of_date(ra, d)).drop_first() == of_date(ra, d));
                assert((one + of_date(rb, d)).drop_first() == of_date(rb, d));
            }
        }
        lemma_sorted_same_dates_equal(ra, rb);
        assert(a == seq![a[0]] + ra);
        assert(b == seq![b[0]] + rb);
    }
}

/// `sort_desc` gives the one sequence that runs from the newest post to the
/// oldest and has the posts of every date as they were given.
pub proof fn lemma_sort_desc_unique(posts: Seq<PostView>, other: Seq<PostView>)
    requires
        sorted_desc(other),
        forall|d: Date| #[trigger] of_date(other, d) == of_date(posts, d),
    ensures
        other == sort_desc(posts),
{
    lemma_sort_desc_sorted(posts);
    assert forall|d: Date| #[trigger] of_date(other, d) == of_date(sort_desc(posts), d) by {
        lemma_sort_desc_stable(posts, d);
    }
    lemma_sorted_same_dates_equal(other, sort_desc(posts));
}

/// Sorts posts from the newest to the oldest; posts of one date stay in the
/// order they came in.
pub fn sort_by_date(posts: Vec<Post>) -> (sorted: Vec<Post>)
    ensures
        post_views(sorted@) == sort_desc(post_views(posts@)),
{
    let ghost all = post_views(posts@);
    let mut input = posts;
    let mut sorted: Vec<Post> = Vec::new();
    assert(all.skip(all.len() as int) == Seq::<PostView>::empty());
    assert(post_views(sorted@) == Seq::<PostView>::empty());
    while input.len() > 0
        invariant
            input.len() <= all.len(),
            post_views(input@) == all.take(input.len() as int),
            post_views(sorted@) == sort_desc(all.skip(input.len() as int)),
        decreases input.len(),
    {
        let ghost before = post_views(sorted@);
        let ghost n = input.len() as int;
        let post = input.pop().unwrap();
        assert(post@ == all[n - 1]) by {
            assert(all.take(n)[n - 1] == all[n - 1]);
        }
        let mut k: usize = 0;
        while k < sorted.len() && sorted[k].meta.created_date > post.meta.created_date
            invariant
                k <= sorted.len(),
                before == post_views(sorted@),
                place_from(before, post@, 0) == place_from(before, post@, k as int),
            decreases sorted.len() - k,
        {
            k += 1;
        }
        sorted.insert(k, post);
        proof {
            assert(post_views(sorted@) == before.insert(k as int, post@));
            assert(all.skip(n - 1).drop_first() == all.skip(n));
            assert(all.skip(n - 1)[0] == all[n - 1]);
            assert(post_views(input@) == all.take(n - 1)) by {
                assert(all.take(n).take(n - 1) == all.take(n - 1));
            }
        }
    }
    assert(all.skip(0) == all);
    sorted
}

/// Whether no two of the posts share a slug.
pub open spec fn distinct_slugs(posts: Seq<PostView>) -> bool {
    forall|i: int, j: int|
        0 <= i < j < posts.len() ==> (#[trigger] posts[i]).meta.slug != (
        #[trigger] posts[j]).meta.slug
}

/// Whether one of the posts has the slug.
pub open spec fn slug_occurs(posts: Seq<PostView>, slug: Seq<char>) -> bool {
    exists|i: int| 0 <= i < posts.len() && (#[trigger] posts[i]).meta.slug == slug
}

/// Sorting neither makes nor removes a shared slug.
pub proof fn lemma_sort_desc_distinct(posts: Seq<PostView>)
    ensures
        distinct_slugs(sort_desc(posts)) <==> distinct_slugs(posts),
    decreases posts.len(),
{
    broadcast use vstd::seq_lib::group_to_multiset_ensures;

    if posts.len() > 0 {
        let given = posts.drop_first();
        let rest = sort_desc(given);
        let p = posts[0];
        lemma_sort_desc_distinct(given);
        lemma_sort_desc_permutes(given);
        lemma_place_from(rest, p, 0);
        let k = place_from(rest, p, 0);
        let out = rest.insert(k, p);
        // A post is among the sorted ones exactly when it was given.
        assert forall|x: PostView| rest.contains(x) <==> given.contains(x) by {
            assert(rest.to_multiset().count(x) == given.to_multiset().count(x));
        }
        assert(slug_occurs(rest, p.meta.slug) <==> slug_occurs(given, p.meta.slug)) by {
            if slug_occurs(rest, p.meta.slug) {
                let i = choose|i: int|
                    0 <= i < rest.len() && (#[trigger] rest[i]).meta.slug == p.meta.slug;
                assert(rest.contains(rest[i]));
                let j = choose|j: int| 0 <= j < given.len() && given[j] == rest[i];
                assert(given[j].meta.slug == p.meta.slug);
            }
            if slug_occurs(given, p.meta.slug) {
                let i = choose|i: int|
                    0 <= i < given.len() && (#[trigger] given[i]).meta.slug == p.meta.slug;
                assert(given.contains(given[i]));
                let j = choose|j: int| 0 <= j < rest.len() && rest[j] == given[i];
                assert(rest[j].meta.slug == p.meta.slug);
            }
        }
        assert(distinct_slugs(posts) <==> (distinct_slugs(given) && !slug_occurs(
            given,
            p.meta.slug,
        ))) by {
            if distinct_slugs(posts) {
                assert forall|i: int, j: int| 0 <= i < j < given.len() implies (
                #[trigger] given[i]).meta.slug != (#[trigger] given[j]).meta.slug by {
                    assert(given[i] == posts[i + 1] && given[j] == posts[j + 1]);
                }
                if slug_occurs(given, p.meta.slug) {
                    let i = choose|i: int|
                        0 <= i < given.len() && (#[trigger] given[i]).meta.slug == p.meta.slug;
                    assert(given[i] == posts[i + 1]);
                    assert(posts[0].meta.slug != posts[i + 1].meta.slug);
                }
            }
            if distinct_slugs(given) && !slug_occurs(given, p.meta.slug) {
                assert forall|i: int, j: int| 0 <= i < j < posts.len() implies (
                #[trigger] posts[i]).meta.slug != (#[trigger] posts[j]).meta.slug by {
                    assert(posts[j] == given[j - 1]);
                    if i > 0 {
                        assert(posts[i] == given[i - 1]);
                    }
                }
            }
        }
        assert(distinct_slugs(out) <==> (distinct_slugs(rest) && !slug_occurs(rest, p.meta.slug)))
            by {
            if distinct_slugs(out) {
                assert forall|i: int, j: int| 0 <= i < j < rest.len() implies (
                #[trigger] rest[i]).meta.slug != (#[trigger] rest[j]).meta.slug by {
                    let a = if i < k {
                        i
                    } else {
                        i + 1
                    };
                    let b = if j < k {
                        j
                    } else {
                        j + 1
                    };
                    assert(out[a] == rest[i] && out[b] == rest[j]);
                }
                if slug_occurs(rest, p.meta.slug) {
                    let i = choose|i: int|
                        0 <= i < rest.len() && (#[trigger] rest[i]).meta.slug == p.meta.slug;
                    let a = if i < k {
                        i
                    } else {
                        i + 1
                    };
                    assert(out[a] == rest[i] && out[k] == p);
                    if a < k {
                        assert(out[a].meta.slug != out[k].meta.slug);
                    } else {
                        assert(out[k].meta.slug != out[a].meta.slug);
                    }
                }
            }
            if distinct_slugs(rest) && !slug_occurs(rest, p.meta.slug) {
                assert forall|i: int, j: int| 0 <= i < j < out.len() implies (
                #[trigger] out[i]).meta.slug != (#[trigger] out[j]).meta.slug by {
                    let a = if i < k {
                        i
                    } else {
                        i - 1
                    };
                    let b = if j < k {
                        j
                    } else {
                        j - 1
                    };
                    if i != k {
                        assert(out[i] == rest[a]);
                    } else {
                        assert(out[i] == p);
                    }
                    if j != k {
                        assert(out[j] == rest[b]);
                    } else {
                        assert(out[j] == p);
                    }
                }
            }
        }
    }
}

} // verus!
