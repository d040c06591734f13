//! What holds of the order of a listing.
//!
//! `ordered` is defined by how entries enter one after the other. The laws
//! here say what that comes to: nothing is lost or added, every entry stands
//! where the dates and slugs put it, every post with a date stands before
//! every post without one, and where no two slugs are the same the result
//! does not depend on the order in which the posts were found. The last is
//! stated of entries and of the candidates that give them.

use vstd::prelude::*;
use vstd::seq_lib::*;
use vstd::multiset::*;
use crate::post::{
    Candidate,
    Entry,
    before,
    first_refused,
    listing,
    ordered,
    post_of,
    published,
    slot_from,
};
use crate::text::lemma_text_order;

verus! {

/// Whether no entry of `posts` stands before an earlier one.
pub open spec fn in_order(posts: Seq<Entry>) -> bool {
    forall|i: int, j: int| 0 <= i < j < posts.len() ==> !before(posts[j], posts[i])
}

/// Whether no two entries of `posts` have the same slug.
pub open spec fn distinct_slugs(posts: Seq<Entry>) -> bool {
    forall|i: int, j: int| 0 <= i < j < posts.len() ==> posts[i].slug != posts[j].slug
}

/// `before` is a strict order: no two entries stand before each other, and
/// it carries over. Of two entries with different slugs one stands before
/// the other.
pub proof fn lemma_before_is_strict(a: Entry, b: Entry, c: Entry)
    ensures
        !before(a, a),
        before(a, b) ==> !before(b, a),
        before(a, b) && before(b, c) ==> before(a, c),
        a.slug != b.slug ==> before(a, b) || before(b, a),
{
    lemma_text_order(a.slug, b.slug, c.slug);
    lemma_text_order(b.slug, a.slug, c.slug);
    lemma_text_order(a.slug, a.slug, a.slug);
    match (a.date, b.date, c.date) {
        (Some(x), Some(y), Some(z)) => {
            lemma_text_order(z, y, x);
            lemma_text_order(y, x, z);
            lemma_text_order(x, y, z);
            lemma_text_order(x, x, x);
        },
        (Some(x), Some(y), None) => {
            lemma_text_order(y, x, x);
            lemma_text_order(x, y, y);
            lemma_text_order(x, x, x);
        },
        (Some(x), None, _) => {
            lemma_text_order(x, x, x);
        },
        (None, Some(y), _) => {},
        (None, None, _) => {},
    }
}

/// A post with a date stands before every post without one, whatever the
/// date is.
pub proof fn lemma_dated_stands_first(a: Entry, b: Entry)
    requires
        a.date is Some,
        b.date is None,
    ensures
        before(a, b),
        !before(b, a),
{
}

/// The place that `slot_from` gives lies between `from` and the end; the
/// entry stands before the one at that place, if there is one, and before
/// none between `from` and there.
pub proof fn lemma_slot(sorted: Seq<Entry>, e: Entry, from: int)
    requires
        0 <= from <= sorted.len(),
    ensures
        from <= slot_from(sorted, e, from) <= sorted.len(),
        slot_from(sorted, e, from) < sorted.len() ==> before(
            e,
            sorted[slot_from(sorted, e, from)],
        ),
        forall|i: int| from <= i < slot_from(sorted, e, from) ==> !before(e, sorted[i]),
    decreases sorted.len() - from,
{
    if from < sorted.len() && !before(e, sorted[from]) {
        lemma_slot(sorted, e, from + 1);
    }
}

/// Ordering neither loses nor adds a post: the listing holds each entry as
/// often as it was given.
pub proof fn lemma_ordered_is_permutation(posts: Seq<Entry>)
    ensures
        ordered(posts).len() == posts.len(),
        ordered(posts).to_multiset() == posts.to_multiset(),
    decreases posts.len(),
{
    if posts.len() > 0 {
        let sorted = ordered(posts.drop_last());
        lemma_ordered_is_permutation(posts.drop_last());
        lemma_slot(sorted, posts.last(), 0);
        to_multiset_insert(sorted, slot_from(sorted, posts.last(), 0), posts.last());
        to_multiset_build(posts.drop_last(), posts.last());
        assert(posts.drop_last().push(posts.last()) =~= posts);
    }
}

/// In an ordered listing no entry stands before an earlier one.
pub proof fn lemma_ordered_is_in_order(posts: Seq<Entry>)
    ensures
        in_order(ordered(posts)),
    decreases posts.len(),
{
    if posts.len() > 0 {
        let sorted = ordered(posts.drop_last());
        let e = posts.last();
        let k = slot_from(sorted, e, 0);
        lemma_ordered_is_in_order(posts.drop_last());
        lemma_slot(sorted, e, 0);
        let result = sorted.insert(k, e);
        assert forall|i: int, j: int| 0 <= i < j < result.len() implies !before(
            result[j],
            result[i],
        ) by {
            if j < k {
                assert(result[i] == sorted[i] && result[j] == sorted[j]);
            } else if j == k {
                assert(result[i] == sorted[i]);
            } else if i < k {
                assert(result[i] == sorted[i] && result[j] == sorted[j - 1]);
            } else if i == k {
                // `e` stands before `sorted[k]`, which no later entry stands before.
                assert(result[j] == sorted[j - 1]);
                lemma_before_is_strict(sorted[j - 1], e, sorted[k]);
                lemma_before_is_strict(e, sorted[k], sorted[k]);
                if j - 1 > k {
                    assert(!before(sorted[j - 1], sorted[k]));
                }
            } else {
                assert(result[i] == sorted[i - 1] && result[j] == sorted[j - 1]);
            }
        }
    }
}

/// In an ordered listing every post with a date stands before every post
/// without one.
pub proof fn lemma_ordered_dated_first(posts: Seq<Entry>)
    ensures
        forall|i: int, j: int|
            0 <= i < j < ordered(posts).len() && ordered(posts)[i].date is None ==> ordered(
                posts,
            )[j].date is None,
{
    lemma_ordered_is_in_order(posts);
    let listed = ordered(posts);
    assert forall|i: int, j: int|
        0 <= i < j < listed.len() && listed[i].date is None implies listed[j].date is None by {
        if listed[j].date is Some {
            lemma_dated_stands_first(listed[j], listed[i]);
        }
    }
}

/// Two rows of entries that are in order, hold the same entries, and hold no
/// slug twice are the same row.
pub proof fn lemma_in_order_is_unique(x: Seq<Entry>, y: Seq<Entry>)
    requires
        in_order(x),
        in_order(y),
        distinct_slugs(x),
        x.to_multiset() == y.to_multiset(),
    ensures
        x == y,
    decreases x.len(),
{
    broadcast use group_multiset_axioms;

    to_multiset_len(x);
    to_multiset_len(y);
    if x.len() == 0 {
        assert(x =~= y);
    } else {
        let a = x.last();
        let b = y.last();
        // Each is held by the other row.
        to_multiset_contains(x, a);
        to_multiset_contains(y, a);
        to_multiset_contains(x, b);
        to_multiset_contains(y, b);
        assert(x.contains(a));
        assert(y.contains(b));
        let ia = choose|i: int| 0 <= i < y.len() && y[i] == a;
        let ib = choose|i: int| 0 <= i < x.len() && x[i] == b;
        if a != b {
            // `b` stands earlier in `x`, and `a` earlier in `y`.
            assert(ib < x.len() - 1);
            assert(ia < y.len() - 1);
            assert(!before(a, b));
            assert(!before(b, a));
            lemma_before_is_strict(a, b, a);
            assert(a.slug == b.slug);
            assert(x[ib].slug != x[x.len() - 1].slug);
        }
        assert(a == b);
        to_multiset_remove(x, x.len() - 1);
        to_multiset_remove(y, y.len() - 1);
        assert(x.remove(x.len() - 1) =~= x.drop_last());
        assert(y.remove(y.len() - 1) =~= y.drop_last());
        assert(in_order(x.drop_last())) by {
            assert forall|i: int, j: int| 0 <= i < j < x.drop_last().len() implies !before(
                x.drop_last()[j],
                x.drop_last()[i],
            ) by {
                assert(!before(x[j], x[i]));
            }
        }
        assert(in_order(y.drop_last())) by {
            assert forall|i: int, j: int| 0 <= i < j < y.drop_last().len() implies !before(
                y.drop_last()[j],
                y.drop_last()[i],
            ) by {
                assert(!before(y[j], y[i]));
            }
        }
        assert(distinct_slugs(x.drop_last())) by {
            assert forall|i: int, j: int| 0 <= i < j < x.drop_last().len() implies x.drop_last()[i].slug
                != x.drop_last()[j].slug by {
                assert(x[i].slug != x[j].slug);
            }
        }
        lemma_in_order_is_unique(x.drop_last(), y.drop_last());
        assert(x =~= x.drop_last().push(a));
        assert(y =~= y.drop_last().push(b));
    }
}

/// Slugs that are distinct in a row are distinct in every row that holds the
/// same entries.
pub proof fn lemma_distinct_slugs_carry(x: Seq<Entry>, y: Seq<Entry>)
    requires
        distinct_slugs(x),
        x.to_multiset() == y.to_multiset(),
    ensures
        distinct_slugs(y),
{
    broadcast use group_multiset_axioms;

    assert forall|i: int, j: int| 0 <= i < j < y.len() implies y[i].slug != y[j].slug by {
        if y[i].slug == y[j].slug {
            to_multiset_contains(x, y[i]);
            to_multiset_contains(y, y[i]);
            to_multiset_contains(x, y[j]);
            to_multiset_contains(y, y[j]);
            assert(y.contains(y[i]));
            assert(y.contains(y[j]));
            let p = choose|p: int| 0 <= p < x.len() && x[p] == y[i];
            let q = choose|q: int| 0 <= q < x.len() && x[q] == y[j];
            if p != q {
                if p < q {
                    assert(x[p].slug != x[q].slug);
                } else {
                    assert(x[q].slug != x[p].slug);
                }
            } else {
                // The same entry twice in `y`, once in `x`.
                assert(y[i] == y[j]);
                lemma_count_two(y, i, j);
                lemma_count_one(x, p);
            }
        }
    }
}

/// An entry that stands at two places of a row is held at least twice.
proof fn lemma_count_two(y: Seq<Entry>, i: int, j: int)
    requires
        0 <= i < j < y.len(),
        y[i] == y[j],
    ensures
        y.to_multiset().count(y[i]) >= 2,
{
    broadcast use group_multiset_axioms;

    let e = y[i];
    to_multiset_remove(y, j);
    let rest = y.remove(j);
    assert(rest[i] == e);
    to_multiset_contains(rest, e);
    assert(rest.contains(e));
}

/// Where no slug stands twice, each entry of the row is held once.
proof fn lemma_count_one(x: Seq<Entry>, p: int)
    requires
        0 <= p < x.len(),
        distinct_slugs(x),
    ensures
        x.to_multiset().count(x[p]) == 1,
{
    broadcast use group_multiset_axioms;

    let e = x[p];
    to_multiset_remove(x, p);
    let rest = x.remove(p);
    to_multiset_contains(rest, e);
    if rest.contains(e) {
        let k = choose|k: int| 0 <= k < rest.len() && rest[k] == e;
        if k < p {
            assert(x[k].slug != x[p].slug);
        } else {
            assert(x[p].slug != x[k + 1].slug);
        }
    }
    to_multiset_contains(x, e);
    assert(x.contains(e));
}

/// The listing does not depend on the order in which the posts were found:
/// where no slug stands twice, two rows of the same entries give the same
/// listing.
pub proof fn lemma_order_is_deterministic(x: Seq<Entry>, y: Seq<Entry>)
    requires
        distinct_slugs(x),
        x.to_multiset() == y.to_multiset(),
    ensures
        ordered(x) == ordered(y),
{
    lemma_ordered_is_permutation(x);
    lemma_ordered_is_permutation(y);
    lemma_ordered_is_in_order(x);
    lemma_ordered_is_in_order(y);
    lemma_distinct_slugs_carry(x, ordered(x));
    lemma_in_order_is_unique(ordered(x), ordered(y));
}

/// Whether no two of `candidates` have the same slug.
pub open spec fn distinct_candidates(candidates: Seq<Candidate>) -> bool {
    forall|i: int, j: int|
        0 <= i < j < candidates.len() ==> candidates[i].slug != candidates[j].slug
}

/// `first_refused` finds a refused candidate exactly when there is one from
/// `from` on.
pub proof fn lemma_first_refused(candidates: Seq<Candidate>, from: int)
    requires
        0 <= from,
    ensures
        match first_refused(candidates, from) {
            Some(i) => from <= i < candidates.len() && post_of(candidates[i]) is Err,
            None => forall|i: int| from <= i < candidates.len() ==> !(post_of(candidates[i]) is Err),
        },
    decreases candidates.len() - from,
{
    if from < candidates.len() && !(post_of(candidates[from]) is Err) {
        lemma_first_refused(candidates, from + 1);
    }
}

/// Every published entry carries the slug of one of the candidates.
pub proof fn lemma_published_slugs(candidates: Seq<Candidate>)
    ensures
        forall|i: int|
            0 <= i < published(candidates).len() ==> exists|j: int|
                0 <= j < candidates.len() && candidates[j].slug == (#[trigger] published(
                    candidates,
                )[i]).slug,
    decreases candidates.len(),
{
    if candidates.len() > 0 {
        let front = candidates.drop_last();
        lemma_published_slugs(front);
        assert forall|i: int| 0 <= i < published(candidates).len() implies exists|j: int|
            0 <= j < candidates.len() && candidates[j].slug == (#[trigger] published(
                candidates,
            )[i]).slug by {
            if i < published(front).len() {
                assert(published(candidates)[i] == published(front)[i]);
                let j = choose|j: int|
                    0 <= j < front.len() && front[j].slug == published(front)[i].slug;
                assert(candidates[j].slug == published(candidates)[i].slug);
            } else {
                assert(candidates[candidates.len() - 1].slug == published(candidates)[i].slug);
            }
        }
    }
}

/// Candidates with distinct slugs give entries with distinct slugs.
pub proof fn lemma_published_distinct(candidates: Seq<Candidate>)
    requires
        distinct_candidates(candidates),
    ensures
        distinct_slugs(published(candidates)),
    decreases candidates.len(),
{
    if candidates.len() > 0 {
        let front = candidates.drop_last();
        assert(distinct_candidates(front)) by {
            assert forall|i: int, j: int| 0 <= i < j < front.len() implies front[i].slug
                != front[j].slug by {
                assert(candidates[i].slug != candidates[j].slug);
            }
        }
        lemma_published_distinct(front);
        lemma_published_slugs(front);
        let all = published(candidates);
        assert forall|i: int, j: int| 0 <= i < j < all.len() implies all[i].slug
            != all[j].slug by {
            if j < published(front).len() {
                assert(all[i] == published(front)[i] && all[j] == published(front)[j]);
            } else {
                assert(all[i] == published(front)[i]);
                let k = choose|k: int|
                    0 <= k < front.len() && front[k].slug == published(front)[i].slug;
                assert(candidates[k].slug != candidates[candidates.len() - 1].slug);
            }
        }
    }
}

/// Taking one candidate out takes its entry out, if it gave one, and nothing
/// else.
pub proof fn lemma_published_remove(candidates: Seq<Candidate>, k: int)
    requires
        0 <= k < candidates.len(),
    ensures
        published(candidates).to_multiset() == match post_of(candidates[k]) {
            Ok(Some(e)) => published(candidates.remove(k)).to_multiset().insert(e),
            _ => published(candidates.remove(k)).to_multiset(),
        },
    decreases candidates.len(),
{
    broadcast use group_multiset_axioms;

    let front = candidates.drop_last();
    if k == candidates.len() - 1 {
        assert(candidates.remove(k) =~= front);
        to_multiset_build(published(front), post_of(candidates[k])->Ok_0->Some_0);
    } else {
        let rest = candidates.remove(k);
        assert(rest.drop_last() =~= front.remove(k));
        assert(rest.last() == candidates.last());
        lemma_published_remove(front, k);
        match post_of(candidates.last()) {
            Ok(Some(e)) => {
                to_multiset_build(published(front), e);
                to_multiset_build(published(front.remove(k)), e);
            },
            _ => {},
        }
    }
}

/// Two rows of the same candidates give the same entries, each as often.
pub proof fn lemma_published_permutation(x: Seq<Candidate>, y: Seq<Candidate>)
    requires
        x.to_multiset() == y.to_multiset(),
    ensures
        published(x).to_multiset() == published(y).to_multiset(),
    decreases x.len(),
{
    broadcast use group_multiset_axioms;

    to_multiset_len(x);
    to_multiset_len(y);
    if x.len() == 0 {
        assert(published(y) =~= published(x));
    } else {
        let a = x.last();
        to_multiset_contains(x, a);
        to_multiset_contains(y, a);
        assert(x.contains(a));
        let k = choose|k: int| 0 <= k < y.len() && y[k] == a;
        to_multiset_remove(x, x.len() - 1);
        to_multiset_remove(y, k);
        assert(x.remove(x.len() - 1) =~= x.drop_last());
        lemma_published_permutation(x.drop_last(), y.remove(k));
        lemma_published_remove(y, k);
        match post_of(a) {
            Ok(Some(e)) => {
                to_multiset_build(published(x.drop_last()), e);
            },
            _ => {},
        }
    }
}

/// The listing does not depend on the order in which the directories were
/// found: where no slug stands twice, two rows of the same candidates both
/// fail or both succeed, and where they succeed they give the same listing.
/// Where they fail, the failure is that of the candidate that was found
/// first, which the order does decide.
pub proof fn lemma_listing_is_deterministic(x: Seq<Candidate>, y: Seq<Candidate>)
    requires
        distinct_candidates(x),
        x.to_multiset() == y.to_multiset(),
    ensures
        listing(x) is Ok <==> listing(y) is Ok,
        listing(x) is Ok ==> listing(x) == listing(y),
{
    broadcast use group_multiset_axioms;

    lemma_first_refused(x, 0);
    lemma_first_refused(y, 0);
    if first_refused(x, 0) is Some {
        let a = x[first_refused(x, 0)->Some_0];
        to_multiset_contains(x, a);
        to_multiset_contains(y, a);
        assert(x.contains(a));
        let k = choose|k: int| 0 <= k < y.len() && y[k] == a;
        assert(post_of(y[k]) is Err);
    }
    if first_refused(y, 0) is Some {
        let b = y[first_refused(y, 0)->Some_0];
        to_multiset_contains(x, b);
        to_multiset_contains(y, b);
        assert(y.contains(b));
        let k = choose|k: int| 0 <= k < x.len() && x[k] == b;
        assert(post_of(x[k]) is Err);
    }
    if listing(x) is Ok {
        lemma_published_permutation(x, y);
        lemma_published_distinct(x);
        lemma_order_is_deterministic(published(x), published(y));
    }
}

} // verus!
