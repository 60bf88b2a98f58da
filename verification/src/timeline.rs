//! Putting a release history into the order of publication.

use crate::champion::{eligible, is_champion};
use crate::instant::Instant;
use crate::release::{is_sorted, Release, ReleaseView};
use vstd::prelude::*;
use vstd::seq_lib::{
    to_multiset_build, to_multiset_contains, to_multiset_insert, to_multiset_len,
};

verus! {

/// Holds of the releases that were published at `at`.
pub open spec fn published_at(at: Instant) -> spec_fn(ReleaseView) -> bool {
    |release: ReleaseView| release.published_at == at
}

/// The releases of the history that were published at `at`, in the order in
/// which the history holds them.
pub open spec fn released_at(t: Seq<ReleaseView>, at: Instant) -> Seq<ReleaseView> {
    t.filter(published_at(at))
}

/// `sorted` is `history` put into ascending order of publication by a stable
/// sort: it holds the same releases, in order, and releases that share a
/// publication time keep the order that they had in `history`.
pub open spec fn is_stable_sort_of(sorted: Seq<ReleaseView>, history: Seq<ReleaseView>) -> bool {
    &&& is_sorted(sorted)
    &&& sorted.to_multiset() == history.to_multiset()
    &&& forall|at: Instant| #[trigger] released_at(sorted, at) == released_at(history, at)
}

/// Where no entry was published at `at`, the releases published at `at` are
/// none.
proof fn none_released_at(t: Seq<ReleaseView>, at: Instant)
    requires
        forall|j: int| 0 <= j < t.len() ==> (#[trigger] t[j]).published_at != at,
    ensures
        released_at(t, at) == Seq::<ReleaseView>::empty(),
    decreases t.len(),
{
    reveal(Seq::filter);
    if t.len() > 0 {
        none_released_at(t.drop_last(), at);
    }
}

/// Inserting a release before the first entry that is strictly newer leaves
/// the order among releases of one publication time as it would be had the
/// release been appended.
proof fn insert_after_equals(t: Seq<ReleaseView>, p: int, x: ReleaseView, at: Instant)
    requires
        0 <= p <= t.len(),
        forall|j: int| p <= j < t.len() ==> x.published_at.lt(&(#[trigger] t[j]).published_at),
    ensures
        released_at(t.insert(p, x), at) == released_at(t.push(x), at),
{
    let pred = published_at(at);
    let head = t.subrange(0, p);
    let tail = t.subrange(p, t.len() as int);
    assert(t =~= head + tail);
    Seq::filter_distributes_over_add(head, tail, pred);
    Seq::filter_distributes_over_add(head.push(x), tail, pred);
    head.lemma_filter_push(x, pred);
    t.lemma_filter_push(x, pred);
    if x.published_at == at {
        none_released_at(tail, at);
        assert(head.filter(pred).push(x) + tail.filter(pred) =~= (head.filter(pred)
            + tail.filter(pred)).push(x));
    }
}

/// The history in ascending order of publication. The sort is stable.
pub fn sort_by_publication(history: &Vec<Release>) -> (r: Vec<Release>)
    ensures
        is_stable_sort_of(r.deep_view(), history.deep_view()),
{
    let ghost t = history.deep_view();
    let mut out: Vec<Release> = Vec::new();
    let mut i: usize = 0;
    assert(out.deep_view() =~= t.take(0));
    while i < history.len()
        invariant
            i <= history.len(),
            t == history.deep_view(),
            out.len() == i,
            is_stable_sort_of(out.deep_view(), t.take(i as int)),
        decreases history.len() - i,
    {
        let release = history[i].clone();
        assert(release@ == t[i as int]);
        let ghost before = out.deep_view();
        let mut p: usize = out.len();
        while p > 0 && release.published_at.lt(&out[p - 1].published_at)
            invariant
                p <= out.len(),
                before == out.deep_view(),
                forall|j: int|
                    p <= j < out.len() ==> release.published_at.lt(
                        &(#[trigger] before[j]).published_at,
                    ),
            decreases p,
        {
            assert(before[p - 1] == out[p - 1]@);
            p -= 1;
        }
        assert(p > 0 ==> before[p - 1] == out[p - 1]@);
        out.insert(p, release);
        proof {
            let after = out.deep_view();
            assert(after =~= before.insert(p as int, release@));
            assert(t.take(i + 1) =~= t.take(i as int).push(release@));
            to_multiset_insert(before, p as int, release@);
            to_multiset_build(t.take(i as int), release@);
            assert forall|at: Instant| #[trigger]
                released_at(after, at) == released_at(t.take(i + 1), at) by {
                assert(released_at(before, at) == released_at(t.take(i as int), at));
                insert_after_equals(before, p as int, release@, at);
                before.lemma_filter_push(release@, published_at(at));
                t.take(i as int).lemma_filter_push(release@, published_at(at));
            }
            assert forall|a: int, b: int| 0 <= a <= b < after.len() implies (#[trigger] after[a])
                .published_at.le(&(#[trigger] after[b]).published_at) by {
                if a < p && b > p {
                    assert(before[a].published_at.le(&before[b - 1].published_at));
                } else if a < p && b < p {
                    assert(before[a].published_at.le(&before[b].published_at));
                } else if a > p {
                    assert(before[a - 1].published_at.le(&before[b - 1].published_at));
                } else if a < p && b == p {
                    assert(before[a].published_at.le(&before[p - 1].published_at));
                }
            }
        }
        i += 1;
    }
    assert(t.take(i as int) =~= t);
    out
}

/// In a sorted history that is not empty, the releases that share the
/// publication time of the last entry end with that entry, and the releases
/// of any other publication time are those of the entries before it.
proof fn last_entry_closes_its_group(t: Seq<ReleaseView>, at: Instant)
    requires
        t.len() > 0,
    ensures
        released_at(t, at) == if t.last().published_at == at {
            released_at(t.drop_last(), at).push(t.last())
        } else {
            released_at(t.drop_last(), at)
        },
{
    assert(t.drop_last().push(t.last()) =~= t);
    t.drop_last().lemma_filter_push(t.last(), published_at(at));
}

/// Some entry of the history was published at `at` as soon as the releases
/// published at `at` are not none.
proof fn group_has_a_member(t: Seq<ReleaseView>, at: Instant) -> (j: int)
    requires
        released_at(t, at).len() > 0,
    ensures
        0 <= j < t.len(),
        t[j].published_at == at,
{
    let group = released_at(t, at);
    let member = group[0];
    t.lemma_filter_pred(published_at(at), 0);
    assert(group.contains(member));
    t.lemma_filter_contains_rev(published_at(at), member);
    choose|j: int| 0 <= j < t.len() && t[j] == member
}

/// Two sorted histories of one length are the same history as soon as, for
/// every publication time, they hold the same releases in the same order.
proof fn sorted_histories_with_equal_groups(a: Seq<ReleaseView>, b: Seq<ReleaseView>)
    requires
        is_sorted(a),
        is_sorted(b),
        a.len() == b.len(),
        forall|at: Instant| #[trigger] released_at(a, at) == released_at(b, at),
    ensures
        a == b,
    decreases a.len(),
{
    if a.len() == 0 {
        assert(a =~= b);
    } else {
        let x = a.last();
        let y = b.last();
        last_entry_closes_its_group(a, x.published_at);
        last_entry_closes_its_group(b, y.published_at);
        assert(released_at(a, x.published_at) == released_at(b, x.published_at));
        assert(released_at(a, y.published_at) == released_at(b, y.published_at));
        let in_b = group_has_a_member(b, x.published_at);
        let in_a = group_has_a_member(a, y.published_at);
        assert(b[in_b].published_at.le(&y.published_at));
        assert(a[in_a].published_at.le(&x.published_at));
        assert(x.published_at == y.published_at);
        last_entry_closes_its_group(b, x.published_at);
        assert(released_at(a, x.published_at).last() == x);
        assert(released_at(b, x.published_at).last() == y);
        assert(x == y);
        let shorter_a = a.drop_last();
        let shorter_b = b.drop_last();
        assert forall|at: Instant| #[trigger]
            released_at(shorter_a, at) == released_at(shorter_b, at) by {
            last_entry_closes_its_group(a, at);
            last_entry_closes_its_group(b, at);
            assert(released_at(a, at) == released_at(b, at));
            if x.published_at == at {
                assert(released_at(shorter_a, at) =~= released_at(a, at).drop_last());
                assert(released_at(shorter_b, at) =~= released_at(b, at).drop_last());
            }
        }
        assert(is_sorted(shorter_a)) by {
            assert forall|i: int, j: int| 0 <= i <= j < shorter_a.len() implies (
            #[trigger] shorter_a[i]).published_at.le(&(#[trigger] shorter_a[j]).published_at) by {
                assert(a[i].published_at.le(&a[j].published_at));
            }
        }
        assert(is_sorted(shorter_b)) by {
            assert forall|i: int, j: int| 0 <= i <= j < shorter_b.len() implies (
            #[trigger] shorter_b[i]).published_at.le(&(#[trigger] shorter_b[j]).published_at) by {
                assert(b[i].published_at.le(&b[j].published_at));
            }
        }
        sorted_histories_with_equal_groups(shorter_a, shorter_b);
        assert(a =~= shorter_a.push(x));
        assert(b =~= shorter_b.push(y));
    }
}

/// A history has one stable sort only: the order of publication settles the
/// place of releases that differ in their publication time, and the order of
/// the history settles the rest.
pub proof fn stable_sort_is_unique(
    a: Seq<ReleaseView>,
    b: Seq<ReleaseView>,
    history: Seq<ReleaseView>,
)
    requires
        is_stable_sort_of(a, history),
        is_stable_sort_of(b, history),
    ensures
        a == b,
{
    to_multiset_len(a);
    to_multiset_len(b);
    assert forall|at: Instant| #[trigger] released_at(a, at) == released_at(b, at) by {
        assert(released_at(a, at) == released_at(history, at));
        assert(released_at(b, at) == released_at(history, at));
    }
    sorted_histories_with_equal_groups(a, b);
}

/// A history that is sorted already is its own stable sort.
pub proof fn sorted_history_is_its_own_sort(t: Seq<ReleaseView>)
    requires
        is_sorted(t),
    ensures
        is_stable_sort_of(t, t),
{
}

/// Holds of the releases that were published at or before `cutoff`.
pub open spec fn published_by(cutoff: Instant) -> spec_fn(ReleaseView) -> bool {
    |release: ReleaseView| release.published_at.le(&cutoff)
}

/// The releases of the history that were published at or before `cutoff`, in
/// the order in which the history holds them.
pub open spec fn eligible_releases(t: Seq<ReleaseView>, cutoff: Instant) -> Seq<ReleaseView> {
    t.filter(published_by(cutoff))
}

/// Filtering twice ends with the last entry that passes both filters.
proof fn last_of_filtered_twice(
    t: Seq<ReleaseView>,
    first: spec_fn(ReleaseView) -> bool,
    second: spec_fn(ReleaseView) -> bool,
    k: int,
)
    requires
        0 <= k < t.len(),
        first(t[k]) && second(t[k]),
        forall|j: int| k < j < t.len() ==> !(first(#[trigger] t[j]) && second(t[j])),
    ensures
        t.filter(first).filter(second).len() > 0,
        t.filter(first).filter(second).last() == t[k],
    decreases t.len(),
{
    let shorter = t.drop_last();
    assert(shorter.push(t.last()) =~= t);
    shorter.lemma_filter_push(t.last(), first);
    if first(t.last()) {
        shorter.filter(first).lemma_filter_push(t.last(), second);
    }
    if k < t.len() - 1 {
        assert(!(first(t[t.len() - 1]) && second(t[t.len() - 1])));
        assert forall|j: int| k < j < shorter.len() implies !(first(#[trigger] shorter[j])
            && second(shorter[j])) by {
            assert(shorter[j] == t[j]);
        }
        last_of_filtered_twice(shorter, first, second, k);
    }
}

/// Every entry of a filtered history is an entry of the history that passes
/// the filter.
proof fn filtered_entry_is_an_entry(
    t: Seq<ReleaseView>,
    pred: spec_fn(ReleaseView) -> bool,
    x: ReleaseView,
) -> (j: int)
    requires
        t.filter(pred).contains(x),
    ensures
        0 <= j < t.len(),
        t[j] == x,
        pred(x),
{
    let kept = t.filter(pred);
    let at = choose|at: int| 0 <= at < kept.len() && kept[at] == x;
    t.lemma_filter_pred(pred, at);
    t.lemma_filter_contains_rev(pred, x);
    choose|j: int| 0 <= j < t.len() && t[j] == x
}

/// The champion is what a stable sort and a pop would give: put the releases
/// that were published at or before the cutoff into ascending order of
/// publication, those of one publication time in the order of the history;
/// the champion is the last of them.
pub proof fn champion_is_last_of_sorted_eligible(
    t: Seq<ReleaseView>,
    cutoff: Instant,
    sorted: Seq<ReleaseView>,
    i: int,
)
    requires
        is_stable_sort_of(sorted, eligible_releases(t, cutoff)),
        is_champion(t, cutoff, i),
    ensures
        sorted.len() > 0,
        sorted.last() == t[i],
{
    let kept = eligible_releases(t, cutoff);
    let in_time = published_by(cutoff);
    t.lemma_filter_contains(in_time, i);
    assert(kept.contains(t[i]));
    to_multiset_contains(kept, t[i]);
    to_multiset_contains(sorted, t[i]);
    assert(sorted.contains(t[i]));
    let x = sorted.last();
    assert(sorted.contains(x));
    to_multiset_contains(sorted, x);
    to_multiset_contains(kept, x);
    assert(kept.contains(x));
    let j = filtered_entry_is_an_entry(t, in_time, x);
    assert(eligible(t, cutoff, j));
    assert(x.published_at.le(&t[i].published_at));
    let place = choose|place: int| 0 <= place < sorted.len() && sorted[place] == t[i];
    assert(sorted[place].published_at.le(&x.published_at));
    let at = x.published_at;
    assert(at == t[i].published_at);
    last_entry_closes_its_group(sorted, at);
    assert(released_at(sorted, at) == released_at(kept, at));
    assert forall|later: int| i < later < t.len() implies !(in_time(#[trigger] t[later])
        && published_at(at)(t[later])) by {
        if in_time(t[later]) {
            assert(eligible(t, cutoff, later));
        }
    }
    last_of_filtered_twice(t, in_time, published_at(at), i);
}

/// No release is eligible exactly when the eligible releases are none.
pub proof fn none_eligible_means_nothing_to_sort(t: Seq<ReleaseView>, cutoff: Instant)
    ensures
        (forall|i: int| !eligible(t, cutoff, i)) <==> eligible_releases(t, cutoff).len() == 0,
{
    let in_time = published_by(cutoff);
    if eligible_releases(t, cutoff).len() > 0 {
        let x = eligible_releases(t, cutoff)[0];
        assert(eligible_releases(t, cutoff).contains(x));
        let j = filtered_entry_is_an_entry(t, in_time, x);
        assert(eligible(t, cutoff, j));
    }
    if exists|i: int| eligible(t, cutoff, i) {
        let i = choose|i: int| eligible(t, cutoff, i);
        t.lemma_filter_contains(in_time, i);
    }
}

} // verus!
