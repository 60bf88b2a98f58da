//! The newest release at a cutoff instant.

use crate::instant::Instant;
use crate::release::{Release, ReleaseView};
use vstd::prelude::*;

verus! {

/// Entry `i` of the history was published at or before the cutoff.
pub open spec fn eligible(t: Seq<ReleaseView>, cutoff: Instant, i: int) -> bool {
    0 <= i < t.len() && t[i].published_at.le(&cutoff)
}

/// No entry of the history was published at or before the cutoff.
pub open spec fn none_eligible(t: Seq<ReleaseView>, cutoff: Instant) -> bool {
    forall|i: int| !eligible(t, cutoff, i)
}

/// Entry `i` is the champion among the first `n` entries: it is eligible, no
/// eligible entry among them is newer, and every eligible entry that follows
/// it among them is strictly older. Of several eligible entries that share
/// the newest publication time, the champion is therefore the one that comes
/// last in the history.
pub open spec fn is_champion_among(t: Seq<ReleaseView>, cutoff: Instant, n: int, i: int) -> bool {
    &&& i < n
    &&& eligible(t, cutoff, i)
    &&& forall|j: int|
        j < n && #[trigger] eligible(t, cutoff, j) ==> t[j].published_at.le(&t[i].published_at)
    &&& forall|j: int|
        i < j < n && #[trigger] eligible(t, cutoff, j) ==> t[j].published_at.lt(
            &t[i].published_at,
        )
}

/// Entry `i` is the champion of the whole history at the cutoff.
pub open spec fn is_champion(t: Seq<ReleaseView>, cutoff: Instant, i: int) -> bool {
    is_champion_among(t, cutoff, t.len() as int, i)
}

/// The position of the newest release published at or before `cutoff`.
///
/// The history need not be sorted. Where several eligible releases share the
/// newest publication time, the last of them in the history wins.
pub fn champion_position(timeline: &Vec<Release>, cutoff: Instant) -> (r: Option<usize>)
    ensures
        match r {
            Some(i) => is_champion(timeline.deep_view(), cutoff, i as int),
            None => none_eligible(timeline.deep_view(), cutoff),
        },
{
    let ghost t = timeline.deep_view();
    let mut best: Option<usize> = None;
    let mut i: usize = 0;
    while i < timeline.len()
        invariant
            i <= timeline.len(),
            t == timeline.deep_view(),
            match best {
                Some(b) => is_champion_among(t, cutoff, i as int, b as int),
                None => forall|j: int| j < i ==> !eligible(t, cutoff, j),
            },
        decreases timeline.len() - i,
    {
        let date = timeline[i].published_at;
        assert(t[i as int].published_at == date);
        if date.le(&cutoff) {
            let replace = match best {
                Some(b) => {
                    assert(t[b as int].published_at == timeline[b as int].published_at);
                    timeline[b].published_at.le(&date)
                },
                None => true,
            };
            if replace {
                best = Some(i);
            }
        }
        i += 1;
    }
    best
}

/// The newest release published at or before `cutoff`, if there is one.
///
/// The result is absent exactly when no release of the history is eligible,
/// which includes the empty history.
pub fn select_champion(timeline: &Vec<Release>, cutoff: Instant) -> (r: Option<Release>)
    ensures
        match r {
            Some(release) => exists|i: int|
                is_champion(timeline.deep_view(), cutoff, i) && timeline.deep_view()[i]
                    == release@,
            None => none_eligible(timeline.deep_view(), cutoff),
        },
        r matches Some(release) ==> release.published_at.le(&cutoff) && forall|j: int|
            #[trigger] eligible(timeline.deep_view(), cutoff, j) ==> !release.published_at.lt(
                &timeline.deep_view()[j].published_at,
            ),
{
    match champion_position(timeline, cutoff) {
        Some(i) => {
            let release = timeline[i].clone();
            assert(timeline.deep_view()[i as int] == release@);
            Some(release)
        },
        None => None,
    }
}

/// A history has at most one champion at a cutoff.
pub proof fn champion_is_unique(t: Seq<ReleaseView>, cutoff: Instant, i: int, j: int)
    requires
        is_champion(t, cutoff, i),
        is_champion(t, cutoff, j),
    ensures
        i == j,
{
    if i < j {
        assert(t[j].published_at.lt(&t[i].published_at));
        assert(t[i].published_at.le(&t[j].published_at));
    } else if j < i {
        assert(t[i].published_at.lt(&t[j].published_at));
        assert(t[j].published_at.le(&t[i].published_at));
    }
}

/// Among the first `n` entries there is a champion as soon as one of them is
/// eligible.
pub proof fn champion_among_exists(t: Seq<ReleaseView>, cutoff: Instant, n: int) -> (r: Option<
    int,
>)
    requires
        0 <= n <= t.len(),
    ensures
        match r {
            Some(i) => is_champion_among(t, cutoff, n, i),
            None => forall|j: int| j < n ==> !eligible(t, cutoff, j),
        },
    decreases n,
{
    if n == 0 {
        None
    } else {
        let before = champion_among_exists(t, cutoff, n - 1);
        if !eligible(t, cutoff, n - 1) {
            before
        } else {
            match before {
                Some(b) => {
                    if t[b].published_at.le(&t[n - 1].published_at) {
                        Some(n - 1)
                    } else {
                        before
                    }
                },
                None => Some(n - 1),
            }
        }
    }
}

/// With the greatest instant as the cutoff, the champion of a history that
/// is not empty is its newest release: there is a champion, and an entry is
/// the champion exactly when no entry is newer than it and every entry after
/// it is strictly older.
pub proof fn champion_without_cutoff_is_newest(t: Seq<ReleaseView>, i: int)
    requires
        t.len() > 0,
    ensures
        exists|c: int| is_champion(t, Instant::latest(), c),
        is_champion(t, Instant::latest(), i) <==> {
            &&& 0 <= i < t.len()
            &&& forall|j: int|
                0 <= j < t.len() ==> (#[trigger] t[j]).published_at.le(&t[i].published_at)
            &&& forall|j: int|
                i < j < t.len() ==> (#[trigger] t[j]).published_at.lt(&t[i].published_at)
        },
{
    let cutoff = Instant::latest();
    assert(eligible(t, cutoff, 0));
    let found = champion_among_exists(t, cutoff, t.len() as int);
    assert(is_champion(t, cutoff, found->0));
    if is_champion(t, cutoff, i) {
        assert forall|j: int| 0 <= j < t.len() implies (#[trigger] t[j]).published_at.le(
            &t[i].published_at,
        ) by {
            assert(eligible(t, cutoff, j));
        }
        assert forall|j: int| i < j < t.len() implies (#[trigger] t[j]).published_at.lt(
            &t[i].published_at,
        ) by {
            assert(eligible(t, cutoff, j));
        }
    }
}

} // verus!
