//! Releases and the release history of one package.

use crate::instant::Instant;
use vstd::prelude::*;

verus! {

/// One published version of a package.
///
/// The version is an opaque identifier: releases are ordered by publication
/// time only, never by the meaning of their version strings.
#[derive(Debug, PartialEq, Eq)]
pub struct Release {
    pub version: String,
    pub published_at: Instant,
}

/// The mathematical value of a [`Release`].
pub struct ReleaseView {
    pub version: Seq<char>,
    pub published_at: Instant,
}

impl View for Release {
    type V = ReleaseView;

    open spec fn view(&self) -> ReleaseView {
        ReleaseView { version: self.version@, published_at: self.published_at }
    }
}

impl DeepView for Release {
    type V = ReleaseView;

    open spec fn deep_view(&self) -> ReleaseView {
        self@
    }
}

impl Clone for Release {
    fn clone(&self) -> (r: Release)
        ensures
            r@ == self@,
    {
        Release { version: self.version.clone(), published_at: self.published_at }
    }
}

impl Release {
    pub fn new(version: String, published_at: Instant) -> (r: Release)
        ensures
            r@ == (ReleaseView { version: version@, published_at }),
    {
        Release { version, published_at }
    }
}

/// The entries are in ascending order of publication time.
pub open spec fn is_sorted(t: Seq<ReleaseView>) -> bool {
    forall|i: int, j: int|
        0 <= i <= j < t.len() ==> (#[trigger] t[i]).published_at.le(&(#[trigger] t[j]).published_at)
}

/// No version string occurs twice.
pub open spec fn distinct_versions(t: Seq<ReleaseView>) -> bool {
    forall|i: int, j: int|
        0 <= i < j < t.len() ==> (#[trigger] t[i]).version != (#[trigger] t[j]).version
}

/// A timeline is a release history sorted by publication time in which every
/// version occurs once.
pub open spec fn is_timeline(t: Seq<ReleaseView>) -> bool {
    is_sorted(t) && distinct_versions(t)
}

/// The instant at which the reign of entry `i` ends: the publication time of
/// the entry that follows it in the history, or `otherwise` for the last entry.
pub open spec fn reign_end(t: Seq<ReleaseView>, i: int, otherwise: Instant) -> Instant {
    if i + 1 < t.len() {
        t[i + 1].published_at
    } else {
        otherwise
    }
}

/// Some entry of the history carries the version.
pub open spec fn has_version(t: Seq<ReleaseView>, version: Seq<char>) -> bool {
    exists|i: int| 0 <= i < t.len() && (#[trigger] t[i]).version == version
}

/// Whether the history is a timeline: sorted by publication time, with every
/// version occurring once.
pub fn is_valid_timeline(history: &Vec<Release>) -> (r: bool)
    ensures
        r == is_timeline(history.deep_view()),
{
    let ghost t = history.deep_view();
    let mut j: usize = 0;
    while j < history.len()
        invariant
            j <= history.len(),
            t == history.deep_view(),
            forall|a: int, b: int|
                0 <= a <= b < j ==> (#[trigger] t[a]).published_at.le(
                    &(#[trigger] t[b]).published_at,
                ),
            forall|a: int, b: int|
                0 <= a < b < j ==> (#[trigger] t[a]).version != (#[trigger] t[b]).version,
        decreases history.len() - j,
    {
        assert(t[j as int] == history[j as int]@);
        if j > 0 {
            assert(t[j - 1] == history[j - 1]@);
            if !history[j - 1].published_at.le(&history[j].published_at) {
                return false;
            }
        }
        let mut i: usize = 0;
        while i < j
            invariant
                i <= j < history.len(),
                t == history.deep_view(),
                forall|a: int| 0 <= a < i ==> (#[trigger] t[a]).version != t[j as int].version,
            decreases j - i,
        {
            assert(t[i as int] == history[i as int]@);
            assert(t[j as int] == history[j as int]@);
            if history[i].version == history[j].version {
                return false;
            }
            i += 1;
        }
        assert forall|a: int, b: int| 0 <= a <= b < j + 1 implies (#[trigger] t[a]).published_at.le(
            &(#[trigger] t[b]).published_at,
        ) by {
            if b == j && a < j {
                assert(t[a].published_at.le(&t[j - 1].published_at));
            }
        }
        j += 1;
    }
    true
}

} // verus!
