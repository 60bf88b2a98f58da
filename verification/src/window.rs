//! The interval during which one release was the newest.

use crate::instant::Instant;
use crate::release::{
    distinct_versions, has_version, is_sorted, reign_end, Release, ReleaseView,
};
use vstd::prelude::*;
use vstd::string::*;

verus! {

/// The package and version that a window is computed for.
#[derive(Clone, Debug, PartialEq, Eq)]
pub struct Anchor {
    pub package: String,
    pub version: String,
}

/// A half-open interval `[start, end)` of instants.
#[derive(Clone, Copy, Debug, PartialEq, Eq, Structural)]
pub struct Window {
    pub start: Instant,
    pub end: Instant,
}

/// Why no window could be computed.
#[derive(Clone, Debug, PartialEq, Eq)]
pub enum WindowError {
    /// The history holds no release with the anchor's version.
    AnchorNotFound { package: String, version: String },
}

/// The mathematical value of a [`WindowError`].
pub enum WindowErrorView {
    AnchorNotFound { package: Seq<char>, version: Seq<char> },
}

impl View for WindowError {
    type V = WindowErrorView;

    open spec fn view(&self) -> WindowErrorView {
        match self {
            WindowError::AnchorNotFound { package, version } => WindowErrorView::AnchorNotFound {
                package: package@,
                version: version@,
            },
        }
    }
}

/// The text of the message for a missing anchor.
pub open spec fn not_found_text(package: Seq<char>, version: Seq<char>) -> Seq<char> {
    "version "@ + version + " of "@ + package + " not found"@
}

impl WindowError {
    /// A message for the user, naming the version and the package.
    pub fn message(&self) -> (r: String)
        ensures
            self@ matches WindowErrorView::AnchorNotFound { package, version } && r@
                == not_found_text(package, version),
    {
        match self {
            WindowError::AnchorNotFound { package, version } => {
                let mut text = String::from_str("version ");
                text.append(version.as_str());
                text.append(" of ");
                text.append(package.as_str());
                text.append(" not found");
                text
            },
        }
    }
}

/// Entry `i` is the first entry of the history that carries the version.
pub open spec fn is_anchor_position(t: Seq<ReleaseView>, version: Seq<char>, i: int) -> bool {
    &&& 0 <= i < t.len()
    &&& t[i].version == version
    &&& forall|j: int| 0 <= j < i ==> (#[trigger] t[j]).version != version
}

/// The reign of entry `i`: from its own publication to that of the entry
/// after it, or to `now` where it is the last entry.
pub open spec fn reign(t: Seq<ReleaseView>, i: int, now: Instant) -> Window {
    Window { start: t[i].published_at, end: reign_end(t, i, now) }
}

/// The position of the first release that carries exactly this version
/// string, compared character by character.
pub fn anchor_position(timeline: &Vec<Release>, version: &String) -> (r: Option<usize>)
    ensures
        match r {
            Some(i) => is_anchor_position(timeline.deep_view(), version@, i as int),
            None => !has_version(timeline.deep_view(), version@),
        },
{
    let ghost t = timeline.deep_view();
    let mut i: usize = 0;
    while i < timeline.len()
        invariant
            i <= timeline.len(),
            t == timeline.deep_view(),
            forall|j: int| 0 <= j < i ==> (#[trigger] t[j]).version != version@,
        decreases timeline.len() - i,
    {
        assert(t[i as int].version == timeline[i as int].version@);
        if timeline[i].version == *version {
            return Some(i);
        }
        i += 1;
    }
    None
}

/// The window during which the anchor's release was the newest one: it opens
/// when that release was published and closes when the next entry of the
/// history was, or at `now` where the anchor is the last entry.
///
/// Fails exactly when no release of the history carries the anchor's version.
pub fn compute_anchor_window(timeline: &Vec<Release>, anchor: &Anchor, now: Instant) -> (r: Result<
    Window,
    WindowError,
>)
    ensures
        r is Ok <==> has_version(timeline.deep_view(), anchor.version@),
        match r {
            Ok(window) => exists|i: int|
                is_anchor_position(timeline.deep_view(), anchor.version@, i) && window == reign(
                    timeline.deep_view(),
                    i,
                    now,
                ),
            Err(e) => e@ == (WindowErrorView::AnchorNotFound {
                package: anchor.package@,
                version: anchor.version@,
            }),
        },
{
    let ghost t = timeline.deep_view();
    match anchor_position(timeline, &anchor.version) {
        Some(i) => {
            assert(t.len() == timeline.len());
            let start = timeline[i].published_at;
            let end = if i + 1 < timeline.len() {
                timeline[i + 1].published_at
            } else {
                now
            };
            assert(t[i as int].published_at == start);
            assert(i + 1 < timeline.len() ==> t[i + 1].published_at == end);
            let window = Window { start, end };
            assert(is_anchor_position(t, anchor.version@, i as int) && window == reign(
                t,
                i as int,
                now,
            ));
            Ok(window)
        },
        None => Err(
            WindowError::AnchorNotFound {
                package: anchor.package.clone(),
                version: anchor.version.clone(),
            },
        ),
    }
}

/// In a history sorted by publication time, the window of a release that was
/// published by `now` never ends before it starts.
pub proof fn reign_is_ordered(t: Seq<ReleaseView>, i: int, now: Instant)
    requires
        is_sorted(t),
        0 <= i < t.len(),
        t[i].published_at.le(&now),
    ensures
        reign(t, i, now).start.le(&reign(t, i, now).end),
{
    if i + 1 < t.len() {
        assert(t[i].published_at.le(&t[i + 1].published_at));
    }
}

/// At most one position is the anchor's.
pub proof fn anchor_position_is_unique(t: Seq<ReleaseView>, version: Seq<char>, i: int, j: int)
    requires
        is_anchor_position(t, version, i),
        is_anchor_position(t, version, j),
    ensures
        i == j,
{
}

/// In a history in which every version occurs once, the entry that carries
/// the version is the anchor's position: no other entry can stand for it.
pub proof fn only_match_is_anchor_position(t: Seq<ReleaseView>, version: Seq<char>, i: int)
    requires
        distinct_versions(t),
        0 <= i < t.len(),
        t[i].version == version,
    ensures
        is_anchor_position(t, version, i),
{
}

} // verus!
