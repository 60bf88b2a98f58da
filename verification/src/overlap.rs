//! The releases that were the newest ones during a window.

use crate::champion::eligible;
use crate::instant::Instant;
use crate::release::{is_sorted, reign_end, Release, ReleaseView};
use vstd::prelude::*;

verus! {

/// The part of a window during which one release was the newest.
#[derive(Clone, Debug, PartialEq, Eq)]
pub struct OverlapSegment {
    pub version: String,
    pub overlap_start: Instant,
    pub overlap_end: Instant,
}

/// The mathematical value of an [`OverlapSegment`].
pub struct SegmentView {
    pub version: Seq<char>,
    pub overlap_start: Instant,
    pub overlap_end: Instant,
}

impl View for OverlapSegment {
    type V = SegmentView;

    open spec fn view(&self) -> SegmentView {
        SegmentView {
            version: self.version@,
            overlap_start: self.overlap_start,
            overlap_end: self.overlap_end,
        }
    }
}

impl DeepView for OverlapSegment {
    type V = SegmentView;

    open spec fn deep_view(&self) -> SegmentView {
        self@
    }
}

/// The position of the last of the first `n` entries that was published at
/// or before `at`, if there is one.
pub open spec fn last_at_or_before(t: Seq<ReleaseView>, at: Instant, n: int) -> Option<int>
    decreases n,
{
    if n <= 0 {
        None
    } else if t[n - 1].published_at.le(&at) {
        Some(n - 1)
    } else {
        last_at_or_before(t, at, n - 1)
    }
}

/// Where the scan of a window begins: at the release that was current when
/// the window opens, or at the first entry where every release is later.
pub open spec fn scan_start(t: Seq<ReleaseView>, window_start: Instant) -> int {
    match last_at_or_before(t, window_start, t.len() as int) {
        Some(i) => i,
        None => 0,
    }
}

/// The scan reaches entry `i`: it lies at or after the start of the scan, and
/// every entry from the one after the start up to `i` was published before
/// the window closes.
pub open spec fn scan_reaches(
    t: Seq<ReleaseView>,
    window_start: Instant,
    window_end: Instant,
    i: int,
) -> bool {
    &&& scan_start(t, window_start) <= i < t.len()
    &&& forall|j: int|
        scan_start(t, window_start) < j <= i ==> (#[trigger] t[j]).published_at.lt(&window_end)
}

/// The reign of entry `i`, clipped to the window.
pub open spec fn clipped_reign(
    t: Seq<ReleaseView>,
    window_start: Instant,
    window_end: Instant,
    i: int,
) -> SegmentView {
    SegmentView {
        version: t[i].version,
        overlap_start: t[i].published_at.later(window_start),
        overlap_end: reign_end(t, i, window_end).earlier(window_end),
    }
}

/// Entry `i` contributes a segment: the scan reaches it and its clipped reign
/// is not empty.
pub open spec fn emits(
    t: Seq<ReleaseView>,
    window_start: Instant,
    window_end: Instant,
    i: int,
) -> bool {
    let clipped = clipped_reign(t, window_start, window_end, i);
    scan_reaches(t, window_start, window_end, i) && clipped.overlap_start.lt(&clipped.overlap_end)
}

/// The segments that the first `n` entries contribute, in the order of the
/// history.
pub open spec fn segments_below(
    t: Seq<ReleaseView>,
    window_start: Instant,
    window_end: Instant,
    n: int,
) -> Seq<SegmentView>
    decreases n,
{
    if n <= 0 {
        Seq::empty()
    } else {
        let before = segments_below(t, window_start, window_end, n - 1);
        if emits(t, window_start, window_end, n - 1) {
            before.push(clipped_reign(t, window_start, window_end, n - 1))
        } else {
            before
        }
    }
}

/// The segments of the window `[window_start, window_end)`: for each entry
/// that the scan reaches, its clipped reign where that is not empty. A window
/// that does not open before it closes has no segments.
pub open spec fn segments(t: Seq<ReleaseView>, window_start: Instant, window_end: Instant) -> Seq<
    SegmentView,
> {
    if window_start.lt(&window_end) {
        segments_below(t, window_start, window_end, t.len() as int)
    } else {
        Seq::empty()
    }
}

/// What `last_at_or_before` finds is the last eligible entry among the first
/// `n`, and it finds nothing only where none of them is eligible.
pub proof fn last_at_or_before_is_last(t: Seq<ReleaseView>, at: Instant, n: int)
    requires
        0 <= n <= t.len(),
    ensures
        match last_at_or_before(t, at, n) {
            Some(i) => i < n && eligible(t, at, i) && forall|j: int|
                i < j < n ==> !eligible(t, at, j),
            None => forall|j: int| j < n ==> !eligible(t, at, j),
        },
    decreases n,
{
    if n > 0 && !t[n - 1].published_at.le(&at) {
        last_at_or_before_is_last(t, at, n - 1);
    }
}

/// The entries before the start of the scan contribute no segment.
proof fn nothing_before_scan_start(
    t: Seq<ReleaseView>,
    window_start: Instant,
    window_end: Instant,
    n: int,
)
    requires
        n <= scan_start(t, window_start),
    ensures
        segments_below(t, window_start, window_end, n) == Seq::<SegmentView>::empty(),
    decreases n,
{
    if n > 0 {
        nothing_before_scan_start(t, window_start, window_end, n - 1);
    }
}

/// Once the scan has met an entry, after its start, that was published at or
/// after the end of the window, no later entry contributes a segment.
proof fn nothing_after_scan_stop(
    t: Seq<ReleaseView>,
    window_start: Instant,
    window_end: Instant,
    stop: int,
    n: int,
)
    requires
        scan_start(t, window_start) < stop <= n <= t.len(),
        stop == t.len() || !t[stop].published_at.lt(&window_end),
    ensures
        segments_below(t, window_start, window_end, n) == segments_below(
            t,
            window_start,
            window_end,
            stop,
        ),
    decreases n - stop,
{
    if n > stop {
        nothing_after_scan_stop(t, window_start, window_end, stop, n - 1);
        assert(!scan_reaches(t, window_start, window_end, n - 1));
    }
}

/// The position at which the scan of a window that opens at `window_start`
/// begins.
pub fn start_position(timeline: &Vec<Release>, window_start: Instant) -> (r: usize)
    ensures
        r == scan_start(timeline.deep_view(), window_start),
        timeline.len() > 0 ==> r < timeline.len(),
{
    let ghost t = timeline.deep_view();
    let mut n: usize = timeline.len();
    while n > 0
        invariant
            n <= timeline.len(),
            t == timeline.deep_view(),
            last_at_or_before(t, window_start, t.len() as int) == last_at_or_before(
                t,
                window_start,
                n as int,
            ),
        decreases n,
    {
        assert(t[n - 1].published_at == timeline[n - 1].published_at);
        if timeline[n - 1].published_at.le(&window_start) {
            return n - 1;
        }
        n -= 1;
    }
    0
}

/// The segments of the window `[window_start, window_end)`, in ascending
/// order of their starts: which release was the newest one during which part
/// of the window.
///
/// An empty history and a window that does not open before it closes give no
/// segments. Time before the first release belongs to no segment.
pub fn overlapping_segments(
    timeline: &Vec<Release>,
    window_start: Instant,
    window_end: Instant,
) -> (r: Vec<OverlapSegment>)
    ensures
        r.deep_view() == segments(timeline.deep_view(), window_start, window_end),
{
    let ghost t = timeline.deep_view();
    let mut out: Vec<OverlapSegment> = Vec::new();
    let n: usize = timeline.len();
    if !window_start.lt(&window_end) {
        assert(out.deep_view() =~= Seq::<SegmentView>::empty());
        return out;
    }
    let start: usize = start_position(timeline, window_start);
    let mut i: usize = start;
    proof {
        nothing_before_scan_start(t, window_start, window_end, start as int);
        assert(out.deep_view() =~= Seq::<SegmentView>::empty());
    }
    while i < n && (i == start || timeline[i].published_at.lt(&window_end))
        invariant
            n == timeline.len(),
            t == timeline.deep_view(),
            start == scan_start(t, window_start),
            start <= i <= n,
            forall|j: int| start < j < i ==> (#[trigger] t[j]).published_at.lt(&window_end),
            out.deep_view() == segments_below(t, window_start, window_end, i as int),
        decreases n - i,
    {
        assert(t[i as int] == timeline[i as int]@);
        assert(scan_reaches(t, window_start, window_end, i as int));
        let until = if i + 1 < n {
            assert(t[i + 1] == timeline[i + 1]@);
            timeline[i + 1].published_at
        } else {
            window_end
        };
        let overlap_start = timeline[i].published_at.later(window_start);
        let overlap_end = until.earlier(window_end);
        if overlap_start.lt(&overlap_end) {
            let ghost before = out.deep_view();
            let segment = OverlapSegment {
                version: timeline[i].version.clone(),
                overlap_start,
                overlap_end,
            };
            assert(segment@ == clipped_reign(t, window_start, window_end, i as int));
            out.push(segment);
            assert(out.deep_view() =~= before.push(segment@));
        }
        i += 1;
    }
    proof {
        if i < n {
            assert(t[i as int] == timeline[i as int]@);
            nothing_after_scan_stop(t, window_start, window_end, i as int, n as int);
        }
    }
    out
}

/// Every segment has positive width, and each segment begins at the instant
/// at which the one before it ends.
pub open spec fn is_contiguous(s: Seq<SegmentView>) -> bool {
    &&& forall|k: int|
        0 <= k < s.len() ==> (#[trigger] s[k]).overlap_start.lt(&s[k].overlap_end)
    &&& forall|k: int|
        0 <= k < s.len() - 1 ==> (#[trigger] s[k]).overlap_end == s[k + 1].overlap_start
}

/// Where the segments contributed by the first `n` entries end, as long as
/// the scan goes on: at the publication of entry `n`, or at the end of the
/// window if that comes first or there is no such entry.
spec fn frontier(t: Seq<ReleaseView>, window_end: Instant, n: int) -> Instant {
    reign_end(t, n - 1, window_end).earlier(window_end)
}

/// What holds of the segments contributed by the first `n` entries of a
/// sorted history while the scan goes on.
spec fn scan_state(
    t: Seq<ReleaseView>,
    window_start: Instant,
    window_end: Instant,
    n: int,
) -> bool {
    let s = segments_below(t, window_start, window_end, n);
    let opening = t[0].published_at.later(window_start);
    &&& is_contiguous(s)
    &&& s.len() == 0 ==> n < t.len() && t[n].published_at.later(window_start) == opening
        && t[n].published_at.lt(&window_end)
    &&& s.len() > 0 ==> s[0].overlap_start == opening && s.last().overlap_end == frontier(
        t,
        window_end,
        n,
    )
}

/// The segments of a sorted history whose first release precedes the end of
/// the window: followed from entry `n` of the scan to its end.
proof fn scan_to_the_end(
    t: Seq<ReleaseView>,
    window_start: Instant,
    window_end: Instant,
    n: int,
)
    requires
        is_sorted(t),
        window_start.lt(&window_end),
        t.len() > 0,
        t[0].published_at.lt(&window_end),
        scan_start(t, window_start) <= n <= t.len(),
        forall|j: int|
            scan_start(t, window_start) < j < n ==> (#[trigger] t[j]).published_at.lt(
                &window_end,
            ),
        scan_state(t, window_start, window_end, n),
    ensures
        ({
            let s = segments_below(t, window_start, window_end, t.len() as int);
            &&& is_contiguous(s)
            &&& s.len() > 0
            &&& s[0].overlap_start == t[0].published_at.later(window_start)
            &&& s.last().overlap_end == window_end
        }),
    decreases t.len() - n,
{
    let first = scan_start(t, window_start);
    let here = segments_below(t, window_start, window_end, n);
    last_at_or_before_is_last(t, window_start, t.len() as int);
    if n == t.len() {
    } else if n > first && !t[n].published_at.lt(&window_end) {
        nothing_after_scan_stop(t, window_start, window_end, n, t.len() as int);
    } else {
        let next = segments_below(t, window_start, window_end, n + 1);
        assert(scan_reaches(t, window_start, window_end, n));
        assert(t[0].published_at.le(&t[n].published_at));
        if n + 1 < t.len() {
            assert(t[n].published_at.le(&t[n + 1].published_at));
        }
        if n > first {
            assert(!eligible(t, window_start, n));
        }
        if here.len() > 0 {
            nothing_before_scan_start(t, window_start, window_end, first);
            assert(n > first);
        }
        assert(scan_state(t, window_start, window_end, n + 1));
        scan_to_the_end(t, window_start, window_end, n + 1);
    }
}

/// Where the first release of a sorted history is published at or after the
/// end of the window, no entry contributes a segment.
proof fn nothing_before_first_release(
    t: Seq<ReleaseView>,
    window_start: Instant,
    window_end: Instant,
    n: int,
)
    requires
        is_sorted(t),
        t.len() > 0,
        !t[0].published_at.lt(&window_end),
        n <= t.len(),
    ensures
        segments_below(t, window_start, window_end, n) == Seq::<SegmentView>::empty(),
    decreases n,
{
    if n > 0 {
        nothing_before_first_release(t, window_start, window_end, n - 1);
        assert(t[0].published_at.le(&t[n - 1].published_at));
    }
}

/// Of two contiguous segments, the earlier one ends before the later one
/// begins, or as it begins.
proof fn contiguous_segments_are_ordered(s: Seq<SegmentView>, k: int, l: int)
    requires
        is_contiguous(s),
        0 <= k < l < s.len(),
    ensures
        s[k].overlap_end.le(&s[l].overlap_start),
    decreases l - k,
{
    if k + 1 < l {
        contiguous_segments_are_ordered(s, k, l - 1);
        assert(s[l - 1].overlap_start.lt(&s[l - 1].overlap_end));
        assert(s[l - 1].overlap_end == s[l].overlap_start);
    }
}

/// The segments of a sorted history partition the window from the first
/// attributed instant on.
///
/// Every segment has positive width; each begins where the one before it
/// ends, so that no two overlap and nothing lies between them. There are
/// segments exactly when the window opens before it closes and the first
/// release precedes its end. The first segment then begins when the window
/// opens, or at the first release where that comes later: only the time
/// before the first release is left out. The last segment ends when the
/// window closes.
pub proof fn segments_partition_window(
    t: Seq<ReleaseView>,
    window_start: Instant,
    window_end: Instant,
)
    requires
        is_sorted(t),
    ensures
        ({
            let s = segments(t, window_start, window_end);
            &&& is_contiguous(s)
            &&& forall|k: int, l: int|
                0 <= k < l < s.len() ==> (#[trigger] s[k]).overlap_end.le(
                    &(#[trigger] s[l]).overlap_start,
                )
            &&& s.len() > 0 <==> t.len() > 0 && window_start.lt(&window_end)
                && t[0].published_at.lt(&window_end)
            &&& s.len() > 0 ==> s[0].overlap_start == t[0].published_at.later(window_start)
                && s.last().overlap_end == window_end
        }),
{
    let s = segments(t, window_start, window_end);
    if window_start.lt(&window_end) && t.len() > 0 {
        if t[0].published_at.lt(&window_end) {
            let first = scan_start(t, window_start);
            last_at_or_before_is_last(t, window_start, t.len() as int);
            nothing_before_scan_start(t, window_start, window_end, first);
            assert(t[0].published_at.le(&t[first].published_at));
            scan_to_the_end(t, window_start, window_end, first);
        } else {
            nothing_before_first_release(t, window_start, window_end, t.len() as int);
        }
    }
    assert forall|k: int, l: int| 0 <= k < l < s.len() implies (#[trigger] s[k]).overlap_end.le(
        &(#[trigger] s[l]).overlap_start,
    ) by {
        contiguous_segments_are_ordered(s, k, l);
    }
}

/// In a sorted history the scan passes over no release whose clipped reign
/// is not empty: an entry contributes a segment exactly when its reign
/// meets the window.
pub proof fn scan_misses_nothing(
    t: Seq<ReleaseView>,
    window_start: Instant,
    window_end: Instant,
    i: int,
)
    requires
        is_sorted(t),
        0 <= i < t.len(),
    ensures
        emits(t, window_start, window_end, i) <==> clipped_reign(
            t,
            window_start,
            window_end,
            i,
        ).overlap_start.lt(&clipped_reign(t, window_start, window_end, i).overlap_end),
{
    let clipped = clipped_reign(t, window_start, window_end, i);
    if clipped.overlap_start.lt(&clipped.overlap_end) {
        let first = scan_start(t, window_start);
        last_at_or_before_is_last(t, window_start, t.len() as int);
        if i < first {
            assert(t[i + 1].published_at.le(&t[first].published_at));
        }
        assert forall|j: int| first < j <= i implies (#[trigger] t[j]).published_at.lt(
            &window_end,
        ) by {
            assert(t[j].published_at.le(&t[i].published_at));
        }
    }
}

/// The segments depend on the history and on the window alone: two results
/// for the same history and the same window are the same sequence.
pub proof fn segments_are_repeatable(
    t: Seq<ReleaseView>,
    window_start: Instant,
    window_end: Instant,
    once: Seq<SegmentView>,
    again: Seq<SegmentView>,
)
    requires
        once == segments(t, window_start, window_end),
        again == segments(t, window_start, window_end),
    ensures
        once == again,
{
}

} // verus!
