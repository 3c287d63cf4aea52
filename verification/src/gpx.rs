//! GPX tracks: the time span of an activity, and the points kept for a
//! track preview.
use vstd::prelude::*;

verus! {

/// Whether point `j` of segment `i` is among the points read so far: all
/// points of the first `n` segments, and the first `m` points of segment `n`.
pub open spec fn point_seen(segs: Seq<Vec<Option<i128>>>, n: int, m: int, i: int, j: int) -> bool {
    ||| 0 <= i < n && 0 <= j < segs[i]@.len()
    ||| i == n && 0 <= j < m
}

/// Whether `f` is the earliest time of the points read so far (each point's
/// time in nanoseconds since the Unix epoch, `None` for a point that has
/// none): `None` when none of them has a time.
pub open spec fn earliest_seen(segs: Seq<Vec<Option<i128>>>, n: int, m: int, f: Option<i128>) -> bool {
    match f {
        None => forall|i: int, j: int|
            point_seen(segs, n, m, i, j) ==> (#[trigger] segs[i]@[j]) is None,
        Some(t) => {
            &&& exists|i: int, j: int|
                point_seen(segs, n, m, i, j) && #[trigger] segs[i]@[j] == Some(t)
            &&& forall|i: int, j: int|
                point_seen(segs, n, m, i, j) && (#[trigger] segs[i]@[j]) is Some ==> t
                    <= segs[i]@[j]->0
        },
    }
}

/// The earliest time of any point of any segment.
pub open spec fn earliest_point_time(segs: Seq<Vec<Option<i128>>>, f: Option<i128>) -> bool {
    earliest_seen(segs, segs.len() as int, 0, f)
}

/// The time of a segment's last point; `None` for a segment without points
/// or whose last point has no time.
pub open spec fn end_time(seg: Vec<Option<i128>>) -> Option<i128> {
    if seg@.len() > 0 {
        seg@.last()
    } else {
        None
    }
}

/// Whether `l` is the latest of the end times of the first `n` segments:
/// `None` when none of them has one.
pub open spec fn latest_end(segs: Seq<Vec<Option<i128>>>, n: int, l: Option<i128>) -> bool {
    match l {
        None => forall|i: int| 0 <= i < n ==> (#[trigger] end_time(segs[i])) is None,
        Some(t) => {
            &&& exists|i: int| 0 <= i < n && #[trigger] end_time(segs[i]) == Some(t)
            &&& forall|i: int|
                0 <= i < n && (#[trigger] end_time(segs[i])) is Some ==> end_time(segs[i])->0 <= t
        },
    }
}

/// The time span of a GPX file, from the point times of each of its track
/// segments (of every track, in order): the earliest time of any point, and
/// the latest of the segments' last-point times. Each is `None` where there
/// is no such time.
pub fn track_time_span(segs: &Vec<Vec<Option<i128>>>) -> (r: (Option<i128>, Option<i128>))
    ensures
        earliest_point_time(segs@, r.0),
        latest_end(segs@, segs@.len() as int, r.1),
{
    let mut first: Option<i128> = None;
    let mut last: Option<i128> = None;
    for i in 0..segs.len()
        invariant
            earliest_seen(segs@, i as int, 0, first),
            latest_end(segs@, i as int, last),
    {
        let seg = &segs[i];
        for j in 0..seg.len()
            invariant
                seg == segs@[i as int],
                0 <= i < segs@.len(),
                earliest_seen(segs@, i as int, j as int, first),
        {
            if let Some(t) = seg[j] {
                let earlier = match first {
                    None => true,
                    Some(f) => t < f,
                };
                if earlier {
                    first = Some(t);
                }
            }
            assert(segs@[i as int]@[j as int] == seg[j as int]);
        }
        if seg.len() > 0 {
            if let Some(t) = seg[seg.len() - 1] {
                let later = match last {
                    None => true,
                    Some(l) => t > l,
                };
                if later {
                    last = Some(t);
                }
            }
        }
        assert(end_time(segs@[i as int]) == end_time(*seg));
    }
    (first, last)
}

/// One second in nanoseconds.
pub const NANOS_PER_SECOND: i128 = 1_000_000_000;

/// Whether a time lies in the range that `time::OffsetDateTime` can hold
/// (well within 2^80 nanoseconds of the epoch).
pub open spec fn time_in_range(t: i128) -> bool {
    -0x1_0000_0000_0000_0000_0000i128 <= t <= 0x1_0000_0000_0000_0000_0000i128
}

/// The whole seconds from `start` to `end`, rounded toward zero as
/// `Duration::whole_seconds` does.
pub open spec fn whole_seconds(start: int, end: int) -> int {
    let d = end - start;
    if d >= 0 { d / 1_000_000_000 } else { -((-d) / 1_000_000_000) }
}

/// The duration of a track: the whole seconds from its earliest to its
/// latest time, when both are known and the duration is positive.
pub fn duration_seconds(first: Option<i128>, last: Option<i128>) -> (r: Option<i64>)
    requires
        first matches Some(f) ==> time_in_range(f),
        last matches Some(l) ==> time_in_range(l),
    ensures
        match (first, last) {
            (Some(f), Some(l)) => if whole_seconds(f as int, l as int) > 0 {
                r == Some(whole_seconds(f as int, l as int) as i64)
            } else {
                r is None
            },
            _ => r is None,
        },
{
    match (first, last) {
        (Some(start), Some(end)) => {
            let d = end - start;
            let secs = d / NANOS_PER_SECOND;
            if secs > 0 {
                Some(secs as i64)
            } else {
                None
            }
        },
        _ => None,
    }
}

// -- Track preview ------------------------------------------------------------

/// The sampling step of a preview of `n` points: every `n / 200`-th point,
/// at least every point.
pub open spec fn preview_step(n: int) -> int {
    if n / 200 >= 1 { n / 200 } else { 1 }
}

/// The positions of the points kept for the preview of a segment of `n`
/// points (every `preview_step(n)`-th from the first, as `step_by` keeps
/// them), when at least two are kept; a line of fewer points is dropped,
/// which happens exactly when the segment has fewer than two points.
pub fn preview_positions(n: usize) -> (r: Option<Vec<usize>>)
    ensures
        r is None <==> n < 2,
        r matches Some(v) ==> {
            &&& forall|k: int|
                0 <= k < v@.len() ==> #[trigger] v@[k] == k * preview_step(n as int) && v@[k] < n
            &&& v@.len() * preview_step(n as int) >= n
        },
{
    let q = n / 200;
    let step: usize = if q >= 1 { q } else { 1 };
    let mut v: Vec<usize> = Vec::new();
    let mut i: u128 = 0;
    assert(v@.len() * step == 0) by (nonlinear_arith)
        requires
            v@.len() == 0,
    ;
    while i < n as u128
        invariant
            step == preview_step(n as int),
            step >= 1,
            i == v@.len() * step,
            i <= n + step,
            forall|k: int| 0 <= k < v@.len() ==> #[trigger] v@[k] == k * step && v@[k] < n,
        decreases n + step - i,
    {
        let ghost len = v@.len();
        v.push(i as usize);
        assert((len + 1) * step == len * step + step) by (nonlinear_arith);
        i = i + step as u128;
    }
    assert(v@.len() * step >= n);
    if v.len() >= 2 {
        assert(v@[v@.len() - 1] == (v@.len() - 1) * step && v@[v@.len() - 1] < n);
        assert(n >= 2) by (nonlinear_arith)
            requires
                v@.len() >= 2,
                v@.len() * step >= n,
                step >= 1,
                (v@.len() - 1) * step < n,
        {}
        Some(v)
    } else {
        assert(n < 2) by (nonlinear_arith)
            requires
                v@.len() <= 1,
                v@.len() * step >= n,
                step == (if n / 200 >= 1 { n / 200 } else { 1 }),
        {}
        None
    }
}

} // verus!
