//! Splitting OpenStreetMap trails into segments at the nodes they share.
//!
//! A trail (an OSM way) is cut at every interior node that occurs more than
//! once among all ways, so that a segment runs between two intersections
//! (or a trail's ends). Only the node ids decide the cuts; the coordinates
//! are carried alongside by position.
use vstd::prelude::*;

use std::collections::HashSet;

verus! {

broadcast use vstd::std_specs::hash::group_hash_axioms;

/// What the splitting reads of an element of an Overpass response: its
/// type, its node ids, and how many coordinates its geometry has.
pub struct OsmElement {
    pub elem_type: String,
    pub nodes: Option<Vec<i64>>,
    pub geometry_len: Option<usize>,
}

/// The segments of one trail: the index of its element in the response, and
/// for each segment the first and last positions (inclusive) of its
/// coordinates within the trail's geometry.
pub struct WayPlan {
    pub element: usize,
    pub segments: Vec<(usize, usize)>,
}

/// Whether an element is a way.
pub open spec fn is_way(e: OsmElement) -> bool {
    e.elem_type@ == "way"@
}

/// The node ids of all ways, in order (ways without a node list add none).
pub open spec fn way_nodes(es: Seq<OsmElement>) -> Seq<i64>
    decreases es.len(),
{
    if es.len() == 0 {
        seq![]
    } else {
        let e = es.last();
        way_nodes(es.drop_last()) + if is_way(e) && e.nodes is Some {
            e.nodes.unwrap()@
        } else {
            Seq::<i64>::empty()
        }
    }
}

/// Whether `x` occurs more than once in `all`.
pub open spec fn is_shared(all: Seq<i64>, x: i64) -> bool {
    exists|i: int, j: int| 0 <= i < j < all.len() && all[i] == x && all[j] == x
}

/// Whether an element becomes a trail: a way whose geometry has at least
/// two coordinates and whose node list is as long as its geometry.
pub open spec fn usable(e: OsmElement) -> bool {
    &&& is_way(e)
    &&& e.geometry_len is Some
    &&& e.geometry_len.unwrap() >= 2
    &&& e.nodes is Some
    &&& e.nodes.unwrap().len() == e.geometry_len.unwrap()
}

/// The positions from 1 up to (not including) `k` whose node is shared, in
/// increasing order.
pub open spec fn cut_points(nodes: Seq<i64>, all: Seq<i64>, k: int) -> Seq<int>
    decreases k,
{
    if k <= 1 {
        seq![]
    } else {
        let r = cut_points(nodes, all, k - 1);
        if is_shared(all, nodes[k - 1]) {
            r.push(k - 1)
        } else {
            r
        }
    }
}

/// The ranges between consecutive points.
pub open spec fn ranges(pts: Seq<int>) -> Seq<(int, int)> {
    Seq::new((pts.len() - 1) as nat, |k: int| (pts[k], pts[k + 1]))
}

/// Extending the points by one adds the range from the last point.
pub proof fn lemma_ranges_push(pts: Seq<int>, x: int)
    requires
        pts.len() >= 1,
    ensures
        ranges(pts.push(x)) == ranges(pts).push((pts.last(), x)),
{
    let a = ranges(pts.push(x));
    let b = ranges(pts).push((pts.last(), x));
    assert forall|k: int| 0 <= k < a.len() implies a[k] == b[k] by {
        if k < pts.len() - 1 {
            assert(pts.push(x)[k] == pts[k]);
            assert(pts.push(x)[k + 1] == pts[k + 1]);
        }
    }
    assert(a =~= b);
}

/// The segments of a trail with these nodes: cut at every interior shared
/// node, the first and last node being the natural ends.
pub open spec fn way_segments(nodes: Seq<i64>, all: Seq<i64>) -> Seq<(int, int)> {
    ranges(seq![0int] + cut_points(nodes, all, nodes.len() - 1) + seq![nodes.len() - 1])
}

/// The trails of a response, in order: each usable element's index and
/// segments.
pub open spec fn plans(es: Seq<OsmElement>, all: Seq<i64>) -> Seq<(int, Seq<(int, int)>)>
    decreases es.len(),
{
    if es.len() == 0 {
        seq![]
    } else {
        let r = plans(es.drop_last(), all);
        let e = es.last();
        if usable(e) {
            r.push(((es.len() - 1) as int, way_segments(e.nodes.unwrap()@, all)))
        } else {
            r
        }
    }
}

/// The view of a list of ranges.
pub open spec fn ranges_view(v: Seq<(usize, usize)>) -> Seq<(int, int)> {
    v.map_values(|p: (usize, usize)| (p.0 as int, p.1 as int))
}

/// The view of a list of plans.
pub open spec fn plans_view(v: Seq<WayPlan>) -> Seq<(int, Seq<(int, int)>)> {
    v.map_values(|p: WayPlan| (p.element as int, ranges_view(p.segments@)))
}

/// Whether an element is a way.
pub fn element_is_way(e: &OsmElement) -> (b: bool)
    ensures
        b == is_way(*e),
{
    crate::text::same_text(e.elem_type.as_str(), "way")
}

/// The node ids of all ways, in order.
pub fn collect_way_nodes(elements: &Vec<OsmElement>) -> (all: Vec<i64>)
    ensures
        all@ == way_nodes(elements@),
{
    let mut all: Vec<i64> = Vec::new();
    for i in 0..elements.len()
        invariant
            all@ == way_nodes(elements@.take(i as int)),
    {
        let ghost next = elements@.take(i + 1);
        assert(next.drop_last() == elements@.take(i as int));
        assert(next.last() == elements@[i as int]);
        let e = &elements[i];
        if element_is_way(e) {
            if let Some(ns) = &e.nodes {
                let ghost before = all@;
                for j in 0..ns.len()
                    invariant
                        all@ == before + ns@.take(j as int),
                {
                    all.push(ns[j]);
                    assert(ns@.take(j + 1) == ns@.take(j as int).push(ns@[j as int]));
                }
                assert(ns@.take(ns.len() as int) == ns@);
            }
        }
        assert(all@ =~= way_nodes(next));
    }
    assert(elements@.take(elements.len() as int) == elements@);
    all
}

/// The node ids occurring more than once in `all`.
pub fn shared_nodes(all: &Vec<i64>) -> (shared: HashSet<i64>)
    ensures
        forall|x: i64| shared@.contains(x) == is_shared(all@, x),
{
    let mut seen: HashSet<i64> = HashSet::new();
    let mut shared: HashSet<i64> = HashSet::new();
    for k in 0..all.len()
        invariant
            forall|x: i64| seen@.contains(x) == (exists|i: int| 0 <= i < k && all@[i] == x),
            forall|x: i64|
                shared@.contains(x) == (exists|i: int, j: int|
                    0 <= i < j < k && all@[i] == x && all@[j] == x),
    {
        let x = all[k];
        let fresh = seen.insert(x);
        if !fresh {
            shared.insert(x);
        }
        assert forall|y: i64| seen@.contains(y) == (exists|i: int| 0 <= i < k + 1 && all@[i] == y) by {
            if y == x {
                assert(all@[k as int] == y);
            }
        }
        assert forall|y: i64|
            shared@.contains(y) == (exists|i: int, j: int|
                0 <= i < j < k + 1 && all@[i] == y && all@[j] == y) by {
            if shared@.contains(y) {
                if y == x && !fresh {
                    let i = choose|i: int| 0 <= i < k && all@[i] == x;
                    assert(0 <= i < k as int && all@[i] == y && all@[k as int] == y);
                }
            }
            if exists|i: int, j: int| 0 <= i < j < k + 1 && all@[i] == y && all@[j] == y {
                let (i, j) = choose|i: int, j: int|
                    0 <= i < j < k + 1 && all@[i] == y && all@[j] == y;
                if j == k {
                    assert(seen@.contains(x) || !fresh);
                }
            }
        }
    }
    assert forall|x: i64| shared@.contains(x) == is_shared(all@, x) by {}
    shared
}

/// The segments of one trail with these nodes (at least two).
pub fn split_way(nodes: &Vec<i64>, shared: &HashSet<i64>, all: Ghost<Seq<i64>>) -> (segs: Vec<
    (usize, usize),
>)
    requires
        nodes.len() >= 2,
        forall|x: i64| shared@.contains(x) == is_shared(all@, x),
    ensures
        ranges_view(segs@) == way_segments(nodes@, all@),
{
    let n = nodes.len();
    let mut segs: Vec<(usize, usize)> = Vec::new();
    let mut seg_start: usize = 0;
    let mut i: usize = 1;
    while i < n - 1
        invariant
            n == nodes.len() >= 2,
            1 <= i <= n - 1,
            forall|x: i64| shared@.contains(x) == is_shared(all@, x),
            ranges_view(segs@) == ranges(seq![0int] + cut_points(nodes@, all@, i as int)),
            seg_start as int == (seq![0int] + cut_points(nodes@, all@, i as int)).last(),
            seg_start < i,
        decreases n - i,
    {
        let ghost pts = seq![0int] + cut_points(nodes@, all@, i as int);
        if shared.contains(&nodes[i]) {
            segs.push((seg_start, i));
            seg_start = i;
            assert(seq![0int] + cut_points(nodes@, all@, i + 1) =~= pts.push(i as int));
            proof {
                lemma_ranges_push(pts, i as int);
            }
            assert(ranges_view(segs@) =~= ranges(pts.push(i as int)));
        } else {
            assert(cut_points(nodes@, all@, i + 1) == cut_points(nodes@, all@, i as int));
        }
        i = i + 1;
    }
    let ghost pts = seq![0int] + cut_points(nodes@, all@, (n - 1) as int);
    segs.push((seg_start, n - 1));
    assert(pts + seq![(n - 1) as int] =~= pts.push((n - 1) as int));
    proof {
        lemma_ranges_push(pts, (n - 1) as int);
    }
    assert(ranges_view(segs@) =~= ranges(pts.push((n - 1) as int)));
    segs
}

/// The trails of an Overpass response and their segments: every way with a
/// geometry of at least two coordinates and a node list of the same length
/// is a trail, cut at its interior nodes that occur more than once among the
/// node lists of all ways.
pub fn plan_segments(elements: &Vec<OsmElement>) -> (r: Vec<WayPlan>)
    ensures
        plans_view(r@) == plans(elements@, way_nodes(elements@)),
{
    let all = collect_way_nodes(elements);
    let shared = shared_nodes(&all);
    let mut r: Vec<WayPlan> = Vec::new();
    for i in 0..elements.len()
        invariant
            all@ == way_nodes(elements@),
            forall|x: i64| shared@.contains(x) == is_shared(all@, x),
            plans_view(r@) == plans(elements@.take(i as int), all@),
    {
        let ghost next = elements@.take(i + 1);
        assert(next.drop_last() == elements@.take(i as int));
        assert(next.last() == elements@[i as int]);
        let e = &elements[i];
        let ok = match (&e.nodes, e.geometry_len) {
            (Some(ns), Some(g)) => element_is_way(e) && g >= 2 && ns.len() == g,
            _ => false,
        };
        if ok {
            if let Some(ns) = &e.nodes {
                let segments = split_way(ns, &shared, Ghost(all@));
                r.push(WayPlan { element: i, segments });
                assert(plans_view(r@) =~= plans(next, all@));
            }
        } else {
            assert(plans_view(r@) =~= plans(next, all@));
        }
    }
    assert(elements@.take(elements.len() as int) == elements@);
    r
}

/// The cut points lie strictly inside, increase, and are exactly the
/// positions of shared nodes.
proof fn lemma_cut_points(nodes: Seq<i64>, all: Seq<i64>, k: int)
    requires
        1 <= k <= nodes.len(),
    ensures
        forall|a: int|
            0 <= a < cut_points(nodes, all, k).len() ==> 1 <= #[trigger] cut_points(
                nodes,
                all,
                k,
            )[a] < k,
        forall|a: int, b: int|
            0 <= a < b < cut_points(nodes, all, k).len() ==> #[trigger] cut_points(nodes, all, k)[a]
                < #[trigger] cut_points(nodes, all, k)[b],
        forall|i: int|
            1 <= i < k ==> (cut_points(nodes, all, k).contains(i) <==> is_shared(
                all,
                #[trigger] nodes[i],
            )),
    decreases k,
{
    if k > 1 {
        lemma_cut_points(nodes, all, k - 1);
        let r = cut_points(nodes, all, k - 1);
        let c = cut_points(nodes, all, k);
        assert forall|i: int| 1 <= i < k implies (c.contains(i) <==> is_shared(
            all,
            #[trigger] nodes[i],
        )) by {
            if i < k - 1 {
                if c.contains(i) {
                    let a = choose|a: int| 0 <= a < c.len() && c[a] == i;
                    if a < r.len() {
                        assert(r[a] == i);
                    }
                }
                if r.contains(i) {
                    let a = choose|a: int| 0 <= a < r.len() && r[a] == i;
                    assert(c[a] == i);
                }
            } else {
                if is_shared(all, nodes[k - 1]) {
                    assert(c[c.len() - 1] == k - 1);
                } else {
                    assert(!r.contains(k - 1));
                }
            }
        }
    }
}

/// A trail's segments run from its first node to its last, each segment
/// starting where the previous one ends and spanning at least two nodes; a
/// segment ends at an interior node exactly when that node is shared.
pub proof fn law_segments_partition_way(nodes: Seq<i64>, all: Seq<i64>)
    requires
        nodes.len() >= 2,
    ensures
        way_segments(nodes, all).len() >= 1,
        way_segments(nodes, all)[0].0 == 0,
        way_segments(nodes, all)[way_segments(nodes, all).len() - 1].1 == nodes.len() - 1,
        forall|k: int|
            0 <= k < way_segments(nodes, all).len() ==> #[trigger] way_segments(nodes, all)[k].0
                < way_segments(nodes, all)[k].1,
        forall|k: int|
            0 <= k < way_segments(nodes, all).len() - 1 ==> #[trigger] way_segments(
                nodes,
                all,
            )[k].1 == way_segments(nodes, all)[k + 1].0,
        forall|i: int|
            1 <= i < nodes.len() - 1 ==> (is_shared(all, #[trigger] nodes[i]) <==> exists|k: int|
                0 <= k < way_segments(nodes, all).len() - 1 && way_segments(nodes, all)[k].1 == i),
{
    let n = nodes.len() as int;
    let c = cut_points(nodes, all, n - 1);
    lemma_cut_points(nodes, all, n - 1);
    let pts = seq![0int] + c + seq![n - 1];
    let s = way_segments(nodes, all);
    assert(s == ranges(pts));
    assert(pts.len() == c.len() + 2);
    assert forall|a: int| 0 <= a < pts.len() - 1 implies #[trigger] pts[a] < pts[a + 1] by {
        if a == 0 {
            if c.len() > 0 {
                assert(pts[1] == c[0]);
            }
        } else if a < pts.len() - 2 {
            assert(pts[a] == c[a - 1]);
            assert(pts[a + 1] == c[a]);
        } else {
            assert(pts[a] == c[a - 1]);
        }
    }
    assert forall|k: int| 0 <= k < s.len() implies #[trigger] s[k].0 < s[k].1 by {
        assert(pts[k] < pts[k + 1]);
    }
    assert forall|i: int| 1 <= i < n - 1 implies (is_shared(all, #[trigger] nodes[i]) <==> exists|
        k: int,
    | 0 <= k < s.len() - 1 && s[k].1 == i) by {
        if is_shared(all, nodes[i]) {
            assert(c.contains(i));
            let a = choose|a: int| 0 <= a < c.len() && c[a] == i;
            assert(s[a].1 == pts[a + 1]);
            assert(pts[a + 1] == c[a]);
        }
        if exists|k: int| 0 <= k < s.len() - 1 && s[k].1 == i {
            let k = choose|k: int| 0 <= k < s.len() - 1 && s[k].1 == i;
            assert(pts[k + 1] == c[k]);
            assert(c.contains(i));
        }
    }
}

/// Every way whose geometry has at least two coordinates and whose node list
/// is as long as its geometry becomes a trail, and nothing else does: the
/// plans name exactly those elements, in increasing order, each with the
/// segments of its own node list.
pub proof fn law_trail_elements_are_planned(es: Seq<OsmElement>, all: Seq<i64>)
    ensures
        forall|k: int|
            0 <= k < plans(es, all).len() ==> 0 <= (#[trigger] plans(es, all)[k]).0 < es.len()
                && plans(es, all)[k].1 == way_segments(
                es[plans(es, all)[k].0].nodes.unwrap()@,
                all,
            ),
        forall|a: int, b: int|
            0 <= a < b < plans(es, all).len() ==> (#[trigger] plans(es, all)[a]).0 < (
            #[trigger] plans(es, all)[b]).0,
        forall|i: int|
            0 <= i < es.len() ==> ((#[trigger] es[i]).elem_type@ == "way"@
                && es[i].geometry_len is Some && es[i].geometry_len.unwrap() >= 2
                && es[i].nodes is Some && es[i].nodes.unwrap().len()
                == es[i].geometry_len.unwrap() <==> exists|k: int|
                0 <= k < plans(es, all).len() && #[trigger] plans(es, all)[k].0 == i),
    decreases es.len(),
{
    if es.len() > 0 {
        let d = es.drop_last();
        law_trail_elements_are_planned(d, all);
        let r = plans(d, all);
        let p = plans(es, all);
        let n = es.len() - 1;
        let e = es.last();
        assert forall|k: int| 0 <= k < r.len() implies #[trigger] p[k] == r[k] by {}
        assert forall|k: int| 0 <= k < p.len() implies 0 <= (#[trigger] p[k]).0 < es.len()
            && p[k].1 == way_segments(es[p[k].0].nodes.unwrap()@, all) by {
            if k < r.len() {
                assert(p[k] == r[k]);
                assert(es[r[k].0] == d[r[k].0]);
            }
        }
        assert forall|a: int, b: int| 0 <= a < b < p.len() implies (#[trigger] p[a]).0 < (
        #[trigger] p[b]).0 by {
            assert(p[a] == r[a]);
            if b < r.len() {
                assert(p[b] == r[b]);
            }
        }
        assert forall|i: int| 0 <= i < es.len() implies ((#[trigger] es[i]).elem_type@ == "way"@
            && es[i].geometry_len is Some && es[i].geometry_len.unwrap() >= 2
            && es[i].nodes is Some && es[i].nodes.unwrap().len()
            == es[i].geometry_len.unwrap() <==> exists|k: int|
            0 <= k < p.len() && #[trigger] p[k].0 == i) by {
            if i < n {
                assert(es[i] == d[i]);
                if exists|k: int| 0 <= k < r.len() && #[trigger] r[k].0 == i {
                    let k = choose|k: int| 0 <= k < r.len() && #[trigger] r[k].0 == i;
                    assert(p[k] == r[k]);
                }
                if exists|k: int| 0 <= k < p.len() && #[trigger] p[k].0 == i {
                    let k = choose|k: int| 0 <= k < p.len() && #[trigger] p[k].0 == i;
                    if k < r.len() {
                        assert(p[k] == r[k]);
                    }
                }
            } else {
                assert(es[i] == e);
                if usable(e) {
                    assert(p[r.len() as int].0 == i);
                }
                if exists|k: int| 0 <= k < p.len() && #[trigger] p[k].0 == i {
                    let k = choose|k: int| 0 <= k < p.len() && #[trigger] p[k].0 == i;
                    if k < r.len() {
                        assert(p[k] == r[k]);
                        assert(r[k].0 < d.len());
                    }
                }
            }
        }
    }
}

/// A trail of two nodes is a single segment, from its first coordinate to
/// its second.
pub proof fn law_two_node_trail_is_one_segment(nodes: Seq<i64>, all: Seq<i64>)
    requires
        nodes.len() == 2,
    ensures
        way_segments(nodes, all) == seq![(0int, 1int)],
{
    assert(cut_points(nodes, all, 1) == Seq::<int>::empty());
    let pts = seq![0int] + cut_points(nodes, all, 1) + seq![1int];
    assert(pts =~= seq![0int, 1int]);
    assert(ranges(pts) =~= seq![(0int, 1int)]);
}

// -- Querying Overpass -------------------------------------------------------

/// How many times the Overpass API is queried before giving up.
pub const OVERPASS_ATTEMPTS: u32 = 3;

/// What to do after a response from the Overpass API.
#[derive(Debug, PartialEq, Eq)]
pub enum OverpassStep {
    /// The query succeeded: parse the body.
    Parse,
    /// Wait this long, then query again.
    Retry { delay_secs: u64 },
    /// Stop trying.
    GiveUp,
}

/// Whether an HTTP status is a success (2xx).
pub open spec fn is_success(status: u16) -> bool {
    200 <= status <= 299
}

/// Decides what follows the response to attempt `attempt` (counted from 0):
/// a success is parsed; a `400 Bad Request` (a bad query) is not retried,
/// nor is the last attempt; otherwise the next attempt `k` comes after
/// `5 * 2^k` seconds.
pub fn overpass_step(attempt: u32, status: u16) -> (r: OverpassStep)
    requires
        attempt < OVERPASS_ATTEMPTS,
    ensures
        is_success(status) ==> r == OverpassStep::Parse,
        !is_success(status) && (status == 400 || attempt + 1 >= OVERPASS_ATTEMPTS) ==> r
            == OverpassStep::GiveUp,
        !is_success(status) && status != 400 && attempt + 1 < OVERPASS_ATTEMPTS ==> r
            == (OverpassStep::Retry {
                delay_secs: (5 * (1u64 << ((attempt + 1) as u64))) as u64,
            }),
{
    if 200 <= status && status <= 299 {
        return OverpassStep::Parse;
    }
    if status == 400 || attempt + 1 >= OVERPASS_ATTEMPTS {
        return OverpassStep::GiveUp;
    }
    let k: u64 = (attempt + 1) as u64;
    assert(k < 3 ==> (1u64 << k) <= 4) by (bit_vector);
    OverpassStep::Retry { delay_secs: 5 * (1u64 << k) }
}

/// The error kept for a failed query: `HTTP {status}: ` and the first 200
/// characters of the body.
pub open spec fn overpass_error_text(status: Seq<char>, body: Seq<char>) -> Seq<char> {
    "HTTP "@ + status + ": "@ + if body.len() <= 200 { body } else { body.take(200) }
}

/// The error kept for a failed query, from the status's text and the body.
pub fn overpass_error(status: &str, body: &str) -> (r: String)
    ensures
        r@ == overpass_error_text(status@, body@),
{
    let mut out: Vec<char> = Vec::new();
    crate::text::push_str_chars(&mut out, "HTTP ");
    crate::text::push_str_chars(&mut out, status);
    crate::text::push_str_chars(&mut out, ": ");
    let b = crate::text::chars_of(body);
    let end: usize = if b.len() <= 200 { b.len() } else { 200 };
    let excerpt = crate::text::copy_range(&b, 0, end);
    assert(excerpt@ == (if body@.len() <= 200 { body@ } else { body@.take(200) }));
    crate::text::push_all(&mut out, &excerpt);
    crate::text::string_of(&out)
}

} // verus!
