//! Polyline simplification by iterative Ramer–Douglas–Peucker.
//!
//! A polyline is reduced to a subsequence of its vertices.  First and
//! last vertices are always retained; an interior vertex is dropped only
//! when it lies within the tolerance of the line through the retained
//! vertices on either side of it, and retained only when, at some stage,
//! it stood at least the tolerance away from the line through two
//! retained vertices around it.
//!
//! Coordinates are planar integer units.  Distances are compared
//! exactly, by cross products: no square root and no division is ever
//! taken, so every comparison below is a statement about integers.

use vstd::prelude::*;

verus! {

/// A planar point with integer coordinates.
#[derive(Clone, Copy, PartialEq, Eq, Structural, Debug)]
pub struct Point {
    pub x: i64,
    pub y: i64,
}

/// Largest coordinate magnitude the simplifier accepts.  Keeping
/// coordinates at or below this bound keeps every squared cross product
/// within `i128`.
pub const MAX_COORD: i64 = 1_000_000_000;

/// Default tolerance for road rendering, in coordinate units.
pub const EPSILON: i64 = 3;

/// Whether a point's coordinates are within the accepted range.
pub open spec fn in_bounds(p: Point) -> bool {
    &&& -MAX_COORD <= p.x <= MAX_COORD
    &&& -MAX_COORD <= p.y <= MAX_COORD
}

/// Twice the signed area of the triangle `(a, b, m)`: the cross product
/// of `b - a` and `m - a`.  Its magnitude equals the distance of `m`
/// from the line through `a` and `b`, times the length of `b - a`.
pub open spec fn cross(a: Point, b: Point, m: Point) -> int {
    (b.x - a.x) * (m.y - a.y) - (m.x - a.x) * (b.y - a.y)
}

/// Squared Euclidean distance between two points.
pub open spec fn dist2(a: Point, b: Point) -> int {
    (a.x - b.x) * (a.x - b.x) + (a.y - b.y) * (a.y - b.y)
}

/// Deviation measure of `m` against the segment `(a, b)`: the squared
/// cross product, or the squared distance to `a` when the segment has
/// zero length.  Comparable against `threshold` below.
pub open spec fn score(a: Point, b: Point, m: Point) -> int {
    if a == b {
        dist2(m, a)
    } else {
        cross(a, b, m) * cross(a, b, m)
    }
}

/// The value `score` must reach for `m` to deviate from `(a, b)` by at
/// least `eps`: `eps^2` scaled by the squared segment length, so that
/// `score >= threshold` says exactly `perpendicular distance >= eps`.
pub open spec fn threshold(a: Point, b: Point, eps: int) -> int {
    if a == b {
        eps * eps
    } else {
        eps * eps * dist2(a, b)
    }
}

/// Whether `m` lies strictly within distance `eps` of the line through
/// `a` and `b` (of the point itself when `a == b`).
pub open spec fn within_eps(a: Point, b: Point, m: Point, eps: int) -> bool {
    score(a, b, m) < threshold(a, b, eps)
}

/// Every point strictly between indices `a` and `b` of `p` lies within
/// `eps` of the line through `p[a]` and `p[b]`.
pub open spec fn seg_ok(p: Seq<Point>, eps: int, a: int, b: int) -> bool {
    forall|m: int| a < m < b ==> within_eps(p[a], p[b], #[trigger] p[m], eps)
}

/// `kept` is a strictly increasing sequence of indices into `p` such
/// that every index dropped between two neighbouring kept indices lies
/// within `eps` of the line through those two kept points.
pub open spec fn chain_ok(kept: Seq<int>, p: Seq<Point>, eps: int) -> bool {
    &&& forall|t: int| 0 <= t < kept.len() ==> 0 <= #[trigger] kept[t] < p.len()
    &&& forall|t: int| 0 < t < kept.len() ==> kept[t - 1] < #[trigger] kept[t]
    &&& forall|t: int| 0 < t < kept.len() ==> seg_ok(p, eps, kept[t - 1], #[trigger] kept[t])
}

/// Every interior kept index earns its place: two other kept indices
/// stand around it from whose connecting line it deviates by at least
/// `eps`.
#[verifier::opaque]
pub open spec fn kept_justified(kept: Seq<int>, p: Seq<Point>, eps: int) -> bool {
    forall|t: int|
        0 < t < kept.len() - 1 ==> exists|u: int, v: int|
            #![trigger kept[u], kept[v]]
            0 <= u < t < v < kept.len() && score(p[kept[u]], p[kept[v]], #[trigger] p[kept[t]])
                >= threshold(p[kept[u]], p[kept[v]], eps)
}

/// The kept-index sequence `kept` witnesses that `r` is a sound and
/// warranted simplification of `p` at tolerance `eps`.
#[verifier::opaque]
pub open spec fn valid_kept(kept: Seq<int>, r: Seq<Point>, p: Seq<Point>, eps: int) -> bool {
    &&& chain_ok(kept, p, eps)
    &&& kept_justified(kept, p, eps)
    &&& r == kept.map_values(|k: int| p[k])
    &&& p.len() >= 2 ==> kept.len() >= 2 && kept[0] == 0 && kept.last() == p.len() - 1
    &&& p.len() == 1 ==> kept == seq![0int]
    &&& p.len() == 0 ==> kept.len() == 0
}

/// `r` keeps a subsequence of `p`'s vertices, including the first and
/// the last; every dropped vertex lies within `eps` of the line through
/// its retained neighbours, and every retained interior vertex deviated
/// by at least `eps` from the line through two retained vertices around
/// it.
pub open spec fn simplification_of(r: Seq<Point>, p: Seq<Point>, eps: int) -> bool {
    exists|kept: Seq<int>| valid_kept(kept, r, p, eps)
}

/// Bounds on a product from bounds on its factors.
proof fn lemma_mul_bounds(a: int, b: int, aa: int, bb: int)
    requires
        -aa <= a <= aa,
        -bb <= b <= bb,
        0 <= aa,
        0 <= bb,
    ensures
        -(aa * bb) <= a * b <= aa * bb,
{
    assert(-(aa * bb) <= a * b <= aa * bb) by (nonlinear_arith)
        requires
            -aa <= a <= aa,
            -bb <= b <= bb,
            0 <= aa,
            0 <= bb,
    ;
}

/// A square is non-negative.
proof fn lemma_square_nonneg(a: int)
    ensures
        a * a >= 0,
{
    assert(a * a >= 0) by (nonlinear_arith);
}

/// Exact evaluation of `score`; fits `i128` for bounded coordinates.
fn score_exec(a: Point, b: Point, m: Point) -> (s: i128)
    requires
        in_bounds(a),
        in_bounds(b),
        in_bounds(m),
    ensures
        s as int == score(a, b, m),
        0 <= s <= 0x4000_0000_0000_0000_0000_0000_0000_0000i128 - 1,
{
    if a.x == b.x && a.y == b.y {
        let dx: i128 = (m.x as i128) - (a.x as i128);
        let dy: i128 = (m.y as i128) - (a.y as i128);
        proof {
            lemma_mul_bounds(dx as int, dx as int, 2_000_000_000, 2_000_000_000);
            lemma_mul_bounds(dy as int, dy as int, 2_000_000_000, 2_000_000_000);
            lemma_square_nonneg(dx as int);
            lemma_square_nonneg(dy as int);
        }
        dx * dx + dy * dy
    } else {
        let bax: i128 = (b.x as i128) - (a.x as i128);
        let bay: i128 = (b.y as i128) - (a.y as i128);
        let max: i128 = (m.x as i128) - (a.x as i128);
        let may: i128 = (m.y as i128) - (a.y as i128);
        proof {
            lemma_mul_bounds(bax as int, may as int, 2_000_000_000, 2_000_000_000);
            lemma_mul_bounds(max as int, bay as int, 2_000_000_000, 2_000_000_000);
        }
        let c: i128 = bax * may - max * bay;
        proof {
            lemma_mul_bounds(c as int, c as int, 8_000_000_000_000_000_000, 8_000_000_000_000_000_000);
            lemma_square_nonneg(c as int);
        }
        c * c
    }
}

/// Exact evaluation of `threshold`; fits `i128` for bounded inputs.
fn threshold_exec(a: Point, b: Point, eps: i64) -> (s: i128)
    requires
        in_bounds(a),
        in_bounds(b),
        0 <= eps <= MAX_COORD,
    ensures
        s as int == threshold(a, b, eps as int),
{
    let e: i128 = eps as i128;
    proof {
        lemma_mul_bounds(e as int, e as int, 1_000_000_000, 1_000_000_000);
        lemma_square_nonneg(e as int);
    }
    let e2: i128 = e * e;
    if a.x == b.x && a.y == b.y {
        e2
    } else {
        let dx: i128 = (a.x as i128) - (b.x as i128);
        let dy: i128 = (a.y as i128) - (b.y as i128);
        proof {
            lemma_mul_bounds(dx as int, dx as int, 2_000_000_000, 2_000_000_000);
            lemma_mul_bounds(dy as int, dy as int, 2_000_000_000, 2_000_000_000);
            lemma_square_nonneg(dx as int);
            lemma_square_nonneg(dy as int);
        }
        let d2: i128 = dx * dx + dy * dy;
        proof {
            lemma_mul_bounds(e2 as int, d2 as int, 1_000_000_000_000_000_000, 8_000_000_000_000_000_000);
        }
        e2 * d2
    }
}

/// No index strictly between `i` and `j` is marked kept.
spec fn interior_unkept(keep: Seq<bool>, i: int, j: int) -> bool {
    forall|m: int| i < m < j ==> !(#[trigger] keep[m])
}

/// A worklist interval: kept endpoints around an unkept, non-empty
/// interior.
spec fn stack_elem_ok(keep: Seq<bool>, st: (usize, usize)) -> bool {
    &&& st.0 + 1 < st.1
    &&& (st.1 as int) < keep.len()
    &&& keep[st.0 as int]
    &&& keep[st.1 as int]
    &&& interior_unkept(keep, st.0 as int, st.1 as int)
}

/// The open interiors of two intervals share no index.
spec fn interiors_disjoint(s1: (usize, usize), s2: (usize, usize)) -> bool {
    s1.1 <= s2.0 + 1 || s2.1 <= s1.0 + 1
}

/// Every worklist interval is well formed and their interiors are
/// pairwise disjoint.
spec fn stack_ok(keep: Seq<bool>, stack: Seq<(usize, usize)>) -> bool {
    &&& forall|t: int| 0 <= t < stack.len() ==> stack_elem_ok(keep, #[trigger] stack[t])
    &&& forall|t1: int, t2: int|
        0 <= t1 < t2 < stack.len() ==> interiors_disjoint(
            #[trigger] stack[t1],
            #[trigger] stack[t2],
        )
}

/// `a` and `b` are kept with nothing kept in between.
spec fn consec_kept(keep: Seq<bool>, a: int, b: int) -> bool {
    0 <= a < b < keep.len() && keep[a] && keep[b] && interior_unkept(keep, a, b)
}

/// The interval `(a, b)` sits somewhere on the worklist.
spec fn on_stack(stack: Seq<(usize, usize)>, a: int, b: int) -> bool {
    exists|t: int|
        #![trigger stack[t]]
        0 <= t < stack.len() && stack[t].0 as int == a && stack[t].1 as int == b
}

/// Every gap between neighbouring kept indices is either still on the
/// worklist or already shown to deviate by less than `eps` throughout.
spec fn resolved(keep: Seq<bool>, stack: Seq<(usize, usize)>, p: Seq<Point>, eps: int) -> bool {
    forall|a: int, b: int|
        #[trigger] consec_kept(keep, a, b) && b > a + 1 ==> on_stack(stack, a, b) || seg_ok(
            p,
            eps,
            a,
            b,
        )
}

/// The pair `uv` records why index `m` was kept: two kept indices
/// around it from whose line `p[m]` deviated by at least `eps`.
spec fn justifies(uv: (int, int), m: int, keep: Seq<bool>, p: Seq<Point>, eps: int) -> bool {
    &&& 0 <= uv.0 < m < uv.1 < keep.len()
    &&& keep[uv.0]
    &&& keep[uv.1]
    &&& score(p[uv.0], p[uv.1], p[m]) >= threshold(p[uv.0], p[uv.1], eps)
}

/// Every kept interior index carries a justification.
spec fn just_ok(keep: Seq<bool>, just: Map<int, (int, int)>, p: Seq<Point>, eps: int) -> bool {
    forall|m: int|
        0 < m < keep.len() - 1 && #[trigger] keep[m] ==> just.dom().contains(m) && justifies(
            just[m],
            m,
            keep,
            p,
            eps,
        )
}

/// Termination weight of one interval: splitting an interval strictly
/// lowers the summed weight of the worklist.
spec fn interval_weight(st: (usize, usize)) -> nat {
    if st.1 > st.0 {
        (2 * (st.1 - st.0) - 1) as nat
    } else {
        1nat
    }
}

/// Summed weight of the worklist.
spec fn stack_measure(stack: Seq<(usize, usize)>) -> nat
    decreases stack.len(),
{
    if stack.len() == 0 {
        0nat
    } else {
        stack_measure(stack.drop_last()) + interval_weight(stack.last())
    }
}

proof fn lemma_measure_push(s: Seq<(usize, usize)>, e: (usize, usize))
    ensures
        stack_measure(s.push(e)) == stack_measure(s) + interval_weight(e),
{
    assert(s.push(e).drop_last() =~= s);
    assert(s.push(e).last() == e);
}

/// A sequence whose neighbours increase strictly increases everywhere.
proof fn lemma_sorted_monotone(s: Seq<int>, t1: int, t2: int)
    requires
        forall|t: int| 0 < t < s.len() ==> s[t - 1] < #[trigger] s[t],
        0 <= t1 < t2 < s.len(),
    ensures
        s[t1] < s[t2],
    decreases t2 - t1,
{
    if t2 > t1 + 1 {
        lemma_sorted_monotone(s, t1, t2 - 1);
    }
}

/// A strictly increasing sequence starting at or above zero grows at
/// least as fast as its positions.
proof fn lemma_sorted_lower(s: Seq<int>, t: int)
    requires
        forall|tt: int| 0 < tt < s.len() ==> s[tt - 1] < #[trigger] s[tt],
        s.len() > 0,
        s[0] >= 0,
        0 <= t < s.len(),
    ensures
        s[t] >= t,
    decreases t,
{
    if t > 0 {
        lemma_sorted_lower(s, t - 1);
    }
}

/// Discarding the interval `(i, j)` whose interior deviates by less
/// than `eps` keeps the worklist invariants.
proof fn lemma_discard_preserves(
    p: Seq<Point>,
    eps: int,
    keep: Seq<bool>,
    rem: Seq<(usize, usize)>,
    i: usize,
    j: usize,
)
    requires
        stack_ok(keep, rem.push((i, j))),
        resolved(keep, rem.push((i, j)), p, eps),
        seg_ok(p, eps, i as int, j as int),
    ensures
        stack_ok(keep, rem),
        resolved(keep, rem, p, eps),
{
    let full = rem.push((i, j));
    assert(forall|t: int| 0 <= t < rem.len() ==> rem[t] == #[trigger] full[t]);
    assert forall|t: int| 0 <= t < rem.len() implies stack_elem_ok(keep, #[trigger] rem[t]) by {
        assert(rem[t] == full[t]);
        assert(stack_elem_ok(keep, full[t]));
    }
    assert forall|t1: int, t2: int| 0 <= t1 < t2 < rem.len() implies interiors_disjoint(
        #[trigger] rem[t1],
        #[trigger] rem[t2],
    ) by {
        assert(rem[t1] == full[t1]);
        assert(rem[t2] == full[t2]);
        assert(interiors_disjoint(full[t1], full[t2]));
    }
    assert forall|a: int, b: int| #[trigger] consec_kept(keep, a, b) && b > a + 1 implies on_stack(
        rem,
        a,
        b,
    ) || seg_ok(p, eps, a, b) by {
        if on_stack(full, a, b) && !seg_ok(p, eps, a, b) {
            let t = choose|t: int|
                #![trigger full[t]]
                0 <= t < full.len() && full[t].0 as int == a && full[t].1 as int == b;
            if t < rem.len() {
                assert(rem[t] == full[t]);
            } else {
                assert(full[t] == ((i, j)));
                assert(a == i as int && b == j as int);
            }
        }
    }
}

/// A worklist stays well formed when a well-formed interval whose
/// interior avoids every listed interior is pushed.
proof fn lemma_stack_ok_push(keep: Seq<bool>, s: Seq<(usize, usize)>, e: (usize, usize))
    requires
        stack_ok(keep, s),
        stack_elem_ok(keep, e),
        forall|t: int| 0 <= t < s.len() ==> interiors_disjoint(#[trigger] s[t], e),
    ensures
        stack_ok(keep, s.push(e)),
{
    let ns = s.push(e);
    assert forall|t: int| 0 <= t < ns.len() implies stack_elem_ok(keep, #[trigger] ns[t]) by {
        if t < s.len() {
            assert(ns[t] == s[t]);
        } else {
            assert(ns[t] == e);
        }
    }
    assert forall|t1: int, t2: int| 0 <= t1 < t2 < ns.len() implies interiors_disjoint(
        #[trigger] ns[t1],
        #[trigger] ns[t2],
    ) by {
        assert(ns[t1] == s[t1]);
        if t2 < s.len() {
            assert(ns[t2] == s[t2]);
        } else {
            assert(ns[t2] == e);
        }
    }
}

/// How the worklist looks after the interval `(i, j)` is split at `k`:
/// each half with a non-empty interior is pushed.
spec fn split_stack(
    rem: Seq<(usize, usize)>,
    i: usize,
    j: usize,
    k: usize,
) -> Seq<(usize, usize)> {
    if k > i + 1 && j > k + 1 {
        rem.push((i, k)).push((k, j))
    } else if k > i + 1 {
        rem.push((i, k))
    } else if j > k + 1 {
        rem.push((k, j))
    } else {
        rem
    }
}

/// Splitting an interval at an interior point keeps the worklist well
/// formed under the new marking.
proof fn lemma_split_stack_ok(
    keep: Seq<bool>,
    rem: Seq<(usize, usize)>,
    i: usize,
    j: usize,
    k: usize,
    new_keep: Seq<bool>,
)
    requires
        stack_ok(keep, rem.push((i, j))),
        i < k < j,
        (j as int) < keep.len(),
        new_keep == keep.update(k as int, true),
    ensures
        stack_ok(new_keep, split_stack(rem, i, j, k)),
{
    let full = rem.push((i, j));
    let kk = k as int;
    assert(forall|t: int| 0 <= t < rem.len() ==> rem[t] == #[trigger] full[t]);
    assert(stack_elem_ok(keep, full[full.len() - 1]));
    assert forall|t: int| 0 <= t < rem.len() implies stack_elem_ok(new_keep, #[trigger] rem[t]) by {
        assert(stack_elem_ok(keep, full[t]));
        assert(interiors_disjoint(full[t], full[full.len() - 1]));
        assert forall|m: int| rem[t].0 < m < rem[t].1 implies !(#[trigger] new_keep[m]) by {
            assert(!keep[m]);
            assert(m != kk);
        }
    }
    assert forall|t1: int, t2: int| 0 <= t1 < t2 < rem.len() implies interiors_disjoint(
        #[trigger] rem[t1],
        #[trigger] rem[t2],
    ) by {
        assert(rem[t1] == full[t1]);
        assert(rem[t2] == full[t2]);
    }
    assert(stack_ok(new_keep, rem));
    if k > i + 1 {
        assert forall|m: int| i < m < kk implies !(#[trigger] new_keep[m]) by {
            assert(!keep[m]);
        }
        assert(stack_elem_ok(new_keep, (i, k)));
    }
    if j > k + 1 {
        assert forall|m: int| kk < m < j implies !(#[trigger] new_keep[m]) by {
            assert(!keep[m]);
        }
        assert(stack_elem_ok(new_keep, (k, j)));
    }
    assert forall|t: int| 0 <= t < rem.len() implies interiors_disjoint(#[trigger] rem[t], (i, k))
        && interiors_disjoint(#[trigger] rem[t], (k, j)) by {
        assert(interiors_disjoint(full[t], full[full.len() - 1]));
    }
    if k > i + 1 && j > k + 1 {
        lemma_stack_ok_push(new_keep, rem, (i, k));
        assert forall|t: int| 0 <= t < rem.push((i, k)).len() implies interiors_disjoint(
            #[trigger] rem.push((i, k))[t],
            (k, j),
        ) by {
            if t < rem.len() {
                assert(rem.push((i, k))[t] == rem[t]);
            } else {
                assert(rem.push((i, k))[t] == ((i, k)));
            }
        }
        lemma_stack_ok_push(new_keep, rem.push((i, k)), (k, j));
    } else if k > i + 1 {
        lemma_stack_ok_push(new_keep, rem, (i, k));
    } else if j > k + 1 {
        lemma_stack_ok_push(new_keep, rem, (k, j));
    }
}

/// Splitting an interval at an interior point leaves every gap between
/// neighbouring kept indices on the worklist or resolved.
#[verifier::rlimit(30)]
proof fn lemma_split_resolved(
    p: Seq<Point>,
    eps: int,
    keep: Seq<bool>,
    rem: Seq<(usize, usize)>,
    i: usize,
    j: usize,
    k: usize,
    new_keep: Seq<bool>,
)
    requires
        stack_ok(keep, rem.push((i, j))),
        resolved(keep, rem.push((i, j)), p, eps),
        keep.len() == p.len(),
        i < k < j,
        (j as int) < keep.len(),
        new_keep == keep.update(k as int, true),
    ensures
        resolved(new_keep, split_stack(rem, i, j, k), p, eps),
{
    let full = rem.push((i, j));
    let new_stack = split_stack(rem, i, j, k);
    let ki = i as int;
    let kj = j as int;
    let kk = k as int;
    assert(forall|t: int| 0 <= t < rem.len() ==> rem[t] == #[trigger] full[t]);
    assert(forall|t: int| 0 <= t < rem.len() ==> rem[t] == #[trigger] new_stack[t]);
    assert(stack_elem_ok(keep, full[full.len() - 1]));
    assert forall|a: int, b: int| #[trigger] consec_kept(new_keep, a, b) && b > a + 1 implies
        on_stack(new_stack, a, b) || seg_ok(p, eps, a, b) by {
        if a == kk {
            // The kept index j is the next kept neighbour above k.
            assert(new_keep[kj]);
            if b < kj {
                assert(!keep[b]);
                assert(!new_keep[b]);
                assert(false);
            } else if b > kj {
                assert(new_keep[kj] && a < kj < b);
                assert(false);
            }
            assert(b == kj);
            assert(new_stack[new_stack.len() - 1] == ((k, j)));
            assert(on_stack(new_stack, a, b));
        } else if b == kk {
            assert(new_keep[ki]);
            if a > ki {
                assert(!keep[a]);
                assert(!new_keep[a]);
                assert(false);
            } else if a < ki {
                assert(new_keep[ki] && a < ki < b);
                assert(false);
            }
            assert(a == ki);
            if j > k + 1 {
                assert(new_stack[new_stack.len() - 2] == ((i, k)));
            } else {
                assert(new_stack[new_stack.len() - 1] == ((i, k)));
            }
            assert(on_stack(new_stack, a, b));
        } else {
            // A gap not touching k was a gap before as well.
            assert(!(a < kk < b)) by {
                if a < kk < b {
                    assert(!new_keep[kk]);
                }
            }
            assert(keep[a]);
            assert(keep[b]);
            assert forall|m: int| a < m < b implies !(#[trigger] keep[m]) by {
                assert(!new_keep[m]);
            }
            assert(consec_kept(keep, a, b));
            if on_stack(full, a, b) {
                let t = choose|t: int|
                    #![trigger full[t]]
                    0 <= t < full.len() && full[t].0 as int == a && full[t].1 as int == b;
                if t < rem.len() {
                    assert(new_stack[t] == rem[t]);
                    assert(on_stack(new_stack, a, b));
                } else {
                    assert(full[t] == ((i, j)));
                    assert(a == ki && b == kj);
                    assert(false);
                }
            }
        }
    }
}

/// A newly kept index is justified by the interval that kept it; the
/// existing justifications survive because marks only grow.
proof fn lemma_split_just(
    p: Seq<Point>,
    eps: int,
    keep: Seq<bool>,
    just: Map<int, (int, int)>,
    i: usize,
    j: usize,
    k: usize,
    new_keep: Seq<bool>,
    new_just: Map<int, (int, int)>,
)
    requires
        just_ok(keep, just, p, eps),
        keep.len() == p.len(),
        i < k < j,
        (j as int) < keep.len(),
        keep[i as int],
        keep[j as int],
        score(p[i as int], p[j as int], p[k as int]) >= threshold(p[i as int], p[j as int], eps),
        new_keep == keep.update(k as int, true),
        new_just == just.insert(k as int, (i as int, j as int)),
    ensures
        just_ok(new_keep, new_just, p, eps),
{
    let kk = k as int;
    assert forall|m: int| 0 < m < new_keep.len() - 1 && #[trigger] new_keep[m] implies
        new_just.dom().contains(m) && justifies(new_just[m], m, new_keep, p, eps) by {
        if m == kk {
            assert(new_just[m] == ((i as int, j as int)));
        } else {
            assert(keep[m]);
            assert(justifies(just[m], m, keep, p, eps));
            assert(new_just[m] == just[m]);
        }
    }
}

/// The kept marking read off into the ascending index list: the list
/// starts at 0 and ends at the last index.
proof fn lemma_kept_endpoints(keep: Seq<bool>, kept: Seq<int>, n: int)
    requires
        keep.len() == n,
        3 <= n,
        keep[0],
        keep[n - 1],
        forall|t: int| 0 <= t < kept.len() ==> 0 <= #[trigger] kept[t] < n,
        forall|t: int| 0 < t < kept.len() ==> kept[t - 1] < #[trigger] kept[t],
        forall|mm: int| 0 <= mm < n ==> ((#[trigger] keep[mm]) <==> kept.contains(mm)),
    ensures
        kept.len() >= 2,
        kept[0] == 0,
        kept.last() == n - 1,
{
    assert(kept.contains(0));
    let t0 = choose|t: int| 0 <= t < kept.len() && kept[t] == 0;
    if t0 > 0 {
        lemma_sorted_monotone(kept, 0, t0);
        assert(false);
    }
    assert(kept[0] == 0);
    assert(kept.contains(n - 1));
    let t1 = choose|t: int| 0 <= t < kept.len() && kept[t] == n - 1;
    if t1 < kept.len() - 1 {
        lemma_sorted_monotone(kept, t1, kept.len() - 1);
        assert(false);
    }
    assert(kept.last() == n - 1);
}

/// With an empty worklist, neighbouring kept indices bound only
/// dropped points within the tolerance.
#[verifier::rlimit(30)]
proof fn lemma_kept_chain(
    p: Seq<Point>,
    eps: int,
    keep: Seq<bool>,
    kept: Seq<int>,
)
    requires
        p.len() == keep.len(),
        3 <= p.len(),
        resolved(keep, Seq::empty(), p, eps),
        forall|t: int| 0 <= t < kept.len() ==> 0 <= #[trigger] kept[t] < p.len(),
        forall|t: int| 0 < t < kept.len() ==> kept[t - 1] < #[trigger] kept[t],
        forall|mm: int| 0 <= mm < p.len() ==> ((#[trigger] keep[mm]) <==> kept.contains(mm)),
    ensures
        chain_ok(kept, p, eps),
{
    assert forall|t: int| 0 < t < kept.len() implies seg_ok(
        p,
        eps,
        kept[t - 1],
        #[trigger] kept[t],
    ) by {
        let a = kept[t - 1];
        let b = kept[t];
        if b > a + 1 {
            assert forall|mm: int| a < mm < b implies !(#[trigger] keep[mm]) by {
                if keep[mm] {
                    assert(kept.contains(mm));
                    let tm = choose|tt: int| 0 <= tt < kept.len() && kept[tt] == mm;
                    if tm <= t - 1 {
                        if tm < t - 1 {
                            lemma_sorted_monotone(kept, tm, t - 1);
                        }
                        assert(false);
                    } else {
                        if tm > t {
                            lemma_sorted_monotone(kept, t, tm);
                        }
                        assert(false);
                    }
                }
            }
            assert(kept.contains(a)) by {
                assert(kept[t - 1] == a);
            }
            assert(kept.contains(b)) by {
                assert(kept[t] == b);
            }
            assert(keep[a]);
            assert(keep[b]);
            assert(consec_kept(keep, a, b));
            assert(seg_ok(p, eps, a, b));
        }
    }
}

/// The stored justifications, read off at positions of the kept list.
#[verifier::rlimit(30)]
proof fn lemma_kept_just(
    p: Seq<Point>,
    eps: int,
    keep: Seq<bool>,
    just: Map<int, (int, int)>,
    kept: Seq<int>,
)
    requires
        p.len() == keep.len(),
        3 <= p.len(),
        just_ok(keep, just, p, eps),
        forall|t: int| 0 <= t < kept.len() ==> 0 <= #[trigger] kept[t] < p.len(),
        forall|t: int| 0 < t < kept.len() ==> kept[t - 1] < #[trigger] kept[t],
        forall|mm: int| 0 <= mm < p.len() ==> ((#[trigger] keep[mm]) <==> kept.contains(mm)),
        kept.len() >= 2,
        kept[0] == 0,
        kept.last() == p.len() - 1,
    ensures
        kept_justified(kept, p, eps),
{
    reveal(kept_justified);
    assert forall|t: int| 0 < t < kept.len() - 1 implies exists|u: int, v: int|
        #![trigger kept[u], kept[v]]
        0 <= u < t < v < kept.len() && score(p[kept[u]], p[kept[v]], #[trigger] p[kept[t]])
            >= threshold(p[kept[u]], p[kept[v]], eps) by {
        let mv = kept[t];
        lemma_sorted_monotone(kept, 0, t);
        lemma_sorted_monotone(kept, t, kept.len() - 1);
        assert(0 < mv < p.len() - 1);
        assert(kept.contains(mv)) by {
            assert(kept[t] == mv);
        }
        assert(keep[mv]);
        let uv = just[mv];
        assert(justifies(uv, mv, keep, p, eps));
        assert(kept.contains(uv.0));
        let pu = choose|tt: int| 0 <= tt < kept.len() && kept[tt] == uv.0;
        assert(kept.contains(uv.1));
        let pv = choose|tt: int| 0 <= tt < kept.len() && kept[tt] == uv.1;
        if pu >= t {
            if pu > t {
                lemma_sorted_monotone(kept, t, pu);
            }
            assert(false);
        }
        if pv <= t {
            if pv < t {
                lemma_sorted_monotone(kept, pv, t);
            }
            assert(false);
        }
        assert(0 <= pu < t < pv < kept.len() && score(p[kept[pu]], p[kept[pv]], p[kept[t]])
            >= threshold(p[kept[pu]], p[kept[pv]], eps));
    }
}

/// Once the worklist is empty, the kept indices in ascending order are
/// a valid simplification witness.
proof fn lemma_emitted_valid(
    p: Seq<Point>,
    eps: int,
    keep: Seq<bool>,
    just: Map<int, (int, int)>,
    kept: Seq<int>,
    r: Seq<Point>,
)
    requires
        p.len() == keep.len(),
        3 <= p.len(),
        keep[0],
        keep[p.len() - 1],
        resolved(keep, Seq::empty(), p, eps),
        just_ok(keep, just, p, eps),
        r == kept.map_values(|kk: int| p[kk]),
        forall|t: int| 0 <= t < kept.len() ==> 0 <= #[trigger] kept[t] < p.len(),
        forall|t: int| 0 < t < kept.len() ==> kept[t - 1] < #[trigger] kept[t],
        forall|mm: int| 0 <= mm < p.len() ==> ((#[trigger] keep[mm]) <==> kept.contains(mm)),
    ensures
        simplification_of(r, p, eps),
        r.len() >= 2,
        r[0] == p[0],
        r.last() == p.last(),
        r.len() <= p.len(),
        forall|t: int| 0 <= t < r.len() ==> p.contains(#[trigger] r[t]),
{
    reveal(valid_kept);
    lemma_kept_endpoints(keep, kept, p.len() as int);
    lemma_kept_chain(p, eps, keep, kept);
    lemma_kept_just(p, eps, keep, just, kept);
    lemma_sorted_lower(kept, kept.len() - 1);
    assert(valid_kept(kept, r, p, eps));
    assert forall|t: int| 0 <= t < r.len() implies p.contains(#[trigger] r[t]) by {
        assert(r[t] == p[kept[t]]);
    }
}

/// The worklist of the single interval spanning the whole polyline,
/// with only the two endpoints kept, satisfies every loop invariant.
proof fn lemma_initial_state(
    p: Seq<Point>,
    eps: int,
    keep: Seq<bool>,
    stack: Seq<(usize, usize)>,
    n: usize,
)
    requires
        n as int == p.len(),
        3 <= n as int,
        keep.len() == n,
        forall|t: int| 0 <= t < n ==> ((#[trigger] keep[t]) <==> (t == 0 || t == n - 1)),
        stack.len() == 1,
        stack[0] == ((0usize, (n - 1) as usize)),
    ensures
        stack_ok(keep, stack),
        resolved(keep, stack, p, eps),
        just_ok(keep, Map::<int, (int, int)>::empty(), p, eps),
{
    assert(stack_elem_ok(keep, stack[0]));
    assert forall|a: int, b: int| #[trigger] consec_kept(keep, a, b) && b > a + 1 implies
        on_stack(stack, a, b) || seg_ok(p, eps, a, b) by {
        assert(keep[a] && keep[b]);
        assert(a == 0 && b == n - 1);
        assert(stack[0].0 as int == a && stack[0].1 as int == b);
    }
}

/// A polyline of at most two vertices is its own valid simplification.
proof fn lemma_identity_valid(p: Seq<Point>, eps: int)
    requires
        p.len() <= 2,
    ensures
        simplification_of(p, p, eps),
        forall|t: int| 0 <= t < p.len() ==> p.contains(#[trigger] p[t]),
{
    reveal(kept_justified);
    reveal(valid_kept);
    assert forall|t: int| 0 <= t < p.len() implies p.contains(#[trigger] p[t]) by {
        assert(p[t] == p[t]);
    }
    if p.len() == 0 {
        let kept = Seq::<int>::empty();
        assert(kept.map_values(|k: int| p[k]) =~= p);
        assert(valid_kept(kept, p, p, eps));
    } else if p.len() == 1 {
        let kept = seq![0int];
        assert(kept.map_values(|k: int| p[k]) =~= p);
        assert(valid_kept(kept, p, p, eps));
    } else {
        let kept = seq![0int, 1int];
        assert(kept.map_values(|k: int| p[k]) =~= p);
        assert(valid_kept(kept, p, p, eps));
    }
}

/// Reduces `p` to a subsequence of its vertices: first and last stay;
/// a vertex is dropped exactly when, in the interval that reached it,
/// it deviated by less than `eps` from the line through the interval's
/// endpoints.  Works down an explicit interval worklist, so no input
/// can exhaust the call stack.
#[verifier::rlimit(100)]
pub fn simplify_eps(p: &Vec<Point>, eps: i64) -> (r: Vec<Point>)
    requires
        0 <= eps <= MAX_COORD,
        forall|t: int| 0 <= t < p@.len() ==> in_bounds(#[trigger] p@[t]),
    ensures
        simplification_of(r@, p@, eps as int),
        p@.len() <= 2 ==> r@ == p@,
        p@.len() >= 2 ==> r@.len() >= 2 && r@[0] == p@[0] && r@.last() == p@.last(),
        p@.len() > 0 ==> r@.len() > 0,
        r@.len() <= p@.len(),
        forall|t: int| 0 <= t < r@.len() ==> p@.contains(#[trigger] r@[t]),
{
    let n = p.len();
    if n <= 2 {
        let mut r: Vec<Point> = Vec::new();
        let mut idx: usize = 0;
        while idx < n
            invariant
                p@.len() == n,
                idx <= n,
                r@ == p@.subrange(0, idx as int),
            decreases n - idx,
        {
            r.push(p[idx]);
            proof {
                assert(r@ =~= p@.subrange(0, idx + 1));
            }
            idx += 1;
        }
        proof {
            assert(r@ =~= p@);
            lemma_identity_valid(p@, eps as int);
        }
        return r;
    }
    // Mark the endpoints as kept over an all-false marking.
    let mut keep: Vec<bool> = Vec::new();
    let mut idx: usize = 0;
    while idx < n
        invariant
            keep@.len() == idx,
            idx <= n,
            forall|t: int| 0 <= t < idx ==> !(#[trigger] keep@[t]),
        decreases n - idx,
    {
        keep.push(false);
        idx += 1;
    }
    keep.set(0, true);
    keep.set(n - 1, true);
    let mut stack: Vec<(usize, usize)> = Vec::new();
    stack.push((0, n - 1));
    let ghost mut just: Map<int, (int, int)> = Map::empty();
    proof {
        assert(stack@[0] == ((0usize, (n - 1) as usize)));
        lemma_initial_state(p@, eps as int, keep@, stack@, n);
    }
    while stack.len() > 0
        invariant
            p@.len() == n,
            3 <= n,
            keep@.len() == n,
            0 <= eps <= MAX_COORD,
            forall|t: int| 0 <= t < n ==> in_bounds(#[trigger] p@[t]),
            keep@[0],
            keep@[n - 1],
            stack_ok(keep@, stack@),
            resolved(keep@, stack@, p@, eps as int),
            just_ok(keep@, just, p@, eps as int),
        decreases stack_measure(stack@),
    {
        let ghost pre_stack = stack@;
        let top = stack.pop().unwrap();
        let ghost rem = stack@;
        let (i, j) = top;
        proof {
            assert(rem.push(top) =~= pre_stack);
            assert(stack_elem_ok(keep@, pre_stack[pre_stack.len() - 1]));
        }
        // The first interior index of maximal deviation from (i, j).
        let mut best_k: usize = i + 1;
        let mut best_s: i128 = score_exec(p[i], p[j], p[i + 1]);
        let mut m: usize = i + 2;
        while m < j
            invariant
                p@.len() == n,
                forall|t: int| 0 <= t < n ==> in_bounds(#[trigger] p@[t]),
                i + 1 < j,
                (j as int) < n,
                i + 1 <= best_k < m,
                i + 2 <= m <= j,
                best_s as int == score(p@[i as int], p@[j as int], p@[best_k as int]),
                forall|t: int|
                    i < t < m ==> score(p@[i as int], p@[j as int], #[trigger] p@[t]) <= best_s as int,
            decreases j - m,
        {
            let s = score_exec(p[i], p[j], p[m]);
            if s > best_s {
                best_k = m;
                best_s = s;
            }
            m += 1;
        }
        let thr = threshold_exec(p[i], p[j], eps);
        if best_s >= thr {
            // Keep the deepest point and split the interval around it.
            let ghost pre_keep = keep@;
            let ghost pre_just = just;
            keep.set(best_k, true);
            proof {
                just = just.insert(best_k as int, (i as int, j as int));
            }
            if best_k > i + 1 {
                stack.push((i, best_k));
            }
            if j > best_k + 1 {
                stack.push((best_k, j));
            }
            proof {
                assert(stack@ == split_stack(rem, i, j, best_k));
                lemma_split_stack_ok(pre_keep, rem, i, j, best_k, keep@);
                lemma_split_resolved(p@, eps as int, pre_keep, rem, i, j, best_k, keep@);
                lemma_split_just(
                    p@,
                    eps as int,
                    pre_keep,
                    pre_just,
                    i,
                    j,
                    best_k,
                    keep@,
                    just,
                );
                if best_k > i + 1 {
                    lemma_measure_push(rem, (i, best_k));
                }
                if j > best_k + 1 {
                    if best_k > i + 1 {
                        lemma_measure_push(rem.push((i, best_k)), (best_k, j));
                    } else {
                        lemma_measure_push(rem, (best_k, j));
                    }
                }
                assert(stack_measure(pre_stack) == stack_measure(rem) + interval_weight(top));
                assert(stack_measure(stack@) < stack_measure(pre_stack));
            }
        } else {
            proof {
                assert forall|mm: int| i < mm < j implies within_eps(
                    p@[i as int],
                    p@[j as int],
                    #[trigger] p@[mm],
                    eps as int,
                ) by {
                    assert(score(p@[i as int], p@[j as int], p@[mm]) <= best_s as int);
                }
                lemma_discard_preserves(p@, eps as int, keep@, rem, i, j);
                assert(stack_measure(pre_stack) == stack_measure(rem) + interval_weight(top));
            }
        }
    }
    // Emit the kept vertices in index order.
    let mut r: Vec<Point> = Vec::new();
    let ghost mut kept: Seq<int> = Seq::empty();
    let mut idx: usize = 0;
    while idx < n
        invariant
            p@.len() == n,
            keep@.len() == n,
            idx <= n,
            r@ == kept.map_values(|kk: int| p@[kk]),
            forall|t: int| 0 <= t < kept.len() ==> 0 <= #[trigger] kept[t] < idx,
            forall|t: int| 0 < t < kept.len() ==> kept[t - 1] < #[trigger] kept[t],
            forall|mm: int| 0 <= mm < idx ==> ((#[trigger] keep@[mm]) <==> kept.contains(mm)),
        decreases n - idx,
    {
        if keep[idx] {
            r.push(p[idx]);
            proof {
                let prev = kept;
                kept = kept.push(idx as int);
                assert(kept[kept.len() - 1] == idx as int);
                assert(r@ =~= kept.map_values(|kk: int| p@[kk]));
                assert forall|mm: int| 0 <= mm < idx + 1 implies ((#[trigger] keep@[mm])
                    <==> kept.contains(mm)) by {
                    if mm == idx {
                        assert(kept.contains(mm));
                    } else {
                        if prev.contains(mm) {
                            let t = choose|t: int| 0 <= t < prev.len() && prev[t] == mm;
                            assert(kept[t] == mm);
                        }
                        if kept.contains(mm) {
                            let t = choose|t: int| 0 <= t < kept.len() && kept[t] == mm;
                            assert(t < prev.len());
                            assert(prev[t] == mm);
                        }
                    }
                }
            }
        } else {
            proof {
                assert forall|mm: int| 0 <= mm < idx + 1 implies ((#[trigger] keep@[mm])
                    <==> kept.contains(mm)) by {
                    if mm == idx {
                        if kept.contains(mm) {
                            let t = choose|t: int| 0 <= t < kept.len() && kept[t] == mm;
                            assert(kept[t] < idx);
                            assert(false);
                        }
                    }
                }
            }
        }
        idx += 1;
    }
    proof {
        assert(stack@ =~= Seq::<(usize, usize)>::empty());
        lemma_emitted_valid(p@, eps as int, keep@, just, kept, r@);
    }
    r
}

/// Reduces a polyline with the default road tolerance.
pub fn simplify(p: &Vec<Point>) -> (r: Vec<Point>)
    requires
        forall|t: int| 0 <= t < p@.len() ==> in_bounds(#[trigger] p@[t]),
    ensures
        simplification_of(r@, p@, EPSILON as int),
        p@.len() <= 2 ==> r@ == p@,
        p@.len() >= 2 ==> r@.len() >= 2 && r@[0] == p@[0] && r@.last() == p@.last(),
        p@.len() > 0 ==> r@.len() > 0,
        r@.len() <= p@.len(),
        forall|t: int| 0 <= t < r@.len() ==> p@.contains(#[trigger] r@[t]),
{
    simplify_eps(p, EPSILON)
}

} // verus!
