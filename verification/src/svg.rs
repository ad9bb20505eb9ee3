//! Layout and emission of the vector document.
//!
//! Every road polyline is simplified, its vertical axis flipped to
//! screen orientation, and the whole collection fitted into the
//! requested canvas: the scale is the smaller of width over horizontal
//! extent and height over vertical extent, kept as an exact integer
//! ratio.  Output coordinates are written in hundredths.  When there is
//! no point to draw, or the canvas is not positive, no document is
//! produced.

use vstd::prelude::*;

use crate::numfmt::REAL_LIMIT;
use crate::numfmt::hundredths_rep;
use crate::numfmt::milli_rep;
use crate::numfmt::render_hundredths;
use crate::numfmt::render_milli;
use crate::simplify::EPSILON;
use crate::simplify::MAX_COORD;
use crate::simplify::Point;
use crate::simplify::in_bounds;
use crate::simplify::simplification_of;
use crate::simplify::valid_kept;
use crate::simplify::simplify;

verus! {

/// The point mirrored over the horizontal axis.
pub open spec fn neg_y(p: Point) -> Point {
    Point { x: p.x, y: (-(p.y as int)) as i64 }
}

/// A path mirrored over the horizontal axis.
pub open spec fn flip_path(path: Seq<Point>) -> Seq<Point> {
    path.map_values(|q: Point| neg_y(q))
}

/// All points of all paths lie inside the given box.
pub open spec fn box_bounds(
    pss: Seq<Seq<Point>>,
    minx: int,
    miny: int,
    maxx: int,
    maxy: int,
) -> bool {
    forall|i: int, j: int|
        0 <= i < pss.len() && 0 <= j < pss[i].len() ==> minx <= (#[trigger] pss[i][j]).x <= maxx
            && miny <= pss[i][j].y <= maxy
}

/// Some point attains each side of the box.
pub open spec fn box_tight(
    pss: Seq<Seq<Point>>,
    minx: int,
    miny: int,
    maxx: int,
    maxy: int,
) -> bool {
    &&& exists|i: int, j: int|
        0 <= i < pss.len() && 0 <= j < pss[i].len() && (#[trigger] pss[i][j]).x == minx
    &&& exists|i: int, j: int|
        0 <= i < pss.len() && 0 <= j < pss[i].len() && (#[trigger] pss[i][j]).x == maxx
    &&& exists|i: int, j: int|
        0 <= i < pss.len() && 0 <= j < pss[i].len() && (#[trigger] pss[i][j]).y == miny
    &&& exists|i: int, j: int|
        0 <= i < pss.len() && 0 <= j < pss[i].len() && (#[trigger] pss[i][j]).y == maxy
}

/// Numerator of the drawing scale: the canvas side whose ratio to the
/// box extent is smaller wins; a zero extent on one axis defers to the
/// other, and a point-like box draws at scale zero.
pub open spec fn scale_num(w: int, h: int, dx: int, dy: int) -> int {
    if dx == 0 && dy == 0 {
        0
    } else if dx == 0 {
        h
    } else if dy == 0 {
        w
    } else if w * dy <= h * dx {
        w
    } else {
        h
    }
}

/// Denominator of the drawing scale.
pub open spec fn scale_den(w: int, h: int, dx: int, dy: int) -> int {
    if dx == 0 && dy == 0 {
        1
    } else if dx == 0 {
        dy
    } else if dy == 0 {
        dx
    } else if w * dy <= h * dx {
        dx
    } else {
        dy
    }
}

/// A coordinate scaled into the canvas, in hundredths: the offset from
/// the box corner times the scale, in milli-units per hundredth.
pub open spec fn coord100(v: int, minv: int, num: int, den: int) -> int {
    ((v - minv) * num) / (10 * den)
}

/// The text of one vertex: both scaled coordinates to two decimals,
/// comma-separated, with a trailing space.
pub open spec fn point_text(p: Point, minx: int, miny: int, num: int, den: int) -> Seq<char> {
    hundredths_rep(coord100(p.x as int, minx, num, den)) + seq![','] + hundredths_rep(
        coord100(p.y as int, miny, num, den),
    ) + seq![' ']
}

/// The text of all vertices of one path, in order.
pub open spec fn path_points_text(
    path: Seq<Point>,
    minx: int,
    miny: int,
    num: int,
    den: int,
) -> Seq<char>
    decreases path.len(),
{
    if path.len() == 0 {
        Seq::<char>::empty()
    } else {
        path_points_text(path.drop_last(), minx, miny, num, den) + point_text(
            path.last(),
            minx,
            miny,
            num,
            den,
        )
    }
}

/// One polyline element.
pub open spec fn polyline_text(
    path: Seq<Point>,
    minx: int,
    miny: int,
    num: int,
    den: int,
) -> Seq<char> {
    "<polyline points=\""@ + path_points_text(path, minx, miny, num, den) + "\" />\n"@
}

/// All polyline elements: one per non-empty path, in order.
pub open spec fn polylines_text(
    pss: Seq<Seq<Point>>,
    minx: int,
    miny: int,
    num: int,
    den: int,
) -> Seq<char>
    decreases pss.len(),
{
    if pss.len() == 0 {
        Seq::<char>::empty()
    } else {
        polylines_text(pss.drop_last(), minx, miny, num, den) + if pss.last().len() > 0 {
            polyline_text(pss.last(), minx, miny, num, den)
        } else {
            Seq::<char>::empty()
        }
    }
}

/// How many paths are non-empty.
pub open spec fn nonempty_count(pss: Seq<Seq<Point>>) -> int
    decreases pss.len(),
{
    if pss.len() == 0 {
        0
    } else {
        nonempty_count(pss.drop_last()) + if pss.last().len() > 0 {
            1int
        } else {
            0int
        }
    }
}

/// Everything before the polyline elements: declaration, the svg
/// element with its viewport, the background rectangle, and the stroke
/// group.
pub open spec fn svg_header_spec(w100: int, h100: int, stroke: int, bg: Seq<char>) -> Seq<char> {
    "<?xml version=\"1.0\" encoding=\"UTF-8\"?>\n<svg xmlns=\"http://www.w3.org/2000/svg\" viewBox=\"0 0 "@
        + hundredths_rep(w100) + " "@ + hundredths_rep(h100)
        + "\">\n<rect x=\"0\" y=\"0\" width=\""@ + hundredths_rep(w100) + "\" height=\""@
        + hundredths_rep(h100) + "\" fill=\""@ + bg
        + "\" stroke=\"none\"/>\n<g stroke=\"black\" stroke-width=\""@ + milli_rep(stroke)
        + "\" fill=\"none\" >\n"@
}

/// The whole document over flipped, simplified paths and their tight
/// bounding box.
pub open spec fn svg_doc_spec(
    pss: Seq<Seq<Point>>,
    minx: int,
    miny: int,
    maxx: int,
    maxy: int,
    w: int,
    h: int,
    stroke: int,
    bg: Seq<char>,
) -> Seq<char> {
    let num = scale_num(w, h, maxx - minx, maxy - miny);
    let den = scale_den(w, h, maxx - minx, maxy - miny);
    svg_header_spec(
        coord100(maxx, minx, num, den),
        coord100(maxy, miny, num, den),
        stroke,
        bg,
    ) + polylines_text(pss, minx, miny, num, den) + "</g>\n</svg>\n"@
}

/// The produced document `doc` is exactly the drawing of `paths`:
/// each path simplified at the road tolerance, flipped, and laid out
/// against the collection's tight bounding box.
pub open spec fn svg_output(
    doc: Seq<char>,
    paths: Seq<Seq<Point>>,
    simp: Seq<Seq<Point>>,
    minx: int,
    miny: int,
    maxx: int,
    maxy: int,
    w: int,
    h: int,
    stroke: int,
    bg: Seq<char>,
) -> bool {
    &&& simp.len() == paths.len()
    &&& forall|i: int|
        0 <= i < paths.len() ==> simplification_of(#[trigger] simp[i], paths[i], EPSILON as int)
    &&& box_bounds(simp.map_values(|pp: Seq<Point>| flip_path(pp)), minx, miny, maxx, maxy)
    &&& box_tight(simp.map_values(|pp: Seq<Point>| flip_path(pp)), minx, miny, maxx, maxy)
    &&& doc == svg_doc_spec(
        simp.map_values(|pp: Seq<Point>| flip_path(pp)),
        minx,
        miny,
        maxx,
        maxy,
        w,
        h,
        stroke,
        bg,
    )
}

/// A product of non-negative factors stays under the product of their
/// bounds.
proof fn lemma_mul_le(a: int, b: int, aa: int, bb: int)
    requires
        0 <= a <= aa,
        0 <= b <= bb,
    ensures
        0 <= a * b <= aa * bb,
{
    assert(0 <= a * b <= aa * bb) by (nonlinear_arith)
        requires
            0 <= a <= aa,
            0 <= b <= bb,
    ;
}

/// A smaller offset keeps the scaled product under the cap.
proof fn lemma_scale_fits(off: int, dv: int, num: int, den: int)
    requires
        0 <= off <= dv,
        0 <= num,
        dv * num <= 1_000_000_000_000 * den,
    ensures
        off * num <= 1_000_000_000_000 * den,
{
    assert(off * num <= dv * num) by (nonlinear_arith)
        requires
            0 <= off <= dv,
            0 <= num,
    ;
}

/// The chosen scale keeps both box extents within the canvas: scaled,
/// neither extent exceeds the larger canvas side, so every scaled
/// offset stays under the fixed cap.
proof fn lemma_scale_choice(w: int, h: int, dx: int, dy: int)
    requires
        0 < w <= 1_000_000_000_000,
        0 < h <= 1_000_000_000_000,
        0 <= dx,
        0 <= dy,
    ensures
        0 <= scale_num(w, h, dx, dy) <= 1_000_000_000_000,
        1 <= scale_den(w, h, dx, dy),
        scale_den(w, h, dx, dy) == 1 || scale_den(w, h, dx, dy) == dx || scale_den(w, h, dx, dy)
            == dy,
        dx * scale_num(w, h, dx, dy) <= 1_000_000_000_000 * scale_den(w, h, dx, dy),
        dy * scale_num(w, h, dx, dy) <= 1_000_000_000_000 * scale_den(w, h, dx, dy),
{
    let num = scale_num(w, h, dx, dy);
    let den = scale_den(w, h, dx, dy);
    if dx == 0 && dy == 0 {
    } else if dx == 0 {
        assert(dy * h <= 1_000_000_000_000 * dy) by (nonlinear_arith)
            requires
                0 < h <= 1_000_000_000_000,
                0 < dy,
        ;
    } else if dy == 0 {
        assert(dx * w <= 1_000_000_000_000 * dx) by (nonlinear_arith)
            requires
                0 < w <= 1_000_000_000_000,
                0 < dx,
        ;
    } else if w * dy <= h * dx {
        assert(dx * w <= 1_000_000_000_000 * dx) by (nonlinear_arith)
            requires
                0 < w <= 1_000_000_000_000,
                0 < dx,
        ;
        assert(dy * w <= 1_000_000_000_000 * dx) by (nonlinear_arith)
            requires
                w * dy <= h * dx,
                0 < h <= 1_000_000_000_000,
                0 < dx,
        ;
    } else {
        assert(dy * h <= 1_000_000_000_000 * dy) by (nonlinear_arith)
            requires
                0 < h <= 1_000_000_000_000,
                0 < dy,
        ;
        assert(dx * h <= 1_000_000_000_000 * dy) by (nonlinear_arith)
            requires
                h * dx <= w * dy,
                0 < w <= 1_000_000_000_000,
                0 < dy,
        ;
    }
}

/// Scales one coordinate offset into canvas hundredths.
fn scale100(v: i64, minv: i64, num: i64, den: i64) -> (r: u64)
    requires
        minv <= v,
        v - minv <= 4_000_000_000,
        0 <= num <= REAL_LIMIT,
        1 <= den <= 4_000_000_000,
        (v - minv) * num <= 1_000_000_000_000 * den,
    ensures
        r as int == coord100(v as int, minv as int, num as int, den as int),
        r <= 100_000_000_000,
{
    let a: u128 = (v - minv) as u128;
    let nu: u128 = num as u128;
    let de: u128 = den as u128;
    proof {
        lemma_mul_le(a as int, nu as int, 4_000_000_000, 1_000_000_000_000);
        lemma_mul_le(1_000_000_000_000, de as int, 1_000_000_000_000, 4_000_000_000);
        vstd::arithmetic::div_mod::lemma_div_is_ordered(
            (a * nu) as int,
            1_000_000_000_000 * (de as int),
            10 * (de as int),
        );
        assert(1_000_000_000_000 * (de as int) == (10 * (de as int)) * 100_000_000_000)
            by (nonlinear_arith);
        vstd::arithmetic::div_mod::lemma_div_multiples_vanish(
            100_000_000_000,
            10 * (de as int),
        );
    }
    let q: u128 = (a * nu) / (10 * de);
    q as u64
}

/// Builds everything before the polyline elements.
fn svg_header(w100: u64, h100: u64, stroke_milli: i64, background: &str) -> (r: String)
    requires
        -REAL_LIMIT <= stroke_milli <= REAL_LIMIT,
    ensures
        r@ == svg_header_spec(w100 as int, h100 as int, stroke_milli as int, background@),
{
    let mut s = String::from_str(
        "<?xml version=\"1.0\" encoding=\"UTF-8\"?>\n<svg xmlns=\"http://www.w3.org/2000/svg\" viewBox=\"0 0 ",
    );
    let ws = render_hundredths(w100);
    let hs = render_hundredths(h100);
    s.append(ws.as_str());
    s.append(" ");
    s.append(hs.as_str());
    s.append("\">\n<rect x=\"0\" y=\"0\" width=\"");
    s.append(ws.as_str());
    s.append("\" height=\"");
    s.append(hs.as_str());
    s.append("\" fill=\"");
    s.append(background);
    s.append("\" stroke=\"none\"/>\n<g stroke=\"black\" stroke-width=\"");
    let ss = render_milli(stroke_milli);
    s.append(ss.as_str());
    s.append("\" fill=\"none\" >\n");
    proof {
        assert(s@ =~= svg_header_spec(w100 as int, h100 as int, stroke_milli as int, background@));
    }
    s
}

/// Builds one polyline element from a flipped path.
fn polyline_elem(path: &Vec<Point>, minx: i64, miny: i64, num: i64, den: i64) -> (r: String)
    requires
        0 <= num <= REAL_LIMIT,
        1 <= den <= 4_000_000_000,
        forall|l: int|
            0 <= l < path@.len() ==> minx <= (#[trigger] path@[l]).x && path@[l].x - minx
                <= 4_000_000_000 && (path@[l].x - minx) * num <= 1_000_000_000_000 * den
                && miny <= path@[l].y && path@[l].y - miny <= 4_000_000_000 && (path@[l].y - miny)
                * num <= 1_000_000_000_000 * den,
    ensures
        r@ == polyline_text(path@, minx as int, miny as int, num as int, den as int),
{
    let mut s = String::from_str("<polyline points=\"");
    let mut j: usize = 0;
    while j < path.len()
        invariant
            0 <= num <= REAL_LIMIT,
            1 <= den <= 4_000_000_000,
            forall|l: int|
                0 <= l < path@.len() ==> minx <= (#[trigger] path@[l]).x && path@[l].x - minx
                    <= 4_000_000_000 && (path@[l].x - minx) * num <= 1_000_000_000_000 * den
                    && miny <= path@[l].y && path@[l].y - miny <= 4_000_000_000 && (path@[l].y
                    - miny) * num <= 1_000_000_000_000 * den,
            j <= path@.len(),
            s@ == "<polyline points=\""@ + path_points_text(
                path@.take(j as int),
                minx as int,
                miny as int,
                num as int,
                den as int,
            ),
        decreases path@.len() - j,
    {
        let p = path[j];
        let cx = scale100(p.x, minx, num, den);
        let cy = scale100(p.y, miny, num, den);
        let xs = render_hundredths(cx);
        let ys = render_hundredths(cy);
        s.append(xs.as_str());
        s.push(',');
        s.append(ys.as_str());
        s.push(' ');
        proof {
            assert(path@.take(j + 1).drop_last() =~= path@.take(j as int));
            assert(path@.take(j + 1).last() == path@[j as int]);
            assert(s@ =~= "<polyline points=\""@ + path_points_text(
                path@.take(j + 1),
                minx as int,
                miny as int,
                num as int,
                den as int,
            ));
        }
        j += 1;
    }
    s.append("\" />\n");
    proof {
        assert(path@.take(path@.len() as int) =~= path@);
        assert(s@ =~= polyline_text(path@, minx as int, miny as int, num as int, den as int));
    }
    s
}

/// A simplification is empty exactly when its input is empty.
pub proof fn lemma_simplification_len(r: Seq<Point>, p: Seq<Point>, eps: int)
    requires
        simplification_of(r, p, eps),
    ensures
        r.len() > 0 <==> p.len() > 0,
{
    reveal(valid_kept);
    let kept = choose|kept: Seq<int>| valid_kept(kept, r, p, eps);
    assert(r.len() == kept.len());
    if p.len() >= 2 {
        assert(kept.len() >= 2);
    } else if p.len() == 1 {
        assert(kept == seq![0int]);
    } else {
        assert(kept.len() == 0);
    }
}

/// Collections whose paths are non-empty at the same positions hold
/// the same number of non-empty paths.
proof fn lemma_nonempty_count_eq(a: Seq<Seq<Point>>, b: Seq<Seq<Point>>)
    requires
        a.len() == b.len(),
        forall|i: int| 0 <= i < a.len() ==> ((#[trigger] a[i]).len() > 0 <==> b[i].len() > 0),
    ensures
        nonempty_count(a) == nonempty_count(b),
    decreases a.len(),
{
    if a.len() > 0 {
        assert(forall|i: int|
            0 <= i < a.len() - 1 ==> (#[trigger] a.drop_last()[i]) == a[i] && b.drop_last()[i]
                == b[i]);
        lemma_nonempty_count_eq(a.drop_last(), b.drop_last());
    }
}

/// The drawing holds exactly one polyline element per non-empty input
/// path: simplification and the vertical flip never turn a non-empty
/// path empty or an empty one non-empty.
pub proof fn lemma_svg_polyline_count(
    doc: Seq<char>,
    paths: Seq<Seq<Point>>,
    simp: Seq<Seq<Point>>,
    minx: int,
    miny: int,
    maxx: int,
    maxy: int,
    w: int,
    h: int,
    stroke: int,
    bg: Seq<char>,
)
    requires
        svg_output(doc, paths, simp, minx, miny, maxx, maxy, w, h, stroke, bg),
    ensures
        nonempty_count(simp.map_values(|pp: Seq<Point>| flip_path(pp))) == nonempty_count(paths),
{
    let flipped = simp.map_values(|pp: Seq<Point>| flip_path(pp));
    assert forall|i: int| 0 <= i < flipped.len() implies ((#[trigger] flipped[i]).len() > 0
        <==> paths[i].len() > 0) by {
        assert(flipped[i] == flip_path(simp[i]));
        lemma_simplification_len(simp[i], paths[i], EPSILON as int);
    }
    lemma_nonempty_count_eq(flipped, paths);
}

/// The views of a collection of paths.
pub open spec fn path_views(paths: Seq<Vec<Point>>) -> Seq<Seq<Point>> {
    paths.map_values(|p: Vec<Point>| p@)
}

/// Some simplification and some tight box witness that `doc` is the
/// drawing of `paths`.
pub open spec fn produces_svg(
    doc: Seq<char>,
    paths: Seq<Seq<Point>>,
    w: int,
    h: int,
    stroke: int,
    bg: Seq<char>,
) -> bool {
    exists|simp: Seq<Seq<Point>>, minx: int, miny: int, maxx: int, maxy: int|
        svg_output(doc, paths, simp, minx, miny, maxx, maxy, w, h, stroke, bg)
}

/// Simplifies every path and flips it to screen orientation.  The
/// ghost result carries the simplified paths before the flip.
fn simplify_flip_all(paths: &Vec<Vec<Point>>) -> (r: (Vec<Vec<Point>>, Ghost<Seq<Seq<Point>>>))
    requires
        forall|i: int, j: int|
            0 <= i < paths@.len() && 0 <= j < paths@[i]@.len() ==> in_bounds(
                #[trigger] paths@[i]@[j],
            ),
    ensures
        r.0@.len() == paths@.len(),
        r.1@.len() == paths@.len(),
        forall|k: int|
            0 <= k < paths@.len() ==> simplification_of(
                #[trigger] r.1@[k],
                paths@[k]@,
                EPSILON as int,
            ),
        forall|k: int| 0 <= k < paths@.len() ==> (#[trigger] r.0@[k])@ == flip_path(r.1@[k]),
        forall|k: int|
            0 <= k < paths@.len() ==> ((#[trigger] r.1@[k]).len() > 0 <==> paths@[k]@.len() > 0),
        forall|k: int, j: int|
            0 <= k < paths@.len() && 0 <= j < r.0@[k]@.len() ==> in_bounds(
                #[trigger] r.0@[k]@[j],
            ),
{
    let n = paths.len();
    let mut fsimp: Vec<Vec<Point>> = Vec::new();
    let ghost mut simp0: Seq<Seq<Point>> = Seq::empty();
    let mut i: usize = 0;
    while i < n
        invariant
            paths@.len() == n,
            forall|k: int, j: int|
                0 <= k < n && 0 <= j < paths@[k]@.len() ==> in_bounds(#[trigger] paths@[k]@[j]),
            i <= n,
            fsimp@.len() == i,
            simp0.len() == i,
            forall|k: int|
                0 <= k < i ==> simplification_of(#[trigger] simp0[k], paths@[k]@, EPSILON as int),
            forall|k: int| 0 <= k < i ==> (#[trigger] fsimp@[k])@ == flip_path(simp0[k]),
            forall|k: int|
                0 <= k < i ==> ((#[trigger] simp0[k]).len() > 0 <==> paths@[k]@.len() > 0),
            forall|k: int, j: int|
                0 <= k < i && 0 <= j < fsimp@[k]@.len() ==> in_bounds(#[trigger] fsimp@[k]@[j]),
        decreases n - i,
    {
        let sp = simplify(&paths[i]);
        let mut fp: Vec<Point> = Vec::new();
        let mut j: usize = 0;
        while j < sp.len()
            invariant
                j <= sp@.len(),
                fp@.len() == j,
                forall|l: int| 0 <= l < sp@.len() ==> in_bounds(#[trigger] sp@[l]),
                forall|l: int| 0 <= l < j ==> #[trigger] fp@[l] == neg_y(sp@[l]),
                forall|l: int| 0 <= l < j ==> in_bounds(#[trigger] fp@[l]),
            decreases sp@.len() - j,
        {
            let p = sp[j];
            fp.push(Point { x: p.x, y: -p.y });
            j += 1;
        }
        proof {
            assert(fp@ =~= flip_path(sp@));
            assert forall|l: int| 0 <= l < sp@.len() implies in_bounds(#[trigger] sp@[l]) by {
                assert(paths@[i as int]@.contains(sp@[l]));
                let w = choose|w: int|
                    0 <= w < paths@[i as int]@.len() && paths@[i as int]@[w] == sp@[l];
                assert(in_bounds(paths@[i as int]@[w]));
            }
            simp0 = simp0.push(sp@);
        }
        fsimp.push(fp);
        i += 1;
    }
    (fsimp, Ghost(simp0))
}

/// The tight bounding box of all points of all paths, or nothing when
/// no path holds a point.
fn bbox_paths(fsimp: &Vec<Vec<Point>>) -> (r: Option<(i64, i64, i64, i64)>)
    requires
        forall|k: int, j: int|
            0 <= k < fsimp@.len() && 0 <= j < fsimp@[k]@.len() ==> in_bounds(
                #[trigger] fsimp@[k]@[j],
            ),
    ensures
        r is None <==> (forall|k: int| 0 <= k < fsimp@.len() ==> (#[trigger] fsimp@[k])@.len() == 0),
        r is Some ==> {
            let (minx, miny, maxx, maxy) = r->0;
            &&& box_bounds(path_views(fsimp@), minx as int, miny as int, maxx as int, maxy as int)
            &&& box_tight(path_views(fsimp@), minx as int, miny as int, maxx as int, maxy as int)
            &&& -MAX_COORD <= minx <= maxx <= MAX_COORD
            &&& -MAX_COORD <= miny <= maxy <= MAX_COORD
        },
{
    let ghost fs = path_views(fsimp@);
    proof {
        assert(forall|k: int| 0 <= k < fsimp@.len() ==> #[trigger] fs[k] == fsimp@[k]@);
    }
    let n = fsimp.len();
    let mut have = false;
    let mut minx: i64 = 0;
    let mut miny: i64 = 0;
    let mut maxx: i64 = 0;
    let mut maxy: i64 = 0;
    let mut i: usize = 0;
    while i < n
        invariant
            fsimp@.len() == n,
            fs == path_views(fsimp@),
            fs.len() == n,
            forall|k: int| 0 <= k < n ==> #[trigger] fs[k] == fsimp@[k]@,
            forall|k: int, j: int|
                0 <= k < n && 0 <= j < fs[k].len() ==> in_bounds(#[trigger] fs[k][j]),
            i <= n,
            have <==> exists|k: int| 0 <= k < i && (#[trigger] fs[k]).len() > 0,
            forall|k: int, j: int|
                0 <= k < i && 0 <= j < fs[k].len() ==> minx <= (#[trigger] fs[k][j]).x <= maxx
                    && miny <= fs[k][j].y <= maxy,
            have ==> exists|k: int, j: int|
                0 <= k < i && 0 <= j < fs[k].len() && (#[trigger] fs[k][j]).x == minx,
            have ==> exists|k: int, j: int|
                0 <= k < i && 0 <= j < fs[k].len() && (#[trigger] fs[k][j]).x == maxx,
            have ==> exists|k: int, j: int|
                0 <= k < i && 0 <= j < fs[k].len() && (#[trigger] fs[k][j]).y == miny,
            have ==> exists|k: int, j: int|
                0 <= k < i && 0 <= j < fs[k].len() && (#[trigger] fs[k][j]).y == maxy,
            have ==> -MAX_COORD <= minx <= maxx <= MAX_COORD && -MAX_COORD <= miny <= maxy
                <= MAX_COORD,
        decreases n - i,
    {
        let path = &fsimp[i];
        let mut j: usize = 0;
        while j < path.len()
            invariant
                fsimp@.len() == n,
                fs == path_views(fsimp@),
                fs.len() == n,
                forall|k: int| 0 <= k < n ==> #[trigger] fs[k] == fsimp@[k]@,
                forall|k: int, jj: int|
                    0 <= k < n && 0 <= jj < fs[k].len() ==> in_bounds(#[trigger] fs[k][jj]),
                i < n,
                path@ == fs[i as int],
                j <= path@.len(),
                have <==> ((exists|k: int| 0 <= k < i && (#[trigger] fs[k]).len() > 0) || (j > 0
                    && path@.len() > 0)),
                forall|k: int, jj: int|
                    0 <= k < i && 0 <= jj < fs[k].len() ==> minx <= (#[trigger] fs[k][jj]).x
                        <= maxx && miny <= fs[k][jj].y <= maxy,
                forall|jj: int|
                    0 <= jj < j ==> minx <= (#[trigger] path@[jj]).x <= maxx && miny
                        <= path@[jj].y <= maxy,
                have ==> (exists|k: int, jj: int|
                    0 <= k < i && 0 <= jj < fs[k].len() && (#[trigger] fs[k][jj]).x == minx) || (
                exists|jj: int| 0 <= jj < j && (#[trigger] path@[jj]).x == minx),
                have ==> (exists|k: int, jj: int|
                    0 <= k < i && 0 <= jj < fs[k].len() && (#[trigger] fs[k][jj]).x == maxx) || (
                exists|jj: int| 0 <= jj < j && (#[trigger] path@[jj]).x == maxx),
                have ==> (exists|k: int, jj: int|
                    0 <= k < i && 0 <= jj < fs[k].len() && (#[trigger] fs[k][jj]).y == miny) || (
                exists|jj: int| 0 <= jj < j && (#[trigger] path@[jj]).y == miny),
                have ==> (exists|k: int, jj: int|
                    0 <= k < i && 0 <= jj < fs[k].len() && (#[trigger] fs[k][jj]).y == maxy) || (
                exists|jj: int| 0 <= jj < j && (#[trigger] path@[jj]).y == maxy),
                have ==> -MAX_COORD <= minx <= maxx <= MAX_COORD && -MAX_COORD <= miny <= maxy
                    <= MAX_COORD,
            decreases path@.len() - j,
        {
            let p = path[j];
            proof {
                assert(in_bounds(fs[i as int][j as int]));
            }
            if !have {
                have = true;
                minx = p.x;
                maxx = p.x;
                miny = p.y;
                maxy = p.y;
            } else {
                if p.x < minx {
                    minx = p.x;
                }
                if p.x > maxx {
                    maxx = p.x;
                }
                if p.y < miny {
                    miny = p.y;
                }
                if p.y > maxy {
                    maxy = p.y;
                }
            }
            j += 1;
        }
        i += 1;
    }
    proof {
        if have {
            let k = choose|k: int| 0 <= k < n && (#[trigger] fs[k]).len() > 0;
            assert(fsimp@[k]@.len() > 0);
        } else {
            assert forall|k: int| 0 <= k < n implies (#[trigger] fsimp@[k])@.len() == 0 by {
                assert(fs[k].len() == 0);
            }
        }
    }
    if have {
        Option::Some((minx, miny, maxx, maxy))
    } else {
        Option::None
    }
}

/// Builds the polyline elements of all paths, in order.
fn polylines_section(
    fsimp: &Vec<Vec<Point>>,
    minx: i64,
    miny: i64,
    num: i64,
    den: i64,
    dx: i64,
    dy: i64,
) -> (r: String)
    requires
        0 <= num <= REAL_LIMIT,
        1 <= den <= 4_000_000_000,
        0 <= dx <= 4_000_000_000,
        0 <= dy <= 4_000_000_000,
        dx * num <= 1_000_000_000_000 * den,
        dy * num <= 1_000_000_000_000 * den,
        box_bounds(
            path_views(fsimp@),
            minx as int,
            miny as int,
            minx + dx,
            miny + dy,
        ),
    ensures
        r@ == polylines_text(path_views(fsimp@), minx as int, miny as int, num as int, den as int),
{
    let ghost fs = path_views(fsimp@);
    proof {
        assert(forall|k: int| 0 <= k < fsimp@.len() ==> #[trigger] fs[k] == fsimp@[k]@);
    }
    let n = fsimp.len();
    let mut out = String::new();
    let mut i: usize = 0;
    while i < n
        invariant
            fsimp@.len() == n,
            fs == path_views(fsimp@),
            fs.len() == n,
            forall|k: int| 0 <= k < n ==> #[trigger] fs[k] == fsimp@[k]@,
            0 <= num <= REAL_LIMIT,
            1 <= den <= 4_000_000_000,
            0 <= dx <= 4_000_000_000,
            0 <= dy <= 4_000_000_000,
            dx * num <= 1_000_000_000_000 * den,
            dy * num <= 1_000_000_000_000 * den,
            box_bounds(fs, minx as int, miny as int, minx + dx, miny + dy),
            i <= n,
            out@ == polylines_text(
                fs.take(i as int),
                minx as int,
                miny as int,
                num as int,
                den as int,
            ),
        decreases n - i,
    {
        let path = &fsimp[i];
        if path.len() > 0 {
            proof {
                assert forall|l: int|
                    0 <= l < path@.len() implies minx <= (#[trigger] path@[l]).x && path@[l].x
                    - minx <= 4_000_000_000 && (path@[l].x - minx) * num <= 1_000_000_000_000
                    * den && miny <= path@[l].y && path@[l].y - miny <= 4_000_000_000 && (
                path@[l].y - miny) * num <= 1_000_000_000_000 * den by {
                    assert(fs[i as int][l] == path@[l]);
                    assert(minx <= fs[i as int][l].x <= minx + dx && miny <= fs[i as int][l].y
                        <= miny + dy);
                    lemma_scale_fits(path@[l].x - minx as int, dx as int, num as int, den as int);
                    lemma_scale_fits(path@[l].y - miny as int, dy as int, num as int, den as int);
                }
            }
            let elem = polyline_elem(path, minx, miny, num, den);
            out.append(elem.as_str());
        }
        proof {
            assert(fs.take(i + 1).drop_last() =~= fs.take(i as int));
            assert(fs.take(i + 1).last() == fs[i as int]);
            assert(out@ =~= polylines_text(
                fs.take(i + 1),
                minx as int,
                miny as int,
                num as int,
                den as int,
            ));
        }
        i += 1;
    }
    proof {
        assert(fs.take(n as int) =~= fs);
    }
    out
}

/// The appended pieces form exactly the document of the spec.
proof fn lemma_doc_shape(
    doc: Seq<char>,
    header: Seq<char>,
    body: Seq<char>,
    fs: Seq<Seq<Point>>,
    minx: int,
    miny: int,
    maxx: int,
    maxy: int,
    num: int,
    den: int,
    w: int,
    h: int,
    stroke: int,
    bg: Seq<char>,
    w100: int,
    h100: int,
)
    requires
        doc == header + body + "</g>\n</svg>\n"@,
        header == svg_header_spec(w100, h100, stroke, bg),
        w100 == coord100(maxx, minx, num, den),
        h100 == coord100(maxy, miny, num, den),
        body == polylines_text(fs, minx, miny, num, den),
        num == scale_num(w, h, maxx - minx, maxy - miny),
        den == scale_den(w, h, maxx - minx, maxy - miny),
    ensures
        doc == svg_doc_spec(fs, minx, miny, maxx, maxy, w, h, stroke, bg),
{
}

/// The collected facts of the drawing pipeline assemble into the
/// output predicate.
proof fn lemma_svg_assemble(
    doc: Seq<char>,
    pathsv: Seq<Seq<Point>>,
    simp0: Seq<Seq<Point>>,
    fs: Seq<Seq<Point>>,
    minx: int,
    miny: int,
    maxx: int,
    maxy: int,
    w: int,
    h: int,
    stroke: int,
    bg: Seq<char>,
)
    requires
        simp0.len() == pathsv.len(),
        fs.len() == simp0.len(),
        forall|k: int| 0 <= k < fs.len() ==> #[trigger] fs[k] == flip_path(simp0[k]),
        forall|i: int|
            0 <= i < pathsv.len() ==> simplification_of(
                #[trigger] simp0[i],
                pathsv[i],
                EPSILON as int,
            ),
        box_bounds(fs, minx, miny, maxx, maxy),
        box_tight(fs, minx, miny, maxx, maxy),
        doc == svg_doc_spec(fs, minx, miny, maxx, maxy, w, h, stroke, bg),
    ensures
        svg_output(doc, pathsv, simp0, minx, miny, maxx, maxy, w, h, stroke, bg),
{
    assert(fs =~= simp0.map_values(|pp: Seq<Point>| flip_path(pp)));
}

/// Lays the flipped paths out against their bounding box and emits
/// the whole document.
fn svg_render(
    fsimp: &Vec<Vec<Point>>,
    minx: i64,
    miny: i64,
    maxx: i64,
    maxy: i64,
    w_milli: i64,
    h_milli: i64,
    stroke_milli: i64,
    background: &str,
) -> (doc: String)
    requires
        0 < w_milli <= REAL_LIMIT,
        0 < h_milli <= REAL_LIMIT,
        -REAL_LIMIT <= stroke_milli <= REAL_LIMIT,
        -MAX_COORD <= minx <= maxx <= MAX_COORD,
        -MAX_COORD <= miny <= maxy <= MAX_COORD,
        box_bounds(path_views(fsimp@), minx as int, miny as int, maxx as int, maxy as int),
    ensures
        doc@ == svg_doc_spec(
            path_views(fsimp@),
            minx as int,
            miny as int,
            maxx as int,
            maxy as int,
            w_milli as int,
            h_milli as int,
            stroke_milli as int,
            background@,
        ),
{
    let dx = maxx - minx;
    let dy = maxy - miny;
    proof {
        lemma_mul_le(w_milli as int, dy as int, 1_000_000_000_000, 4_000_000_000);
        lemma_mul_le(h_milli as int, dx as int, 1_000_000_000_000, 4_000_000_000);
    }
    let num: i64;
    let den: i64;
    if dx == 0 && dy == 0 {
        num = 0;
        den = 1;
    } else if dx == 0 {
        num = h_milli;
        den = dy;
    } else if dy == 0 {
        num = w_milli;
        den = dx;
    } else if (w_milli as i128) * (dy as i128) <= (h_milli as i128) * (dx as i128) {
        num = w_milli;
        den = dx;
    } else {
        num = h_milli;
        den = dy;
    }
    proof {
        lemma_scale_choice(w_milli as int, h_milli as int, dx as int, dy as int);
        assert(num as int == scale_num(w_milli as int, h_milli as int, dx as int, dy as int));
        assert(den as int == scale_den(w_milli as int, h_milli as int, dx as int, dy as int));
    }
    let w100 = scale100(maxx, minx, num, den);
    let h100 = scale100(maxy, miny, num, den);
    let mut doc = svg_header(w100, h100, stroke_milli, background);
    let ghost header = doc@;
    let body = polylines_section(&fsimp, minx, miny, num, den, dx, dy);
    doc.append(body.as_str());
    doc.append("</g>\n</svg>\n");
    proof {
        assert(doc@ =~= header + body@ + "</g>\n</svg>\n"@);
        lemma_doc_shape(
            doc@,
            header,
            body@,
            path_views(fsimp@),
            minx as int,
            miny as int,
            maxx as int,
            maxy as int,
            num as int,
            den as int,
            w_milli as int,
            h_milli as int,
            stroke_milli as int,
            background@,
            w100 as int,
            h100 as int,
        );
    }
    doc
}

/// Draws the road paths into a vector document: each path simplified
/// and flipped to screen orientation, the collection fitted to the
/// canvas.  Yields nothing when the canvas is not positive or no path
/// holds a point.
#[verifier::spinoff_prover]
#[verifier::rlimit(100)]
pub fn svg_content(
    paths: &Vec<Vec<Point>>,
    w_milli: i64,
    h_milli: i64,
    stroke_milli: i64,
    background: &str,
) -> (r: Option<String>)
    requires
        -REAL_LIMIT <= w_milli <= REAL_LIMIT,
        -REAL_LIMIT <= h_milli <= REAL_LIMIT,
        -REAL_LIMIT <= stroke_milli <= REAL_LIMIT,
        forall|i: int, j: int|
            0 <= i < paths@.len() && 0 <= j < paths@[i]@.len() ==> in_bounds(
                #[trigger] paths@[i]@[j],
            ),
    ensures
        r is Some <==> (w_milli > 0 && h_milli > 0 && exists|i: int|
            0 <= i < paths@.len() && (#[trigger] paths@[i]@).len() > 0),
        r is Some ==> produces_svg(
            r->0@,
            path_views(paths@),
            w_milli as int,
            h_milli as int,
            stroke_milli as int,
            background@,
        ),
{
    if w_milli <= 0 || h_milli <= 0 {
        return Option::None;
    }
    let n = paths.len();
    let (fsimp, simp_g) = simplify_flip_all(paths);
    let ghost simp0 = simp_g@;
    let ghost fs = path_views(fsimp@);
    proof {
        assert forall|k: int| 0 <= k < n implies #[trigger] fs[k] == flip_path(simp0[k]) by {
            assert(fs[k] == fsimp@[k]@);
        }
    }
    let bb = bbox_paths(&fsimp);
    let (minx, miny, maxx, maxy) = match bb {
        Option::Some(t) => t,
        Option::None => {
            proof {
                assert forall|k: int| 0 <= k < n implies (#[trigger] paths@[k]@).len() == 0 by {
                    assert(fsimp@[k]@.len() == 0);
                    assert(fs[k].len() == 0);
                    assert(flip_path(simp0[k]).len() == 0);
                }
            }
            return Option::None;
        },
    };
    let doc = svg_render(
        &fsimp,
        minx,
        miny,
        maxx,
        maxy,
        w_milli,
        h_milli,
        stroke_milli,
        background,
    );
    proof {
        let pathsv = path_views(paths@);
        assert(forall|k: int| 0 <= k < n ==> #[trigger] pathsv[k] == paths@[k]@);
        lemma_svg_assemble(
            doc@,
            pathsv,
            simp0,
            fs,
            minx as int,
            miny as int,
            maxx as int,
            maxy as int,
            w_milli as int,
            h_milli as int,
            stroke_milli as int,
            background@,
        );
        assert(exists|k: int| 0 <= k < n && (#[trigger] paths@[k]@).len() > 0) by {
            let k = choose|k: int| 0 <= k < n && (#[trigger] fs[k]).len() > 0;
            assert(fs[k] == flip_path(simp0[k]));
            assert(simp0[k].len() > 0);
            assert(paths@[k]@.len() > 0);
        }
        assert(produces_svg(
            doc@,
            path_views(paths@),
            w_milli as int,
            h_milli as int,
            stroke_milli as int,
            background@,
        ));
    }
    Option::Some(doc)
}

} // verus!
