//! Scanline polygon fill and path-to-subpath grouping.
//!
//! For each horizontal scanline within the shape's vertical extent, the fill
//! intersects the line with every non-horizontal edge, sorts the crossing
//! columns, and fills the spans between successive pairs — the even-odd rule
//! through pairing, correct for simple polygons.  Path segments group into
//! subpaths at each move; a close repeats the subpath's first point.

use vstd::prelude::*;

use vstd::math::abs;
use vstd::relations::{sorted_by, total_ordering};

use crate::buffer::{
    fill_rect_wide, spec_buf_ok, spec_frame_rect, spec_in_bounds, spec_only_color, spec_pix,
    spec_pixel_is, spec_pixel_same,
};
use crate::lines::{spec_pts_max_x, spec_pts_max_y, spec_pts_min_x, spec_pts_min_y};
use crate::model::{PathSegment, Point};

verus! {

/// Whether the elements of `s` are in ascending order.
pub open spec fn spec_sorted(s: Seq<i64>) -> bool {
    forall|i: int, j: int| 0 <= i < j < s.len() ==> s[i] <= s[j]
}

/// The ascending order the crossing sort uses.
pub open spec fn spec_le_i64() -> spec_fn(i64, i64) -> bool {
    |a: i64, b: i64| a <= b
}

/// `num / den` rounded half away from zero — the crossing interpolation.
pub open spec fn spec_round_div(num: int, den: int) -> int {
    let na = abs(num) as int;
    let da = abs(den) as int;
    let qa = (2 * na + da) / (2 * da);
    if (num >= 0) == (den >= 0) {
        qa
    } else {
        -qa
    }
}

/// The clamped crossing of row `y` with edge `e` — the segment from point
/// `e` to the cyclically next point — when the row crosses it.
pub open spec fn spec_edge_crossing(pts: Seq<Point>, y: int, e: int, lo: int, hi: int) -> Option<
    i64,
> {
    let p1 = pts[e];
    let p2 = pts[if e + 1 == pts.len() {
        0
    } else {
        e + 1
    }];
    let y1 = p1.y as int;
    let y2 = p2.y as int;
    if y1 != y2 && ((y >= y1 && y < y2) || (y >= y2 && y < y1)) {
        let xi = p1.x + spec_round_div((y - y1) * (p2.x - p1.x), y2 - y1);
        Some(
            (if xi < lo {
                lo
            } else if xi > hi {
                hi
            } else {
                xi
            }) as i64,
        )
    } else {
        None
    }
}

/// Crossings of row `y` with the first `e` edges, in edge order.
pub open spec fn spec_crossings_upto(pts: Seq<Point>, y: int, e: int, lo: int, hi: int) -> Seq<i64>
    decreases e,
{
    if e <= 0 {
        Seq::empty()
    } else {
        let rest = spec_crossings_upto(pts, y, e - 1, lo, hi);
        match spec_edge_crossing(pts, y, e - 1, lo, hi) {
            Some(x) => rest.push(x),
            None => rest,
        }
    }
}

/// The sorted crossing columns of row `y`, clamped to the bounding box.
pub open spec fn spec_row_spans(pts: Seq<Point>, y: int) -> Seq<i64> {
    spec_crossings_upto(
        pts,
        y,
        pts.len() as int,
        spec_pts_min_x(pts),
        spec_pts_max_x(pts),
    ).sort_by(spec_le_i64())
}

/// Whether the scanline fill paints `(px, py)`: the row lies in the
/// polygon's vertical extent and `px` lies in one of the spans between
/// successive pairs of the row's sorted crossing columns.
pub open spec fn spec_polygon_covers(pts: Seq<Point>, px: int, py: int) -> bool {
    let cr = spec_row_spans(pts, py);
    &&& pts.len() >= 3
    &&& spec_pts_min_y(pts) <= py <= spec_pts_max_y(pts)
    &&& exists|j: int|
        0 <= j && 2 * j + 1 < cr.len() && (#[trigger] cr[2 * j]) <= px <= cr[2 * j + 1]
}

/// Sorts the crossing columns in place (insertion sort): the result is
/// ordered and holds exactly the same values.
#[verifier::loop_isolation(false)]
pub fn sort_i64(v: &mut Vec<i64>)
    ensures
        spec_sorted(final(v)@),
        final(v)@.to_multiset() == old(v)@.to_multiset(),
{
    let mut i: usize = 1;
    while i < v.len()
        invariant
            1 <= i <= v@.len() || v@.len() == 0,
            v@.len() == old(v)@.len(),
            v@.to_multiset() == old(v)@.to_multiset(),
            forall|a: int, b: int| 0 <= a < b < i ==> v@[a] <= v@[b],
        decreases v@.len() - i,
    {
        let mut j: usize = i;
        while j > 0 && v[j - 1] > v[j]
            invariant
                0 <= j <= i < v@.len(),
                v@.len() == old(v)@.len(),
                v@.to_multiset() == old(v)@.to_multiset(),
                forall|a: int, b: int| 0 <= a < b <= i && b != j ==> v@[a] <= v@[b],
                forall|a: int| j < a <= i ==> v@[j as int] <= v@[a],
            decreases j,
        {
            let ghost before = v@;
            let tmp = v[j];
            let prev = v[j - 1];
            v[j] = prev;
            v[j - 1] = tmp;
            proof {
                broadcast use vstd::seq_lib::to_multiset_update;
                broadcast use vstd::seq_lib::to_multiset_contains;
                broadcast use vstd::multiset::group_multiset_axioms;
                broadcast use vstd::multiset::group_multiset_properties;

                assert(before.contains(before[j as int]));
                assert(before.contains(before[j - 1]));
                let s1 = before.update(j as int, before[j - 1]);
                let s2 = s1.update(j - 1, before[j as int]);
                assert(v@ =~= s2);
                assert(s1[j - 1] == before[j - 1]);
                assert(s2.to_multiset() == s1.to_multiset().insert(before[j as int]).remove(
                    before[j - 1],
                ));
                assert(s2.to_multiset() =~= before.to_multiset());
            }
            j = j - 1;
        }
        i = i + 1;
    }
}

/// `num / den` rounded half away from zero, exactly as the crossing spec
/// computes it.
fn round_div_i128(num: i128, den: i128) -> (q: i128)
    requires
        den != 0,
        -0x1_0000_0000_0000_0000 <= num <= 0x1_0000_0000_0000_0000,
        -0x1_0000_0000_0000_0000 <= den <= 0x1_0000_0000_0000_0000,
    ensures
        -0x3_0000_0000_0000_0000 <= q <= 0x3_0000_0000_0000_0000,
        q == spec_round_div(num as int, den as int),
{
    let na: i128 = if num >= 0 {
        num
    } else {
        -num
    };
    let da: i128 = if den >= 0 {
        den
    } else {
        -den
    };
    let qa: i128 = (2 * na + da) / (2 * da);
    proof {
        assert(0 <= qa <= 2 * na + da) by (nonlinear_arith)
            requires
                qa == (2 * na + da) / (2 * da),
                na >= 0,
                da >= 1,
        ;
    }
    if (num >= 0) == (den >= 0) {
        qa
    } else {
        -qa
    }
}

/// Every collected crossing is clamped into `[lo, hi]`.
proof fn lemma_crossings_in_range(pts: Seq<Point>, y: int, e: int, lo: int, hi: int)
    requires
        -0x8000_0000 <= lo <= hi <= 0x8000_0000,
    ensures
        forall|i: int|
            0 <= i < spec_crossings_upto(pts, y, e, lo, hi).len() ==> lo <= (
            #[trigger] spec_crossings_upto(pts, y, e, lo, hi)[i]) <= hi,
    decreases e,
{
    if e > 0 {
        lemma_crossings_in_range(pts, y, e - 1, lo, hi);
        let rest = spec_crossings_upto(pts, y, e - 1, lo, hi);
        let cur = spec_crossings_upto(pts, y, e, lo, hi);
        assert forall|i: int| 0 <= i < cur.len() implies lo <= #[trigger] cur[i] <= hi by {
            match spec_edge_crossing(pts, y, e - 1, lo, hi) {
                Some(x) => {
                    if i < rest.len() {
                        assert(cur[i] == rest[i]);
                    } else {
                        assert(cur[i] == x);
                    }
                },
                None => {
                    assert(cur[i] == rest[i]);
                },
            }
        }
    }
}

/// Fills a simple polygon by scanline: exactly the pixels of
/// `spec_polygon_covers` — the spans between successive pairs of each row's
/// sorted, clamped crossing columns — are painted; every other pixel keeps
/// its bytes.  Fewer than three points paint nothing.
#[verifier::loop_isolation(false)]
#[verifier::rlimit(100)]
pub fn fill_polygon(p: &mut Vec<u8>, pw: usize, ph: usize, points: &Vec<Point>, rgb: (u8, u8, u8))
    requires
        spec_buf_ok(old(p)@, pw as int, ph as int),
    ensures
        final(p)@.len() == old(p)@.len(),
        spec_only_color(final(p)@, old(p)@, pw as int, ph as int, rgb),
        spec_frame_rect(
            final(p)@,
            old(p)@,
            pw as int,
            ph as int,
            spec_pts_min_x(points@),
            spec_pts_min_y(points@),
            (spec_pts_max_x(points@) - spec_pts_min_x(points@)) + 1,
            (spec_pts_max_y(points@) - spec_pts_min_y(points@)) + 1,
        ),
        forall|px: int, py: int|
            #![trigger spec_pix(pw as int, px, py)]
            spec_in_bounds(pw as int, ph as int, px, py) ==> if spec_polygon_covers(
                points@,
                px,
                py,
            ) {
                spec_pixel_is(final(p)@, pw as int, px, py, rgb)
            } else {
                spec_pixel_same(final(p)@, old(p)@, pw as int, px, py)
            },
{
    if points.len() < 3 {
        return ;
    }
    let n = points.len();
    let mut min_x: i64 = points[0].x as i64;
    let mut max_x: i64 = points[0].x as i64;
    let mut min_y: i64 = points[0].y as i64;
    let mut max_y: i64 = points[0].y as i64;
    let mut i: usize = 1;
    while i < n
        invariant
            1 <= i <= n,
            n == points@.len(),
            min_x == spec_pts_min_x(points@.take(i as int)),
            max_x == spec_pts_max_x(points@.take(i as int)),
            min_y == spec_pts_min_y(points@.take(i as int)),
            max_y == spec_pts_max_y(points@.take(i as int)),
            -0x8000_0000 <= min_x <= max_x <= 0x8000_0000,
            -0x8000_0000 <= min_y <= max_y <= 0x8000_0000,
        decreases n - i,
    {
        proof {
            assert(points@.take(i as int + 1).drop_last() =~= points@.take(i as int));
            assert(points@.take(i as int + 1).last() == points@[i as int]);
        }
        let pt = &points[i];
        if (pt.x as i64) < min_x {
            min_x = pt.x as i64;
        }
        if (pt.x as i64) > max_x {
            max_x = pt.x as i64;
        }
        if (pt.y as i64) < min_y {
            min_y = pt.y as i64;
        }
        if (pt.y as i64) > max_y {
            max_y = pt.y as i64;
        }
        i = i + 1;
    }
    proof {
        assert(points@.take(n as int) =~= points@);
    }
    let ghost pts = points@;
    let mut y: i64 = min_y;
    while y <= max_y
        invariant
            min_y <= y <= max_y + 1,
            n == pts.len(),
            3 <= n,
            pts == points@,
            min_x == spec_pts_min_x(pts),
            max_x == spec_pts_max_x(pts),
            min_y == spec_pts_min_y(pts),
            max_y == spec_pts_max_y(pts),
            -0x8000_0000 <= min_x <= max_x <= 0x8000_0000,
            -0x8000_0000 <= min_y <= max_y <= 0x8000_0000,
            p@.len() == old(p)@.len(),
            spec_only_color(p@, old(p)@, pw as int, ph as int, rgb),
            spec_frame_rect(
                p@,
                old(p)@,
                pw as int,
                ph as int,
                min_x as int,
                min_y as int,
                (max_x - min_x) as int + 1,
                (max_y - min_y) as int + 1,
            ),
            forall|px: int, py: int|
                #![trigger spec_pix(pw as int, px, py)]
                spec_in_bounds(pw as int, ph as int, px, py) ==> if spec_polygon_covers(
                    pts,
                    px,
                    py,
                ) && py < y {
                    spec_pixel_is(p@, pw as int, px, py, rgb)
                } else {
                    spec_pixel_same(p@, old(p)@, pw as int, px, py)
                },
        decreases max_y + 1 - y,
    {
        let mut crossings: Vec<i64> = Vec::new();
        let mut e: usize = 0;
        while e < n
            invariant
                0 <= e <= n,
                n == pts.len(),
                3 <= n,
                pts == points@,
                min_x == spec_pts_min_x(pts),
                max_x == spec_pts_max_x(pts),
                -0x8000_0000 <= min_x <= max_x <= 0x8000_0000,
                -0x8000_0000 <= min_y <= max_y <= 0x8000_0000,
                min_y <= y <= max_y,
                crossings@ == spec_crossings_upto(pts, y as int, e as int, min_x as int, max_x as int),
            decreases n - e,
        {
            let ghost pre_cr = crossings@;
            let p1 = &points[e];
            let p2 = &points[if e + 1 == n {
                0
            } else {
                e + 1
            }];
            let y1 = p1.y as i64;
            let y2 = p2.y as i64;
            if y1 != y2 && ((y >= y1 && y < y2) || (y >= y2 && y < y1)) {
                proof {
                    assert(-0x1_0000_0000_0000_0000 <= ((y - y1) as int) * ((p2.x as int) - (
                    p1.x as int)) <= 0x1_0000_0000_0000_0000) by (nonlinear_arith)
                        requires
                            -0x1_0000_0000 <= y - y1 <= 0x1_0000_0000,
                            -0x1_0000_0000 <= (p2.x as int) - (p1.x as int) <= 0x1_0000_0000,
                    ;
                }
                let num: i128 = ((y - y1) as i128) * ((p2.x as i128) - (p1.x as i128));
                let den: i128 = (y2 - y1) as i128;
                let q = round_div_i128(num, den);
                let mut xi: i128 = (p1.x as i128) + q;
                if xi < min_x as i128 {
                    xi = min_x as i128;
                }
                if xi > max_x as i128 {
                    xi = max_x as i128;
                }
                crossings.push(xi as i64);
                proof {
                    assert(spec_edge_crossing(pts, y as int, e as int, min_x as int, max_x as int)
                        == Some(xi as i64));
                    assert(crossings@ =~= pre_cr.push(xi as i64));
                }
            } else {
                proof {
                    assert(spec_edge_crossing(pts, y as int, e as int, min_x as int, max_x as int)
                        is None);
                }
            }
            e = e + 1;
        }
        let ghost unsorted = crossings@;
        sort_i64(&mut crossings);
        proof {
            let leq = spec_le_i64();
            assert(total_ordering(leq));
            unsorted.lemma_sort_by_ensures(leq);
            assert(sorted_by(crossings@, leq)) by {
                assert forall|a: int, b: int|
                    0 <= a < b < crossings@.len() implies #[trigger] leq(
                    crossings@[a],
                    crossings@[b],
                ) by {
                    assert(crossings@[a] <= crossings@[b]);
                }
            }
            vstd::seq_lib::lemma_sorted_unique(crossings@, unsorted.sort_by(leq), leq);
            assert(crossings@ == spec_row_spans(pts, y as int));
            lemma_crossings_in_range(pts, y as int, n as int, min_x as int, max_x as int);
        }
        let ghost cr = crossings@;
        if crossings.len() >= 2 {
            let mut k: usize = 0;
            while k < crossings.len() - 1
                invariant
                    0 <= k <= crossings@.len(),
                    k % 2 == 0,
                    crossings@.len() >= 2,
                    cr == crossings@,
                    cr == spec_row_spans(pts, y as int),
                    cr.to_multiset() == unsorted.to_multiset(),
                    unsorted == spec_crossings_upto(
                        pts,
                        y as int,
                        n as int,
                        min_x as int,
                        max_x as int,
                    ),
                    spec_sorted(cr),
                    n == pts.len(),
                    3 <= n,
                    pts == points@,
                    min_x == spec_pts_min_x(pts),
                    max_x == spec_pts_max_x(pts),
                    min_y == spec_pts_min_y(pts),
                    max_y == spec_pts_max_y(pts),
                    -0x8000_0000 <= min_x <= max_x <= 0x8000_0000,
                    -0x8000_0000 <= min_y <= max_y <= 0x8000_0000,
                    min_y <= y <= max_y,
                    p@.len() == old(p)@.len(),
                    spec_only_color(p@, old(p)@, pw as int, ph as int, rgb),
                    spec_frame_rect(
                        p@,
                        old(p)@,
                        pw as int,
                        ph as int,
                        min_x as int,
                        min_y as int,
                        (max_x - min_x) as int + 1,
                        (max_y - min_y) as int + 1,
                    ),
                    forall|px: int, py: int|
                        #![trigger spec_pix(pw as int, px, py)]
                        spec_in_bounds(pw as int, ph as int, px, py) ==> if (spec_polygon_covers(
                            pts,
                            px,
                            py,
                        ) && py < y) || (py == y && (exists|j: int|
                            0 <= j && 2 * j + 1 < k && (#[trigger] cr[2 * j]) <= px <= cr[2 * j
                                + 1])) {
                            spec_pixel_is(p@, pw as int, px, py, rgb)
                        } else {
                            spec_pixel_same(p@, old(p)@, pw as int, px, py)
                        },
                decreases crossings@.len() - k,
            {
                proof {
                    broadcast use vstd::seq_lib::to_multiset_contains;

                    assert(cr.contains(cr[k as int]));
                    assert(unsorted.contains(cr[k as int]));
                    assert(cr.contains(cr[k as int + 1]));
                    assert(unsorted.contains(cr[k as int + 1]));
                }
                let a = crossings[k];
                let b = crossings[k + 1];
                let mut xs: i64 = if a < b {
                    a
                } else {
                    b
                };
                let mut xe: i64 = if a < b {
                    b
                } else {
                    a
                };
                if xs < min_x {
                    xs = min_x;
                }
                if xs > max_x {
                    xs = max_x;
                }
                if xe > max_x {
                    xe = max_x;
                }
                if xe < min_x {
                    xe = min_x;
                }
                proof {
                    assert(xs == cr[k as int] && xe == cr[k as int + 1]);
                }
                if xe >= xs {
                    fill_rect_wide(p, pw, ph, xs, y, xe - xs + 1, 1, rgb);
                }
                proof {
                    assert forall|px: int, py: int|
                        #![trigger spec_pix(pw as int, px, py)]
                        spec_in_bounds(pw as int, ph as int, px, py) implies (if (
                    spec_polygon_covers(pts, px, py) && py < y) || (py == y && (exists|j: int|
                        0 <= j && 2 * j + 1 < k + 2 && (#[trigger] cr[2 * j]) <= px <= cr[2 * j
                            + 1])) {
                        spec_pixel_is(p@, pw as int, px, py, rgb)
                    } else {
                        spec_pixel_same(p@, old(p)@, pw as int, px, py)
                    }) by {
                        crate::buffer::lemma_pix_in_buf(pw as int, ph as int, px, py);
                        if py == y && cr[k as int] <= px <= cr[k as int + 1] {
                            assert(k as int == 2 * ((k as int) / 2));
                            assert(0 <= (k as int) / 2 && 2 * ((k as int) / 2) + 1 < k + 2 && cr[2
                                * ((k as int) / 2)] <= px <= cr[2 * ((k as int) / 2) + 1]);
                        }
                    }
                }
                k = k + 2;
            }
            proof {
                assert forall|px: int, py: int|
                    spec_in_bounds(pw as int, ph as int, px, py) implies (if spec_polygon_covers(
                    pts,
                    px,
                    py,
                ) && py < y + 1 {
                    spec_pixel_is(p@, pw as int, px, py, rgb)
                } else {
                    spec_pixel_same(p@, old(p)@, pw as int, px, py)
                }) by {
                    crate::buffer::lemma_pix_in_buf(pw as int, ph as int, px, py);
                    if spec_polygon_covers(pts, px, py) && py < y + 1 {
                        if py == y {
                            assert(cr == spec_row_spans(pts, py));
                            let j = choose|j: int|
                                0 <= j && 2 * j + 1 < cr.len() && (#[trigger] cr[2 * j]) <= px
                                    <= cr[2 * j + 1];
                            assert(k >= cr.len() - 1);
                            assert((2 * j + 1) % 2 == 1) by (nonlinear_arith);
                            assert(2 * j + 1 != k);
                            assert(2 * j + 1 < k);
                            assert(spec_pixel_is(p@, pw as int, px, py, rgb));
                        }
                    } else {
                        if py == y && (exists|j: int|
                            0 <= j && 2 * j + 1 < k && (#[trigger] cr[2 * j]) <= px <= cr[2 * j
                                + 1]) {
                            let j = choose|j: int|
                                0 <= j && 2 * j + 1 < k && (#[trigger] cr[2 * j]) <= px <= cr[2 * j
                                    + 1];
                            assert(cr == spec_row_spans(pts, py));
                            assert(2 * j + 1 < cr.len());
                            assert(spec_polygon_covers(pts, px, py));
                            assert(false);
                        }
                        assert(spec_pixel_same(p@, old(p)@, pw as int, px, py));
                    }
                }
            }
        } else {
            proof {
                assert forall|px: int, py: int|
                    spec_in_bounds(pw as int, ph as int, px, py) implies (if spec_polygon_covers(
                    pts,
                    px,
                    py,
                ) && py < y + 1 {
                    spec_pixel_is(p@, pw as int, px, py, rgb)
                } else {
                    spec_pixel_same(p@, old(p)@, pw as int, px, py)
                }) by {
                    crate::buffer::lemma_pix_in_buf(pw as int, ph as int, px, py);
                    if py == y && spec_polygon_covers(pts, px, py) {
                        assert(cr == spec_row_spans(pts, py));
                        let j = choose|j: int|
                            0 <= j && 2 * j + 1 < cr.len() && (#[trigger] cr[2 * j]) <= px <= cr[2
                                * j + 1];
                        assert(false);
                    }
                }
            }
        }
        y = y + 1;
    }
    proof {
        assert forall|px: int, py: int|
            spec_in_bounds(pw as int, ph as int, px, py) && spec_polygon_covers(pts, px, py)
            implies py < y by {}
    }
}

/// State of the subpath grouping after some prefix of the segment list: the
/// finished subpaths, and the subpath still being collected.
pub open spec fn spec_subpath_state(segs: Seq<PathSegment>) -> (Seq<Seq<Point>>, Seq<Point>)
    decreases segs.len(),
{
    if segs.len() == 0 {
        (Seq::empty(), Seq::empty())
    } else {
        let st = spec_subpath_state(segs.drop_last());
        let paths = st.0;
        let current = st.1;
        let seg = segs.last();
        if seg.cmd@ == "M"@ {
            let flushed = if current.len() > 0 {
                paths.push(current)
            } else {
                paths
            };
            let started = if seg.x is Some && seg.y is Some {
                seq![Point { x: seg.x->0, y: seg.y->0 }]
            } else {
                Seq::<Point>::empty()
            };
            (flushed, started)
        } else if seg.cmd@ == "L"@ {
            if seg.x is Some && seg.y is Some {
                (paths, current.push(Point { x: seg.x->0, y: seg.y->0 }))
            } else {
                (paths, current)
            }
        } else if seg.cmd@ == "Z"@ {
            let closed = if current.len() > 2 {
                current.push(current[0])
            } else {
                current
            };
            if closed.len() > 0 {
                (paths.push(closed), Seq::<Point>::empty())
            } else {
                (paths, Seq::<Point>::empty())
            }
        } else {
            (paths, current)
        }
    }
}

/// The subpaths a segment list groups into: moves start a new subpath, closes
/// repeat the first point, and a trailing open subpath is kept.
pub open spec fn spec_subpaths(segs: Seq<PathSegment>) -> Seq<Seq<Point>> {
    let st = spec_subpath_state(segs);
    if st.1.len() > 0 {
        st.0.push(st.1)
    } else {
        st.0
    }
}

/// Groups a path's segments into subpaths, exactly as `spec_subpaths` says.
#[verifier::loop_isolation(false)]
pub fn segments_to_subpaths(segments: &Vec<PathSegment>) -> (r: Vec<Vec<Point>>)
    ensures
        r@.map_values(|v: Vec<Point>| v@) == spec_subpaths(segments@),
{
    let mut paths: Vec<Vec<Point>> = Vec::new();
    let mut current: Vec<Point> = Vec::new();
    let ghost segs = segments@;
    let mut i: usize = 0;
    while i < segments.len()
        invariant
            0 <= i <= segs.len(),
            segs == segments@,
            paths@.map_values(|v: Vec<Point>| v@) == spec_subpath_state(segs.take(i as int)).0,
            current@ == spec_subpath_state(segs.take(i as int)).1,
        decreases segs.len() - i,
    {
        proof {
            assert(segs.take(i as int + 1).drop_last() =~= segs.take(i as int));
            assert(segs.take(i as int + 1).last() == segs[i as int]);
        }
        let seg = &segments[i];
        if crate::strutil::str_eq(seg.cmd.as_str(), "M") {
            if current.len() > 0 {
                let ghost pv = paths@.map_values(|v: Vec<Point>| v@);
                let ghost cv = current@;
                paths.push(current);
                current = Vec::new();
                proof {
                    assert(paths@.map_values(|v: Vec<Point>| v@) =~= pv.push(cv));
                }
            }
            if seg.x.is_some() && seg.y.is_some() {
                let sx = match seg.x {
                    Some(v) => v,
                    None => 0,
                };
                let sy = match seg.y {
                    Some(v) => v,
                    None => 0,
                };
                current.push(Point { x: sx, y: sy });
            }
        } else if crate::strutil::str_eq(seg.cmd.as_str(), "L") {
            if seg.x.is_some() && seg.y.is_some() {
                let sx = match seg.x {
                    Some(v) => v,
                    None => 0,
                };
                let sy = match seg.y {
                    Some(v) => v,
                    None => 0,
                };
                current.push(Point { x: sx, y: sy });
            }
        } else if crate::strutil::str_eq(seg.cmd.as_str(), "Z") {
            if current.len() > 2 {
                let first = current[0];
                current.push(first);
            }
            if current.len() > 0 {
                let ghost pv = paths@.map_values(|v: Vec<Point>| v@);
                let ghost cv = current@;
                paths.push(current);
                current = Vec::new();
                proof {
                    assert(paths@.map_values(|v: Vec<Point>| v@) =~= pv.push(cv));
                }
            }
        }
        i = i + 1;
    }
    proof {
        assert(segs.take(segs.len() as int) =~= segs);
    }
    if current.len() > 0 {
        let ghost pv = paths@.map_values(|v: Vec<Point>| v@);
        let ghost cv = current@;
        paths.push(current);
        proof {
            assert(paths@.map_values(|v: Vec<Point>| v@) =~= pv.push(cv));
        }
    }
    paths
}

} // verus!
