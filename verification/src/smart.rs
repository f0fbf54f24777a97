//! Smart intersection controller: lane conflict detection, reservation gate and
//! managed-zone scheduling decisions.

use std::collections::HashMap;

use vstd::prelude::*;

use crate::vehicle::{VehicleId, VehicleState};
use crate::intersection::{
    junction_east, junction_north, junction_south, junction_west, lane_path, registry_approach,
    registry_route, zone_polygon_of, IntersectionModel, LaneId, LaneInfo, Point,
};

verus! {

/// Largest coordinate magnitude of world positions handled by exact geometry.
pub const WORLD_LIMIT: i32 = 16_777_216;

/// The point lies in the representable world square.
pub open spec fn in_world(p: Point) -> bool {
    -WORLD_LIMIT <= p.x <= WORLD_LIMIT && -WORLD_LIMIT <= p.y <= WORLD_LIMIT
}

/// Every point of the sequence lies in the representable world square.
pub open spec fn all_in_world(points: Seq<Point>) -> bool {
    forall|i: int| 0 <= i < points.len() ==> in_world(#[trigger] points[i])
}

/// Index of the polygon vertex before vertex `i` (wrapping around).
pub open spec fn prev_vertex(i: int, n: int) -> int {
    if i == 0 {
        n - 1
    } else {
        i - 1
    }
}

/// The horizontal ray from the rational point `(x / d, y / d)` toward +x crosses the edge
/// from `pi` to `pj` (an edge counts when exactly one endpoint lies strictly below the point's
/// y, and the crossing lies strictly to the right of the point).
pub open spec fn edge_crosses_ray(x: int, y: int, d: int, pi: Point, pj: Point) -> bool {
    let above_i = pi.y * d > y;
    let above_j = pj.y * d > y;
    let dx = pj.x - pi.x;
    let dy = pj.y - pi.y;
    &&& above_i != above_j
    &&& if dy > 0 {
        (x - pi.x * d) * dy < dx * (y - pi.y * d)
    } else {
        (x - pi.x * d) * dy > dx * (y - pi.y * d)
    }
}

/// The ray from a point crosses an edge exactly when the point lies strictly left of the edge
/// at the point's height: for any point `(qx / d, qy / d)` on the line through `pi` and `pj`,
/// with exactly one endpoint above that height, the ray from `(x / d, qy / d)` crosses the
/// edge if and only if `x < qx`.
pub proof fn lemma_edge_crossing_left_of_edge(x: int, qx: int, qy: int, d: int, pi: Point, pj: Point)
    requires
        (pi.y * d > qy) != (pj.y * d > qy),
        (qx - pi.x * d) * (pj.y - pi.y) == (pj.x - pi.x) * (qy - pi.y * d),
    ensures
        edge_crosses_ray(x, qy, d, pi, pj) <==> x < qx,
{
    let dy = pj.y - pi.y;
    assert(dy != 0);
    assert((x - pi.x * d) * dy - (qx - pi.x * d) * dy == (x - qx) * dy) by (nonlinear_arith);
    if dy > 0 {
        assert((x - qx) * dy < 0 <==> x < qx) by (nonlinear_arith)
            requires
                dy > 0,
        ;
    } else {
        assert((x - qx) * dy > 0 <==> x < qx) by (nonlinear_arith)
            requires
                dy < 0,
        ;
    }
}

/// Number of the first `k` polygon edges `(polygon[i], polygon[i - 1])` that the ray crosses.
pub open spec fn ray_crossings(x: int, y: int, d: int, polygon: Seq<Point>, k: int) -> nat
    decreases k,
{
    if k <= 0 {
        0
    } else {
        let i = k - 1;
        let here = if edge_crosses_ray(x, y, d, polygon[i], polygon[prev_vertex(i, polygon.len() as int)]) {
            1nat
        } else {
            0nat
        };
        ray_crossings(x, y, d, polygon, k - 1) + here
    }
}

/// The rational point `(x / d, y / d)` lies inside the polygon by the even-odd rule.
pub open spec fn inside_polygon(x: int, y: int, d: int, polygon: Seq<Point>) -> bool {
    polygon.len() >= 3 && ray_crossings(x, y, d, polygon, polygon.len() as int) % 2 == 1
}

/// Twice the signed area of the triangle `u`, `v`, `(x, y)`: positive when the point lies to
/// the left of the directed line from `u` to `v`, negative to its right, zero on it.
pub open spec fn orientation(u: Point, v: Point, x: int, y: int) -> int {
    (v.x - u.x) * (y - u.y) - (x - u.x) * (v.y - u.y)
}

/// For an integer point, the ray crosses the edge `u v` exactly when the edge spans the point's
/// height and the point lies on the side of the edge that faces the ray's start: left of an
/// upward edge, right of a downward one.
proof fn lemma_edge_crossing_by_orientation(x: int, y: int, u: Point, v: Point)
    ensures
        edge_crosses_ray(x, y, 1, u, v) <==> ((u.y > y) != (v.y > y) && if v.y > u.y {
            orientation(u, v, x, y) > 0
        } else {
            orientation(u, v, x, y) < 0
        }),
{
    assert(u.x * 1 == u.x && u.y * 1 == u.y && v.y * 1 == v.y);
    assert(orientation(u, v, x, y) == (v.x - u.x) * (y - u.y * 1) - (x - u.x * 1) * (v.y - u.y))
        by (nonlinear_arith);
}

/// Reversing an edge flips the side a point lies on.
proof fn lemma_orientation_reversed(u: Point, v: Point, x: int, y: int)
    ensures
        orientation(v, u, x, y) == -orientation(u, v, x, y),
{
    assert(orientation(v, u, x, y) == -orientation(u, v, x, y)) by (nonlinear_arith);
}

/// The orientation is the cross product of the vertices taken relative to the point.
proof fn lemma_orientation_relative(u: Point, v: Point, x: int, y: int)
    ensures
        orientation(u, v, x, y) == (u.x - x) * (v.y - y) - (v.x - x) * (u.y - y),
{
    let (ux, uy, vx, vy) = (u.x as int, u.y as int, v.x as int, v.y as int);
    assert((vx - ux) * (y - uy) - (x - ux) * (vy - uy) == (ux - x) * (vy - y) - (vx - x) * (uy - y))
        by (nonlinear_arith);
}

/// Cross products of three vectors, weighted by their heights, cancel.
proof fn lemma_cross_weights_cancel(ax: int, ay: int, bx: int, by: int, cx: int, cy: int)
    ensures
        (bx * cy - cx * by) * ay + (cx * ay - ax * cy) * by + (ax * by - bx * ay) * cy == 0,
{
    assert((bx * cy - cx * by) * ay + (cx * ay - ax * cy) * by + (ax * by - bx * ay) * cy == 0)
        by (nonlinear_arith);
}

/// The point's height is the average of the vertex heights weighted by the opposite
/// sub-triangle areas.
proof fn lemma_orientation_weights(a: Point, b: Point, c: Point, x: int, y: int)
    ensures
        orientation(b, c, x, y) * (a.y - y) + orientation(c, a, x, y) * (b.y - y) + orientation(a, b, x, y)
            * (c.y - y) == 0,
{
    lemma_orientation_relative(a, b, x, y);
    lemma_orientation_relative(b, c, x, y);
    lemma_orientation_relative(c, a, x, y);
    lemma_cross_weights_cancel(a.x - x, a.y - y, b.x - x, b.y - y, c.x - x, c.y - y);
}

/// Signs of a product.
proof fn lemma_product_sign(p: int, q: int)
    ensures
        p > 0 && q > 0 ==> p * q > 0,
        p > 0 && q < 0 ==> p * q < 0,
        p < 0 && q > 0 ==> p * q < 0,
        p < 0 && q < 0 ==> p * q > 0,
        q == 0 ==> p * q == 0,
{
    assert(p > 0 && q > 0 ==> p * q > 0) by (nonlinear_arith);
    assert(p > 0 && q < 0 ==> p * q < 0) by (nonlinear_arith);
    assert(p < 0 && q > 0 ==> p * q < 0) by (nonlinear_arith);
    assert(p < 0 && q < 0 ==> p * q > 0) by (nonlinear_arith);
    assert(q == 0 ==> p * q == 0) by (nonlinear_arith);
}

/// A point strictly inside a triangle (strictly on the same side of all three edges, in
/// either winding) is inside it by the even-odd rule.
pub proof fn lemma_point_inside_triangle(a: Point, b: Point, c: Point, x: int, y: int)
    requires
        (orientation(a, b, x, y) > 0 && orientation(b, c, x, y) > 0 && orientation(c, a, x, y) > 0)
            || (orientation(a, b, x, y) < 0 && orientation(b, c, x, y) < 0 && orientation(c, a, x, y)
            < 0),
    ensures
        inside_polygon(x, y, 1, seq![a, b, c]),
{
    let t = seq![a, b, c];
    assert(t.len() == 3 && t[0] == a && t[1] == b && t[2] == c);
    assert(prev_vertex(0, 3) == 2 && prev_vertex(1, 3) == 0 && prev_vertex(2, 3) == 1);
    reveal_with_fuel(ray_crossings, 4);
    lemma_edge_crossing_by_orientation(x, y, c, b);
    lemma_edge_crossing_by_orientation(x, y, b, a);
    lemma_edge_crossing_by_orientation(x, y, a, c);
    lemma_orientation_reversed(b, c, x, y);
    lemma_orientation_reversed(a, b, x, y);
    lemma_orientation_reversed(c, a, x, y);
    lemma_orientation_weights(a, b, c, x, y);
    let (al, be, ga) = (orientation(b, c, x, y), orientation(c, a, x, y), orientation(a, b, x, y));
    lemma_product_sign(al, a.y - y);
    lemma_product_sign(be, b.y - y);
    lemma_product_sign(ga, c.y - y);
    lemma_product_sign(b.x - a.x, y - a.y);
    lemma_product_sign(x - a.x, b.y - a.y);
    assert(ray_crossings(x, y, 1, t, 3) == ray_crossings(x, y, 1, t, 2) + (if edge_crosses_ray(x, y, 1, c, b) { 1nat } else { 0nat }));
    assert(ray_crossings(x, y, 1, t, 2) == ray_crossings(x, y, 1, t, 1) + (if edge_crosses_ray(x, y, 1, b, a) { 1nat } else { 0nat }));
    assert(ray_crossings(x, y, 1, t, 1) == (if edge_crosses_ray(x, y, 1, a, c) { 1nat } else { 0nat }));
    assert(ray_crossings(x, y, 1, t, 3) == 1);
}

/// Where the segments `p1 p2` and `p3 p4` meet, as a rational point `(x / d, y / d)` with
/// `d > 0`; `None` when they are parallel or do not meet.
pub open spec fn segment_meeting(p1: Point, p2: Point, p3: Point, p4: Point) -> Option<
    (int, int, int),
> {
    let d1x = p2.x - p1.x;
    let d1y = p2.y - p1.y;
    let d2x = p4.x - p3.x;
    let d2y = p4.y - p3.y;
    let denom = d1x * d2y - d1y * d2x;
    let t_num = (p3.x - p1.x) * d2y - (p3.y - p1.y) * d2x;
    let u_num = (p3.x - p1.x) * d1y - (p3.y - p1.y) * d1x;
    let (t, u, d) = if denom < 0 {
        (-t_num, -u_num, -denom)
    } else {
        (t_num, u_num, denom)
    };
    if denom == 0 {
        None
    } else if 0 <= t <= d && 0 <= u <= d {
        Some((p1.x * d + t * d1x, p1.y * d + t * d1y, d))
    } else {
        None
    }
}

/// Segment `i` of path `a` and segment `j` of path `b` meet inside the zone.
pub open spec fn segments_conflict(a: Seq<Point>, i: int, b: Seq<Point>, j: int, zone: Seq<Point>) -> bool {
    match segment_meeting(a[i], a[i + 1], b[j], b[j + 1]) {
        Some(m) => inside_polygon(m.0, m.1, m.2, zone),
        None => false,
    }
}

/// Two lane paths conflict when some segment of one meets some segment of the other
/// inside the zone.
pub open spec fn paths_cross_in_zone(a: Seq<Point>, b: Seq<Point>, zone: Seq<Point>) -> bool {
    exists|i: int, j: int|
        0 <= i < a.len() - 1 && 0 <= j < b.len() - 1 && #[trigger] segments_conflict(a, i, b, j, zone)
}

proof fn lemma_mul_bound(a: int, b: int, ba: int, bb: int)
    by (nonlinear_arith)
    requires
        -ba <= a <= ba,
        -bb <= b <= bb,
    ensures
        -(ba * bb) <= a * b <= ba * bb,
{
}

/// Where two world segments meet, exactly, as numerators and a positive common denominator.
fn segment_intersection(p1: Point, p2: Point, p3: Point, p4: Point) -> (meeting: Option<
    (i128, i128, i128),
>)
    requires
        in_world(p1),
        in_world(p2),
        in_world(p3),
        in_world(p4),
    ensures
        match meeting {
            Some(m) => {
                &&& segment_meeting(p1, p2, p3, p4) == Some((m.0 as int, m.1 as int, m.2 as int))
                &&& -0x4000_0000_0000_0000_0000 <= m.0 <= 0x4000_0000_0000_0000_0000
                &&& -0x4000_0000_0000_0000_0000 <= m.1 <= 0x4000_0000_0000_0000_0000
                &&& 0 < m.2 <= 0x10_0000_0000_0000
            },
            None => segment_meeting(p1, p2, p3, p4).is_none(),
        },
{
    let ghost lim: int = 0x200_0000;
    let d1x = p2.x as i128 - p1.x as i128;
    let d1y = p2.y as i128 - p1.y as i128;
    let d2x = p4.x as i128 - p3.x as i128;
    let d2y = p4.y as i128 - p3.y as i128;
    let ex = p3.x as i128 - p1.x as i128;
    let ey = p3.y as i128 - p1.y as i128;
    proof {
        lemma_mul_bound(d1x as int, d2y as int, lim, lim);
        lemma_mul_bound(d1y as int, d2x as int, lim, lim);
        lemma_mul_bound(ex as int, d2y as int, lim, lim);
        lemma_mul_bound(ey as int, d2x as int, lim, lim);
        lemma_mul_bound(ex as int, d1y as int, lim, lim);
        lemma_mul_bound(ey as int, d1x as int, lim, lim);
    }
    let denom = d1x * d2y - d1y * d2x;
    let t_num = ex * d2y - ey * d2x;
    let u_num = ex * d1y - ey * d1x;
    if denom == 0 {
        return None;
    }
    let (t, u, d) = if denom < 0 {
        (-t_num, -u_num, -denom)
    } else {
        (t_num, u_num, denom)
    };
    if 0 <= t && t <= d && 0 <= u && u <= d {
        proof {
            lemma_mul_bound(p1.x as int, d as int, 0x100_0000, 0x8_0000_0000_0000);
            lemma_mul_bound(p1.y as int, d as int, 0x100_0000, 0x8_0000_0000_0000);
            lemma_mul_bound(t as int, d1x as int, 0x8_0000_0000_0000, lim);
            lemma_mul_bound(t as int, d1y as int, 0x8_0000_0000_0000, lim);
        }
        let x = p1.x as i128 * d + t * d1x;
        let y = p1.y as i128 * d + t * d1y;
        Some((x, y, d))
    } else {
        None
    }
}


/// Bound on numerators of exact meeting points.
pub open spec fn numerator_in_range(v: int) -> bool {
    -0x4000_0000_0000_0000_0000 <= v <= 0x4000_0000_0000_0000_0000
}

/// Even-odd ray-casting test of the rational point `(x / d, y / d)` against a polygon.
fn point_in_polygon_exact(x: i128, y: i128, d: i128, polygon: &[Point]) -> (inside: bool)
    requires
        numerator_in_range(x as int),
        numerator_in_range(y as int),
        0 < d <= 0x10_0000_0000_0000,
        all_in_world(polygon@),
    ensures
        inside == inside_polygon(x as int, y as int, d as int, polygon@),
{
    let n = polygon.len();
    if n < 3 {
        return false;
    }
    let mut inside = false;
    let mut j: usize = n - 1;
    let mut i: usize = 0;
    while i < n
        invariant
            n == polygon@.len(),
            n >= 3,
            i <= n,
            i < n ==> j == prev_vertex(i as int, n as int),
            all_in_world(polygon@),
            numerator_in_range(x as int),
            numerator_in_range(y as int),
            0 < d <= 0x10_0000_0000_0000,
            inside == (ray_crossings(x as int, y as int, d as int, polygon@, i as int) % 2 == 1),
        decreases n - i,
    {
        let pi = polygon[i];
        let pj = polygon[j];
        assert(in_world(polygon@[i as int]));
        assert(in_world(polygon@[j as int]));
        proof {
            lemma_mul_bound(pi.y as int, d as int, 0x100_0000, 0x10_0000_0000_0000);
            lemma_mul_bound(pj.y as int, d as int, 0x100_0000, 0x10_0000_0000_0000);
            lemma_mul_bound(pi.x as int, d as int, 0x100_0000, 0x10_0000_0000_0000);
        }
        let above_i = pi.y as i128 * d > y;
        let above_j = pj.y as i128 * d > y;
        let mut crosses = false;
        if above_i != above_j {
            let dx = pj.x as i128 - pi.x as i128;
            let dy = pj.y as i128 - pi.y as i128;
            let rel_x = x - pi.x as i128 * d;
            let rel_y = y - pi.y as i128 * d;
            proof {
                lemma_mul_bound(rel_x as int, dy as int, 0x8000_0000_0000_0000_0000, 0x200_0000);
                lemma_mul_bound(dx as int, rel_y as int, 0x200_0000, 0x8000_0000_0000_0000_0000);
            }
            let lhs = rel_x * dy;
            let rhs = dx * rel_y;
            crosses = if dy > 0 {
                lhs < rhs
            } else {
                lhs > rhs
            };
        }
        assert(crosses == edge_crosses_ray(x as int, y as int, d as int, polygon@[i as int], polygon@[prev_vertex(i as int, n as int)]));
        if crosses {
            inside = !inside;
        }
        j = i;
        i = i + 1;
    }
    inside
}

/// Even-odd ray-casting test of a world point against a polygon.
pub fn point_in_polygon(point: Point, polygon: &[Point]) -> (inside: bool)
    requires
        in_world(point),
        all_in_world(polygon@),
    ensures
        inside == inside_polygon(point.x as int, point.y as int, 1, polygon@),
{
    point_in_polygon_exact(point.x as i128, point.y as i128, 1, polygon)
}


/// Two lane paths cross inside the zone.
fn paths_conflict(a: &[Point], b: &[Point], zone: &[Point]) -> (conflict: bool)
    requires
        all_in_world(a@),
        all_in_world(b@),
        all_in_world(zone@),
    ensures
        conflict == paths_cross_in_zone(a@, b@, zone@),
{
    if a.len() < 2 || b.len() < 2 {
        return false;
    }
    let mut ai: usize = 0;
    while ai < a.len() - 1
        invariant
            a@.len() >= 2,
            b@.len() >= 2,
            ai <= a@.len() - 1,
            all_in_world(a@),
            all_in_world(b@),
            all_in_world(zone@),
            forall|i: int, j: int|
                0 <= i < ai && 0 <= j < b@.len() - 1 ==> !#[trigger] segments_conflict(a@, i, b@, j, zone@),
        decreases a@.len() - 1 - ai,
    {
        let mut bj: usize = 0;
        while bj < b.len() - 1
            invariant
                a@.len() >= 2,
                b@.len() >= 2,
                ai < a@.len() - 1,
                bj <= b@.len() - 1,
                all_in_world(a@),
                all_in_world(b@),
                all_in_world(zone@),
                forall|i: int, j: int|
                    0 <= i < ai && 0 <= j < b@.len() - 1 ==> !#[trigger] segments_conflict(a@, i, b@, j, zone@),
                forall|j: int| 0 <= j < bj ==> !#[trigger] segments_conflict(a@, ai as int, b@, j, zone@),
            decreases b@.len() - 1 - bj,
        {
            assert(in_world(a@[ai as int]) && in_world(a@[ai + 1]));
            assert(in_world(b@[bj as int]) && in_world(b@[bj + 1]));
            if let Some(m) = segment_intersection(a[ai], a[ai + 1], b[bj], b[bj + 1]) {
                if point_in_polygon_exact(m.0, m.1, m.2, zone) {
                    assert(segments_conflict(a@, ai as int, b@, bj as int, zone@));
                    return true;
                }
            }
            bj = bj + 1;
        }
        ai = ai + 1;
    }
    false
}

/// Order-independent key of a lane pair: the smaller lane number first.
pub open spec fn pair_key(a: LaneId, b: LaneId) -> (u32, u32) {
    if a.0 <= b.0 {
        (a.0, b.0)
    } else {
        (b.0, a.0)
    }
}

/// Order-independent key of a lane pair.
pub fn lane_pair_key(a: LaneId, b: LaneId) -> (key: (u32, u32))
    ensures
        key == pair_key(a, b),
        key.0 <= key.1,
{
    if a.0 <= b.0 {
        (a.0, b.0)
    } else {
        (b.0, a.0)
    }
}

/// Every lane path and the zone lie in the representable world square.
pub open spec fn model_in_world(model: &IntersectionModel) -> bool {
    &&& all_in_world(model.zone_polygon@)
    &&& forall|i: int| 0 <= i < model.lanes@.len() ==> all_in_world(#[trigger] model.lanes@[i].path@)
}

fn point_fits_world(p: Point) -> (fits: bool)
    ensures
        fits == in_world(p),
{
    -WORLD_LIMIT <= p.x && p.x <= WORLD_LIMIT && -WORLD_LIMIT <= p.y && p.y <= WORLD_LIMIT
}

fn path_fits_world(points: &Vec<Point>) -> (fits: bool)
    ensures
        fits == all_in_world(points@),
{
    let mut i: usize = 0;
    while i < points.len()
        invariant
            i <= points@.len(),
            forall|k: int| 0 <= k < i ==> in_world(#[trigger] points@[k]),
        decreases points@.len() - i,
    {
        if !point_fits_world(points[i]) {
            return false;
        }
        i = i + 1;
    }
    true
}

/// Whether every lane path and the zone of the model lie in the world square that the exact
/// geometry handles.
pub fn model_fits_world(model: &IntersectionModel) -> (fits: bool)
    ensures
        fits == model_in_world(model),
{
    if !path_fits_world(&model.zone_polygon) {
        return false;
    }
    let mut i: usize = 0;
    while i < model.lanes.len()
        invariant
            i <= model.lanes@.len(),
            forall|k: int| 0 <= k < i ==> all_in_world(#[trigger] model.lanes@[k].path@),
        decreases model.lanes@.len() - i,
    {
        if !path_fits_world(&model.lanes[i].path) {
            return false;
        }
        i = i + 1;
    }
    true
}

/// The lanes at registry positions `i < j` have paths that cross inside the zone.
pub open spec fn lanes_conflict_at(model: &IntersectionModel, i: int, j: int) -> bool {
    &&& 0 <= i < j < model.lanes@.len()
    &&& paths_cross_in_zone(model.lanes@[i].path@, model.lanes@[j].path@, model.zone_polygon@)
}

/// The pair key appears for some pair of lanes whose paths cross inside the zone.
pub open spec fn is_conflict_key(model: &IntersectionModel, key: (u32, u32)) -> bool {
    exists|i: int, j: int|
        #[trigger] lanes_conflict_at(model, i, j) && key == pair_key(
            model.lanes@[i].id,
            model.lanes@[j].id,
        )
}

fn contains_pair(pairs: &Vec<(u32, u32)>, key: (u32, u32)) -> (found: bool)
    ensures
        found == pairs@.contains(key),
{
    let mut i: usize = 0;
    while i < pairs.len()
        invariant
            i <= pairs@.len(),
            forall|k: int| 0 <= k < i ==> pairs@[k] != key,
        decreases pairs@.len() - i,
    {
        if pairs[i].0 == key.0 && pairs[i].1 == key.1 {
            return true;
        }
        i = i + 1;
    }
    false
}

/// The set of lane pairs whose paths cross inside the junction zone, each key once.
pub fn build_lane_conflicts(model: &IntersectionModel) -> (conflicts: Vec<(u32, u32)>)
    requires
        model_in_world(model),
    ensures
        conflicts@.no_duplicates(),
        forall|key: (u32, u32)| conflicts@.contains(key) <==> is_conflict_key(model, key),
{
    let lanes = &model.lanes;
    let zone = model.zone_polygon.as_slice();
    let mut conflicts: Vec<(u32, u32)> = Vec::new();
    let n = lanes.len();
    let mut i: usize = 0;
    while i < n
        invariant
            n == model.lanes@.len(),
            lanes == &model.lanes,
            zone@ == model.zone_polygon@,
            i <= n,
            model_in_world(model),
            conflicts@.no_duplicates(),
            forall|key: (u32, u32)|
                conflicts@.contains(key) <==> exists|a: int, b: int|
                    a < i && #[trigger] lanes_conflict_at(model, a, b) && key == pair_key(
                        model.lanes@[a].id,
                        model.lanes@[b].id,
                    ),
        decreases n - i,
    {
        let mut j: usize = i + 1;
        while j < n
            invariant
                n == model.lanes@.len(),
                lanes == &model.lanes,
                zone@ == model.zone_polygon@,
                i < n,
                i + 1 <= j <= n,
                model_in_world(model),
                conflicts@.no_duplicates(),
                forall|key: (u32, u32)|
                    conflicts@.contains(key) <==> exists|a: int, b: int|
                        (a < i || (a == i && b < j)) && #[trigger] lanes_conflict_at(model, a, b)
                            && key == pair_key(model.lanes@[a].id, model.lanes@[b].id),
            decreases n - j,
        {
            assert(all_in_world(model.lanes@[i as int].path@));
            assert(all_in_world(model.lanes@[j as int].path@));
            let hit = paths_conflict(lanes[i].path.as_slice(), lanes[j].path.as_slice(), zone);
            let ghost old_conflicts = conflicts@;
            if hit {
                let key = lane_pair_key(lanes[i].id, lanes[j].id);
                assert(lanes_conflict_at(model, i as int, j as int));
                if !contains_pair(&conflicts, key) {
                    conflicts.push(key);
                    assert(conflicts@[conflicts@.len() - 1] == key);
                    proof {
                        assert forall|k: int, l: int|
                            0 <= k < l < conflicts@.len() implies conflicts@[k] != conflicts@[l] by {
                            if l == conflicts@.len() - 1 {
                                assert(old_conflicts.contains(old_conflicts[k]));
                            }
                        }
                    }
                }
                assert forall|key2: (u32, u32)|
                    conflicts@.contains(key2) <==> exists|a: int, b: int|
                        (a < i || (a == i && b < j + 1)) && #[trigger] lanes_conflict_at(model, a, b)
                            && key2 == pair_key(model.lanes@[a].id, model.lanes@[b].id) by {
                    if conflicts@.contains(key2) && key2 != key {
                        assert(old_conflicts.contains(key2));
                    }
                    if key2 == key {
                        assert(conflicts@.contains(key));
                    }
                    if exists|a: int, b: int|
                        (a < i || (a == i && b < j + 1)) && #[trigger] lanes_conflict_at(model, a, b)
                            && key2 == pair_key(model.lanes@[a].id, model.lanes@[b].id) {
                        if key2 != key {
                            assert(old_conflicts.contains(key2));
                            let k = choose|k: int| 0 <= k < old_conflicts.len() && old_conflicts[k] == key2;
                            assert(conflicts@[k] == key2);
                        }
                    }
                }
            } else {
                assert(!lanes_conflict_at(model, i as int, j as int));
            }
            j = j + 1;
        }
        i = i + 1;
    }
    conflicts
}


/// The standard layout lies in the representable world square.
pub proof fn lemma_standard_in_world(model: &IntersectionModel)
    requires
        model.is_standard(),
    ensures
        model_in_world(model),
{
    assert forall|i: int| 0 <= i < model.lanes@.len() implies all_in_world(
        #[trigger] model.lanes@[i].path@,
    ) by {
        let path = lane_path(registry_approach(i), registry_route(i));
        assert(model.lanes@[i].path@ == path);
        assert forall|k: int| 0 <= k < path.len() implies in_world(#[trigger] path[k]) by {}
    }
}

/// A world point is inside the junction zone exactly when it lies in the half-open box
/// `[west, east) x [north, south)`.
pub proof fn lemma_inside_zone(x: int, y: int)
    ensures
        inside_polygon(x, y, 1, zone_polygon_of()) <==> (junction_west() <= x < junction_east()
            && junction_north() <= y < junction_south()),
{
    let zone = zone_polygon_of();
    let inside_rows = junction_north() <= y < junction_south();
    assert(zone[1].x == 632 && zone[2].x == 632 && zone[1].y == 264 && zone[2].y == 504);
    assert((x - 632) * (-240) > 0 <==> x < 632) by (nonlinear_arith);
    assert(edge_crosses_ray(x, y, 1, zone[0], zone[3]) == (inside_rows && x < junction_west()));
    assert(!edge_crosses_ray(x, y, 1, zone[1], zone[0]));
    assert(edge_crosses_ray(x, y, 1, zone[2], zone[1]) == (inside_rows && x < junction_east()));
    assert(!edge_crosses_ray(x, y, 1, zone[3], zone[2]));
    reveal_with_fuel(ray_crossings, 5);
    assert(ray_crossings(x, y, 1, zone, 4) == (if inside_rows && x < junction_west() {
        1nat
    } else {
        0nat
    }) + (if inside_rows && x < junction_east() {
        1nat
    } else {
        0nat
    }));
}


/// What the junction controller reads of one vehicle in a frame: its identity and control
/// state, and where it stands relative to the junction zone.
#[derive(Debug, Clone, Copy, PartialEq, Eq, Structural)]
pub struct Occupant {
    pub id: VehicleId,
    pub lane_id: LaneId,
    pub state: VehicleState,
    pub reservation_granted: bool,
    /// The vehicle's position lies inside the junction zone.
    pub in_zone: bool,
    /// The vehicle is outside the zone within reservation trigger distance of its edge.
    pub in_trigger: bool,
    /// Order key of the distance along the approach to the zone edge: a smaller key is closer.
    pub zone_distance: u32,
    /// The vehicle is held before the zone waiting for a reservation.
    pub reservation_hold: bool,
    /// The vehicle is outside the zone and within stopping distance of its edge.
    pub in_stop_range: bool,
    /// The vehicle is at a standstill (speed at most half a unit per second).
    pub stopped: bool,
}

/// Coordinates vehicle passage without traffic lights: conflict table, reservations granted
/// nearest first (arrival order breaks ties), FIFO zone-entry order, reservation gate and
/// managed-zone scheduling.
#[derive(Debug)]
pub struct SmartController {
    lane_conflicts: Vec<(u32, u32)>,
    conflicts_ready: bool,
    next_entry_seq: u32,
    entry_sequence: HashMap<u64, u32>,
    wait_order: HashMap<u64, u32>,
    next_wait_seq: u32,
}

impl SmartController {
    /// Lane pairs (smaller number first) whose paths cross inside the zone.
    pub closed spec fn conflicts(&self) -> Set<(u32, u32)> {
        self.lane_conflicts@.to_set()
    }

    /// The conflict table has been computed.
    pub closed spec fn conflicts_ready(&self) -> bool {
        self.conflicts_ready
    }

    /// Zone-entry order of managed vehicles, by vehicle number.
    pub closed spec fn entry_order(&self) -> Map<u64, u32> {
        self.entry_sequence@
    }

    /// Next zone-entry sequence number.
    pub closed spec fn next_entry(&self) -> u32 {
        self.next_entry_seq
    }

    /// Arrival order of vehicles waiting for a reservation, by vehicle number.
    pub closed spec fn arrival_order(&self) -> Map<u64, u32> {
        self.wait_order@
    }

    /// Next arrival sequence number.
    pub closed spec fn next_arrival(&self) -> u32 {
        self.next_wait_seq
    }

    /// The next zone-entry sequence number.
    pub fn next_entry_seq(&self) -> (seq: u32)
        ensures
            seq == self.next_entry(),
    {
        self.next_entry_seq
    }

    /// The next arrival sequence number.
    pub fn next_arrival_seq(&self) -> (seq: u32)
        ensures
            seq == self.next_arrival(),
    {
        self.next_wait_seq
    }

    /// A fresh controller: no conflicts computed yet, no waiters, no entries.
    pub fn new() -> (smart: Self)
        ensures
            !smart.conflicts_ready(),
            smart.conflicts() == Set::<(u32, u32)>::empty(),
            smart.entry_order() == Map::<u64, u32>::empty(),
            smart.arrival_order() == Map::<u64, u32>::empty(),
            smart.next_entry() == 0,
            smart.next_arrival() == 0,
    {
        let smart = Self {
            lane_conflicts: Vec::new(),
            conflicts_ready: false,
            next_entry_seq: 0,
            entry_sequence: HashMap::new(),
            wait_order: HashMap::new(),
            next_wait_seq: 0,
        };
        assert(smart.lane_conflicts@.to_set() =~= Set::<(u32, u32)>::empty());
        smart
    }

    /// Compute the conflict table from the model the first time; later calls keep it.
    pub fn ensure_lane_conflicts(&mut self, model: &IntersectionModel)
        requires
            !old(self).conflicts_ready() ==> model_in_world(model),
        ensures
            final(self).conflicts_ready(),
            old(self).conflicts_ready() ==> final(self).conflicts() == old(self).conflicts(),
            !old(self).conflicts_ready() ==> forall|key: (u32, u32)|
                #[trigger] final(self).conflicts().contains(key) <==> is_conflict_key(model, key),
            final(self).entry_order() == old(self).entry_order(),
            final(self).next_entry() == old(self).next_entry(),
            final(self).arrival_order() == old(self).arrival_order(),
            final(self).next_arrival() == old(self).next_arrival(),
    {
        if self.conflicts_ready {
            return;
        }
        self.lane_conflicts = build_lane_conflicts(model);
        self.conflicts_ready = true;
    }

    /// Two different lanes have geometrically conflicting paths through the junction.
    pub fn cross_paths_conflict(&self, a: LaneId, b: LaneId) -> (conflict: bool)
        ensures
            conflict == lanes_cross(self.conflicts(), a, b),
    {
        if a == b {
            return false;
        }
        let key = lane_pair_key(a, b);
        contains_pair(&self.lane_conflicts, key)
    }

    /// Record the arrival of a vehicle waiting for a reservation; an already tracked vehicle
    /// keeps its place.
    pub fn track_waiter(&mut self, id: VehicleId)
        requires
            !old(self).arrival_order().contains_key(id.0) ==> old(self).next_arrival() < u32::MAX,
        ensures
            old(self).arrival_order().contains_key(id.0) ==> final(self).arrival_order()
                == old(self).arrival_order() && final(self).next_arrival() == old(self).next_arrival(),
            !old(self).arrival_order().contains_key(id.0) ==> final(self).arrival_order()
                == old(self).arrival_order().insert(id.0, old(self).next_arrival())
                && final(self).next_arrival() == old(self).next_arrival() + 1,
            final(self).conflicts() == old(self).conflicts(),
            final(self).conflicts_ready() == old(self).conflicts_ready(),
            final(self).entry_order() == old(self).entry_order(),
            final(self).next_entry() == old(self).next_entry(),
    {
        broadcast use vstd::std_specs::hash::group_hash_axioms;

        if !self.wait_order.contains_key(&id.0) {
            self.wait_order.insert(id.0, self.next_wait_seq);
            self.next_wait_seq = self.next_wait_seq + 1;
        }
    }

    /// Register the zone-entry order of a vehicle already in managed state.
    pub fn register_managed_entry(&mut self, vehicle_id: VehicleId, seq: u32)
        ensures
            final(self).entry_order() == old(self).entry_order().insert(vehicle_id.0, seq),
            final(self).next_entry() == old(self).next_entry(),
            final(self).conflicts() == old(self).conflicts(),
            final(self).conflicts_ready() == old(self).conflicts_ready(),
            final(self).arrival_order() == old(self).arrival_order(),
            final(self).next_arrival() == old(self).next_arrival(),
    {
        broadcast use vstd::std_specs::hash::group_hash_axioms;

        self.entry_sequence.insert(vehicle_id.0, seq);
    }
}


impl Default for SmartController {
    fn default() -> (smart: Self)
        ensures
            !smart.conflicts_ready(),
            smart.conflicts() == Set::<(u32, u32)>::empty(),
            smart.entry_order() == Map::<u64, u32>::empty(),
            smart.arrival_order() == Map::<u64, u32>::empty(),
            smart.next_entry() == 0,
            smart.next_arrival() == 0,
    {
        Self::new()
    }
}

/// The vehicle after it enters the zone: managed, with its reservation used up.
pub open spec fn entered(o: Occupant) -> Occupant {
    Occupant { state: VehicleState::Managed, reservation_granted: false, ..o }
}

/// The vehicle after it leaves the zone: exiting, without a reservation.
pub open spec fn exited(o: Occupant) -> Occupant {
    Occupant { state: VehicleState::Exiting, reservation_granted: false, ..o }
}

/// Lanes `a` and `b` are different and their pair is in the conflict set.
pub open spec fn lanes_cross(conflicts: Set<(u32, u32)>, a: LaneId, b: LaneId) -> bool {
    a != b && conflicts.contains(pair_key(a, b))
}

/// `other` keeps `candidate` out of the junction: the two are different vehicles on
/// different lanes whose paths cross in the zone, `other` is still in the simulation, and
/// either `other` occupies the zone (an approaching vehicle without a reservation that
/// overshot into the zone does not count) or `other` holds a reservation while approaching
/// and is at least as close to the zone.
pub open spec fn gate_blocks(conflicts: Set<(u32, u32)>, candidate: Occupant, other: Occupant) -> bool {
    &&& other.id != candidate.id
    &&& other.state != VehicleState::Done
    &&& lanes_cross(conflicts, candidate.lane_id, other.lane_id)
    &&& if other.in_zone {
        !(other.state == VehicleState::Approaching && !other.reservation_granted)
    } else {
        &&& other.state == VehicleState::Approaching
        &&& other.reservation_granted
        &&& other.zone_distance <= candidate.zone_distance
    }
}

/// Some vehicle keeps `candidate` out of the junction.
pub open spec fn gate_blocked(conflicts: Set<(u32, u32)>, candidate: Occupant, vehicles: Seq<Occupant>) -> bool {
    exists|k: int| 0 <= k < vehicles.len() && #[trigger] gate_blocks(conflicts, candidate, vehicles[k])
}

impl SmartController {
    /// Whether the reservation gate keeps `candidate` out of the junction.
    pub fn reservation_blocked(&self, candidate: &Occupant, vehicles: &[Occupant]) -> (blocked: bool)
        ensures
            blocked == gate_blocked(self.conflicts(), *candidate, vehicles@),
    {
        let mut k: usize = 0;
        while k < vehicles.len()
            invariant
                k <= vehicles@.len(),
                forall|j: int| 0 <= j < k ==> !#[trigger] gate_blocks(self.conflicts(), *candidate, vehicles@[j]),
            decreases vehicles@.len() - k,
        {
            let other = &vehicles[k];
            if other.id != candidate.id && other.state != VehicleState::Done
                && self.cross_paths_conflict(candidate.lane_id, other.lane_id) {
                if other.in_zone {
                    // Unreserved approaching vehicles are pushed back out of the zone each
                    // frame; they must not permanently block cross-traffic reservations.
                    if !(other.state == VehicleState::Approaching && !other.reservation_granted) {
                        assert(gate_blocks(self.conflicts(), *candidate, vehicles@[k as int]));
                        return true;
                    }
                } else if other.state == VehicleState::Approaching && other.reservation_granted
                    && other.zone_distance <= candidate.zone_distance {
                    // Only a reserved vehicle at least as close to the zone blocks.
                    assert(gate_blocks(self.conflicts(), *candidate, vehicles@[k as int]));
                    return true;
                }
            }
            k = k + 1;
        }
        false
    }

    /// Move an approaching vehicle into managed state as it enters the zone and give it the
    /// next entry sequence number; other vehicles are left as they are.
    pub fn on_vehicle_enter_zone(&mut self, vehicle: &mut Occupant)
        requires
            old(vehicle).state == VehicleState::Approaching ==> old(self).next_entry() < u32::MAX,
        ensures
            ({
                let enters = old(vehicle).state == VehicleState::Approaching;
                &&& !enters ==> *final(vehicle) == *old(vehicle)
                &&& !enters ==> final(self).entry_order() == old(self).entry_order()
                &&& !enters ==> final(self).next_entry() == old(self).next_entry()
                &&& enters ==> *final(vehicle) == entered(*old(vehicle))
                &&& enters ==> final(self).entry_order() == old(self).entry_order().insert(
                    old(vehicle).id.0,
                    old(self).next_entry(),
                )
                &&& enters ==> final(self).next_entry() == old(self).next_entry() + 1
            }),
            final(self).conflicts() == old(self).conflicts(),
            final(self).conflicts_ready() == old(self).conflicts_ready(),
            final(self).arrival_order() == old(self).arrival_order(),
            final(self).next_arrival() == old(self).next_arrival(),
    {
        broadcast use vstd::std_specs::hash::group_hash_axioms;

        if vehicle.state != VehicleState::Approaching {
            return;
        }
        vehicle.state = VehicleState::Managed;
        vehicle.reservation_granted = false;
        self.entry_sequence.insert(vehicle.id.0, self.next_entry_seq);
        self.next_entry_seq = self.next_entry_seq + 1;
    }

    /// A managed vehicle that is no longer inside the zone becomes exiting: its reservation is
    /// released and it leaves the entry and arrival orders. Other vehicles are left as they are.
    pub fn on_vehicle_exit_zone(&mut self, vehicle: &mut Occupant)
        ensures
            ({
                let leaves = old(vehicle).state == VehicleState::Managed && !old(vehicle).in_zone;
                let id = old(vehicle).id.0;
                &&& !leaves ==> *final(vehicle) == *old(vehicle)
                &&& !leaves ==> final(self).entry_order() == old(self).entry_order()
                &&& !leaves ==> final(self).arrival_order() == old(self).arrival_order()
                &&& leaves ==> *final(vehicle) == exited(*old(vehicle))
                &&& leaves ==> final(self).entry_order() == old(self).entry_order().remove(id)
                &&& leaves ==> final(self).arrival_order() == old(self).arrival_order().remove(id)
            }),
            final(self).next_entry() == old(self).next_entry(),
            final(self).next_arrival() == old(self).next_arrival(),
            final(self).conflicts() == old(self).conflicts(),
            final(self).conflicts_ready() == old(self).conflicts_ready(),
    {
        broadcast use vstd::std_specs::hash::group_hash_axioms;

        if vehicle.state == VehicleState::Managed && !vehicle.in_zone {
            vehicle.state = VehicleState::Exiting;
            vehicle.reservation_granted = false;
            self.entry_sequence.remove(&vehicle.id.0);
            self.wait_order.remove(&vehicle.id.0);
        }
    }

    /// Revoke grants held by approaching vehicles illegally inside the junction zone.
    pub fn revoke_intruder_zone_grants(&self, vehicles: &mut Vec<Occupant>)
        ensures
            final(vehicles)@.len() == old(vehicles)@.len(),
            forall|i: int|
                0 <= i < old(vehicles)@.len() ==> #[trigger] final(vehicles)@[i] == {
                    let o = old(vehicles)@[i];
                    if o.state == VehicleState::Approaching && o.reservation_granted && o.in_zone {
                        Occupant { reservation_granted: false, ..o }
                    } else {
                        o
                    }
                },
    {
        let mut i: usize = 0;
        while i < vehicles.len()
            invariant
                i <= vehicles@.len(),
                vehicles@.len() == old(vehicles)@.len(),
                forall|j: int|
                    0 <= j < old(vehicles)@.len() ==> #[trigger] vehicles@[j] == {
                        let o = old(vehicles)@[j];
                        if j < i && o.state == VehicleState::Approaching && o.reservation_granted
                            && o.in_zone {
                            Occupant { reservation_granted: false, ..o }
                        } else {
                            o
                        }
                    },
            decreases vehicles@.len() - i,
        {
            let o = vehicles[i];
            if o.state == VehicleState::Approaching && o.reservation_granted && o.in_zone {
                vehicles.set(i, Occupant { reservation_granted: false, ..o });
            }
            i = i + 1;
        }
    }

    /// The vehicle has overshot into the zone while the reservation rule keeps it out and it holds no
    /// reservation, so it must be pushed back outside.
    pub open spec fn must_retract(&self, vehicles: Seq<Occupant>, i: int) -> bool {
        let o = vehicles[i];
        &&& o.state == VehicleState::Approaching
        &&& o.in_zone
        &&& gate_blocked(self.conflicts(), o, vehicles)
        &&& !o.reservation_granted
    }

    /// Which vehicles the zone backstop must push back outside the junction.
    pub fn zone_gate_retractions(&self, vehicles: &[Occupant]) -> (retract: Vec<bool>)
        ensures
            retract@.len() == vehicles@.len(),
            forall|i: int| 0 <= i < vehicles@.len() ==> #[trigger] retract@[i] == self.must_retract(vehicles@, i),
    {
        let mut retract: Vec<bool> = Vec::with_capacity(vehicles.len());
        let mut i: usize = 0;
        while i < vehicles.len()
            invariant
                i <= vehicles@.len(),
                retract@.len() == i,
                forall|j: int| 0 <= j < i ==> #[trigger] retract@[j] == self.must_retract(vehicles@, j),
            decreases vehicles@.len() - i,
        {
            let o = &vehicles[i];
            let mut out = false;
            if o.state == VehicleState::Approaching && o.in_zone {
                let blocked = self.reservation_blocked(o, vehicles);
                out = blocked && !o.reservation_granted;
            }
            retract.push(out);
            i = i + 1;
        }
        retract
    }
}


/// Managed vehicle `i` must give way to managed vehicle `j`: `j` is another managed vehicle on
/// the same lane or a conflicting one, within scheduler range of `i` (`near[i][j]`), and both
/// have entry numbers with `j`'s the earlier.
pub open spec fn gives_way_to(
    conflicts: Set<(u32, u32)>,
    entries: Map<u64, u32>,
    vehicles: Seq<Occupant>,
    near: Seq<Vec<bool>>,
    i: int,
    j: int,
) -> bool {
    let me = vehicles[i];
    let other = vehicles[j];
    &&& j != i
    &&& other.state == VehicleState::Managed
    &&& (me.lane_id == other.lane_id || conflicts.contains(pair_key(me.lane_id, other.lane_id)))
    &&& near[i]@[j]
    &&& entries.contains_key(other.id.0)
    &&& entries.contains_key(me.id.0)
    &&& entries[other.id.0] < entries[me.id.0]
}

/// Vehicle `i` is managed, has an entry number, and gives way to some vehicle.
pub open spec fn must_yield(
    conflicts: Set<(u32, u32)>,
    entries: Map<u64, u32>,
    vehicles: Seq<Occupant>,
    near: Seq<Vec<bool>>,
    i: int,
) -> bool {
    &&& vehicles[i].state == VehicleState::Managed
    &&& entries.contains_key(vehicles[i].id.0)
    &&& exists|j: int| 0 <= j < vehicles.len() && #[trigger] gives_way_to(conflicts, entries, vehicles, near, i, j)
}

/// `near` is a square matrix over the vehicles.
pub open spec fn is_square(near: Seq<Vec<bool>>, n: int) -> bool {
    near.len() == n && forall|i: int| 0 <= i < n ==> (#[trigger] near[i])@.len() == n
}

impl SmartController {
    /// Entry number of a vehicle, if it has one.
    fn entry_of(&self, id: VehicleId) -> (seq: Option<u32>)
        ensures
            seq == (if self.entry_order().contains_key(id.0) {
                Some(self.entry_order()[id.0])
            } else {
                None
            }),
    {
        broadcast use vstd::std_specs::hash::group_hash_axioms;

        match self.entry_sequence.get(&id.0) {
            Some(seq) => Some(*seq),
            None => None,
        }
    }

    /// Which managed vehicles must stop this frame. Yield is recomputed every frame from the
    /// FIFO entry order: a vehicle stops only for an earlier entrant nearby on its own lane or
    /// on a conflicting path, so the earliest entrant among nearby conflicts always proceeds.
    /// `near[i][j]` says that vehicles `i` and `j` are within scheduler range of each other.
    pub fn scheduler_yields(&self, vehicles: &[Occupant], near: &Vec<Vec<bool>>) -> (yields: Vec<bool>)
        requires
            is_square(near@, vehicles@.len() as int),
        ensures
            yields@.len() == vehicles@.len(),
            forall|i: int|
                0 <= i < vehicles@.len() ==> #[trigger] yields@[i] == must_yield(
                    self.conflicts(),
                    self.entry_order(),
                    vehicles@,
                    near@,
                    i,
                ),
    {
        let n = vehicles.len();
        let mut yields: Vec<bool> = Vec::with_capacity(n);
        let mut i: usize = 0;
        while i < n
            invariant
                n == vehicles@.len(),
                is_square(near@, n as int),
                i <= n,
                yields@.len() == i,
                forall|k: int|
                    0 <= k < i ==> #[trigger] yields@[k] == must_yield(
                        self.conflicts(),
                        self.entry_order(),
                        vehicles@,
                        near@,
                        k,
                    ),
            decreases n - i,
        {
            let mut stop = false;
            if vehicles[i].state == VehicleState::Managed {
                if let Some(seq_i) = self.entry_of(vehicles[i].id) {
                    let row = &near[i];
                    let mut j: usize = 0;
                    while j < n
                        invariant
                            n == vehicles@.len(),
                            is_square(near@, n as int),
                            i < n,
                            j <= n,
                            *row == near@[i as int],
                            vehicles@[i as int].state == VehicleState::Managed,
                            self.entry_order().contains_key(vehicles@[i as int].id.0),
                            seq_i == self.entry_order()[vehicles@[i as int].id.0],
                            stop ==> must_yield(self.conflicts(), self.entry_order(), vehicles@, near@, i as int),
                            !stop ==> forall|k: int|
                                0 <= k < j ==> !#[trigger] gives_way_to(
                                    self.conflicts(),
                                    self.entry_order(),
                                    vehicles@,
                                    near@,
                                    i as int,
                                    k,
                                ),
                        decreases n - j,
                    {
                        if !stop && i != j && vehicles[j].state == VehicleState::Managed {
                            let same_lane = vehicles[i].lane_id == vehicles[j].lane_id;
                            let key = lane_pair_key(vehicles[i].lane_id, vehicles[j].lane_id);
                            if (same_lane || contains_pair(&self.lane_conflicts, key)) && row[j] {
                                if let Some(seq_j) = self.entry_of(vehicles[j].id) {
                                    if seq_j < seq_i {
                                        assert(gives_way_to(
                                            self.conflicts(),
                                            self.entry_order(),
                                            vehicles@,
                                            near@,
                                            i as int,
                                            j as int,
                                        ));
                                        stop = true;
                                    }
                                }
                            }
                        }
                        j = j + 1;
                    }
                }
            }
            yields.push(stop);
            i = i + 1;
        }
        yields
    }
}

/// Two different managed vehicles are within scheduler range of each other.
pub open spec fn managed_pair_in_range(vehicles: Seq<Occupant>, near: Seq<Vec<bool>>) -> bool {
    exists|i: int, j: int|
        0 <= i < j < vehicles.len() && vehicles[i].state == VehicleState::Managed
            && vehicles[j].state == VehicleState::Managed && #[trigger] near[i]@[j]
}

impl SmartController {
    /// Whether two managed vehicles are close enough for the scheduler to act.
    /// `near[i][j]` says that vehicles `i` and `j` are within scheduler range of each other.
    pub fn managed_vehicles_in_scheduler_range(vehicles: &[Occupant], near: &Vec<Vec<bool>>) -> (in_range: bool)
        requires
            is_square(near@, vehicles@.len() as int),
        ensures
            in_range == managed_pair_in_range(vehicles@, near@),
    {
        let n = vehicles.len();
        let mut i: usize = 0;
        while i < n
            invariant
                n == vehicles@.len(),
                is_square(near@, n as int),
                i <= n,
                forall|a: int, b: int|
                    0 <= a < i && a < b < n && vehicles@[a].state == VehicleState::Managed
                        && vehicles@[b].state == VehicleState::Managed ==> !#[trigger] near@[a]@[b],
            decreases n - i,
        {
            if vehicles[i].state == VehicleState::Managed {
                let row = &near[i];
                let mut j: usize = i + 1;
                while j < n
                    invariant
                        n == vehicles@.len(),
                        is_square(near@, n as int),
                        i < n,
                        i + 1 <= j <= n,
                        *row == near@[i as int],
                        vehicles@[i as int].state == VehicleState::Managed,
                        forall|b: int|
                            i < b < j && vehicles@[b].state == VehicleState::Managed ==> !#[trigger] near@[i as int]@[b],
                    decreases n - j,
                {
                    if vehicles[j].state == VehicleState::Managed && row[j] {
                        assert(near@[i as int]@[j as int]);
                        return true;
                    }
                    j = j + 1;
                }
            }
            i = i + 1;
        }
        false
    }
}

/// The scheduler never stops the earliest entrant: a managed vehicle whose entry number is
/// not larger than that of any other managed vehicle never yields.
pub proof fn lemma_earliest_entrant_proceeds(
    conflicts: Set<(u32, u32)>,
    entries: Map<u64, u32>,
    vehicles: Seq<Occupant>,
    near: Seq<Vec<bool>>,
    i: int,
)
    requires
        0 <= i < vehicles.len(),
        forall|j: int|
            0 <= j < vehicles.len() && vehicles[j].state == VehicleState::Managed
                && entries.contains_key(vehicles[j].id.0) && entries.contains_key(vehicles[i].id.0)
                ==> entries[vehicles[i].id.0] <= entries[#[trigger] vehicles[j].id.0],
    ensures
        !must_yield(conflicts, entries, vehicles, near, i),
{
}

/// The scheduler cannot deadlock: whenever some managed vehicle has an entry number, at least
/// one managed vehicle with an entry number keeps moving.
pub proof fn lemma_some_entrant_proceeds(
    conflicts: Set<(u32, u32)>,
    entries: Map<u64, u32>,
    vehicles: Seq<Occupant>,
    near: Seq<Vec<bool>>,
)
    requires
        exists|j: int|
            0 <= j < vehicles.len() && #[trigger] vehicles[j].state == VehicleState::Managed
                && entries.contains_key(vehicles[j].id.0),
    ensures
        exists|i: int|
            0 <= i < vehicles.len() && #[trigger] vehicles[i].state == VehicleState::Managed
                && entries.contains_key(vehicles[i].id.0) && !must_yield(
                conflicts,
                entries,
                vehicles,
                near,
                i,
            ),
{
    let i = earliest_entrant(entries, vehicles, vehicles.len() as int);
    lemma_earliest_entrant_is_minimal(entries, vehicles, vehicles.len() as int);
    let w = choose|j: int|
        0 <= j < vehicles.len() && #[trigger] vehicles[j].state == VehicleState::Managed
            && entries.contains_key(vehicles[j].id.0);
    assert(is_entrant(entries, vehicles, w));
    assert forall|j: int|
        0 <= j < vehicles.len() && vehicles[j].state == VehicleState::Managed && entries.contains_key(
            vehicles[j].id.0,
        ) && entries.contains_key(vehicles[i].id.0) implies entries[vehicles[i].id.0]
        <= entries[#[trigger] vehicles[j].id.0] by {
        assert(is_entrant(entries, vehicles, j));
    }
    lemma_earliest_entrant_proceeds(conflicts, entries, vehicles, near, i);
}

/// A managed vehicle with an entry number below `k`.
spec fn is_entrant(entries: Map<u64, u32>, vehicles: Seq<Occupant>, j: int) -> bool {
    vehicles[j].state == VehicleState::Managed && entries.contains_key(vehicles[j].id.0)
}

proof fn lemma_earliest_entrant_is_minimal(entries: Map<u64, u32>, vehicles: Seq<Occupant>, k: int)
    requires
        0 <= k <= vehicles.len(),
    ensures
        ({
            let b = earliest_entrant(entries, vehicles, k);
            &&& (b == -1 <==> (forall|j: int| 0 <= j < k ==> !#[trigger] is_entrant(entries, vehicles, j)))
            &&& b != -1 ==> 0 <= b < k && is_entrant(entries, vehicles, b)
            &&& b != -1 ==> (forall|j: int|
                0 <= j < k && #[trigger] is_entrant(entries, vehicles, j) ==> entries[vehicles[b].id.0]
                    <= entries[vehicles[j].id.0])
        }),
    decreases k,
{
    if k > 0 {
        lemma_earliest_entrant_is_minimal(entries, vehicles, k - 1);
        let best = earliest_entrant(entries, vehicles, k - 1);
        let b = earliest_entrant(entries, vehicles, k);
        assert(is_entrant(entries, vehicles, k - 1) ==> b != -1);
        if best != -1 {
            assert(is_entrant(entries, vehicles, best));
        }
        if b == -1 {
            assert(best == -1);
            assert(!is_entrant(entries, vehicles, k - 1));
            assert forall|j: int| 0 <= j < k implies !#[trigger] is_entrant(entries, vehicles, j) by {
                if j < k - 1 {
                    assert(!is_entrant(entries, vehicles, j));
                }
            }
        } else {
            assert(is_entrant(entries, vehicles, b));
            assert forall|j: int|
                0 <= j < k && #[trigger] is_entrant(entries, vehicles, j) implies entries[vehicles[b].id.0]
                <= entries[vehicles[j].id.0] by {
                if j < k - 1 {
                    assert(best != -1);
                }
            }
        }
    }
}

/// Index below `k` of a managed vehicle with the smallest entry number, or -1 when none.
spec fn earliest_entrant(entries: Map<u64, u32>, vehicles: Seq<Occupant>, k: int) -> int
    decreases k,
{
    if k <= 0 {
        -1
    } else {
        let best = earliest_entrant(entries, vehicles, k - 1);
        let v = vehicles[k - 1];
        if v.state == VehicleState::Managed && entries.contains_key(v.id.0) && (best < 0
            || entries[v.id.0] < entries[vehicles[best].id.0]) {
            k - 1
        } else {
            best
        }
    }
}


/// Vehicle `i` enters the zone when its turn comes: it is approaching and inside the zone, and
/// either the reservation rule lets it through or it holds a reservation.
pub open spec fn admits(conflicts: Set<(u32, u32)>, vehicles: Seq<Occupant>, i: int) -> bool {
    let o = vehicles[i];
    &&& o.state == VehicleState::Approaching
    &&& o.in_zone
    &&& (!gate_blocked(conflicts, o, vehicles) || o.reservation_granted)
}

/// The vehicles after the first `k` of them have been considered for zone entry, in order.
pub open spec fn after_admission(conflicts: Set<(u32, u32)>, vehicles: Seq<Occupant>, k: int) -> Seq<
    Occupant,
>
    decreases k,
{
    if k <= 0 {
        vehicles
    } else {
        let prev = after_admission(conflicts, vehicles, k - 1);
        if admits(conflicts, prev, k - 1) {
            prev.update(k - 1, entered(prev[k - 1]))
        } else {
            prev
        }
    }
}

/// The entry order and next entry number after the first `k` vehicles have been considered:
/// each vehicle that enters gets the next number.
pub open spec fn entries_after_admission(
    conflicts: Set<(u32, u32)>,
    vehicles: Seq<Occupant>,
    entries: Map<u64, u32>,
    next: int,
    k: int,
) -> (Map<u64, u32>, int)
    decreases k,
{
    if k <= 0 {
        (entries, next)
    } else {
        let (m, n) = entries_after_admission(conflicts, vehicles, entries, next, k - 1);
        let prev = after_admission(conflicts, vehicles, k - 1);
        if admits(conflicts, prev, k - 1) {
            (m.insert(prev[k - 1].id.0, n as u32), n + 1)
        } else {
            (m, n)
        }
    }
}

proof fn lemma_admission_frame(conflicts: Set<(u32, u32)>, vehicles: Seq<Occupant>, k: int)
    requires
        0 <= k <= vehicles.len(),
    ensures
        after_admission(conflicts, vehicles, k).len() == vehicles.len(),
        forall|j: int|
            k <= j < vehicles.len() ==> #[trigger] after_admission(conflicts, vehicles, k)[j]
                == vehicles[j],
    decreases k,
{
    if k > 0 {
        lemma_admission_frame(conflicts, vehicles, k - 1);
    }
}

proof fn lemma_admission_count_grows(
    conflicts: Set<(u32, u32)>,
    vehicles: Seq<Occupant>,
    entries: Map<u64, u32>,
    next: int,
    k: int,
    l: int,
)
    requires
        0 <= k <= l,
    ensures
        entries_after_admission(conflicts, vehicles, entries, next, k).1
            <= entries_after_admission(conflicts, vehicles, entries, next, l).1,
    decreases l,
{
    if k < l {
        lemma_admission_count_grows(conflicts, vehicles, entries, next, k, l - 1);
    }
}

/// The arrival order and next arrival number after the first `k` vehicles have been looked
/// at: each approaching vehicle within trigger distance that is not yet tracked gets the next
/// number.
pub open spec fn arrivals_after(vehicles: Seq<Occupant>, wait: Map<u64, u32>, next: int, k: int) -> (
    Map<u64, u32>,
    int,
)
    decreases k,
{
    if k <= 0 {
        (wait, next)
    } else {
        let (w, n) = arrivals_after(vehicles, wait, next, k - 1);
        let o = vehicles[k - 1];
        if o.state == VehicleState::Approaching && o.in_trigger && !w.contains_key(o.id.0) {
            (w.insert(o.id.0, n as u32), n + 1)
        } else {
            (w, n)
        }
    }
}

proof fn lemma_arrival_count_grows(
    vehicles: Seq<Occupant>,
    wait: Map<u64, u32>,
    next: int,
    k: int,
    l: int,
)
    requires
        0 <= k <= l,
    ensures
        arrivals_after(vehicles, wait, next, k).1 <= arrivals_after(vehicles, wait, next, l).1,
    decreases l,
{
    if k < l {
        lemma_arrival_count_grows(vehicles, wait, next, k, l - 1);
    }
}

impl SmartController {
    /// Let approaching vehicles that are inside the zone enter it, in order: each one the reservation rule
    /// lets through, or that holds a reservation, becomes managed and gets the next entry number.
    pub fn admit_zone_entries(&mut self, vehicles: &mut Vec<Occupant>)
        requires
            entries_after_admission(
                old(self).conflicts(),
                old(vehicles)@,
                old(self).entry_order(),
                old(self).next_entry() as int,
                old(vehicles)@.len() as int,
            ).1 <= u32::MAX,
        ensures
            final(vehicles)@ == after_admission(
                old(self).conflicts(),
                old(vehicles)@,
                old(vehicles)@.len() as int,
            ),
            (final(self).entry_order(), final(self).next_entry() as int) == entries_after_admission(
                old(self).conflicts(),
                old(vehicles)@,
                old(self).entry_order(),
                old(self).next_entry() as int,
                old(vehicles)@.len() as int,
            ),
            final(self).conflicts() == old(self).conflicts(),
            final(self).conflicts_ready() == old(self).conflicts_ready(),
            final(self).arrival_order() == old(self).arrival_order(),
            final(self).next_arrival() == old(self).next_arrival(),
    {
        let ghost conflicts = self.conflicts();
        let ghost start = vehicles@;
        let ghost n = vehicles@.len() as int;
        let mut i: usize = 0;
        while i < vehicles.len()
            invariant
                0 <= i <= n,
                n == start.len(),
                vehicles@.len() == n,
                self.conflicts() == conflicts,
                self.conflicts_ready() == old(self).conflicts_ready(),
                self.arrival_order() == old(self).arrival_order(),
                self.next_arrival() == old(self).next_arrival(),
                vehicles@ == after_admission(conflicts, start, i as int),
                (self.entry_order(), self.next_entry() as int) == entries_after_admission(
                    conflicts,
                    start,
                    old(self).entry_order(),
                    old(self).next_entry() as int,
                    i as int,
                ),
                entries_after_admission(
                    conflicts,
                    start,
                    old(self).entry_order(),
                    old(self).next_entry() as int,
                    n,
                ).1 <= u32::MAX,
            decreases n - i,
        {
            proof {
                lemma_admission_frame(conflicts, start, i as int);
                lemma_admission_count_grows(
                    conflicts,
                    start,
                    old(self).entry_order(),
                    old(self).next_entry() as int,
                    i + 1,
                    n,
                );
            }
            let mut o = vehicles[i];
            if o.state == VehicleState::Approaching && o.in_zone {
                let blocked = self.reservation_blocked(&o, vehicles.as_slice());
                if !blocked || o.reservation_granted {
                    assert(admits(conflicts, vehicles@, i as int));
                    self.on_vehicle_enter_zone(&mut o);
                    vehicles.set(i, o);
                }
            }
            i = i + 1;
        }
    }

    /// Record the arrival of every approaching vehicle within reservation trigger distance,
    /// in order; vehicles already tracked keep their place.
    pub fn track_approaching_waiters(&mut self, vehicles: &[Occupant])
        requires
            arrivals_after(
                vehicles@,
                old(self).arrival_order(),
                old(self).next_arrival() as int,
                vehicles@.len() as int,
            ).1 <= u32::MAX,
        ensures
            (final(self).arrival_order(), final(self).next_arrival() as int) == arrivals_after(
                vehicles@,
                old(self).arrival_order(),
                old(self).next_arrival() as int,
                vehicles@.len() as int,
            ),
            final(self).conflicts() == old(self).conflicts(),
            final(self).conflicts_ready() == old(self).conflicts_ready(),
            final(self).entry_order() == old(self).entry_order(),
            final(self).next_entry() == old(self).next_entry(),
    {
        let ghost n = vehicles@.len() as int;
        let mut i: usize = 0;
        while i < vehicles.len()
            invariant
                0 <= i <= n,
                n == vehicles@.len(),
                self.conflicts() == old(self).conflicts(),
                self.conflicts_ready() == old(self).conflicts_ready(),
                self.entry_order() == old(self).entry_order(),
                self.next_entry() == old(self).next_entry(),
                (self.arrival_order(), self.next_arrival() as int) == arrivals_after(
                    vehicles@,
                    old(self).arrival_order(),
                    old(self).next_arrival() as int,
                    i as int,
                ),
                arrivals_after(
                    vehicles@,
                    old(self).arrival_order(),
                    old(self).next_arrival() as int,
                    n,
                ).1 <= u32::MAX,
            decreases n - i,
        {
            proof {
                lemma_arrival_count_grows(
                    vehicles@,
                    old(self).arrival_order(),
                    old(self).next_arrival() as int,
                    i + 1,
                    n,
                );
            }
            if vehicles[i].state == VehicleState::Approaching && vehicles[i].in_trigger {
                self.track_waiter(vehicles[i].id);
            }
            i = i + 1;
        }
    }
}


/// The vehicle may be offered a reservation this frame: approaching, not yet holding one,
/// outside the zone and within trigger distance of it.
pub open spec fn is_candidate(o: Occupant) -> bool {
    &&& o.state == VehicleState::Approaching
    &&& !o.reservation_granted
    &&& !o.in_zone
    &&& o.in_trigger
}

/// Arrival number of a vehicle; vehicles never tracked come last.
pub open spec fn arrival_rank(wait: Map<u64, u32>, o: Occupant) -> u32 {
    if wait.contains_key(o.id.0) {
        wait[o.id.0]
    } else {
        u32::MAX
    }
}

/// Vehicle `a` is served before vehicle `b`: it is closer to the zone, or as close and arrived
/// earlier, or both tie and it comes first in the list.
pub open spec fn served_before(wait: Map<u64, u32>, vehicles: Seq<Occupant>, a: int, b: int) -> bool {
    let (da, db) = (vehicles[a].zone_distance, vehicles[b].zone_distance);
    let (ra, rb) = (arrival_rank(wait, vehicles[a]), arrival_rank(wait, vehicles[b]));
    da < db || (da == db && (ra < rb || (ra == rb && a < b)))
}

/// The vehicle after it is granted a reservation.
pub open spec fn with_grant(o: Occupant) -> Occupant {
    Occupant { reservation_granted: true, ..o }
}

/// The vehicles after the reservation pass has visited the first `k` entries of `order`:
/// each visited vehicle is granted a reservation unless the reservation rule keeps it out.
pub open spec fn granted_after(
    conflicts: Set<(u32, u32)>,
    vehicles: Seq<Occupant>,
    order: Seq<usize>,
    k: int,
) -> Seq<Occupant>
    decreases k,
{
    if k <= 0 {
        vehicles
    } else {
        let prev = granted_after(conflicts, vehicles, order, k - 1);
        let idx = order[k - 1] as int;
        if gate_blocked(conflicts, prev[idx], prev) {
            prev
        } else {
            prev.update(idx, with_grant(prev[idx]))
        }
    }
}

impl SmartController {
    fn arrival_rank_of(&self, id: VehicleId) -> (rank: u32)
        ensures
            rank == (if self.arrival_order().contains_key(id.0) {
                self.arrival_order()[id.0]
            } else {
                u32::MAX
            }),
    {
        broadcast use vstd::std_specs::hash::group_hash_axioms;

        match self.wait_order.get(&id.0) {
            Some(rank) => *rank,
            None => u32::MAX,
        }
    }

    fn serves_first(&self, vehicles: &[Occupant], a: usize, b: usize) -> (first: bool)
        requires
            a < vehicles@.len(),
            b < vehicles@.len(),
        ensures
            first == served_before(self.arrival_order(), vehicles@, a as int, b as int),
    {
        let da = vehicles[a].zone_distance;
        let db = vehicles[b].zone_distance;
        let ra = self.arrival_rank_of(vehicles[a].id);
        let rb = self.arrival_rank_of(vehicles[b].id);
        da < db || (da == db && (ra < rb || (ra == rb && a < b)))
    }

    /// Indices of the reservation candidates, in service order: closest to the zone first,
    /// ties broken by arrival order, then by position in the list.
    pub fn reservation_candidates(&self, vehicles: &[Occupant]) -> (order: Vec<usize>)
        ensures
            forall|k: int|
                0 <= k < order@.len() ==> order@[k] < vehicles@.len() && is_candidate(
                    vehicles@[#[trigger] order@[k] as int],
                ),
            forall|i: int|
                0 <= i < vehicles@.len() && is_candidate(#[trigger] vehicles@[i]) ==> order@.contains(
                    i as usize,
                ),
            forall|a: int, b: int|
                0 <= a < b < order@.len() ==> served_before(
                    self.arrival_order(),
                    vehicles@,
                    #[trigger] order@[a] as int,
                    #[trigger] order@[b] as int,
                ),
            is_service_order(vehicles@, order@),
    {
        let ghost wait = self.arrival_order();
        let n = vehicles.len();
        let mut order: Vec<usize> = Vec::new();
        let mut i: usize = 0;
        while i < n
            invariant
                n == vehicles@.len(),
                i <= n,
                wait == self.arrival_order(),
                forall|k: int|
                    0 <= k < order@.len() ==> order@[k] < i && is_candidate(
                        vehicles@[#[trigger] order@[k] as int],
                    ),
                forall|j: int|
                    0 <= j < i && is_candidate(#[trigger] vehicles@[j]) ==> order@.contains(j as usize),
                forall|a: int, b: int|
                    0 <= a < b < order@.len() ==> served_before(
                        wait,
                        vehicles@,
                        #[trigger] order@[a] as int,
                        #[trigger] order@[b] as int,
                    ),
            decreases n - i,
        {
            let o = &vehicles[i];
            if o.state == VehicleState::Approaching && !o.reservation_granted && !o.in_zone
                && o.in_trigger {
                let mut p: usize = 0;
                while p < order.len() && self.serves_first(vehicles, order[p], i)
                    invariant
                        n == vehicles@.len(),
                        i < n,
                        p <= order@.len(),
                        wait == self.arrival_order(),
                        forall|k: int| 0 <= k < order@.len() ==> order@[k] < i,
                        forall|q: int|
                            0 <= q < p ==> served_before(
                                wait,
                                vehicles@,
                                #[trigger] order@[q] as int,
                                i as int,
                            ),
                    decreases order@.len() - p,
                {
                    p = p + 1;
                }
                let ghost before = order@;
                proof {
                    if p < before.len() {
                        assert(!served_before(wait, vehicles@, before[p as int] as int, i as int));
                        assert(served_before(wait, vehicles@, i as int, before[p as int] as int));
                        assert forall|q: int| p <= q < before.len() implies served_before(
                            wait,
                            vehicles@,
                            i as int,
                            #[trigger] before[q] as int,
                        ) by {
                            if q > p {
                                assert(served_before(wait, vehicles@, before[p as int] as int, before[q] as int));
                            }
                        }
                    }
                }
                order.insert(p, i);
                proof {
                    assert forall|a: int, b: int|
                        0 <= a < b < order@.len() implies served_before(
                            wait,
                            vehicles@,
                            #[trigger] order@[a] as int,
                            #[trigger] order@[b] as int,
                        ) by {
                        if b < p {
                            assert(order@[a] == before[a] && order@[b] == before[b]);
                        } else if b == p {
                            assert(order@[a] == before[a]);
                        } else if a < p {
                            assert(order@[a] == before[a] && order@[b] == before[b - 1]);
                            assert(served_before(wait, vehicles@, before[a] as int, i as int));
                            assert(served_before(wait, vehicles@, i as int, before[b - 1] as int));
                        } else if a == p {
                            assert(order@[b] == before[b - 1]);
                        } else {
                            assert(order@[a] == before[a - 1] && order@[b] == before[b - 1]);
                        }
                    }
                    assert forall|j: int|
                        0 <= j < i + 1 && is_candidate(#[trigger] vehicles@[j]) implies order@.contains(
                            j as usize,
                        ) by {
                        if j < i {
                            let w = choose|w: int| 0 <= w < before.len() && before[w] == j as usize;
                            if w < p {
                                assert(order@[w] == j as usize);
                            } else {
                                assert(order@[w + 1] == j as usize);
                            }
                        } else {
                            assert(order@[p as int] == i);
                        }
                    }
                    assert forall|k: int| 0 <= k < order@.len() implies order@[k] < i + 1
                        && is_candidate(vehicles@[#[trigger] order@[k] as int]) by {
                        if k < p {
                            assert(order@[k] == before[k]);
                        } else if k > p {
                            assert(order@[k] == before[k - 1]);
                        }
                    }
                }
            }
            i = i + 1;
        }
        assert forall|a: int, b: int| 0 <= a < b < order@.len() implies #[trigger] order@[a]
            != #[trigger] order@[b] && vehicles@[order@[a] as int].zone_distance
            <= vehicles@[order@[b] as int].zone_distance by {
            assert(served_before(wait, vehicles@, order@[a] as int, order@[b] as int));
        }
        order
    }

    /// Visit the vehicles in `order` and grant each a reservation unless the reservation rule keeps it out.
    pub fn grant_reservations(&self, vehicles: &mut Vec<Occupant>, order: &[usize])
        requires
            forall|k: int| 0 <= k < order@.len() ==> #[trigger] order@[k] < old(vehicles)@.len(),
        ensures
            final(vehicles)@ == granted_after(
                self.conflicts(),
                old(vehicles)@,
                order@,
                order@.len() as int,
            ),
    {
        let ghost start = vehicles@;
        let mut k: usize = 0;
        while k < order.len()
            invariant
                k <= order@.len(),
                forall|q: int| 0 <= q < order@.len() ==> #[trigger] order@[q] < start.len(),
                vehicles@ == granted_after(self.conflicts(), start, order@, k as int),
                vehicles@.len() == start.len(),
            decreases order@.len() - k,
        {
            let idx = order[k];
            assert(idx < start.len());
            let o = vehicles[idx];
            if !self.reservation_blocked(&o, vehicles.as_slice()) {
                vehicles.set(idx, Occupant { reservation_granted: true, ..o });
            }
            k = k + 1;
        }
    }
}


/// Every vehicle has its own id.
pub open spec fn ids_unique(vehicles: Seq<Occupant>) -> bool {
    forall|i: int, j: int|
        0 <= i < vehicles.len() && 0 <= j < vehicles.len() && i != j ==> #[trigger] vehicles[i].id
            != #[trigger] vehicles[j].id
}

/// `order` lists distinct reservation candidates, nearest to the zone first.
pub open spec fn is_service_order(vehicles: Seq<Occupant>, order: Seq<usize>) -> bool {
    &&& forall|k: int|
        0 <= k < order.len() ==> (#[trigger] order[k]) < vehicles.len() && is_candidate(
            vehicles[order[k] as int],
        )
    &&& forall|a: int, b: int|
        0 <= a < b < order.len() ==> #[trigger] order[a] != #[trigger] order[b] && vehicles[order[a] as int].zone_distance
            <= vehicles[order[b] as int].zone_distance
}

/// Conflicting lanes are a symmetric relation.
pub proof fn lemma_lanes_cross_symmetric(conflicts: Set<(u32, u32)>, a: LaneId, b: LaneId)
    ensures
        lanes_cross(conflicts, a, b) == lanes_cross(conflicts, b, a),
{
}

/// Mutual exclusion of reservations: a reservation pass over candidates served nearest first
/// never grants reservations to two vehicles whose lanes conflict.
pub proof fn lemma_grant_pass_exclusive(
    conflicts: Set<(u32, u32)>,
    vehicles: Seq<Occupant>,
    order: Seq<usize>,
)
    requires
        ids_unique(vehicles),
        is_service_order(vehicles, order),
    ensures
        ({
            let after = granted_after(conflicts, vehicles, order, order.len() as int);
            forall|a: int, b: int|
                0 <= a < order.len() && 0 <= b < order.len() && a != b
                    && after[#[trigger] order[a] as int].reservation_granted
                    && after[#[trigger] order[b] as int].reservation_granted ==> !lanes_cross(
                    conflicts,
                    vehicles[order[a] as int].lane_id,
                    vehicles[order[b] as int].lane_id,
                )
        }),
{
    lemma_grant_pass_invariant(conflicts, vehicles, order, order.len() as int);
}

proof fn lemma_grant_pass_invariant(
    conflicts: Set<(u32, u32)>,
    vehicles: Seq<Occupant>,
    order: Seq<usize>,
    k: int,
)
    requires
        ids_unique(vehicles),
        is_service_order(vehicles, order),
        0 <= k <= order.len(),
    ensures
        ({
            let after = granted_after(conflicts, vehicles, order, k);
            &&& after.len() == vehicles.len()
            &&& forall|i: int|
                0 <= i < vehicles.len() ==> (#[trigger] after[i]).id == vehicles[i].id
                    && after[i].lane_id == vehicles[i].lane_id && after[i].state == vehicles[i].state
                    && after[i].in_zone == vehicles[i].in_zone && after[i].zone_distance
                    == vehicles[i].zone_distance
            &&& forall|c: int| k <= c < order.len() ==> after[#[trigger] order[c] as int] == vehicles[order[c] as int]
            &&& forall|a: int, b: int|
                0 <= a < k && 0 <= b < k && a != b && after[#[trigger] order[a] as int].reservation_granted
                    && after[#[trigger] order[b] as int].reservation_granted ==> !lanes_cross(
                    conflicts,
                    vehicles[order[a] as int].lane_id,
                    vehicles[order[b] as int].lane_id,
                )
        }),
    decreases k,
{
    if k > 0 {
        lemma_grant_pass_invariant(conflicts, vehicles, order, k - 1);
        let prev = granted_after(conflicts, vehicles, order, k - 1);
        let after = granted_after(conflicts, vehicles, order, k);
        let idx = order[k - 1] as int;
        assert(prev[idx] == vehicles[idx]);
        if !gate_blocked(conflicts, prev[idx], prev) {
            assert forall|a: int| 0 <= a < k - 1 && prev[#[trigger] order[a] as int].reservation_granted
                implies !lanes_cross(conflicts, vehicles[idx].lane_id, vehicles[order[a] as int].lane_id) by {
                let j = order[a] as int;
                assert(order[a] != order[k - 1]);
                if lanes_cross(conflicts, vehicles[idx].lane_id, vehicles[j].lane_id) {
                    assert(vehicles[j].id != vehicles[idx].id);
                    assert(gate_blocks(conflicts, prev[idx], prev[j]));
                    assert(false);
                }
            }
            assert forall|a: int, b: int|
                0 <= a < k && 0 <= b < k && a != b && after[#[trigger] order[a] as int].reservation_granted
                    && after[#[trigger] order[b] as int].reservation_granted implies !lanes_cross(
                    conflicts,
                    vehicles[order[a] as int].lane_id,
                    vehicles[order[b] as int].lane_id,
                ) by {
                if a == k - 1 {
                    assert(order[b] != order[k - 1]);
                    assert(prev[order[b] as int].reservation_granted);
                } else if b == k - 1 {
                    assert(order[a] != order[k - 1]);
                    assert(prev[order[a] as int].reservation_granted);
                    lemma_lanes_cross_symmetric(conflicts, vehicles[order[a] as int].lane_id, vehicles[idx].lane_id);
                } else {
                    assert(order[a] != order[k - 1]);
                    assert(order[b] != order[k - 1]);
                }
            }
            assert forall|c: int| k <= c < order.len() implies after[#[trigger] order[c] as int]
                == vehicles[order[c] as int] by {
                assert(order[c] != order[k - 1]);
            }
        }
    }
}

/// The vehicles after managed vehicles that left the zone are marked exiting.
pub open spec fn after_exits(vehicles: Seq<Occupant>) -> Seq<Occupant> {
    Seq::new(
        vehicles.len(),
        |i: int|
            if vehicles[i].state == VehicleState::Managed && !vehicles[i].in_zone {
                exited(vehicles[i])
            } else {
                vehicles[i]
            },
    )
}

/// The vehicle numbers of the managed vehicles that left the zone.
pub open spec fn exit_ids(vehicles: Seq<Occupant>) -> Set<u64> {
    Set::new(
        |id: u64|
            exists|i: int|
                0 <= i < vehicles.len() && #[trigger] vehicles[i].id.0 == id && vehicles[i].state
                    == VehicleState::Managed && !vehicles[i].in_zone,
    )
}

impl SmartController {
    /// Mark every managed vehicle that is no longer inside the zone as exiting, releasing its
    /// reservation and its place in the entry and arrival orders.
    pub fn release_zone_exits(&mut self, vehicles: &mut Vec<Occupant>)
        ensures
            final(vehicles)@ == after_exits(old(vehicles)@),
            final(self).entry_order() == old(self).entry_order().remove_keys(
                exit_ids(old(vehicles)@),
            ),
            final(self).arrival_order() == old(self).arrival_order().remove_keys(
                exit_ids(old(vehicles)@),
            ),
            final(self).next_entry() == old(self).next_entry(),
            final(self).next_arrival() == old(self).next_arrival(),
            final(self).conflicts() == old(self).conflicts(),
            final(self).conflicts_ready() == old(self).conflicts_ready(),
    {
        let ghost start = vehicles@;
        let mut i: usize = 0;
        while i < vehicles.len()
            invariant
                i <= vehicles@.len(),
                vehicles@.len() == start.len(),
                forall|j: int|
                    0 <= j < start.len() ==> #[trigger] vehicles@[j] == if j < i {
                        after_exits(start)[j]
                    } else {
                        start[j]
                    },
                self.entry_order() == old(self).entry_order().remove_keys(
                    exit_ids(start.take(i as int)),
                ),
                self.arrival_order() == old(self).arrival_order().remove_keys(
                    exit_ids(start.take(i as int)),
                ),
                self.next_entry() == old(self).next_entry(),
                self.next_arrival() == old(self).next_arrival(),
                self.conflicts() == old(self).conflicts(),
                self.conflicts_ready() == old(self).conflicts_ready(),
            decreases vehicles@.len() - i,
        {
            let mut o = vehicles[i];
            self.on_vehicle_exit_zone(&mut o);
            vehicles.set(i, o);
            proof {
                let before = exit_ids(start.take(i as int));
                let after = exit_ids(start.take(i + 1));
                if start[i as int].state == VehicleState::Managed && !start[i as int].in_zone {
                    assert(after =~= before.insert(start[i as int].id.0)) by {
                        assert(start.take(i + 1)[i as int] == start[i as int]);
                        assert forall|id: u64| before.contains(id) implies after.contains(id) by {
                            let w = choose|w: int|
                                0 <= w < i && #[trigger] start.take(i as int)[w].id.0 == id
                                    && start.take(i as int)[w].state == VehicleState::Managed
                                    && !start.take(i as int)[w].in_zone;
                            assert(start.take(i + 1)[w] == start.take(i as int)[w]);
                        }
                        assert forall|id: u64| after.contains(id) implies before.insert(
                            start[i as int].id.0,
                        ).contains(id) by {
                            let w = choose|w: int|
                                0 <= w < i + 1 && #[trigger] start.take(i + 1)[w].id.0 == id
                                    && start.take(i + 1)[w].state == VehicleState::Managed
                                    && !start.take(i + 1)[w].in_zone;
                            if w < i {
                                assert(start.take(i as int)[w] == start.take(i + 1)[w]);
                            }
                        }
                    }
                    assert(self.entry_order() =~= old(self).entry_order().remove_keys(after));
                    assert(self.arrival_order() =~= old(self).arrival_order().remove_keys(after));
                } else {
                    assert(after =~= before) by {
                        assert forall|id: u64| before.contains(id) implies after.contains(id) by {
                            let w = choose|w: int|
                                0 <= w < i && #[trigger] start.take(i as int)[w].id.0 == id
                                    && start.take(i as int)[w].state == VehicleState::Managed
                                    && !start.take(i as int)[w].in_zone;
                            assert(start.take(i + 1)[w] == start.take(i as int)[w]);
                        }
                        assert forall|id: u64| after.contains(id) implies before.contains(id) by {
                            let w = choose|w: int|
                                0 <= w < i + 1 && #[trigger] start.take(i + 1)[w].id.0 == id
                                    && start.take(i + 1)[w].state == VehicleState::Managed
                                    && !start.take(i + 1)[w].in_zone;
                            assert(w != i);
                            assert(start.take(i as int)[w] == start.take(i + 1)[w]);
                        }
                    }
                }
            }
            i = i + 1;
        }
        proof {
            assert(start.take(start.len() as int) =~= start);
            assert(vehicles@ =~= after_exits(start));
        }
    }
}

/// Which rivals can take a reservation away from its holder.
#[derive(Debug, Clone, Copy, PartialEq, Eq, Structural)]
pub enum RivalKind {
    /// Vehicles on lanes whose paths cross the holder's in the zone.
    CrossTraffic,
    /// Vehicles on the holder's own lane.
    SameLane,
}

/// `other` is a rival of `holder` of the given kind.
pub open spec fn rivals(conflicts: Set<(u32, u32)>, kind: RivalKind, holder: Occupant, other: Occupant) -> bool {
    match kind {
        RivalKind::CrossTraffic => lanes_cross(conflicts, holder.lane_id, other.lane_id),
        RivalKind::SameLane => holder.lane_id == other.lane_id,
    }
}

/// Vehicle `i` holds a reservation while approaching (and, where `only_stopped`, stands still),
/// and some other approaching rival leads it toward the zone (`lead[i][j]`).
pub open spec fn outranked(
    conflicts: Set<(u32, u32)>,
    kind: RivalKind,
    only_stopped: bool,
    vehicles: Seq<Occupant>,
    lead: Seq<Vec<bool>>,
    i: int,
) -> bool {
    let h = vehicles[i];
    &&& h.state == VehicleState::Approaching
    &&& h.reservation_granted
    &&& (only_stopped ==> h.stopped)
    &&& exists|j: int|
        0 <= j < vehicles.len() && j != i && vehicles[j].state == VehicleState::Approaching
            && rivals(conflicts, kind, h, vehicles[j]) && (#[trigger] lead[i]@[j])
}

/// The vehicles after every outranked holder lost its reservation.
pub open spec fn after_revocation(
    conflicts: Set<(u32, u32)>,
    kind: RivalKind,
    only_stopped: bool,
    vehicles: Seq<Occupant>,
    lead: Seq<Vec<bool>>,
) -> Seq<Occupant> {
    Seq::new(
        vehicles.len(),
        |i: int|
            if outranked(conflicts, kind, only_stopped, vehicles, lead, i) {
                Occupant { reservation_granted: false, ..vehicles[i] }
            } else {
                vehicles[i]
            },
    )
}

impl SmartController {
    fn revoke_outranked(
        &self,
        vehicles: &mut Vec<Occupant>,
        lead: &Vec<Vec<bool>>,
        kind: RivalKind,
        only_stopped: bool,
    )
        requires
            is_square(lead@, old(vehicles)@.len() as int),
        ensures
            final(vehicles)@ == after_revocation(
                self.conflicts(),
                kind,
                only_stopped,
                old(vehicles)@,
                lead@,
            ),
    {
        let ghost start = vehicles@;
        let n = vehicles.len();
        let mut i: usize = 0;
        while i < n
            invariant
                n == start.len(),
                vehicles@.len() == n,
                i <= n,
                is_square(lead@, n as int),
                forall|k: int|
                    0 <= k < n ==> (#[trigger] vehicles@[k]).id == start[k].id && vehicles@[k].lane_id
                        == start[k].lane_id && vehicles@[k].state == start[k].state,
                forall|k: int|
                    0 <= k < n ==> #[trigger] vehicles@[k] == if k < i {
                        after_revocation(self.conflicts(), kind, only_stopped, start, lead@)[k]
                    } else {
                        start[k]
                    },
            decreases n - i,
        {
            let h = vehicles[i];
            if h.state == VehicleState::Approaching && h.reservation_granted && (!only_stopped
                || h.stopped) {
                let row = &lead[i];
                let mut j: usize = 0;
                let mut revoke = false;
                while j < n
                    invariant
                        n == start.len(),
                        vehicles@.len() == n,
                        i < n,
                        j <= n,
                        is_square(lead@, n as int),
                        *row == lead@[i as int],
                        h == start[i as int],
                        h.state == VehicleState::Approaching,
                        h.reservation_granted,
                        only_stopped ==> h.stopped,
                        forall|k: int|
                            0 <= k < n ==> (#[trigger] vehicles@[k]).id == start[k].id
                                && vehicles@[k].lane_id == start[k].lane_id && vehicles@[k].state
                                == start[k].state,
                        revoke ==> outranked(self.conflicts(), kind, only_stopped, start, lead@, i as int),
                        !revoke ==> forall|k: int|
                            0 <= k < j ==> !(k != i && start[k].state == VehicleState::Approaching
                                && rivals(self.conflicts(), kind, h, start[k]) && #[trigger] lead@[i as int]@[k]),
                    decreases n - j,
                {
                    if !revoke && j != i && vehicles[j].state == VehicleState::Approaching {
                        let o = vehicles[j];
                        let rival = match kind {
                            RivalKind::CrossTraffic => self.cross_paths_conflict(h.lane_id, o.lane_id),
                            RivalKind::SameLane => h.lane_id == o.lane_id,
                        };
                        if rival && row[j] {
                            assert(start[j as int].state == VehicleState::Approaching);
                            assert(rivals(self.conflicts(), kind, h, start[j as int]));
                            assert(lead@[i as int]@[j as int]);
                            revoke = true;
                        }
                    }
                    j = j + 1;
                }
                if revoke {
                    vehicles.set(i, Occupant { reservation_granted: false, ..h });
                }
            }
            i = i + 1;
        }
        proof {
            assert(vehicles@ =~= after_revocation(self.conflicts(), kind, only_stopped, start, lead@));
        }
    }

    /// Drop the reservation of every approaching holder that a conflicting approaching vehicle
    /// leads toward the zone. `lead[i][j]` says that vehicle `j` is closer to the zone than
    /// vehicle `i` by more than one unit.
    pub fn revoke_distant_reservations(&self, vehicles: &mut Vec<Occupant>, lead: &Vec<Vec<bool>>)
        requires
            is_square(lead@, old(vehicles)@.len() as int),
        ensures
            final(vehicles)@ == after_revocation(
                self.conflicts(),
                RivalKind::CrossTraffic,
                false,
                old(vehicles)@,
                lead@,
            ),
    {
        self.revoke_outranked(vehicles, lead, RivalKind::CrossTraffic, false);
    }

    /// Drop the reservation of every approaching holder that another approaching vehicle on its
    /// own lane leads toward the zone, so that only the front of a queue holds one.
    /// `lead[i][j]` says that vehicle `j` is closer to the zone than vehicle `i` by more than
    /// half a unit.
    pub fn revoke_non_front_lane_reservations(&self, vehicles: &mut Vec<Occupant>, lead: &Vec<Vec<bool>>)
        requires
            is_square(lead@, old(vehicles)@.len() as int),
        ensures
            final(vehicles)@ == after_revocation(
                self.conflicts(),
                RivalKind::SameLane,
                false,
                old(vehicles)@,
                lead@,
            ),
    {
        self.revoke_outranked(vehicles, lead, RivalKind::SameLane, false);
    }

    /// Drop the reservation of every stopped approaching holder that a conflicting approaching
    /// vehicle leads toward the zone. `lead[i][j]` says that vehicle `j` is closer to the zone
    /// than vehicle `i` by more than one unit.
    pub fn revoke_stale_grants_from_stopped_holders(&self, vehicles: &mut Vec<Occupant>, lead: &Vec<Vec<bool>>)
        requires
            is_square(lead@, old(vehicles)@.len() as int),
        ensures
            final(vehicles)@ == after_revocation(
                self.conflicts(),
                RivalKind::CrossTraffic,
                true,
                old(vehicles)@,
                lead@,
            ),
    {
        self.revoke_outranked(vehicles, lead, RivalKind::CrossTraffic, true);
    }
}

/// Once distant reservations have been revoked with a lead relation, revoking stale grants of
/// stopped holders with the same relation changes nothing: every holder that pass would drop
/// was already dropped.
pub proof fn lemma_stale_revocation_subsumed(
    conflicts: Set<(u32, u32)>,
    vehicles: Seq<Occupant>,
    lead: Seq<Vec<bool>>,
)
    ensures
        ({
            let after = after_revocation(conflicts, RivalKind::CrossTraffic, false, vehicles, lead);
            after_revocation(conflicts, RivalKind::CrossTraffic, true, after, lead) == after
        }),
{
    let after = after_revocation(conflicts, RivalKind::CrossTraffic, false, vehicles, lead);
    let again = after_revocation(conflicts, RivalKind::CrossTraffic, true, after, lead);
    assert forall|i: int| 0 <= i < after.len() implies #[trigger] again[i] == after[i] by {
        if outranked(conflicts, RivalKind::CrossTraffic, true, after, lead, i) {
            let j = choose|j: int|
                0 <= j < after.len() && j != i && after[j].state == VehicleState::Approaching
                    && rivals(conflicts, RivalKind::CrossTraffic, after[i], after[j]) && (
                    #[trigger] lead[i]@[j]);
            assert(vehicles[j].state == after[j].state);
            assert(outranked(conflicts, RivalKind::CrossTraffic, false, vehicles, lead, i));
        }
    }
    assert(again =~= after);
}

/// What the reservation hold does to a vehicle in a frame.
#[derive(Debug, Clone, Copy, PartialEq, Eq, Structural)]
pub enum HoldAction {
    /// Not approaching: any hold is lifted and nothing else changes.
    ClearHold,
    /// Free to go: the hold is lifted and the commanded speed returns to nominal.
    Proceed,
    /// Held: the hold is set and the vehicle stops.
    Stop,
    /// Braking toward the zone edge while waiting for a reservation.
    Brake,
    /// Nothing changes.
    Keep,
}

/// The hold decision for vehicle `i`: approaching vehicles that the reservation rule lets through, or that
/// hold a reservation, proceed; blocked ones stop inside the zone, when already held or within
/// stopping distance, brake within trigger distance, and are left alone farther out.
pub open spec fn hold_action(conflicts: Set<(u32, u32)>, vehicles: Seq<Occupant>, i: int) -> HoldAction {
    let o = vehicles[i];
    if o.state != VehicleState::Approaching {
        HoldAction::ClearHold
    } else if !gate_blocked(conflicts, o, vehicles) || o.reservation_granted {
        HoldAction::Proceed
    } else if o.in_zone || o.reservation_hold || o.in_stop_range {
        HoldAction::Stop
    } else if o.in_trigger {
        HoldAction::Brake
    } else {
        HoldAction::Keep
    }
}

/// An approaching vehicle that the reservation rule blocks and that holds no reservation is
/// stopped whenever it is already held, already inside the zone or within stopping distance;
/// when none of these holds it brakes within trigger distance and is left alone farther out;
/// and it proceeds exactly when it is unblocked or holds a reservation.
pub proof fn lemma_blocked_waiter_hold(conflicts: Set<(u32, u32)>, vehicles: Seq<Occupant>, i: int)
    requires
        0 <= i < vehicles.len(),
        vehicles[i].state == VehicleState::Approaching,
    ensures
        ({
            let o = vehicles[i];
            let blocked = gate_blocked(conflicts, o, vehicles) && !o.reservation_granted;
            &&& blocked && (o.reservation_hold || o.in_zone || o.in_stop_range) ==> hold_action(
                conflicts,
                vehicles,
                i,
            ) == HoldAction::Stop
            &&& hold_action(conflicts, vehicles, i) == HoldAction::Brake ==> blocked
                && !o.reservation_hold && !o.in_zone && !o.in_stop_range && o.in_trigger
            &&& (hold_action(conflicts, vehicles, i) == HoldAction::Proceed) == !blocked
            &&& blocked && !o.reservation_hold && !o.in_zone && !o.in_stop_range && o.in_trigger
                ==> hold_action(conflicts, vehicles, i) == HoldAction::Brake
            &&& blocked && !o.reservation_hold && !o.in_zone && !o.in_stop_range && !o.in_trigger
                ==> hold_action(conflicts, vehicles, i) == HoldAction::Keep
        }),
{
}

/// A vehicle that is not approaching only has its hold cleared.
pub proof fn lemma_non_waiter_hold_cleared(conflicts: Set<(u32, u32)>, vehicles: Seq<Occupant>, i: int)
    requires
        0 <= i < vehicles.len(),
        vehicles[i].state != VehicleState::Approaching,
    ensures
        hold_action(conflicts, vehicles, i) == HoldAction::ClearHold,
{
}

impl SmartController {
    /// The hold decision of every vehicle, from one snapshot of the frame.
    pub fn reservation_hold_actions(&self, vehicles: &[Occupant]) -> (actions: Vec<HoldAction>)
        ensures
            actions@.len() == vehicles@.len(),
            forall|i: int|
                0 <= i < vehicles@.len() ==> #[trigger] actions@[i] == hold_action(
                    self.conflicts(),
                    vehicles@,
                    i,
                ),
    {
        let mut actions: Vec<HoldAction> = Vec::with_capacity(vehicles.len());
        let mut i: usize = 0;
        while i < vehicles.len()
            invariant
                i <= vehicles@.len(),
                actions@.len() == i,
                forall|k: int|
                    0 <= k < i ==> #[trigger] actions@[k] == hold_action(self.conflicts(), vehicles@, k),
            decreases vehicles@.len() - i,
        {
            let o = &vehicles[i];
            let action = if o.state != VehicleState::Approaching {
                HoldAction::ClearHold
            } else if !self.reservation_blocked(o, vehicles) || o.reservation_granted {
                HoldAction::Proceed
            } else if o.in_zone || o.reservation_hold || o.in_stop_range {
                HoldAction::Stop
            } else if o.in_trigger {
                HoldAction::Brake
            } else {
                HoldAction::Keep
            };
            actions.push(action);
            i = i + 1;
        }
        actions
    }
}

/// A vehicle that holds a reservation while approaching is never stopped or braked by the hold.
pub proof fn lemma_reserved_vehicle_proceeds(conflicts: Set<(u32, u32)>, vehicles: Seq<Occupant>, i: int)
    requires
        0 <= i < vehicles.len(),
        vehicles[i].state == VehicleState::Approaching,
        vehicles[i].reservation_granted,
    ensures
        hold_action(conflicts, vehicles, i) == HoldAction::Proceed,
{
}

/// The zone is clear for `candidate`: no vehicle on a conflicting lane occupies the zone,
/// apart from approaching vehicles without a reservation that overshot into it.
pub open spec fn zone_clear_for(conflicts: Set<(u32, u32)>, candidate: Occupant, vehicles: Seq<Occupant>) -> bool {
    forall|j: int|
        0 <= j < vehicles.len() && (#[trigger] vehicles[j]).in_zone && vehicles[j].id != candidate.id
            && vehicles[j].state != VehicleState::Done && lanes_cross(
            conflicts,
            candidate.lane_id,
            vehicles[j].lane_id,
        ) ==> vehicles[j].state == VehicleState::Approaching && !vehicles[j].reservation_granted
}

proof fn lemma_grant_pass_zone_invariant(
    conflicts: Set<(u32, u32)>,
    vehicles: Seq<Occupant>,
    order: Seq<usize>,
    k: int,
)
    requires
        is_service_order(vehicles, order),
        0 <= k <= order.len(),
    ensures
        ({
            let after = granted_after(conflicts, vehicles, order, k);
            &&& after.len() == vehicles.len()
            &&& forall|i: int| 0 <= i < vehicles.len() && vehicles[i].in_zone ==> #[trigger] after[i] == vehicles[i]
            &&& forall|i: int|
                0 <= i < vehicles.len() ==> (#[trigger] after[i]).state == vehicles[i].state
                    && after[i].in_zone == vehicles[i].in_zone && same_vehicle(vehicles[i], after[i])
            &&& forall|c: int| k <= c < order.len() ==> after[#[trigger] order[c] as int] == vehicles[order[c] as int]
            &&& forall|a: int|
                0 <= a < k && after[#[trigger] order[a] as int].reservation_granted ==> zone_clear_for(
                    conflicts,
                    vehicles[order[a] as int],
                    vehicles,
                )
        }),
    decreases k,
{
    if k > 0 {
        lemma_grant_pass_zone_invariant(conflicts, vehicles, order, k - 1);
        let prev = granted_after(conflicts, vehicles, order, k - 1);
        let after = granted_after(conflicts, vehicles, order, k);
        let idx = order[k - 1] as int;
        assert(prev[idx] == vehicles[idx]);
        assert forall|c: int| k <= c < order.len() implies after[#[trigger] order[c] as int]
            == vehicles[order[c] as int] by {
            assert(order[c] != order[k - 1]);
        }
        assert forall|i: int| 0 <= i < vehicles.len() && vehicles[i].in_zone implies #[trigger] after[i]
            == vehicles[i] by {
            assert(i != idx);
        }
        assert forall|a: int|
            0 <= a < k && after[#[trigger] order[a] as int].reservation_granted implies zone_clear_for(
                conflicts,
                vehicles[order[a] as int],
                vehicles,
            ) by {
            if a == k - 1 {
                if !gate_blocked(conflicts, prev[idx], prev) {
                    assert forall|j: int|
                        0 <= j < vehicles.len() && (#[trigger] vehicles[j]).in_zone && vehicles[j].id
                            != vehicles[idx].id && vehicles[j].state != VehicleState::Done
                            && lanes_cross(conflicts, vehicles[idx].lane_id, vehicles[j].lane_id)
                        implies vehicles[j].state == VehicleState::Approaching
                        && !vehicles[j].reservation_granted by {
                        assert(prev[j] == vehicles[j]);
                        assert(!gate_blocks(conflicts, prev[idx], prev[j]));
                    }
                } else {
                    assert(after[idx] == vehicles[idx]);
                }
            } else {
                assert(order[a] != order[k - 1]);
                assert(prev[order[a] as int].reservation_granted);
            }
        }
    }
}

/// Reservations respect the occupied zone: a reservation pass over candidates served nearest
/// first grants a reservation only to a vehicle for which no conflicting vehicle occupies the
/// zone (unreserved approaching vehicles that overshot into it aside).
pub proof fn lemma_grant_pass_zone_clear(
    conflicts: Set<(u32, u32)>,
    vehicles: Seq<Occupant>,
    order: Seq<usize>,
)
    requires
        is_service_order(vehicles, order),
    ensures
        ({
            let after = granted_after(conflicts, vehicles, order, order.len() as int);
            forall|a: int|
                0 <= a < order.len() && after[#[trigger] order[a] as int].reservation_granted
                    ==> zone_clear_for(conflicts, vehicles[order[a] as int], vehicles)
        }),
{
    lemma_grant_pass_zone_invariant(conflicts, vehicles, order, order.len() as int);
}

proof fn lemma_grant_pass_keeps_grants(
    conflicts: Set<(u32, u32)>,
    vehicles: Seq<Occupant>,
    order: Seq<usize>,
    k: int,
    i: int,
)
    requires
        is_service_order(vehicles, order),
        0 <= k <= order.len(),
        0 <= i < vehicles.len(),
    ensures
        granted_after(conflicts, vehicles, order, k).len() == vehicles.len(),
        granted_after(conflicts, vehicles, order, k)[i].lane_id == vehicles[i].lane_id,
        vehicles[i].reservation_granted ==> granted_after(conflicts, vehicles, order, k)[i].reservation_granted,
    decreases k,
{
    if k > 0 {
        lemma_grant_pass_keeps_grants(conflicts, vehicles, order, k - 1, i);
        lemma_grant_pass_zone_invariant(conflicts, vehicles, order, k - 1);
    }
}

proof fn lemma_grant_pass_grants_stay(
    conflicts: Set<(u32, u32)>,
    vehicles: Seq<Occupant>,
    order: Seq<usize>,
    k: int,
    l: int,
    i: int,
)
    requires
        is_service_order(vehicles, order),
        0 <= k <= l <= order.len(),
        0 <= i < vehicles.len(),
        granted_after(conflicts, vehicles, order, k)[i].reservation_granted,
    ensures
        granted_after(conflicts, vehicles, order, l)[i].reservation_granted,
    decreases l - k,
{
    if k < l {
        lemma_grant_pass_zone_invariant(conflicts, vehicles, order, k);
        lemma_grant_pass_grants_stay(conflicts, vehicles, order, k + 1, l, i);
    }
}

/// Vehicles on paths that cross no other vehicle's are reserved at once: a reservation pass
/// grants every served candidate whose lane conflicts with the lane of no vehicle in the frame.
pub proof fn lemma_grant_pass_serves_free_paths(
    conflicts: Set<(u32, u32)>,
    vehicles: Seq<Occupant>,
    order: Seq<usize>,
)
    requires
        is_service_order(vehicles, order),
    ensures
        ({
            let after = granted_after(conflicts, vehicles, order, order.len() as int);
            forall|a: int|
                0 <= a < order.len() && (forall|j: int|
                    0 <= j < vehicles.len() ==> !lanes_cross(
                        conflicts,
                        vehicles[order[a] as int].lane_id,
                        #[trigger] vehicles[j].lane_id,
                    )) ==> after[#[trigger] order[a] as int].reservation_granted
        }),
{
    let n = order.len() as int;
    assert forall|a: int|
        0 <= a < order.len() && (forall|j: int|
            0 <= j < vehicles.len() ==> !lanes_cross(
                conflicts,
                vehicles[order[a] as int].lane_id,
                #[trigger] vehicles[j].lane_id,
            )) implies granted_after(conflicts, vehicles, order, n)[#[trigger] order[a] as int].reservation_granted by {
        let idx = order[a] as int;
        lemma_grant_pass_zone_invariant(conflicts, vehicles, order, a);
        let prev = granted_after(conflicts, vehicles, order, a);
        assert(prev[idx] == vehicles[idx]);
        assert forall|j: int| 0 <= j < prev.len() implies !#[trigger] gate_blocks(conflicts, prev[idx], prev[j]) by {
            lemma_grant_pass_keeps_grants(conflicts, vehicles, order, a, j);
            assert(!lanes_cross(conflicts, vehicles[idx].lane_id, vehicles[j].lane_id));
        }
        assert(!gate_blocked(conflicts, prev[idx], prev));
        assert(granted_after(conflicts, vehicles, order, a + 1)[idx].reservation_granted);
        lemma_grant_pass_grants_stay(conflicts, vehicles, order, a + 1, n, idx);
    }
}

/// The vehicles after grants held by approaching vehicles inside the zone are revoked.
pub open spec fn without_intruder_grants(vehicles: Seq<Occupant>) -> Seq<Occupant> {
    Seq::new(
        vehicles.len(),
        |i: int|
            if vehicles[i].state == VehicleState::Approaching && vehicles[i].reservation_granted
                && vehicles[i].in_zone {
                Occupant { reservation_granted: false, ..vehicles[i] }
            } else {
                vehicles[i]
            },
    )
}

/// The vehicles after the revocation passes of a frame, in order: distant holders, holders
/// behind their lane's front, stopped holders, intruders in the zone.
pub open spec fn after_revocations(
    conflicts: Set<(u32, u32)>,
    vehicles: Seq<Occupant>,
    lead_one: Seq<Vec<bool>>,
    lead_half: Seq<Vec<bool>>,
) -> Seq<Occupant> {
    let distant = after_revocation(conflicts, RivalKind::CrossTraffic, false, vehicles, lead_one);
    let front = after_revocation(conflicts, RivalKind::SameLane, false, distant, lead_half);
    let stale = after_revocation(conflicts, RivalKind::CrossTraffic, true, front, lead_one);
    without_intruder_grants(stale)
}

/// `order` lists exactly the reservation candidates, in service order.
pub open spec fn serves_candidates(wait: Map<u64, u32>, vehicles: Seq<Occupant>, order: Seq<usize>) -> bool {
    &&& forall|k: int|
        0 <= k < order.len() ==> order[k] < vehicles.len() && is_candidate(
            vehicles[#[trigger] order[k] as int],
        )
    &&& forall|i: int| 0 <= i < vehicles.len() && is_candidate(#[trigger] vehicles[i]) ==> order.contains(i as usize)
    &&& forall|a: int, b: int|
        0 <= a < b < order.len() ==> served_before(
            wait,
            vehicles,
            #[trigger] order[a] as int,
            #[trigger] order[b] as int,
        )
}

/// Number of approaching vehicles inside the zone: those that may enter it this frame.
pub open spec fn entering_count(vehicles: Seq<Occupant>) -> nat
    decreases vehicles.len(),
{
    if vehicles.len() == 0 {
        0
    } else {
        entering_count(vehicles.drop_last()) + if vehicles.last().state == VehicleState::Approaching
            && vehicles.last().in_zone {
            1nat
        } else {
            0nat
        }
    }
}

/// What a controller frame decides besides the controller state and the vehicles' flags: the
/// order in which candidates were offered a reservation, each vehicle's hold action, and which
/// managed vehicles must stop.
#[derive(Debug)]
pub struct FrameDecisions {
    pub order: Vec<usize>,
    pub holds: Vec<HoldAction>,
    pub yields: Vec<bool>,
}

proof fn lemma_entering_count_same(a: Seq<Occupant>, b: Seq<Occupant>)
    requires
        a.len() == b.len(),
        forall|i: int|
            0 <= i < a.len() ==> ((#[trigger] a[i]).state == VehicleState::Approaching && a[i].in_zone)
                == (b[i].state == VehicleState::Approaching && b[i].in_zone),
    ensures
        entering_count(a) == entering_count(b),
    decreases a.len(),
{
    if a.len() > 0 {
        assert forall|i: int| 0 <= i < a.len() - 1 implies ((#[trigger] a.drop_last()[i]).state
            == VehicleState::Approaching && a.drop_last()[i].in_zone) == (b.drop_last()[i].state
            == VehicleState::Approaching && b.drop_last()[i].in_zone) by {
            assert(a.drop_last()[i] == a[i]);
            assert(b.drop_last()[i] == b[i]);
        }
        lemma_entering_count_same(a.drop_last(), b.drop_last());
        assert(a[a.len() - 1] == a.last());
    }
}

proof fn lemma_entries_bounded(
    conflicts: Set<(u32, u32)>,
    vehicles: Seq<Occupant>,
    entries: Map<u64, u32>,
    next: int,
    k: int,
)
    requires
        0 <= k <= vehicles.len(),
    ensures
        entries_after_admission(conflicts, vehicles, entries, next, k).1 <= next + entering_count(
            vehicles.take(k),
        ),
    decreases k,
{
    if k > 0 {
        lemma_entries_bounded(conflicts, vehicles, entries, next, k - 1);
        lemma_admission_frame(conflicts, vehicles, k - 1);
        assert(vehicles.take(k).drop_last() =~= vehicles.take(k - 1));
        assert(vehicles.take(k).last() == vehicles[k - 1]);
    }
}

impl SmartController {
    /// One controller frame over the vehicles: compute the conflict table if needed, release
    /// managed vehicles that left the zone, track waiters, revoke outranked and intruding
    /// grants, offer reservations to the candidates nearest first, decide holds, let vehicles
    /// into the zone and schedule the managed ones. `lead_one[i][j]` and `lead_half[i][j]` say
    /// that vehicle `j` is closer to the zone than vehicle `i` by more than one and by more than
    /// half a unit; `near[i][j]` says that the two are within scheduler range.
    pub fn update(
        &mut self,
        vehicles: &mut Vec<Occupant>,
        model: &IntersectionModel,
        lead_one: &Vec<Vec<bool>>,
        lead_half: &Vec<Vec<bool>>,
        near: &Vec<Vec<bool>>,
    ) -> (decisions: FrameDecisions)
        requires
            !old(self).conflicts_ready() ==> model_in_world(model),
            is_square(lead_one@, old(vehicles)@.len() as int),
            is_square(lead_half@, old(vehicles)@.len() as int),
            is_square(near@, old(vehicles)@.len() as int),
            arrivals_after(
                after_exits(old(vehicles)@),
                old(self).arrival_order().remove_keys(exit_ids(old(vehicles)@)),
                old(self).next_arrival() as int,
                old(vehicles)@.len() as int,
            ).1 <= u32::MAX,
            old(self).next_entry() + entering_count(old(vehicles)@) <= u32::MAX,
        ensures
            final(self).conflicts_ready(),
            old(self).conflicts_ready() ==> final(self).conflicts() == old(self).conflicts(),
            !old(self).conflicts_ready() ==> forall|key: (u32, u32)|
                #[trigger] final(self).conflicts().contains(key) <==> is_conflict_key(model, key),
            ({
                let c = final(self).conflicts();
                let n = old(vehicles)@.len() as int;
                let exited = after_exits(old(vehicles)@);
                let gone = exit_ids(old(vehicles)@);
                let (wait, next_wait) = arrivals_after(
                    exited,
                    old(self).arrival_order().remove_keys(gone),
                    old(self).next_arrival() as int,
                    n,
                );
                let revoked = after_revocations(c, exited, lead_one@, lead_half@);
                let granted = granted_after(c, revoked, decisions.order@, decisions.order@.len() as int);
                let (entries, next_entry) = entries_after_admission(
                    c,
                    granted,
                    old(self).entry_order().remove_keys(gone),
                    old(self).next_entry() as int,
                    n,
                );
                &&& final(self).arrival_order() == wait
                &&& final(self).next_arrival() == next_wait
                &&& serves_candidates(wait, revoked, decisions.order@)
                &&& is_service_order(revoked, decisions.order@)
                &&& decisions.holds@.len() == n
                &&& forall|i: int| 0 <= i < n ==> #[trigger] decisions.holds@[i] == hold_action(c, granted, i)
                &&& final(vehicles)@ == after_admission(c, granted, n)
                &&& final(vehicles)@ == frame_result(c, old(vehicles)@, lead_one@, lead_half@, decisions.order@)
                &&& final(self).entry_order() == entries
                &&& final(self).next_entry() == next_entry
                &&& decisions.yields@.len() == n
                &&& forall|i: int|
                    0 <= i < n ==> #[trigger] decisions.yields@[i] == must_yield(
                        c,
                        entries,
                        final(vehicles)@,
                        near@,
                        i,
                    )
            }),
    {
        self.ensure_lane_conflicts(model);
        let ghost c = self.conflicts();
        let ghost start = vehicles@;
        let ghost n = vehicles@.len() as int;

        self.release_zone_exits(vehicles);
        let ghost exited = vehicles@;
        self.track_approaching_waiters(vehicles.as_slice());

        self.revoke_distant_reservations(vehicles, lead_one);
        self.revoke_non_front_lane_reservations(vehicles, lead_half);
        self.revoke_stale_grants_from_stopped_holders(vehicles, lead_one);
        self.revoke_intruder_zone_grants(vehicles);
        proof {
            assert(vehicles@ =~= after_revocations(c, exited, lead_one@, lead_half@));
        }
        let ghost revoked = vehicles@;

        let order = self.reservation_candidates(vehicles.as_slice());
        self.grant_reservations(vehicles, &order);
        let ghost granted = vehicles@;
        let holds = self.reservation_hold_actions(vehicles.as_slice());

        proof {
            lemma_grant_pass_zone_invariant(c, revoked, order@, order@.len() as int);
            assert forall|i: int| 0 <= i < n implies ((#[trigger] granted[i]).state
                == VehicleState::Approaching && granted[i].in_zone) == (start[i].state
                == VehicleState::Approaching && start[i].in_zone) by {
                assert(granted[i].state == revoked[i].state && granted[i].in_zone == revoked[i].in_zone);
            }
            lemma_entering_count_same(granted, start);
            lemma_entries_bounded(c, granted, self.entry_order(), self.next_entry() as int, n);
            assert(granted.take(n) =~= granted);
        }
        self.admit_zone_entries(vehicles);
        proof {
            lemma_admission_frame(c, granted, n);
        }
        let yields = self.scheduler_yields(vehicles.as_slice(), near);
        FrameDecisions { order, holds, yields }
    }
}

proof fn lemma_admission_stable(conflicts: Set<(u32, u32)>, vehicles: Seq<Occupant>, j: int, k: int)
    requires
        0 <= j < k <= vehicles.len(),
    ensures
        after_admission(conflicts, vehicles, k)[j] == after_admission(conflicts, vehicles, j + 1)[j],
        after_admission(conflicts, vehicles, j + 1)[j] == if admits(
            conflicts,
            after_admission(conflicts, vehicles, j),
            j,
        ) {
            entered(vehicles[j])
        } else {
            vehicles[j]
        },
    decreases k,
{
    lemma_admission_frame(conflicts, vehicles, j);
    if k > j + 1 {
        lemma_admission_stable(conflicts, vehicles, j, k - 1);
        lemma_admission_frame(conflicts, vehicles, k - 1);
    }
}

/// Zone entry is exclusive: within one pass, of two approaching vehicles on conflicting lanes
/// that both enter the zone, the later one in the list holds a reservation; without one it
/// would be kept out by the earlier, now managed, vehicle.
pub proof fn lemma_admission_exclusive(conflicts: Set<(u32, u32)>, vehicles: Seq<Occupant>, a: int, b: int)
    requires
        ids_unique(vehicles),
        0 <= a < b < vehicles.len(),
        vehicles[a].state == VehicleState::Approaching,
        vehicles[b].state == VehicleState::Approaching,
        after_admission(conflicts, vehicles, vehicles.len() as int)[a].state == VehicleState::Managed,
        after_admission(conflicts, vehicles, vehicles.len() as int)[b].state == VehicleState::Managed,
        lanes_cross(conflicts, vehicles[a].lane_id, vehicles[b].lane_id),
    ensures
        vehicles[b].reservation_granted,
{
    let n = vehicles.len() as int;
    lemma_admission_stable(conflicts, vehicles, a, n);
    lemma_admission_stable(conflicts, vehicles, b, n);
    lemma_admission_stable(conflicts, vehicles, a, b);
    lemma_admission_frame(conflicts, vehicles, a);
    lemma_admission_frame(conflicts, vehicles, b);
    let prev = after_admission(conflicts, vehicles, b);
    assert(admits(conflicts, after_admission(conflicts, vehicles, a), a));
    assert(admits(conflicts, prev, b));
    assert(prev[a] == entered(vehicles[a]));
    assert(prev[b] == vehicles[b]);
    lemma_lanes_cross_symmetric(conflicts, vehicles[a].lane_id, vehicles[b].lane_id);
    assert(vehicles[a].id != vehicles[b].id);
    assert(gate_blocks(conflicts, prev[b], prev[a]));
    assert(gate_blocked(conflicts, prev[b], prev));
}

/// `after` is the same vehicle as `before`: identity, lane and every measured quantity are
/// kept; only the state and the reservation flag may differ.
pub open spec fn same_vehicle(before: Occupant, after: Occupant) -> bool {
    &&& after.id == before.id
    &&& after.lane_id == before.lane_id
    &&& after.in_zone == before.in_zone
    &&& after.in_trigger == before.in_trigger
    &&& after.zone_distance == before.zone_distance
    &&& after.reservation_hold == before.reservation_hold
    &&& after.in_stop_range == before.in_stop_range
    &&& after.stopped == before.stopped
}

/// How a vehicle's state may move over a controller frame: an approaching vehicle stays
/// approaching or, only when it is inside the zone, becomes managed; a managed vehicle stays
/// managed inside the zone and becomes exiting outside it; exiting and done vehicles keep their
/// state. The vehicle itself is the same one.
pub open spec fn frame_transition(before: Occupant, after: Occupant) -> bool {
    &&& same_vehicle(before, after)
    &&& match before.state {
        VehicleState::Approaching => after.state == VehicleState::Approaching || (after.state
            == VehicleState::Managed && before.in_zone),
        VehicleState::Managed => after.state == if before.in_zone {
            VehicleState::Managed
        } else {
            VehicleState::Exiting
        },
        VehicleState::Exiting => after.state == VehicleState::Exiting,
        VehicleState::Done => after.state == VehicleState::Done,
    }
}

/// The vehicles after a controller frame in which reservations were offered in `order`.
pub open spec fn frame_result(
    conflicts: Set<(u32, u32)>,
    vehicles: Seq<Occupant>,
    lead_one: Seq<Vec<bool>>,
    lead_half: Seq<Vec<bool>>,
    order: Seq<usize>,
) -> Seq<Occupant> {
    let revoked = after_revocations(conflicts, after_exits(vehicles), lead_one, lead_half);
    after_admission(
        conflicts,
        granted_after(conflicts, revoked, order, order.len() as int),
        vehicles.len() as int,
    )
}

/// A controller frame keeps every vehicle in place and in order: the list keeps its length,
/// each entry stays the same vehicle with the same measurements, and its state only moves
/// forward along approaching, managed (inside the zone only), exiting. The controller decides
/// states and reservations; it never moves a vehicle.
pub proof fn lemma_frame_moves_forward(
    conflicts: Set<(u32, u32)>,
    vehicles: Seq<Occupant>,
    lead_one: Seq<Vec<bool>>,
    lead_half: Seq<Vec<bool>>,
    order: Seq<usize>,
)
    requires
        is_service_order(after_revocations(conflicts, after_exits(vehicles), lead_one, lead_half), order),
    ensures
        ({
            let result = frame_result(conflicts, vehicles, lead_one, lead_half, order);
            &&& result.len() == vehicles.len()
            &&& forall|i: int| 0 <= i < vehicles.len() ==> frame_transition(vehicles[i], #[trigger] result[i])
        }),
{
    let n = vehicles.len() as int;
    let exited = after_exits(vehicles);
    let distant = after_revocation(conflicts, RivalKind::CrossTraffic, false, exited, lead_one);
    let front = after_revocation(conflicts, RivalKind::SameLane, false, distant, lead_half);
    let stale = after_revocation(conflicts, RivalKind::CrossTraffic, true, front, lead_one);
    let revoked = without_intruder_grants(stale);
    let granted = granted_after(conflicts, revoked, order, order.len() as int);
    let result = frame_result(conflicts, vehicles, lead_one, lead_half, order);
    lemma_grant_pass_zone_invariant(conflicts, revoked, order, order.len() as int);
    lemma_admission_frame(conflicts, granted, n);
    assert forall|i: int| 0 <= i < n implies frame_transition(vehicles[i], #[trigger] result[i]) by {
        assert(same_vehicle(vehicles[i], exited[i]));
        assert(same_vehicle(vehicles[i], revoked[i]) && revoked[i].state == exited[i].state);
        assert(same_vehicle(revoked[i], granted[i]) && granted[i].state == revoked[i].state);
        lemma_admission_stable(conflicts, granted, i, n);
        lemma_admission_frame(conflicts, granted, i);
        if admits(conflicts, after_admission(conflicts, granted, i), i) {
            assert(result[i] == entered(granted[i]));
        } else {
            assert(result[i] == granted[i]);
        }
    }
}

} // verus!
