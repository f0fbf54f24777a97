//! Drawing layout decided before anything is drawn: asset file names, lane-label placement
//! and the dash pattern of lane markings.

use vstd::prelude::*;

use crate::config::{APPROACH_MARGIN, LANE_WIDTH};
use crate::intersection::{Cardinal, Point};
use crate::smart::in_world;

verus! {

/// Directory of the road tile bitmaps, relative to the working directory.
pub const ROAD_ASSET_DIR: &'static str = "assets/roads";

/// Directory of the vehicle sprite bitmaps, relative to the working directory.
pub const VEHICLE_ASSET_DIR: &'static str = "assets/vehicles";

/// Distance from a lane's spawn point toward the junction at which its label is centred.
pub const LANE_LABEL_INSET: i32 = 80;

/// Length of a painted dash of a lane marking.
pub const LANE_DASH_LEN: i32 = 12;

/// Gap between two dashes of a lane marking.
pub const LANE_DASH_GAP: i32 = 10;

/// Sprite file of the vehicles spawned on an approach.
pub open spec fn vehicle_asset_file(approach: Cardinal) -> Seq<char> {
    match approach {
        Cardinal::South => "vehicle_south.bmp"@,
        Cardinal::North => "vehicle_north.bmp"@,
        Cardinal::West => "vehicle_west.bmp"@,
        Cardinal::East => "vehicle_east.bmp"@,
    }
}

/// File name of the sprite of vehicles spawned on `approach`.
pub fn vehicle_asset_name(approach: Cardinal) -> (name: &'static str)
    ensures
        name@ == vehicle_asset_file(approach),
{
    match approach {
        Cardinal::South => "vehicle_south.bmp",
        Cardinal::North => "vehicle_north.bmp",
        Cardinal::West => "vehicle_west.bmp",
        Cardinal::East => "vehicle_east.bmp",
    }
}

/// Each approach has its own sprite file.
pub proof fn lemma_vehicle_assets_distinct(a: Cardinal, b: Cardinal)
    requires
        a != b,
    ensures
        vehicle_asset_file(a) != vehicle_asset_file(b),
{
    reveal_strlit("vehicle_south.bmp");
    reveal_strlit("vehicle_north.bmp");
    reveal_strlit("vehicle_west.bmp");
    reveal_strlit("vehicle_east.bmp");
    assert(vehicle_asset_file(a)[8] != vehicle_asset_file(b)[8] || vehicle_asset_file(a).len()
        != vehicle_asset_file(b).len());
}

/// Lane width in whole pixels.
pub fn lane_width_i() -> (width: i32)
    ensures
        width == LANE_WIDTH,
{
    LANE_WIDTH
}

/// Top-left corner of a lane label of size `label_w` x `label_h`: centred on the point
/// [`LANE_LABEL_INSET`] from the lane's spawn point toward the junction. Labels of the north
/// approach are kept at least half the approach margin below the top edge.
pub open spec fn label_position(spawn: Point, approach: Cardinal, label_w: u32, label_h: u32) -> (
    int,
    int,
) {
    let half_w = (label_w / 2) as int;
    let half_h = (label_h / 2) as int;
    match approach {
        Cardinal::North => {
            let y = spawn.y + LANE_LABEL_INSET - half_h;
            let floor = APPROACH_MARGIN / 2;
            (spawn.x - half_w, if y > floor {
                y
            } else {
                floor as int
            })
        },
        Cardinal::South => (spawn.x - half_w, spawn.y - LANE_LABEL_INSET - half_h),
        Cardinal::East => (spawn.x - LANE_LABEL_INSET - half_w, spawn.y - half_h),
        Cardinal::West => (spawn.x + LANE_LABEL_INSET - half_w, spawn.y - half_h),
    }
}

/// The label corner of [`label_position`] fits an `i32` before the north clamp.
pub open spec fn label_fits(spawn: Point, approach: Cardinal, label_w: u32, label_h: u32) -> bool {
    let half_w = (label_w / 2) as int;
    let half_h = (label_h / 2) as int;
    match approach {
        Cardinal::North => spawn.x - half_w >= i32::MIN && spawn.y + LANE_LABEL_INSET - half_h
            >= i32::MIN,
        Cardinal::South => spawn.x - half_w >= i32::MIN && spawn.y - LANE_LABEL_INSET - half_h
            >= i32::MIN,
        Cardinal::East => spawn.x - LANE_LABEL_INSET - half_w >= i32::MIN && spawn.y - half_h
            >= i32::MIN,
        Cardinal::West => spawn.x + LANE_LABEL_INSET - half_w >= i32::MIN && spawn.y - half_h
            >= i32::MIN,
    }
}

/// Screen position of a lane label near the lane's spawn point.
pub fn lane_label_screen_pos(spawn: Point, approach: Cardinal, label_w: u32, label_h: u32) -> (pos: (
    i32,
    i32,
))
    requires
        in_world(spawn),
        label_fits(spawn, approach, label_w, label_h),
    ensures
        pos.0 == label_position(spawn, approach, label_w, label_h).0,
        pos.1 == label_position(spawn, approach, label_w, label_h).1,
{
    let half_w = (label_w / 2) as i32;
    let half_h = (label_h / 2) as i32;
    match approach {
        Cardinal::North => {
            let y = spawn.y + LANE_LABEL_INSET - half_h;
            let floor = APPROACH_MARGIN / 2;
            (spawn.x - half_w, if y > floor {
                y
            } else {
                floor
            })
        },
        Cardinal::South => (spawn.x - half_w, spawn.y - LANE_LABEL_INSET - half_h),
        Cardinal::East => (spawn.x - LANE_LABEL_INSET - half_w, spawn.y - half_h),
        Cardinal::West => (spawn.x + LANE_LABEL_INSET - half_w, spawn.y - half_h),
    }
}

/// Dash `k` of a marking that starts at `start` and ends at `end`: dashes of
/// [`LANE_DASH_LEN`] separated by gaps of [`LANE_DASH_GAP`], the last one cut at `end`.
pub open spec fn dash(start: int, end: int, k: int) -> (int, int) {
    let from = start + k * (LANE_DASH_LEN + LANE_DASH_GAP);
    let to = from + LANE_DASH_LEN;
    (from, if to < end {
        to
    } else {
        end
    })
}

/// The painted spans of a dashed marking between `a` and `b` (in either order), from the
/// lower end up: every dash that starts before the upper end, each as a half-open span.
pub fn dash_spans(a: i32, b: i32) -> (spans: Vec<(i32, i32)>)
    requires
        a <= i32::MAX - (LANE_DASH_LEN + LANE_DASH_GAP),
        b <= i32::MAX - (LANE_DASH_LEN + LANE_DASH_GAP),
    ensures
        ({
            let (start, end) = if a <= b {
                (a as int, b as int)
            } else {
                (b as int, a as int)
            };
            &&& forall|k: int|
                0 <= k < spans@.len() ==> (#[trigger] spans@[k]).0 == dash(start, end, k).0
                    && spans@[k].1 == dash(start, end, k).1
            &&& forall|k: int|
                0 <= k < spans@.len() ==> #[trigger] dash(start, end, k).0 < end
            &&& dash(start, end, spans@.len() as int).0 >= end
        }),
{
    let (start, end) = if a <= b {
        (a, b)
    } else {
        (b, a)
    };
    let mut spans: Vec<(i32, i32)> = Vec::new();
    let mut y = start;
    assert(dash(start as int, end as int, 0).0 == start);
    while y < end
        invariant
            start <= end <= i32::MAX - (LANE_DASH_LEN + LANE_DASH_GAP),
            start <= y <= end,
            y == end || y == dash(start as int, end as int, spans@.len() as int).0,
            y == end ==> dash(start as int, end as int, spans@.len() as int).0 >= end,
            forall|k: int|
                0 <= k < spans@.len() ==> (#[trigger] spans@[k]).0 == dash(
                    start as int,
                    end as int,
                    k,
                ).0 && spans@[k].1 == dash(start as int, end as int, k).1,
            forall|k: int|
                0 <= k < spans@.len() ==> #[trigger] dash(start as int, end as int, k).0 < end,
        decreases end - y,
    {
        let dash_end = if y + LANE_DASH_LEN < end {
            y + LANE_DASH_LEN
        } else {
            end
        };
        proof {
            let k = spans@.len() as int;
            assert(dash(start as int, end as int, k + 1).0 == dash(start as int, end as int, k).0
                + (LANE_DASH_LEN + LANE_DASH_GAP)) by (nonlinear_arith);
        }
        spans.push((y, dash_end));
        y = if dash_end + LANE_DASH_GAP < end {
            dash_end + LANE_DASH_GAP
        } else {
            end
        };
    }
    spans
}

} // verus!
