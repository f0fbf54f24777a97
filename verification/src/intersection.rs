//! Cross intersection topology: lane registry, lane path polylines, junction zone.

use std::collections::HashMap;

use vstd::prelude::*;

use crate::config::{
    APPROACH_MARGIN, INBOUND_ROAD_WIDTH, INTERSECTION_CENTER_X, INTERSECTION_CENTER_Y,
    INTERSECTION_HALF_SIZE, LANES_PER_APPROACH, LANE_WIDTH, OFF_SCREEN_MARGIN, ROAD_ARM_WIDTH,
    WINDOW_HEIGHT, WINDOW_WIDTH,
};

verus! {

/// Integer world position (origin top-left, +x east, +y south).
#[derive(Debug, Clone, Copy, PartialEq, Eq, Structural)]
pub struct Point {
    pub x: i32,
    pub y: i32,
}

impl Point {
    pub fn new(x: i32, y: i32) -> (p: Self)
        ensures
            p.x == x,
            p.y == y,
    {
        Point { x, y }
    }
}

/// Cardinal approach direction.
#[derive(Debug, Clone, Copy, PartialEq, Eq, Hash, Structural)]
pub enum Cardinal {
    North,
    South,
    East,
    West,
}


impl Cardinal {
    /// All approaches, in registry order.
    pub const ALL: [Cardinal; 4] = [Cardinal::North, Cardinal::South, Cardinal::East, Cardinal::West];

    /// Position of this approach in [`Cardinal::ALL`].
    #[verifier::allow_in_spec]
    pub fn index(self) -> u32
        returns
            match self {
                Cardinal::North => 0u32,
                Cardinal::South => 1u32,
                Cardinal::East => 2u32,
                Cardinal::West => 3u32,
            },
    {
        match self {
            Cardinal::North => 0,
            Cardinal::South => 1,
            Cardinal::East => 2,
            Cardinal::West => 3,
        }
    }

    /// Single-letter approach prefix for lane labels (N/S/E/W).
    #[verifier::allow_in_spec]
    pub fn label_prefix(self) -> char
        returns
            match self {
                Cardinal::North => 'N',
                Cardinal::South => 'S',
                Cardinal::East => 'E',
                Cardinal::West => 'W',
            },
    {
        match self {
            Cardinal::North => 'N',
            Cardinal::South => 'S',
            Cardinal::East => 'E',
            Cardinal::West => 'W',
        }
    }

    /// The approach with the given registry index.
    pub open spec fn from_index(i: int) -> Cardinal {
        if i == 0 {
            Cardinal::North
        } else if i == 1 {
            Cardinal::South
        } else if i == 2 {
            Cardinal::East
        } else {
            Cardinal::West
        }
    }

    /// True for the two approaches whose lanes run north-south.
    pub open spec fn is_vertical(self) -> bool {
        self == Cardinal::North || self == Cardinal::South
    }
}

/// Fixed lane route through the intersection.
#[derive(Debug, Clone, Copy, PartialEq, Eq, Hash, Structural)]
pub enum Route {
    Right,
    Straight,
    Left,
}

impl Route {
    /// All routes, in registry order.
    pub const ALL: [Route; 3] = [Route::Right, Route::Straight, Route::Left];

    /// Position of this route in [`Route::ALL`].
    #[verifier::allow_in_spec]
    pub fn index(self) -> u32
        returns
            match self {
                Route::Right => 0u32,
                Route::Straight => 1u32,
                Route::Left => 2u32,
            },
    {
        match self {
            Route::Right => 0,
            Route::Straight => 1,
            Route::Left => 2,
        }
    }

    /// The route with the given registry index.
    pub open spec fn from_index(i: int) -> Route {
        if i == 0 {
            Route::Right
        } else if i == 1 {
            Route::Straight
        } else {
            Route::Left
        }
    }
}

/// Stable lane identifier.
#[derive(Debug, Clone, Copy, PartialEq, Eq, Hash, Structural)]
pub struct LaneId(pub u32);

/// Stable lane id of an approach and route: approaches in order, three routes each.
pub open spec fn lane_number(approach: Cardinal, route: Route) -> u32 {
    (approach.index() * LANES_PER_APPROACH + route.index()) as u32
}

/// Compute the stable lane id from approach and route.
pub fn lane_id(approach: Cardinal, route: Route) -> (id: LaneId)
    ensures
        id.0 == lane_number(approach, route),
        id.0 < 12,
{
    LaneId(approach.index() * LANES_PER_APPROACH + route.index())
}

/// Two-character debug label of an inbound lane: approach letter, then 1/2/3 for right/straight/left.
pub open spec fn lane_label(approach: Cardinal, route: Route) -> Seq<char> {
    seq![approach.label_prefix(), route_digit(route)]
}

/// Digit of a route in lane labels.
pub open spec fn route_digit(route: Route) -> char {
    match route {
        Route::Right => '1',
        Route::Straight => '2',
        Route::Left => '3',
    }
}


/// Debug label for an inbound lane (e.g. `S1` = South approach, right-turn lane).
pub fn lane_display_label(approach: Cardinal, route: Route) -> (label: &'static str)
    ensures
        label@ == lane_label(approach, route),
{
    match (approach, route) {
        (Cardinal::North, Route::Right) => {
            proof {
                reveal_strlit("N1");
            }
            "N1"
        }
        (Cardinal::North, Route::Straight) => {
            proof {
                reveal_strlit("N2");
            }
            "N2"
        }
        (Cardinal::North, Route::Left) => {
            proof {
                reveal_strlit("N3");
            }
            "N3"
        }
        (Cardinal::South, Route::Right) => {
            proof {
                reveal_strlit("S1");
            }
            "S1"
        }
        (Cardinal::South, Route::Straight) => {
            proof {
                reveal_strlit("S2");
            }
            "S2"
        }
        (Cardinal::South, Route::Left) => {
            proof {
                reveal_strlit("S3");
            }
            "S3"
        }
        (Cardinal::East, Route::Right) => {
            proof {
                reveal_strlit("E1");
            }
            "E1"
        }
        (Cardinal::East, Route::Straight) => {
            proof {
                reveal_strlit("E2");
            }
            "E2"
        }
        (Cardinal::East, Route::Left) => {
            proof {
                reveal_strlit("E3");
            }
            "E3"
        }
        (Cardinal::West, Route::Right) => {
            proof {
                reveal_strlit("W1");
            }
            "W1"
        }
        (Cardinal::West, Route::Straight) => {
            proof {
                reveal_strlit("W2");
            }
            "W2"
        }
        (Cardinal::West, Route::Left) => {
            proof {
                reveal_strlit("W3");
            }
            "W3"
        }
    }
}


/// The point with the given integer coordinates.
pub open spec fn pt(x: int, y: int) -> Point {
    Point { x: x as i32, y: y as i32 }
}

/// West edge x of the junction box.
pub open spec fn junction_west() -> int {
    INTERSECTION_CENTER_X - INTERSECTION_HALF_SIZE
}

/// East edge x of the junction box.
pub open spec fn junction_east() -> int {
    INTERSECTION_CENTER_X + INTERSECTION_HALF_SIZE
}

/// North edge y of the junction box.
pub open spec fn junction_north() -> int {
    INTERSECTION_CENTER_Y - INTERSECTION_HALF_SIZE
}

/// South edge y of the junction box.
pub open spec fn junction_south() -> int {
    INTERSECTION_CENTER_Y + INTERSECTION_HALF_SIZE
}

/// The side of the window a lane leaves through: the opposite arm for straight travel,
/// the perpendicular arm for turns (right-hand traffic).
pub open spec fn exit_side(approach: Cardinal, route: Route) -> Cardinal {
    match (approach, route) {
        (Cardinal::North, Route::Right) => Cardinal::West,
        (Cardinal::North, Route::Left) => Cardinal::East,
        (Cardinal::North, Route::Straight) => Cardinal::South,
        (Cardinal::South, Route::Right) => Cardinal::East,
        (Cardinal::South, Route::Left) => Cardinal::West,
        (Cardinal::South, Route::Straight) => Cardinal::North,
        (Cardinal::East, Route::Right) => Cardinal::North,
        (Cardinal::East, Route::Left) => Cardinal::South,
        (Cardinal::East, Route::Straight) => Cardinal::West,
        (Cardinal::West, Route::Right) => Cardinal::South,
        (Cardinal::West, Route::Left) => Cardinal::North,
        (Cardinal::West, Route::Straight) => Cardinal::East,
    }
}

/// Offset from the road centerline to an inbound lane center (right-hand traffic).
///
/// Each arm is six lanes wide (three inbound + three outbound). Inbound lanes sit on
/// the west half for North, east half for South, north half for East, south half for West.
pub open spec fn inbound_offset(approach: Cardinal, route: Route) -> int {
    let toward_center = match approach {
        Cardinal::North | Cardinal::East => -(ROAD_ARM_WIDTH / 2) + INBOUND_ROAD_WIDTH / 2,
        Cardinal::South | Cardinal::West => ROAD_ARM_WIDTH / 2 - INBOUND_ROAD_WIDTH / 2,
    };
    let right = match approach {
        Cardinal::North | Cardinal::East => -LANE_WIDTH,
        Cardinal::South | Cardinal::West => LANE_WIDTH as int,
    };
    match route {
        Route::Right => toward_center + right,
        Route::Straight => toward_center,
        Route::Left => toward_center - right,
    }
}

/// Offset from the road centerline to an outbound lane center: the inbound layout
/// mirrored across the arm center.
pub open spec fn outbound_offset(approach: Cardinal, route: Route) -> int {
    -inbound_offset(approach, route)
}

/// World x (N/S arms) or y (E/W arms) of an outbound lane centerline.
pub open spec fn outbound_line(approach: Cardinal, route: Route) -> int {
    if approach.is_vertical() {
        INTERSECTION_CENTER_X + outbound_offset(approach, route)
    } else {
        INTERSECTION_CENTER_Y + outbound_offset(approach, route)
    }
}

/// Spawn point of an inbound lane, on the approach margin.
pub open spec fn spawn_point_of(approach: Cardinal, route: Route) -> Point {
    let off = inbound_offset(approach, route);
    match approach {
        Cardinal::North => pt(INTERSECTION_CENTER_X + off, APPROACH_MARGIN as int),
        Cardinal::South => pt(INTERSECTION_CENTER_X + off, WINDOW_HEIGHT - APPROACH_MARGIN),
        Cardinal::East => pt(WINDOW_WIDTH - APPROACH_MARGIN, INTERSECTION_CENTER_Y + off),
        Cardinal::West => pt(APPROACH_MARGIN as int, INTERSECTION_CENTER_Y + off),
    }
}

/// The coordinate that stays constant along an inbound lane: x for N/S, y for E/W.
pub open spec fn inbound_line(approach: Cardinal, route: Route) -> int {
    if approach.is_vertical() {
        spawn_point_of(approach, route).x as int
    } else {
        spawn_point_of(approach, route).y as int
    }
}

/// Point on the junction edge facing `side`, on the lane line `line` that crosses that edge.
pub open spec fn junction_edge_point(side: Cardinal, line: int) -> Point {
    match side {
        Cardinal::North => pt(line, junction_north()),
        Cardinal::South => pt(line, junction_south()),
        Cardinal::East => pt(junction_east(), line),
        Cardinal::West => pt(junction_west(), line),
    }
}

/// Point beyond the window edge on `side`, on the lane line `line`.
pub open spec fn off_screen_point(side: Cardinal, line: int) -> Point {
    match side {
        Cardinal::North => pt(line, -OFF_SCREEN_MARGIN),
        Cardinal::South => pt(line, WINDOW_HEIGHT + OFF_SCREEN_MARGIN),
        Cardinal::East => pt(WINDOW_WIDTH + OFF_SCREEN_MARGIN, line),
        Cardinal::West => pt(-OFF_SCREEN_MARGIN, line),
    }
}

/// The waypoints of a lane: spawn, junction entry, then (for left turns) the interior
/// point where the lane meets its outbound line, the junction exit, and a point off screen.
pub open spec fn lane_path(approach: Cardinal, route: Route) -> Seq<Point> {
    let spawn = spawn_point_of(approach, route);
    let line = inbound_line(approach, route);
    let entry = junction_edge_point(approach, line);
    let exit = exit_side(approach, route);
    match route {
        Route::Straight => seq![
            spawn,
            entry,
            junction_edge_point(exit, line),
            off_screen_point(exit, line),
        ],
        Route::Right => {
            let out = outbound_line(exit, route);
            seq![spawn, entry, junction_edge_point(exit, out), off_screen_point(exit, out)]
        },
        Route::Left => {
            let out = outbound_line(exit, route);
            let interior = if approach.is_vertical() {
                pt(line, out)
            } else {
                pt(out, line)
            };
            seq![
                spawn,
                entry,
                interior,
                junction_edge_point(exit, out),
                off_screen_point(exit, out),
            ]
        },
    }
}

/// The four corners of the junction zone, clockwise from the north-west corner.
pub open spec fn zone_polygon_of() -> Seq<Point> {
    seq![
        pt(junction_west(), junction_north()),
        pt(junction_east(), junction_north()),
        pt(junction_east(), junction_south()),
        pt(junction_west(), junction_south()),
    ]
}


/// Offset from the road centerline to an inbound lane center for right-hand traffic.
fn lane_center_offset(approach: Cardinal, route: Route) -> (off: i32)
    ensures
        off == inbound_offset(approach, route),
{
    let inbound_half_center = INBOUND_ROAD_WIDTH / 2;
    let half_arm = ROAD_ARM_WIDTH / 2;
    let toward_center = match approach {
        Cardinal::North | Cardinal::East => -half_arm + inbound_half_center,
        Cardinal::South | Cardinal::West => half_arm - inbound_half_center,
    };
    let right = match approach {
        // Southbound traffic from the north: the driver's right is west, so the offset is negative.
        Cardinal::North => -LANE_WIDTH,
        Cardinal::South | Cardinal::West => LANE_WIDTH,
        Cardinal::East => -LANE_WIDTH,
    };
    let route_offset = match route {
        Route::Right => right,
        Route::Straight => 0,
        Route::Left => -right,
    };
    toward_center + route_offset
}

/// Offset from the road centerline to an outbound lane center (mirror of inbound across the arm center).
pub fn outbound_lane_center(approach: Cardinal, route: Route) -> (off: i32)
    ensures
        off == outbound_offset(approach, route),
{
    let inbound_half_center = INBOUND_ROAD_WIDTH / 2;
    let half_arm = ROAD_ARM_WIDTH / 2;
    let outbound_half_center = match approach {
        Cardinal::North | Cardinal::East => half_arm - inbound_half_center,
        Cardinal::South | Cardinal::West => -half_arm + inbound_half_center,
    };
    let right = match approach {
        Cardinal::North => LANE_WIDTH,
        Cardinal::South => -LANE_WIDTH,
        Cardinal::East => LANE_WIDTH,
        Cardinal::West => -LANE_WIDTH,
    };
    let route_offset = match route {
        Route::Right => right,
        Route::Straight => 0,
        Route::Left => -right,
    };
    outbound_half_center + route_offset
}

/// World x (N/S arms) or y (E/W arms) for an outbound lane centerline.
pub fn outbound_lane_line(approach: Cardinal, route: Route) -> (line: i32)
    ensures
        line == outbound_line(approach, route),
{
    let offset = outbound_lane_center(approach, route);
    match approach {
        Cardinal::North | Cardinal::South => INTERSECTION_CENTER_X + offset,
        Cardinal::East | Cardinal::West => INTERSECTION_CENTER_Y + offset,
    }
}

/// Spawn point of the inbound lane of `approach` and `route`.
pub fn spawn_point_for(approach: Cardinal, route: Route) -> (p: Point)
    ensures
        p == spawn_point_of(approach, route),
{
    let lane_center_offset = lane_center_offset(approach, route);
    match approach {
        Cardinal::North => Point::new(INTERSECTION_CENTER_X + lane_center_offset, APPROACH_MARGIN),
        Cardinal::South => Point::new(
            INTERSECTION_CENTER_X + lane_center_offset,
            WINDOW_HEIGHT as i32 - APPROACH_MARGIN,
        ),
        Cardinal::East => Point::new(
            WINDOW_WIDTH as i32 - APPROACH_MARGIN,
            INTERSECTION_CENTER_Y + lane_center_offset,
        ),
        Cardinal::West => Point::new(APPROACH_MARGIN, INTERSECTION_CENTER_Y + lane_center_offset),
    }
}

/// Perpendicular exit arm for a turn (right or left route).
pub fn exit_cardinal_for_turn(approach: Cardinal, route: Route) -> (exit: Cardinal)
    requires
        route != Route::Straight,
    ensures
        exit == exit_side(approach, route),
{
    match (approach, route) {
        (Cardinal::North, Route::Right) => Cardinal::West,
        (Cardinal::North, Route::Left) => Cardinal::East,
        (Cardinal::South, Route::Right) => Cardinal::East,
        (Cardinal::South, Route::Left) => Cardinal::West,
        (Cardinal::East, Route::Right) => Cardinal::North,
        (Cardinal::East, Route::Left) => Cardinal::South,
        (Cardinal::West, Route::Right) => Cardinal::South,
        (Cardinal::West, Route::Left) => Cardinal::North,
        (_, Route::Straight) => exit_side_of_straight(approach),
    }
}

/// Side through which straight traffic from `approach` leaves: the opposite arm.
fn exit_side_of_straight(approach: Cardinal) -> (exit: Cardinal)
    ensures
        exit == exit_side(approach, Route::Straight),
{
    match approach {
        Cardinal::North => Cardinal::South,
        Cardinal::South => Cardinal::North,
        Cardinal::East => Cardinal::West,
        Cardinal::West => Cardinal::East,
    }
}

fn off_screen_west(y: i32) -> (p: Point)
    ensures
        p == off_screen_point(Cardinal::West, y as int),
{
    Point::new(-OFF_SCREEN_MARGIN, y)
}

fn off_screen_east(y: i32) -> (p: Point)
    ensures
        p == off_screen_point(Cardinal::East, y as int),
{
    Point::new(WINDOW_WIDTH as i32 + OFF_SCREEN_MARGIN, y)
}

fn off_screen_north(x: i32) -> (p: Point)
    ensures
        p == off_screen_point(Cardinal::North, x as int),
{
    Point::new(x, -OFF_SCREEN_MARGIN)
}

fn off_screen_south(x: i32) -> (p: Point)
    ensures
        p == off_screen_point(Cardinal::South, x as int),
{
    Point::new(x, WINDOW_HEIGHT as i32 + OFF_SCREEN_MARGIN)
}

fn off_screen_for_cardinal(cardinal: Cardinal, lane_line: i32) -> (p: Point)
    ensures
        p == off_screen_point(cardinal, lane_line as int),
{
    match cardinal {
        Cardinal::West => off_screen_west(lane_line),
        Cardinal::East => off_screen_east(lane_line),
        Cardinal::North => off_screen_north(lane_line),
        Cardinal::South => off_screen_south(lane_line),
    }
}

/// Right turn: spawn, junction entry, corner connector, off screen (4 points).
fn build_right_turn_path(approach: Cardinal) -> (path: Vec<Point>)
    ensures
        path@ == lane_path(approach, Route::Right),
{
    let spawn = spawn_point_for(approach, Route::Right);
    let exit = exit_cardinal_for_turn(approach, Route::Right);
    let outbound = outbound_lane_line(exit, Route::Right);

    let jx_w = INTERSECTION_CENTER_X - INTERSECTION_HALF_SIZE;
    let jx_e = INTERSECTION_CENTER_X + INTERSECTION_HALF_SIZE;
    let jy_n = INTERSECTION_CENTER_Y - INTERSECTION_HALF_SIZE;
    let jy_s = INTERSECTION_CENTER_Y + INTERSECTION_HALF_SIZE;

    let (entry, connector) = match approach {
        Cardinal::North => (Point::new(spawn.x, jy_n), Point::new(jx_w, outbound)),
        Cardinal::South => (Point::new(spawn.x, jy_s), Point::new(jx_e, outbound)),
        Cardinal::East => (Point::new(jx_e, spawn.y), Point::new(outbound, jy_n)),
        Cardinal::West => (Point::new(jx_w, spawn.y), Point::new(outbound, jy_s)),
    };
    let path = vec![spawn, entry, connector, off_screen_for_cardinal(exit, outbound)];
    assert(path@ =~= lane_path(approach, Route::Right));
    path
}

/// Left turn: spawn, junction entry, interior point on the outbound line, junction exit,
/// off screen. Left turns continue straight into the junction until they align with the
/// outbound lane, then turn onto that arm.
fn build_left_turn_path(approach: Cardinal) -> (path: Vec<Point>)
    ensures
        path@ == lane_path(approach, Route::Left),
{
    let spawn = spawn_point_for(approach, Route::Left);
    let exit = exit_cardinal_for_turn(approach, Route::Left);
    let outbound = outbound_lane_line(exit, Route::Left);

    let jx_w = INTERSECTION_CENTER_X - INTERSECTION_HALF_SIZE;
    let jx_e = INTERSECTION_CENTER_X + INTERSECTION_HALF_SIZE;
    let jy_n = INTERSECTION_CENTER_Y - INTERSECTION_HALF_SIZE;
    let jy_s = INTERSECTION_CENTER_Y + INTERSECTION_HALF_SIZE;

    let path = match approach {
        Cardinal::North => {
            let lane_x = spawn.x;
            vec![
                spawn,
                Point::new(lane_x, jy_n),
                Point::new(lane_x, outbound),
                Point::new(jx_e, outbound),
                off_screen_east(outbound),
            ]
        },
        Cardinal::South => {
            let lane_x = spawn.x;
            vec![
                spawn,
                Point::new(lane_x, jy_s),
                Point::new(lane_x, outbound),
                Point::new(jx_w, outbound),
                off_screen_west(outbound),
            ]
        },
        Cardinal::East => {
            let lane_y = spawn.y;
            vec![
                spawn,
                Point::new(jx_e, lane_y),
                Point::new(outbound, lane_y),
                Point::new(outbound, jy_s),
                off_screen_south(outbound),
            ]
        },
        Cardinal::West => {
            let lane_y = spawn.y;
            vec![
                spawn,
                Point::new(jx_w, lane_y),
                Point::new(outbound, lane_y),
                Point::new(outbound, jy_n),
                off_screen_north(outbound),
            ]
        },
    };
    assert(path@ =~= lane_path(approach, Route::Left));
    path
}

fn build_turn_path(approach: Cardinal, route: Route) -> (path: Vec<Point>)
    requires
        route != Route::Straight,
    ensures
        path@ == lane_path(approach, route),
{
    match route {
        Route::Left => build_left_turn_path(approach),
        _ => build_right_turn_path(approach),
    }
}

/// Straight route: spawn, junction entry, junction exit on the opposite edge, off screen.
fn build_straight_path(approach: Cardinal) -> (path: Vec<Point>)
    ensures
        path@ == lane_path(approach, Route::Straight),
{
    let spawn = spawn_point_for(approach, Route::Straight);
    let lane_x = spawn.x;
    let lane_y = spawn.y;

    let jx_w = INTERSECTION_CENTER_X - INTERSECTION_HALF_SIZE;
    let jx_e = INTERSECTION_CENTER_X + INTERSECTION_HALF_SIZE;
    let jy_n = INTERSECTION_CENTER_Y - INTERSECTION_HALF_SIZE;
    let jy_s = INTERSECTION_CENTER_Y + INTERSECTION_HALF_SIZE;

    let path = match approach {
        Cardinal::North => vec![
            spawn,
            Point::new(lane_x, jy_n),
            Point::new(lane_x, jy_s),
            off_screen_south(lane_x),
        ],
        Cardinal::South => vec![
            spawn,
            Point::new(lane_x, jy_s),
            Point::new(lane_x, jy_n),
            off_screen_north(lane_x),
        ],
        Cardinal::East => vec![
            spawn,
            Point::new(jx_e, lane_y),
            Point::new(jx_w, lane_y),
            off_screen_west(lane_y),
        ],
        Cardinal::West => vec![
            spawn,
            Point::new(jx_w, lane_y),
            Point::new(jx_e, lane_y),
            off_screen_east(lane_y),
        ],
    };
    assert(path@ =~= lane_path(approach, Route::Straight));
    path
}

/// Corners of the junction zone polygon.
fn junction_zone_polygon() -> (zone: Vec<Point>)
    ensures
        zone@ == zone_polygon_of(),
{
    let cx = INTERSECTION_CENTER_X;
    let cy = INTERSECTION_CENTER_Y;
    let h = INTERSECTION_HALF_SIZE;
    let (west, east, north, south) = (cx - h, cx + h, cy - h, cy + h);
    let zone = vec![
        Point::new(west, north),
        Point::new(east, north),
        Point::new(east, south),
        Point::new(west, south),
    ];
    assert(zone@ =~= zone_polygon_of());
    zone
}


/// Lane metadata: identity, spawn point and path polyline.
#[derive(Debug, Clone)]
pub struct LaneInfo {
    pub id: LaneId,
    pub approach: Cardinal,
    pub route: Route,
    pub spawn_point: Point,
    pub path: Vec<Point>,
}

/// Map from lane number (the value inside a [`LaneId`]) to its path polyline.
pub type LanePathMap = HashMap<u32, Vec<Point>>;

/// Approach of the `i`-th lane of the registry (approaches in order, three lanes each).
pub open spec fn registry_approach(i: int) -> Cardinal {
    Cardinal::from_index(i / 3)
}

/// Route of the `i`-th lane of the registry (right, straight, left within an approach).
pub open spec fn registry_route(i: int) -> Route {
    Route::from_index(i % 3)
}

/// Intersection layout and detection zone.
#[derive(Debug)]
pub struct IntersectionModel {
    pub lanes: Vec<LaneInfo>,
    /// Smart-system detection boundary.
    pub zone_polygon: Vec<Point>,
}

impl IntersectionModel {
    /// The standard layout: twelve lanes in registry order, each with its id, approach,
    /// route, spawn point and path, and the junction box as the zone.
    pub open spec fn is_standard(&self) -> bool {
        &&& self.lanes@.len() == 12
        &&& forall|i: int|
            0 <= i < 12 ==> {
                let lane = #[trigger] self.lanes@[i];
                let a = registry_approach(i);
                let r = registry_route(i);
                &&& lane.id.0 == i
                &&& lane.id.0 == lane_number(a, r)
                &&& lane.approach == a
                &&& lane.route == r
                &&& lane.spawn_point == spawn_point_of(a, r)
                &&& lane.path@ == lane_path(a, r)
            }
        &&& self.zone_polygon@ == zone_polygon_of()
    }

    /// Build the standard layout.
    pub fn new() -> (model: Self)
        ensures
            model.is_standard(),
    {
        let lanes = build_lane_registry();
        let zone_polygon = junction_zone_polygon();
        let mut model = Self { lanes, zone_polygon };
        let paths = build_all_lane_paths();
        attach_paths(&mut model, paths);
        model
    }

    /// Lookup a lane by stable id: the first lane that has it.
    pub fn lane(&self, id: LaneId) -> (found: Option<&LaneInfo>)
        ensures
            match found {
                Some(lane) => exists|i: int|
                    0 <= i < self.lanes@.len() && self.lanes@[i] == *lane && lane.id == id
                        && forall|j: int| 0 <= j < i ==> self.lanes@[j].id != id,
                None => forall|i: int| 0 <= i < self.lanes@.len() ==> self.lanes@[i].id != id,
            },
    {
        let mut i: usize = 0;
        while i < self.lanes.len()
            invariant
                i <= self.lanes@.len(),
                forall|j: int| 0 <= j < i ==> self.lanes@[j].id != id,
            decreases self.lanes@.len() - i,
        {
            if self.lanes[i].id == id {
                return Some(&self.lanes[i]);
            }
            i = i + 1;
        }
        None
    }

    /// All lane ids of one approach, in registry order (right, straight, left).
    pub fn lanes_for_approach(&self, approach: Cardinal) -> (ids: Vec<LaneId>)
        ensures
            ids@ == lane_ids_of(self.lanes@, approach),
    {
        let mut ids: Vec<LaneId> = Vec::new();
        let mut i: usize = 0;
        while i < self.lanes.len()
            invariant
                i <= self.lanes@.len(),
                ids@ == lane_ids_of(self.lanes@.take(i as int), approach),
            decreases self.lanes@.len() - i,
        {
            assert(self.lanes@.take(i + 1).drop_last() == self.lanes@.take(i as int));
            if self.lanes[i].approach == approach {
                ids.push(self.lanes[i].id);
            }
            i = i + 1;
        }
        assert(self.lanes@.take(self.lanes@.len() as int) == self.lanes@);
        ids
    }
}

impl Default for IntersectionModel {
    fn default() -> (model: Self)
        ensures
            model.is_standard(),
    {
        Self::new()
    }
}

/// Ids of the lanes of `approach`, in order.
pub open spec fn lane_ids_of(lanes: Seq<LaneInfo>, approach: Cardinal) -> Seq<LaneId>
    decreases lanes.len(),
{
    if lanes.len() == 0 {
        Seq::empty()
    } else {
        let rest = lane_ids_of(lanes.drop_last(), approach);
        if lanes.last().approach == approach {
            rest.push(lanes.last().id)
        } else {
            rest
        }
    }
}

/// Lane registry in standard order with empty paths.
fn build_lane_registry() -> (lanes: Vec<LaneInfo>)
    ensures
        lanes@.len() == 12,
        forall|i: int|
            0 <= i < 12 ==> {
                let lane = #[trigger] lanes@[i];
                let a = registry_approach(i);
                let r = registry_route(i);
                &&& lane.id.0 == i
                &&& lane.id.0 == lane_number(a, r)
                &&& lane.approach == a
                &&& lane.route == r
                &&& lane.spawn_point == spawn_point_of(a, r)
            },
{
    let mut lanes: Vec<LaneInfo> = Vec::with_capacity(12);
    let mut ai: usize = 0;
    while ai < 4
        invariant
            ai <= 4,
            lanes@.len() == 3 * ai,
            forall|i: int|
                0 <= i < 3 * ai ==> {
                    let lane = #[trigger] lanes@[i];
                    let a = registry_approach(i);
                    let r = registry_route(i);
                    &&& lane.id.0 == i
                    &&& lane.id.0 == lane_number(a, r)
                    &&& lane.approach == a
                    &&& lane.route == r
                    &&& lane.spawn_point == spawn_point_of(a, r)
                },
        decreases 4 - ai,
    {
        let approach = Cardinal::ALL[ai];
        assert(approach == registry_approach(3 * ai as int));
        let mut ri: usize = 0;
        while ri < 3
            invariant
                ai < 4,
                ri <= 3,
                approach == Cardinal::from_index(ai as int),
                lanes@.len() == 3 * ai + ri,
                forall|i: int|
                    0 <= i < 3 * ai + ri ==> {
                        let lane = #[trigger] lanes@[i];
                        let a = registry_approach(i);
                        let r = registry_route(i);
                        &&& lane.id.0 == i
                        &&& lane.id.0 == lane_number(a, r)
                        &&& lane.approach == a
                        &&& lane.route == r
                        &&& lane.spawn_point == spawn_point_of(a, r)
                    },
            decreases 3 - ri,
        {
            let route = Route::ALL[ri];
            let lane = LaneInfo {
                id: lane_id(approach, route),
                approach,
                route,
                spawn_point: spawn_point_for(approach, route),
                path: Vec::new(),
            };
            lanes.push(lane);
            ri = ri + 1;
        }
        ai = ai + 1;
    }
    lanes
}


/// Paths of all twelve lanes, keyed by lane number.
fn build_all_lane_paths() -> (map: LanePathMap)
    ensures
        forall|k: u32| #[trigger] map@.contains_key(k) <==> k < 12,
        forall|i: int|
            0 <= i < 12 ==> #[trigger] map@[i as u32]@ == lane_path(
                registry_approach(i),
                registry_route(i),
            ),
{
    broadcast use vstd::std_specs::hash::group_hash_axioms;

    let mut map: LanePathMap = HashMap::with_capacity(12);
    let mut ai: usize = 0;
    while ai < 4
        invariant
            ai <= 4,
            forall|k: u32| #[trigger] map@.contains_key(k) <==> k < 3 * ai,
            forall|i: int|
                0 <= i < 3 * ai ==> #[trigger] map@[i as u32]@ == lane_path(
                    registry_approach(i),
                    registry_route(i),
                ),
        decreases 4 - ai,
    {
        let approach = Cardinal::ALL[ai];
        let mut ri: usize = 0;
        while ri < 3
            invariant
                ai < 4,
                ri <= 3,
                approach == Cardinal::from_index(ai as int),
                forall|k: u32| #[trigger] map@.contains_key(k) <==> k < 3 * ai + ri,
                forall|i: int|
                    0 <= i < 3 * ai + ri ==> #[trigger] map@[i as u32]@ == lane_path(
                        registry_approach(i),
                        registry_route(i),
                    ),
            decreases 3 - ri,
        {
            let route = Route::ALL[ri];
            let path = match route {
                Route::Right | Route::Left => build_turn_path(approach, route),
                Route::Straight => build_straight_path(approach),
            };
            let id = lane_id(approach, route);
            map.insert(id.0, path);
            ri = ri + 1;
        }
        ai = ai + 1;
    }
    map
}

/// Replace the path of every lane whose number is a key of `paths` by a copy of the mapped path.
pub fn attach_paths(model: &mut IntersectionModel, paths: LanePathMap)
    ensures
        final(model).zone_polygon == old(model).zone_polygon,
        final(model).lanes@.len() == old(model).lanes@.len(),
        forall|i: int|
            0 <= i < old(model).lanes@.len() ==> {
                let before = old(model).lanes@[i];
                let after = #[trigger] final(model).lanes@[i];
                &&& after.id == before.id
                &&& after.approach == before.approach
                &&& after.route == before.route
                &&& after.spawn_point == before.spawn_point
                &&& after.path@ == if paths@.contains_key(before.id.0) {
                    paths@[before.id.0]@
                } else {
                    before.path@
                }
            },
{
    broadcast use vstd::std_specs::hash::group_hash_axioms;

    let mut i: usize = 0;
    while i < model.lanes.len()
        invariant
            i <= model.lanes@.len(),
            model.zone_polygon == old(model).zone_polygon,
            model.lanes@.len() == old(model).lanes@.len(),
            forall|j: int|
                0 <= j < old(model).lanes@.len() ==> {
                    let before = old(model).lanes@[j];
                    let after = #[trigger] model.lanes@[j];
                    &&& after.id == before.id
                    &&& after.approach == before.approach
                    &&& after.route == before.route
                    &&& after.spawn_point == before.spawn_point
                    &&& after.path@ == if j < i && paths@.contains_key(before.id.0) {
                        paths@[before.id.0]@
                    } else {
                        before.path@
                    }
                },
        decreases model.lanes@.len() - i,
    {
        let key = model.lanes[i].id.0;
        if let Some(path) = paths.get(&key) {
            let lane = LaneInfo {
                id: model.lanes[i].id,
                approach: model.lanes[i].approach,
                route: model.lanes[i].route,
                spawn_point: model.lanes[i].spawn_point,
                path: copy_path(path),
            };
            model.lanes.set(i, lane);
        }
        i = i + 1;
    }
}

/// An independent copy of a path.
fn copy_path(path: &Vec<Point>) -> (copy: Vec<Point>)
    ensures
        copy@ == path@,
{
    let mut copy: Vec<Point> = Vec::with_capacity(path.len());
    let mut i: usize = 0;
    while i < path.len()
        invariant
            i <= path@.len(),
            copy@ == path@.take(i as int),
        decreases path@.len() - i,
    {
        copy.push(path[i]);
        i = i + 1;
    }
    assert(path@.take(path@.len() as int) == path@);
    copy
}


/// Along-track displacement of a step from `from` to `to` for traffic entering from `approach`
/// (positive when moving toward the junction and beyond).
pub open spec fn along_track(approach: Cardinal, from: Point, to: Point) -> int {
    match approach {
        Cardinal::North => to.y - from.y,
        Cardinal::South => from.y - to.y,
        Cardinal::East => from.x - to.x,
        Cardinal::West => to.x - from.x,
    }
}

/// The point lies strictly beyond the window edge on `side`.
pub open spec fn beyond_edge(p: Point, side: Cardinal) -> bool {
    match side {
        Cardinal::West => p.x < 0,
        Cardinal::East => p.x > WINDOW_WIDTH,
        Cardinal::North => p.y < 0,
        Cardinal::South => p.y > WINDOW_HEIGHT,
    }
}

/// Shape of every lane path:
/// it starts at the lane's spawn point; its approach segment has no drift across the lane;
/// it has four waypoints (five for left turns); it never reverses on the inbound axis before
/// turning; turns reach their exit arm on that arm's outbound lane center; and it ends beyond
/// the window edge of its exit side (the opposite arm for straight travel, the perpendicular
/// arm of right-hand traffic for turns) and only there.
pub proof fn lemma_lane_path_shape(approach: Cardinal, route: Route)
    ensures
        ({
            let path = lane_path(approach, route);
            let exit = exit_side(approach, route);
            let last = path[path.len() - 1];
            &&& path[0] == spawn_point_of(approach, route)
            &&& approach.is_vertical() ==> path[0].x == path[1].x
            &&& !approach.is_vertical() ==> path[0].y == path[1].y
            &&& path.len() == match route {
                Route::Left => 5int,
                _ => 4int,
            }
            &&& forall|k: int|
                0 <= k < (match route {
                    Route::Right => 2int,
                    Route::Left => 3int,
                    Route::Straight => 3int,
                }) ==> along_track(approach, #[trigger] path[k], path[k + 1]) >= 0
            &&& route != Route::Straight ==> {
                let connector = path[path.len() - 2];
                &&& approach.is_vertical() ==> connector.y == outbound_line(exit, route)
                &&& !approach.is_vertical() ==> connector.x == outbound_line(exit, route)
            }
            &&& beyond_edge(last, exit)
            &&& forall|side: Cardinal| side != exit ==> !beyond_edge(last, side)
        }),
{
}


/// Distinct lanes have distinct labels.
pub proof fn lemma_lane_labels_unique(a1: Cardinal, r1: Route, a2: Cardinal, r2: Route)
    ensures
        lane_label(a1, r1) == lane_label(a2, r2) ==> a1 == a2 && r1 == r2,
{
    if lane_label(a1, r1) == lane_label(a2, r2) {
        assert(lane_label(a1, r1)[0] == lane_label(a2, r2)[0]);
        assert(lane_label(a1, r1)[1] == lane_label(a2, r2)[1]);
    }
}

/// Distinct lanes have distinct lane numbers, all below twelve.
pub proof fn lemma_lane_numbers_unique(a1: Cardinal, r1: Route, a2: Cardinal, r2: Route)
    ensures
        lane_number(a1, r1) < 12,
        lane_number(a1, r1) == lane_number(a2, r2) ==> a1 == a2 && r1 == r2,
{
}

/// Inbound lanes follow right-hand traffic: every inbound lane of an approach sits on the
/// driver's side of the arm (west for North, east for South, north for East, south for West),
/// the right-turn lane outermost and the left-turn lane next to the centerline; spawn points
/// lie on the approach's own side of the junction.
pub proof fn lemma_spawn_points_right_hand_traffic()
    ensures
        forall|r: Route| #[trigger] spawn_point_of(Cardinal::North, r).x < INTERSECTION_CENTER_X,
        forall|r: Route| #[trigger] spawn_point_of(Cardinal::South, r).x > INTERSECTION_CENTER_X,
        forall|r: Route| #[trigger] spawn_point_of(Cardinal::East, r).y < INTERSECTION_CENTER_Y,
        forall|r: Route| #[trigger] spawn_point_of(Cardinal::West, r).y > INTERSECTION_CENTER_Y,
        spawn_point_of(Cardinal::North, Route::Right).x < spawn_point_of(Cardinal::North, Route::Left).x,
        spawn_point_of(Cardinal::South, Route::Right).x > spawn_point_of(Cardinal::South, Route::Left).x,
        spawn_point_of(Cardinal::East, Route::Right).y < spawn_point_of(Cardinal::East, Route::Left).y,
        spawn_point_of(Cardinal::West, Route::Right).y > spawn_point_of(Cardinal::West, Route::Left).y,
        forall|r: Route| #[trigger] spawn_point_of(Cardinal::North, r).y < INTERSECTION_CENTER_Y,
        forall|r: Route| #[trigger] spawn_point_of(Cardinal::South, r).y > INTERSECTION_CENTER_Y,
        forall|r: Route| #[trigger] spawn_point_of(Cardinal::East, r).x > INTERSECTION_CENTER_X,
        forall|r: Route| #[trigger] spawn_point_of(Cardinal::West, r).x < INTERSECTION_CENTER_X,
{
}

/// Outbound lanes sit on the opposite half of the arm from the inbound lanes.
pub proof fn lemma_outbound_opposite_inbound(approach: Cardinal, route: Route)
    ensures
        inbound_offset(approach, route) != 0,
        (inbound_offset(approach, route) < 0) != (outbound_offset(approach, route) < 0),
{
}

/// The zone is the axis-aligned junction box, with positive extent in both directions.
pub proof fn lemma_zone_is_box()
    ensures
        zone_polygon_of().len() == 4,
        zone_polygon_of()[0].x == zone_polygon_of()[3].x,
        zone_polygon_of()[1].x == zone_polygon_of()[2].x,
        zone_polygon_of()[0].y == zone_polygon_of()[1].y,
        zone_polygon_of()[2].y == zone_polygon_of()[3].y,
        zone_polygon_of()[0].x < zone_polygon_of()[1].x,
        zone_polygon_of()[1].y < zone_polygon_of()[2].y,
{
}

/// In the standard layout every lane has its own id, and each approach owns exactly the three
/// consecutive lanes `3 * index .. 3 * index + 3`, one per route.
pub proof fn lemma_standard_registry(model: &IntersectionModel)
    requires
        model.is_standard(),
    ensures
        forall|i: int, j: int|
            0 <= i < 12 && 0 <= j < 12 && i != j ==> #[trigger] model.lanes@[i].id
                != #[trigger] model.lanes@[j].id,
        forall|i: int|
            0 <= i < 12 ==> (#[trigger] model.lanes@[i]).approach.index() == i / 3
                && model.lanes@[i].route.index() == i % 3,
{
    assert forall|i: int| 0 <= i < 12 implies (#[trigger] model.lanes@[i]).approach.index() == i
        / 3 && model.lanes@[i].route.index() == i % 3 by {
        assert(model.lanes@[i].approach == registry_approach(i));
    }
}

} // verus!
