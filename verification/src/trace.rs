//! Path tracing: where a lane can cross to a neighbour, the row-by-row walk
//! from a starting lane to the bottom of the ladder, and the laws that make
//! the walk unambiguous and the round a fair shuffle.

use crate::ladder::{
    gaps_disjoint, map_adjacent_disjoint, map_rows_ascending, map_view, rows_strictly_ascending,
};
use crate::point::Point;
use vstd::prelude::*;

verus! {

/// Gap `gap` holds a rung at `row`.
pub open spec fn gap_has_rung(m: Seq<Seq<u16>>, gap: int, row: int) -> bool {
    0 <= gap < m.len() && exists|t: int| 0 <= t < m[gap].len() && #[trigger] m[gap][t] == row
}

/// Rows at which `lane` has a rung to its left neighbour: the rows of gap
/// `lane - 1`, or none for the leftmost lane.
pub open spec fn left_rows(m: Seq<Seq<u16>>, lane: int) -> Seq<u16> {
    if 1 <= lane <= m.len() {
        m[lane - 1]
    } else {
        Seq::empty()
    }
}

/// Rows at which `lane` has a rung to its right neighbour: the rows of gap
/// `lane`, or none for the rightmost lane.
pub open spec fn right_rows(m: Seq<Seq<u16>>, lane: int) -> Seq<u16> {
    if 0 <= lane < m.len() {
        m[lane]
    } else {
        Seq::empty()
    }
}

/// The lane occupied after handling `row`, having arrived at it on `lane`:
/// a rung to the left wins, else a rung to the right, else straight down.
/// Both sides can never apply at once (`lemma_no_double_rung`).
pub open spec fn step_lane(m: Seq<Seq<u16>>, lane: int, row: int) -> int {
    if gap_has_rung(m, lane - 1, row) {
        lane - 1
    } else if gap_has_rung(m, lane, row) {
        lane + 1
    } else {
        lane
    }
}

/// The lane occupied on arriving at `row`, having started at `start` on the
/// virtual top row.
pub open spec fn lane_at(m: Seq<Seq<u16>>, start: int, row: int) -> int
    decreases row,
{
    if row <= 0 {
        start
    } else {
        step_lane(m, lane_at(m, start, row - 1), row - 1)
    }
}

/// The points the walk emits while handling `row`: nothing when it goes
/// straight down, the two ends of the rung when it crosses.
pub open spec fn step_points(m: Seq<Seq<u16>>, lane: int, row: int) -> Seq<(int, int)> {
    let next = step_lane(m, lane, row);
    if next == lane {
        seq![]
    } else {
        seq![(lane, row), (next, row)]
    }
}

/// All points emitted while handling rows `0 .. row`.
pub open spec fn path_points_to(m: Seq<Seq<u16>>, start: int, row: int) -> Seq<(int, int)>
    decreases row,
{
    if row <= 0 {
        seq![]
    } else {
        path_points_to(m, start, row - 1) + step_points(m, lane_at(m, start, row - 1), row - 1)
    }
}

/// The full path traced from `start` over `row_count` rows: every direction
/// change, then the terminal point on the virtual bottom row.
pub open spec fn trace_path(m: Seq<Seq<u16>>, start: int, row_count: int) -> Seq<(int, int)> {
    path_points_to(m, start, row_count).push((lane_at(m, start, row_count), row_count))
}

proof fn lemma_contains_push(s: Seq<Point>, x: Point, y: Point)
    requires
        s.contains(y) || x == y,
    ensures
        s.push(x).contains(y),
{
    if s.contains(y) {
        let w = choose|w: int| 0 <= w < s.len() && s[w] == y;
        assert(s.push(x)[w] == y);
    } else {
        assert(s.push(x)[s.len() as int] == y);
    }
}

/// All rows at which lane `index` can cross to a neighbour, each tagged with
/// the lane it leads to, ordered by row.  The leftmost lane has no left gap
/// and the rightmost no right gap; those sides contribute nothing.
pub fn calc_bridge_points(index: i32, bridge_hashmap: &Vec<Vec<u16>>) -> (r: Vec<Point>)
    requires
        map_rows_ascending(map_view(bridge_hashmap@)),
        map_adjacent_disjoint(map_view(bridge_hashmap@)),
        0 <= index <= bridge_hashmap@.len(),
        bridge_hashmap@.len() < i32::MAX,
    ensures
        ({
            let m = map_view(bridge_hashmap@);
            let lane = index as int;
            &&& r@.len() == left_rows(m, lane).len() + right_rows(m, lane).len()
            &&& forall|k: int|
                0 <= k < r@.len() ==> 0 <= #[trigger] r@[k].x <= u16::MAX && ((r@[k].y == lane - 1
                    && left_rows(m, lane).contains(r@[k].x as u16)) || (r@[k].y == lane + 1
                    && right_rows(m, lane).contains(r@[k].x as u16)))
            &&& forall|t: int|
                0 <= t < left_rows(m, lane).len() ==> r@.contains(
                    (Point { x: #[trigger] left_rows(m, lane)[t] as i32, y: (lane - 1) as i32 }),
                )
            &&& forall|t: int|
                0 <= t < right_rows(m, lane).len() ==> r@.contains(
                    (Point { x: #[trigger] right_rows(m, lane)[t] as i32, y: (lane + 1) as i32 }),
                )
            &&& forall|k: int, l: int| 0 <= k < l < r@.len() ==> r@[k].x < r@[l].x
        }),
{
    let ghost m = map_view(bridge_hashmap@);
    let empty: Vec<u16> = Vec::new();
    let left: &Vec<u16> = if index == 0 {
        &empty
    } else {
        &bridge_hashmap[(index - 1) as usize]
    };
    let right: &Vec<u16> = if (index as usize) < bridge_hashmap.len() {
        &bridge_hashmap[index as usize]
    } else {
        &empty
    };
    proof {
        assert(left@ =~= left_rows(m, index as int));
        assert(right@ =~= right_rows(m, index as int));
        if 1 <= index as int && (index as int) < m.len() {
            assert(gaps_disjoint(m[index as int - 1], m[index as int]));
        }
    }

    let mut out: Vec<Point> = Vec::new();
    let mut i: usize = 0;
    let mut j: usize = 0;
    while i < left.len() || j < right.len()
        invariant
            0 <= index <= bridge_hashmap@.len() < i32::MAX,
            left@ == left_rows(m, index as int),
            right@ == right_rows(m, index as int),
            rows_strictly_ascending(left@),
            rows_strictly_ascending(right@),
            gaps_disjoint(left@, right@),
            i <= left@.len(),
            j <= right@.len(),
            out@.len() == i + j,
            left@.len() > 0 ==> index >= 1,
            forall|k: int|
                0 <= k < out@.len() ==> 0 <= #[trigger] out@[k].x <= u16::MAX && ((out@[k].y
                    == index - 1 && left@.contains(out@[k].x as u16)) || (out@[k].y == index + 1
                    && right@.contains(out@[k].x as u16))),
            forall|t: int|
                0 <= t < i ==> out@.contains(
                    (Point { x: #[trigger] left@[t] as i32, y: (index - 1) as i32 }),
                ),
            forall|t: int|
                0 <= t < j ==> out@.contains(
                    (Point { x: #[trigger] right@[t] as i32, y: (index + 1) as i32 }),
                ),
            forall|k: int, l: int| 0 <= k < l < out@.len() ==> out@[k].x < out@[l].x,
            forall|k: int, t: int|
                #![trigger out@[k], left@[t]]
                0 <= k < out@.len() && i <= t < left@.len() ==> out@[k].x < left@[t],
            forall|k: int, t: int|
                #![trigger out@[k], right@[t]]
                0 <= k < out@.len() && j <= t < right@.len() ==> out@[k].x < right@[t],
        decreases left@.len() + right@.len() - i - j,
    {
        let take_left: bool = if j >= right.len() {
            true
        } else if i < left.len() {
            left[i] < right[j]
        } else {
            false
        };
        let ghost prev = out@;
        if take_left {
            let v = left[i];
            out.push(Point { x: v as i32, y: index - 1 });
            proof {
                assert(left@.contains(left@[i as int]));
                let newp = (Point { x: left@[i as int] as i32, y: (index - 1) as i32 });
                lemma_contains_push(prev, newp, newp);
                assert forall|t: int| 0 <= t < i implies out@.contains(
                    (Point { x: #[trigger] left@[t] as i32, y: (index - 1) as i32 }),
                ) by {
                    lemma_contains_push(
                        prev,
                        newp,
                        (Point { x: left@[t] as i32, y: (index - 1) as i32 }),
                    );
                }
                assert forall|t: int| 0 <= t < j implies out@.contains(
                    (Point { x: #[trigger] right@[t] as i32, y: (index + 1) as i32 }),
                ) by {
                    lemma_contains_push(
                        prev,
                        newp,
                        (Point { x: right@[t] as i32, y: (index + 1) as i32 }),
                    );
                }
            }
            i = i + 1;
        } else {
            let v = right[j];
            proof {
                if i < left@.len() {
                    // The sides share no row, so the right row is strictly
                    // smaller than every remaining left row.
                    assert(left@[i as int] != right@[j as int]);
                }
                assert(right@.contains(right@[j as int]));
            }
            out.push(Point { x: v as i32, y: index + 1 });
            proof {
                let newp = (Point { x: right@[j as int] as i32, y: (index + 1) as i32 });
                lemma_contains_push(prev, newp, newp);
                assert forall|t: int| 0 <= t < i implies out@.contains(
                    (Point { x: #[trigger] left@[t] as i32, y: (index - 1) as i32 }),
                ) by {
                    lemma_contains_push(
                        prev,
                        newp,
                        (Point { x: left@[t] as i32, y: (index - 1) as i32 }),
                    );
                }
                assert forall|t: int| 0 <= t < j implies out@.contains(
                    (Point { x: #[trigger] right@[t] as i32, y: (index + 1) as i32 }),
                ) by {
                    lemma_contains_push(
                        prev,
                        newp,
                        (Point { x: right@[t] as i32, y: (index + 1) as i32 }),
                    );
                }
            }
            j = j + 1;
        }
    }
    out
}

/// The lane-and-row pairs of a sequence of points, as plain integers.
pub open spec fn points_view(s: Seq<Point>) -> Seq<(int, int)> {
    s.map_values(|p: Point| (p.x as int, p.y as int))
}

/// The neighbour lane of the first crossing listed at `row`, if any.
fn find_bridge(bps: &Vec<Point>, row: i32) -> (r: Option<i32>)
    ensures
        match r {
            Some(nl) => bps@.contains((Point { x: row, y: nl })),
            None => forall|k: int| 0 <= k < bps@.len() ==> (#[trigger] bps@[k]).x != row,
        },
{
    let mut f: usize = 0;
    while f < bps.len()
        invariant
            f <= bps@.len(),
            forall|t: int| 0 <= t < f ==> (#[trigger] bps@[t]).x != row,
        decreases bps@.len() - f,
    {
        if bps[f].x == row {
            let nl = bps[f].y;
            proof {
                assert(bps@[f as int] == (Point { x: row, y: nl }));
            }
            return Some(nl);
        }
        f = f + 1;
    }
    None
}

/// Walks row by row from `(index, 0)` to the virtual bottom row `y_max`,
/// crossing every rung it meets, and returns the points where the walk
/// changes direction plus the terminal point.  The result is exactly the
/// mathematical trace of the rung map, so its last point names the lane the
/// starting lane wins.
pub fn calc_path(index: u8, hashmap: &Vec<Vec<u16>>, y_max: u8) -> (path: Vec<Point>)
    requires
        map_rows_ascending(map_view(hashmap@)),
        map_adjacent_disjoint(map_view(hashmap@)),
        index as int <= hashmap@.len(),
        hashmap@.len() < i32::MAX,
    ensures
        points_view(path@) == trace_path(map_view(hashmap@), index as int, y_max as int),
        path@.len() >= 1,
        path@[path@.len() - 1].x == lane_at(map_view(hashmap@), index as int, y_max as int),
        path@[path@.len() - 1].y == y_max,
        0 <= path@[path@.len() - 1].x <= hashmap@.len(),
{
    let ghost m = map_view(hashmap@);
    let mut path: Vec<Point> = Vec::new();
    let mut x: i32 = index as i32;
    let mut y: i32 = 0;

    proof {
        assert(points_view(path@) =~= path_points_to(m, index as int, 0));
    }

    while y < y_max as i32
        invariant
            m == map_view(hashmap@),
            map_rows_ascending(m),
            map_adjacent_disjoint(m),
            hashmap@.len() < i32::MAX,
            0 <= y <= y_max,
            0 <= x <= m.len(),
            x == lane_at(m, index as int, y as int),
            points_view(path@) == path_points_to(m, index as int, y as int),
        decreases y_max - y,
    {
        let bps = calc_bridge_points(x, hashmap);
        let ghost lane = x as int;
        let ghost row = y as int;
        let ghost prev_path = path@;

        match find_bridge(&bps, y) {
            Some(nl) => {
                proof {
                    let k = choose|k: int|
                        0 <= k < bps@.len() && bps@[k] == (Point { x: y, y: nl });
                    if bps@[k].y == lane - 1 {
                        // A rung to the left neighbour: the walk crosses left.
                        let t = choose|t: int|
                            0 <= t < left_rows(m, lane).len() && left_rows(m, lane)[t] == (
                            y as u16);
                        assert(m[lane - 1][t] == row);
                        assert(gap_has_rung(m, lane - 1, row));
                    } else {
                        // A rung to the right neighbour: the walk crosses
                        // right, and the cross-gap invariant rules out a
                        // simultaneous rung to the left.
                        let t = choose|t: int|
                            0 <= t < right_rows(m, lane).len() && right_rows(m, lane)[t] == (
                            y as u16);
                        assert(m[lane][t] == row);
                        assert(gap_has_rung(m, lane, row));
                        lemma_no_double_rung(m, lane, row);
                    }
                    assert(step_lane(m, lane, row) == nl);
                }
                path.push(Point::new(x, y));
                path.push(Point::new(nl, y));
                proof {
                    assert(points_view(path@) =~= points_view(prev_path) + step_points(
                        m,
                        lane,
                        row,
                    ));
                }
                x = nl;
            },
            None => {
                proof {
                    // No crossing is listed at this row, so neither adjacent
                    // gap holds a rung here and the walk goes straight down.
                    if gap_has_rung(m, lane - 1, row) {
                        let t = choose|t: int|
                            0 <= t < m[lane - 1].len() && #[trigger] m[lane - 1][t] == row;
                        assert(left_rows(m, lane)[t] as i32 == y);
                        assert(bps@.contains(
                            (Point { x: left_rows(m, lane)[t] as i32, y: (lane - 1) as i32 }),
                        ));
                        let k = choose|k: int|
                            0 <= k < bps@.len() && bps@[k] == (Point {
                                x: left_rows(m, lane)[t] as i32,
                                y: (lane - 1) as i32,
                            });
                        assert(bps@[k].x == y);
                    }
                    if gap_has_rung(m, lane, row) {
                        let t = choose|t: int|
                            0 <= t < m[lane].len() && #[trigger] m[lane][t] == row;
                        assert(right_rows(m, lane)[t] as i32 == y);
                        assert(bps@.contains(
                            (Point { x: right_rows(m, lane)[t] as i32, y: (lane + 1) as i32 }),
                        ));
                        let k = choose|k: int|
                            0 <= k < bps@.len() && bps@[k] == (Point {
                                x: right_rows(m, lane)[t] as i32,
                                y: (lane + 1) as i32,
                            });
                        assert(bps@[k].x == y);
                    }
                    assert(step_lane(m, lane, row) == lane);
                    assert(points_view(path@) =~= points_view(prev_path) + step_points(
                        m,
                        lane,
                        row,
                    ));
                }
            },
        }
        y = y + 1;
    }

    path.push(Point::new(x, y));
    proof {
        assert(points_view(path@) =~= trace_path(m, index as int, y_max as int));
    }
    path
}

/// Cross-gap corollary: a lane never has a rung to its left neighbour and a
/// rung to its right neighbour at the same row.
pub proof fn lemma_no_double_rung(m: Seq<Seq<u16>>, lane: int, row: int)
    requires
        map_adjacent_disjoint(m),
    ensures
        !(gap_has_rung(m, lane - 1, row) && gap_has_rung(m, lane, row)),
{
    if gap_has_rung(m, lane - 1, row) && gap_has_rung(m, lane, row) {
        let t1 = choose|t: int| 0 <= t < m[lane - 1].len() && #[trigger] m[lane - 1][t] == row;
        let t2 = choose|t: int| 0 <= t < m[lane].len() && #[trigger] m[lane][t] == row;
        assert(gaps_disjoint(m[lane - 1], m[lane]));
        assert(m[lane - 1][t1] != m[lane][t2]);
    }
}

/// Crossing a rung and handling the same row again crosses straight back:
/// one row's rungs act as a self-inverse rearrangement of the lanes.
pub proof fn lemma_step_lane_involution(m: Seq<Seq<u16>>, lane: int, row: int)
    requires
        map_adjacent_disjoint(m),
    ensures
        step_lane(m, step_lane(m, lane, row), row) == lane,
{
    if gap_has_rung(m, lane - 1, row) {
        lemma_no_double_rung(m, lane - 1, row);
    } else if gap_has_rung(m, lane, row) {
        lemma_no_double_rung(m, lane, row);
    }
}

/// Every lane the walk reaches is a real lane when the start is one.
pub proof fn lemma_lane_at_in_range(m: Seq<Seq<u16>>, start: int, row: int)
    requires
        0 <= start <= m.len(),
    ensures
        0 <= lane_at(m, start, row) <= m.len(),
    decreases row,
{
    if row > 0 {
        lemma_lane_at_in_range(m, start, row - 1);
    }
}

/// Bijection law: against one rung map, two different starting lanes always
/// finish on two different lanes, and every finish lane is a real lane — so
/// tracing all starting lanes permutes the lanes.
pub proof fn lemma_trace_bijective(m: Seq<Seq<u16>>, s1: int, s2: int, row_count: int)
    requires
        map_adjacent_disjoint(m),
        0 <= s1 <= m.len(),
        0 <= s2 <= m.len(),
        s1 != s2,
    ensures
        lane_at(m, s1, row_count) != lane_at(m, s2, row_count),
        0 <= lane_at(m, s1, row_count) <= m.len(),
    decreases row_count,
{
    lemma_lane_at_in_range(m, s1, row_count);
    if row_count > 0 {
        lemma_trace_bijective(m, s1, s2, row_count - 1);
        let l1 = lane_at(m, s1, row_count - 1);
        let l2 = lane_at(m, s2, row_count - 1);
        if step_lane(m, l1, row_count - 1) == step_lane(m, l2, row_count - 1) {
            lemma_step_lane_involution(m, l1, row_count - 1);
            lemma_step_lane_involution(m, l2, row_count - 1);
        }
    }
}

} // verus!

