//! The animation stepper: a lookup from graph vertices to rendering
//! coordinates, and the per-frame advance of a cursor along a traced path.

use crate::point::{LineDirection, Point, Rect};
use vstd::prelude::*;

verus! {

/// The key-value pairs laid down so far, later entries shadowing earlier
/// ones, as a mathematical map from `(x, y)` keys to `(x, y)` values.
spec fn entries_map(s: Seq<(Point, Point)>) -> Map<(int, int), (int, int)>
    decreases s.len(),
{
    if s.len() == 0 {
        Map::empty()
    } else {
        entries_map(s.drop_last()).insert(
            (s.last().0.x as int, s.last().0.y as int),
            (s.last().1.x as int, s.last().1.y as int),
        )
    }
}

/// A lookup from abstract graph vertices (including the two virtual boundary
/// rows) to concrete rendering coordinates.  The presentation layer fills it
/// in once per round; the stepper only reads it.
pub struct PointMap {
    entries: Vec<(Point, Point)>,
}

impl View for PointMap {
    type V = Map<(int, int), (int, int)>;

    closed spec fn view(&self) -> Map<(int, int), (int, int)> {
        entries_map(self.entries@)
    }
}

/// Entries past `i` do not hold `key`, so the map agrees with its prefix.
proof fn lemma_entries_map_prefix(s: Seq<(Point, Point)>, i: int, key: (int, int))
    requires
        0 <= i <= s.len(),
        forall|t: int| i <= t < s.len() ==> ((#[trigger] s[t]).0.x as int, s[t].0.y as int) != key,
    ensures
        entries_map(s).contains_key(key) == entries_map(s.take(i)).contains_key(key),
        entries_map(s).contains_key(key) ==> entries_map(s)[key] == entries_map(s.take(i))[key],
    decreases s.len() - i,
{
    if i < s.len() {
        lemma_entries_map_prefix(s.drop_last(), i, key);
        assert(s.drop_last() =~= s.take(s.len() - 1));
        assert(s.drop_last().take(i) =~= s.take(i));
    } else {
        assert(s.take(i) =~= s);
    }
}

impl PointMap {
    /// An empty lookup.
    pub fn new() -> (r: PointMap)
        ensures
            r@ == Map::<(int, int), (int, int)>::empty(),
    {
        PointMap { entries: Vec::new() }
    }

    /// Binds graph vertex `key` to rendering point `value`, replacing any
    /// earlier binding.
    pub fn insert(&mut self, key: Point, value: Point)
        ensures
            final(self)@ == old(self)@.insert(
                (key.x as int, key.y as int),
                (value.x as int, value.y as int),
            ),
    {
        self.entries.push((key, value));
        proof {
            assert(self.entries@.drop_last() =~= old(self).entries@);
        }
    }

    /// The rendering point bound to graph vertex `key`, if any.
    pub fn get(&self, key: &Point) -> (r: Option<&Point>)
        ensures
            match r {
                Some(p) => self@.contains_key((key.x as int, key.y as int)) && self@[(
                    key.x as int,
                    key.y as int,
                )] == (p.x as int, p.y as int),
                None => !self@.contains_key((key.x as int, key.y as int)),
            },
    {
        let mut i: usize = self.entries.len();
        while i > 0
            invariant
                i <= self.entries@.len(),
                forall|t: int|
                    i <= t < self.entries@.len() ==> ((#[trigger] self.entries@[t]).0.x as int,
                    self.entries@[t].0.y as int) != (key.x as int, key.y as int),
            decreases i,
        {
            i = i - 1;
            let (k, v) = &self.entries[i];
            if k.x == key.x && k.y == key.y {
                proof {
                    lemma_entries_map_prefix(
                        self.entries@,
                        i + 1,
                        (key.x as int, key.y as int),
                    );
                    assert(self.entries@.take(i + 1).drop_last() =~= self.entries@.take(i as int));
                    assert(self.entries@.take(i + 1).last() == self.entries@[i as int]);
                }
                return Some(v);
            }
        }
        proof {
            lemma_entries_map_prefix(self.entries@, 0, (key.x as int, key.y as int));
            assert(self.entries@.take(0) =~= Seq::<(Point, Point)>::empty());
        }
        None
    }
}

/// The graph vertex whose rendering point starts the segment at `index` of
/// the path: the previous path point, or the virtual top row of the starting
/// lane when the walk has not left it yet.
pub open spec fn segment_start_key(path: Seq<Point>, index: int, selected_chunk: int) -> (
    int,
    int,
) {
    if index == 0 {
        (selected_chunk, -1)
    } else {
        (path[index - 1].x as int, path[index - 1].y as int)
    }
}

/// The graph vertex whose rendering point ends the segment at `index`.
pub open spec fn segment_end_key(path: Seq<Point>, index: int) -> (int, int) {
    (path[index].x as int, path[index].y as int)
}

/// Advances the path animation by at most `tick` drawing units.  The segment
/// between the rendering points of path entries `index - 1` and `index` is
/// classified as down, right or left; its drawable span (one less than the
/// coordinate distance, sparing the endpoint markers) is clamped to the tick
/// budget; the area to draw, the budget left over and the index to continue
/// at are returned.  The index advances only when budget remains, so a
/// partially drawn segment is finished on a later call.
pub fn calc_partial_line(
    point_hashmap: &PointMap,
    path: &Vec<Point>,
    tick: i32,
    index: i32,
    selected_chunk: u8,
) -> (r: (i32, Rect, LineDirection, i32))
    requires
        0 <= index < path@.len(),
        path@.len() < i32::MAX,
        0 <= tick,
        point_hashmap@.contains_key(
            segment_start_key(path@, index as int, selected_chunk as int),
        ),
        point_hashmap@.contains_key(segment_end_key(path@, index as int)),
        ({
            let sp = point_hashmap@[segment_start_key(path@, index as int, selected_chunk as int)];
            let ep = point_hashmap@[segment_end_key(path@, index as int)];
            &&& 0 <= sp.0 <= u16::MAX
            &&& 0 <= sp.1 <= u16::MAX
            &&& 0 <= ep.0 <= u16::MAX
            &&& 0 <= ep.1 <= u16::MAX
            &&& sp.0 == ep.0 ==> sp.1 < ep.1
        }),
    ensures
        ({
            let sp = point_hashmap@[segment_start_key(path@, index as int, selected_chunk as int)];
            let ep = point_hashmap@[segment_end_key(path@, index as int)];
            let (left_tick, area, direction, next_index) = r;
            &&& sp.0 == ep.0 ==> {
                let length = vstd::math::min(tick as int, ep.1 - sp.1 - 1);
                &&& direction == LineDirection::Down
                &&& left_tick == tick - length
                &&& area == (Rect {
                    x: sp.0 as u16,
                    y: (sp.1 + 1) as u16,
                    width: 2,
                    height: length as u16,
                })
            }
            &&& sp.0 < ep.0 ==> {
                let length = vstd::math::min(tick as int, ep.0 - sp.0 - 1);
                &&& direction == LineDirection::Right
                &&& left_tick == tick - length
                &&& area == (Rect {
                    x: (sp.0 + 1) as u16,
                    y: sp.1 as u16,
                    width: length as u16,
                    height: 2,
                })
            }
            &&& sp.0 > ep.0 ==> {
                let length = vstd::math::min(tick as int, sp.0 - ep.0 - 1);
                &&& direction == LineDirection::Left
                &&& left_tick == tick - length
                &&& area == (Rect {
                    x: (sp.0 - length) as u16,
                    y: sp.1 as u16,
                    width: length as u16,
                    height: 2,
                })
            }
            &&& 0 <= left_tick <= tick
            &&& next_index == (if left_tick > 0 {
                index + 1
            } else {
                index as int
            })
        }),
{
    let start_key: Point = if index == 0 {
        Point::new(selected_chunk as i32, -1)
    } else {
        path[(index - 1) as usize]
    };
    let end_key: Point = path[index as usize];

    let start_point: &Point = match point_hashmap.get(&start_key) {
        Some(p) => p,
        None => vstd::pervasive::unreached(),
    };
    let end_point: &Point = match point_hashmap.get(&end_key) {
        Some(p) => p,
        None => vstd::pervasive::unreached(),
    };

    if start_point.x == end_point.x {
        // direction down
        let max_length = end_point.y - start_point.y - 1;
        let length = if tick < max_length {
            tick
        } else {
            max_length
        };
        let area = Rect::new(start_point.x as u16, start_point.y as u16 + 1, 2, length as u16);
        let left_tick = tick - length;
        let next_index = if left_tick > 0 {
            index + 1
        } else {
            index
        };
        (left_tick, area, LineDirection::Down, next_index)
    } else if start_point.x < end_point.x {
        // direction right
        let max_length = end_point.x - start_point.x - 1;
        let length = if tick < max_length {
            tick
        } else {
            max_length
        };
        let area = Rect::new(start_point.x as u16 + 1, start_point.y as u16, length as u16, 2);
        let left_tick = tick - length;
        let next_index = if left_tick > 0 {
            index + 1
        } else {
            index
        };
        (left_tick, area, LineDirection::Right, next_index)
    } else {
        // direction left
        let max_length = start_point.x - end_point.x - 1;
        let length = if tick < max_length {
            tick
        } else {
            max_length
        };
        let area = Rect::new(
            start_point.x as u16 - length as u16,
            start_point.y as u16,
            length as u16,
            2,
        );
        let left_tick = tick - length;
        let next_index = if left_tick > 0 {
            index + 1
        } else {
            index
        };
        (left_tick, area, LineDirection::Left, next_index)
    }
}

} // verus!
