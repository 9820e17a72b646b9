use rand::Rng;
use sadari::anim::{calc_partial_line, PointMap};
use sadari::ladder::{calc_bridge_hashmap, calc_bridge_indexes};
use sadari::layout::{calc_distributed_height, calc_names_layout, calc_next_index, calc_prev_index};
use sadari::point::{LineDirection, Point, Rect};
use sadari::trace::{calc_bridge_points, calc_path};

#[test]
fn distributed_height_eleven_slots_thirty_rows() {
    let vec = calc_distributed_height(11, 30);
    assert_eq!(vec, vec![3, 3, 3, 3, 3, 3, 3, 3, 2, 2, 2]);
    assert!(vec.iter().all(|&h| h == 2 || h == 3));
    assert_eq!(vec.iter().sum::<u16>(), 30);
}

#[test]
fn names_layout_rejects_row_too_narrow() {
    // 12 boxes of 8 units with 2-unit spaces want 118 percent units: each
    // unit would be worth less than one percent.
    let r = calc_names_layout(12, 8, 2);
    match r {
        Ok(_) => panic!("a unit worth zero percent must be rejected"),
        Err((unit_width, message)) => {
            assert_eq!(unit_width, 0);
            assert!(message.contains("unit_width"));
        }
    }
}

#[test]
fn names_layout_exact_three_blocks() {
    // total ratio 11, unit 9: margins split the leftover percent.
    let v = calc_names_layout(3, 3, 1).unwrap();
    assert_eq!(v, vec![0, 27, 9, 27, 9, 27, 1]);
}

#[test]
fn rung_map_has_one_entry_per_gap() {
    let mut rng = rand::thread_rng();
    for lane_count in 2..=12u8 {
        let map = calc_bridge_hashmap(lane_count, 6, 10, &mut rng);
        assert_eq!(map.len(), lane_count as usize - 1);
    }
}

#[test]
fn rung_rows_stay_inside_the_ladder() {
    let mut rng = rand::thread_rng();
    let map = calc_bridge_hashmap(8, 6, 10, &mut rng);
    for gap in &map {
        assert!(gap.iter().all(|&row| row < 10));
    }
}

#[test]
fn rung_counts_respect_the_drawn_range() {
    // Ten rows leave every pool at least five rows wide, so each gap holds
    // a full drawn count: at least two rungs and fewer than the bound.
    let mut rng = rand::thread_rng();
    for _ in 0..50 {
        let map = calc_bridge_hashmap(8, 6, 10, &mut rng);
        for gap in &map {
            assert!(gap.len() >= 2);
            assert!(gap.len() < 6);
        }
    }
}

#[test]
fn sampler_accepts_pool_smaller_than_request() {
    let mut rng = rand::thread_rng();
    let pool: Vec<u16> = vec![4, 7];
    let drawn = calc_bridge_indexes(&mut rng, 5, pool.clone());
    // Degenerate sampling is not an error: the whole pool comes back.
    assert_eq!(drawn.len(), 2);
    let mut drawn = drawn;
    drawn.sort();
    assert_eq!(drawn, pool);
}

fn example_map() -> Vec<Vec<u16>> {
    vec![vec![2, 5], vec![1, 7]]
}

#[test]
fn trace_example_three_lanes() {
    // Lane 0 crosses to lane 1 at row 2; at row 5 the other rung of gap 0
    // carries it straight back, so it never reaches gap 1's rung at row 7
    // and ends on lane 0 at the virtual bottom row.
    let map = example_map();
    let path = calc_path(0, &map, 10);
    let expected = vec![
        Point::new(0, 2),
        Point::new(1, 2),
        Point::new(1, 5),
        Point::new(0, 5),
        Point::new(0, 10),
    ];
    assert_eq!(path, expected);
    assert_eq!(path.last().unwrap().x, 0);
}

#[test]
fn trace_example_reaches_third_lane() {
    // With one rung per gap, lane 0 crosses at row 2 and again at row 7,
    // finishing on lane 2.
    let map = vec![vec![2], vec![7]];
    let path = calc_path(0, &map, 10);
    let expected = vec![
        Point::new(0, 2),
        Point::new(1, 2),
        Point::new(1, 7),
        Point::new(2, 7),
        Point::new(2, 10),
    ];
    assert_eq!(path, expected);
    assert_eq!(path.last().unwrap().x, 2);
}

#[test]
fn trace_example_is_a_permutation() {
    let map = example_map();
    let finals: Vec<i32> = (0..3u8)
        .map(|lane| calc_path(lane, &map, 10).last().unwrap().x)
        .collect();
    let mut sorted = finals.clone();
    sorted.sort();
    assert_eq!(sorted, vec![0, 1, 2]);
}

#[test]
fn bridge_points_rows_ascending_and_single_sided() {
    let map = example_map();
    // Lane 1 sees its left gap rows (2, 5) and right gap rows (1, 7).
    let points = calc_bridge_points(1, &map);
    let rows: Vec<i32> = points.iter().map(|p| p.x).collect();
    assert_eq!(rows, vec![1, 2, 5, 7]);
    for w in points.windows(2) {
        assert!(w[0].x < w[1].x);
    }
    assert_eq!(
        points.iter().map(|p| (p.x, p.y)).collect::<Vec<_>>(),
        vec![(1, 2), (2, 0), (5, 0), (7, 2)]
    );
}

fn vertical_segment_map() -> (PointMap, Vec<Point>) {
    // One straight vertical segment: the virtual top of lane 0 renders at
    // (10, 0), the first path point at (10, 6) — a drawable span of 5.
    let mut pm = PointMap::new();
    pm.insert(Point::new(0, -1), Point::new(10, 0));
    pm.insert(Point::new(0, 5), Point::new(10, 6));
    let path = vec![Point::new(0, 5)];
    (pm, path)
}

#[test]
fn animation_budget_three_paints_three_and_waits() {
    let (pm, path) = vertical_segment_map();
    let (left, area, direction, next) = calc_partial_line(&pm, &path, 3, 0, 0);
    assert_eq!(left, 0);
    assert_eq!(area, Rect::new(10, 1, 2, 3));
    assert_eq!(direction, LineDirection::Down);
    assert_eq!(next, 0);
}

#[test]
fn animation_budget_without_leftover_keeps_index() {
    // A budget that the segment swallows whole paints its clamped span but
    // does not advance: only leftover budget moves the cursor on.
    let (pm, path) = vertical_segment_map();
    let (left, area, direction, next) = calc_partial_line(&pm, &path, 2, 0, 0);
    assert_eq!(left, 0);
    assert_eq!(area.height, 2);
    assert_eq!(direction, LineDirection::Down);
    assert_eq!(next, 0);
}

#[test]
fn animation_leftover_budget_advances_index() {
    let (pm, path) = vertical_segment_map();
    let (left, area, direction, next) = calc_partial_line(&pm, &path, 6, 0, 0);
    assert_eq!(left, 1);
    assert_eq!(area, Rect::new(10, 1, 2, 5));
    assert_eq!(direction, LineDirection::Down);
    assert_eq!(next, 1);
}

#[test]
fn animation_horizontal_directions() {
    let mut pm = PointMap::new();
    pm.insert(Point::new(0, -1), Point::new(10, 4));
    pm.insert(Point::new(1, 0), Point::new(20, 4));
    pm.insert(Point::new(0, 0), Point::new(10, 4));
    let path = vec![Point::new(1, 0), Point::new(0, 0)];

    let (left, area, direction, next) = calc_partial_line(&pm, &path, 100, 0, 0);
    assert_eq!(direction, LineDirection::Right);
    assert_eq!(area, Rect::new(11, 4, 9, 2));
    assert_eq!(left, 91);
    assert_eq!(next, 1);

    let (left, area, direction, next) = calc_partial_line(&pm, &path, 4, 1, 0);
    assert_eq!(direction, LineDirection::Left);
    assert_eq!(area, Rect::new(16, 4, 4, 2));
    assert_eq!(left, 0);
    assert_eq!(next, 1);
}

#[test]
fn point_map_last_insert_wins() {
    let mut pm = PointMap::new();
    pm.insert(Point::new(3, 4), Point::new(1, 1));
    pm.insert(Point::new(3, 4), Point::new(9, 9));
    let got = pm.get(&Point::new(3, 4)).unwrap();
    assert_eq!((got.x, got.y), (9, 9));
    assert!(pm.get(&Point::new(4, 3)).is_none());
}

#[test]
fn index_helpers_wrap_around() {
    for limit in 1..30u8 {
        assert_eq!(calc_next_index(limit - 1, limit), 0);
        assert_eq!(calc_prev_index(0, limit), limit - 1);
    }
}

#[test]
fn generated_round_traces_to_a_permutation() {
    let mut rng = rand::thread_rng();
    for _ in 0..50 {
        let lane_count: u8 = rng.gen_range(2, 13);
        let map = calc_bridge_hashmap(lane_count, 6, 10, &mut rng);
        let mut finals: Vec<i32> = (0..lane_count)
            .map(|lane| calc_path(lane, &map, 10).last().unwrap().x)
            .collect();
        finals.sort();
        let expected: Vec<i32> = (0..lane_count as i32).collect();
        assert_eq!(finals, expected);
    }
}
