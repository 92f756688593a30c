use haddock_core::cell_map::CellMap;
use haddock_core::rng::seeded_rng;

fn line_map(cells: &[((i32, i32), i32)]) -> CellMap<i32> {
    let mut m: CellMap<i32> = CellMap::empty();
    for (c, v) in cells.iter() {
        m.insert(*c, *v);
    }
    m
}

#[test]
fn insert_contains_get_and_count() {
    let mut m: CellMap<i32> = CellMap::empty();
    assert_eq!(m.cell_count(), 0);
    m.insert((3, 4), 7);
    m.insert((5, 6), 9);
    m.insert((3, 4), 8);
    assert_eq!(m.cell_count(), 2);
    assert!(m.contains(&(3, 4)));
    assert!(!m.contains(&(4, 3)));
    assert_eq!(m.get(&(3, 4)), Some(&8));
    assert_eq!(m.get(&(5, 6)), Some(&9));
    assert_eq!(m.get(&(0, 0)), None);
}

#[test]
fn get_all_cells_lists_every_key() {
    let m = line_map(&[((0, 0), 0), ((1, 0), 1), ((2, 0), 2)]);
    let cells = m.get_all_cells();
    assert_eq!(cells.len(), 3);
    assert!(cells.contains(&(0, 0)));
    assert!(cells.contains(&(1, 0)));
    assert!(cells.contains(&(2, 0)));
}

#[test]
fn offset_translates_every_key() {
    let m = line_map(&[((0, 0), 0), ((1, 2), 5)]);
    let shifted = m.offset((10, -3));
    assert_eq!(shifted.cell_count(), 2);
    assert!(shifted.contains(&(10, -3)));
    assert!(shifted.contains(&(11, -1)));
    assert_eq!(shifted.get(&(11, -1)), Some(&5));
    assert!(!shifted.contains(&(0, 0)));
}

#[test]
fn normalise_moves_minima_to_zero_on_both_axes() {
    let m = line_map(&[((4, 7), 1), ((6, 9), 2), ((5, 7), 3)]);
    let n = m.normalise();
    assert_eq!(n.cell_count(), 3);
    assert!(n.contains(&(0, 0)));
    assert!(n.contains(&(2, 2)));
    assert!(n.contains(&(1, 0)));
    assert_eq!(n.get(&(1, 0)), Some(&3));
}

#[test]
fn normalise_with_one_axis_already_zero_still_shifts_the_other() {
    // Only the y axis is offset; the documented behaviour still aligns both.
    let m = line_map(&[((0, 5), 1), ((2, 6), 2)]);
    let n = m.normalise();
    assert!(n.contains(&(0, 0)));
    assert!(n.contains(&(2, 1)));
}

#[test]
fn rect_size_spans_the_bounding_rectangle() {
    let m = line_map(&[((2, 3), 0), ((7, 5), 0), ((4, 11), 0)]);
    assert_eq!(m.rect_size(), (5, 8));
    let empty: CellMap<i32> = CellMap::empty();
    assert_eq!(empty.rect_size(), (0, 0));
}

#[test]
fn start_and_end_point_find_extremal_costs() {
    let m = line_map(&[((0, 0), 0), ((1, 0), 1), ((2, 0), 2), ((3, 0), 3)]);
    assert_eq!(m.start_point(), Some((0, 0)));
    assert_eq!(m.end_point(), Some((3, 0)));
    let empty: CellMap<i32> = CellMap::empty();
    assert_eq!(empty.start_point(), None);
    assert_eq!(empty.end_point(), None);
}

#[test]
fn recalculate_assigns_shortest_path_costs() {
    // An L-shaped corridor plus one unreachable island.
    let m = line_map(&[
        ((0, 0), 9),
        ((1, 0), 9),
        ((2, 0), 9),
        ((2, 1), 9),
        ((2, 2), 9),
        ((9, 9), 9),
    ]);
    let d = m.recalculate((0, 0));
    assert_eq!(d.cell_count(), 5);
    assert_eq!(d.get(&(0, 0)), Some(&0));
    assert_eq!(d.get(&(1, 0)), Some(&1));
    assert_eq!(d.get(&(2, 0)), Some(&2));
    assert_eq!(d.get(&(2, 1)), Some(&3));
    assert_eq!(d.get(&(2, 2)), Some(&4));
    assert_eq!(d.get(&(9, 9)), None);
}

#[test]
fn recalculate_takes_the_shorter_of_two_routes() {
    // A ring: two routes from the origin to the far corner.
    let m = line_map(&[
        ((0, 0), 0),
        ((1, 0), 0),
        ((2, 0), 0),
        ((0, 1), 0),
        ((2, 1), 0),
        ((0, 2), 0),
        ((1, 2), 0),
        ((2, 2), 0),
    ]);
    let d = m.recalculate((0, 0));
    assert_eq!(d.cell_count(), 8);
    assert_eq!(d.get(&(2, 2)), Some(&4));
    assert_eq!(d.get(&(1, 2)), Some(&3));
    assert_eq!(d.get(&(2, 1)), Some(&3));
}

#[test]
fn recalculate_from_isolated_origin_keeps_only_the_origin() {
    let m = line_map(&[((5, 5), 1), ((7, 7), 2)]);
    let d = m.recalculate((0, 0));
    assert_eq!(d.cell_count(), 1);
    assert_eq!(d.get(&(0, 0)), Some(&0));
}

#[test]
fn recalculate_twice_is_a_fixed_point() {
    let m = line_map(&[
        ((0, 0), 9),
        ((1, 0), 9),
        ((1, 1), 9),
        ((2, 1), 9),
        ((8, 8), 9),
    ]);
    let d1 = m.recalculate((0, 0));
    let d2 = d1.recalculate((0, 0));
    assert_eq!(d1.cell_count(), d2.cell_count());
    for c in d1.get_all_cells() {
        assert_eq!(d1.get(&c), d2.get(&c));
    }
}

#[test]
fn distribute_excludes_extremal_costs_and_respects_n() {
    // Costs 0..=4 along a corridor: candidates are costs 1, 2, 3.
    let m = line_map(&[((0, 0), 9), ((1, 0), 9), ((2, 0), 9), ((3, 0), 9), ((4, 0), 9)]);
    let d = m.recalculate((0, 0));
    let mut rng = seeded_rng(7);
    let picked = d.distribute_points_by_cost(10, None, &mut rng);
    assert_eq!(picked.len(), 3);
    for p in picked.iter() {
        let cost = *d.get(p).unwrap();
        assert!(cost > 0 && cost < 4);
    }
    let one = d.distribute_points_by_cost(1, None, &mut rng);
    assert_eq!(one.len(), 1);
}

#[test]
fn distribute_honours_the_exclusion_list() {
    let m = line_map(&[((0, 0), 9), ((1, 0), 9), ((2, 0), 9), ((3, 0), 9), ((4, 0), 9)]);
    let d = m.recalculate((0, 0));
    let mut rng = seeded_rng(11);
    let exclude = vec![(1, 0), (2, 0)];
    let picked = d.distribute_points_by_cost(5, Some(&exclude), &mut rng);
    assert_eq!(picked.len(), 1);
    assert_eq!(picked[0], (3, 0));
}

#[test]
fn distribute_returns_distinct_points() {
    let m = line_map(&[
        ((0, 0), 9),
        ((1, 0), 9),
        ((2, 0), 9),
        ((3, 0), 9),
        ((2, 1), 9),
        ((2, 2), 9),
        ((4, 0), 9),
    ]);
    let d = m.recalculate((0, 0));
    let mut rng = seeded_rng(3);
    let picked = d.distribute_points_by_cost(4, None, &mut rng);
    for i in 0..picked.len() {
        for j in (i + 1)..picked.len() {
            assert_ne!(picked[i], picked[j]);
        }
    }
}
