use haddock_core::cell_map::CellMap;
use haddock_core::map_gen::get_cell_map;
use haddock_core::map_gen::run_single;
use haddock_core::rng::seeded_rng;

/// The first seed whose generation run reaches the size floor within the
/// allowed tries. Generation is deterministic per seed, so the returned
/// seed is stable across runs.
fn working_seed(min_size: usize, max_tries: i32) -> (u64, CellMap<i32>) {
    for seed in 0..200u64 {
        let mut rng = seeded_rng(seed);
        if let Some(m) = get_cell_map(min_size, max_tries, &mut rng) {
            return (seed, m);
        }
    }
    panic!("no seed under 200 produced a large enough map");
}

#[test]
fn generation_is_deterministic_under_a_fixed_seed() {
    let (seed, m1) = working_seed(50, 10);
    let mut rng2 = seeded_rng(seed);
    let m2 = get_cell_map(50, 10, &mut rng2).expect("same seed must succeed again");

    assert!(m1.cell_count() >= 50);
    assert_eq!(m1.cell_count(), m2.cell_count());
    for c in m1.get_all_cells() {
        assert_eq!(m1.get(&c), m2.get(&c));
    }
}

#[test]
fn generated_maps_are_normalised_and_connected() {
    let (_, m) = working_seed(50, 10);

    // Normalised: the least x and least y over all cells are both zero.
    let cells = m.get_all_cells();
    let min_x = cells.iter().map(|c| c.0).min().unwrap();
    let min_y = cells.iter().map(|c| c.1).min().unwrap();
    assert_eq!(min_x, 0);
    assert_eq!(min_y, 0);

    // Connected with true shortest-path costs: exactly one cost-zero cell,
    // and every other cell has a neighbour one step cheaper.
    let mut zero_cells = 0;
    for c in cells.iter() {
        let cost = *m.get(c).unwrap();
        assert!(cost >= 0);
        if cost == 0 {
            zero_cells += 1;
        } else {
            let cheaper = [(1, 0), (-1, 0), (0, 1), (0, -1)].iter().any(|d| {
                m.get(&(c.0 + d.0, c.1 + d.1)).map_or(false, |v| *v == cost - 1)
            });
            assert!(cheaper, "cell {:?} with cost {} has no cheaper neighbour", c, cost);
        }
    }
    assert_eq!(zero_cells, 1);
}

#[test]
fn single_attempts_respect_the_size_floor() {
    let mut rng = seeded_rng(3);
    let mut successes = 0;
    for _ in 0..20 {
        if let Some(m) = run_single(40, &mut rng) {
            assert!(m.cell_count() >= 40);
            successes += 1;
        }
    }
    assert!(successes > 0, "twenty attempts at a modest floor should succeed at least once");
}
