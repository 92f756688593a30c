//! Terrain synthesis: a rectangular wall/water grid seeded at random,
//! smoothed by a cellular automaton over double buffers, searched for a
//! deterministic start cell, and culled to the region reachable from that
//! start; retried until the reachable region is large enough.

use crate::cell_map::CellMap;
use crate::reach;
use crate::tiles::TileType;
use vstd::prelude::*;

verus! {

/// Which of the two automaton buffers is current.
#[derive(Clone, Copy, Debug, PartialEq, Eq, Structural)]
enum AbSelector {
    A,
    B,
}

impl AbSelector {
    fn not(&self) -> (r: AbSelector)
        ensures
            r == (if *self == AbSelector::A {
                AbSelector::B
            } else {
                AbSelector::A
            }),
    {
        match self {
            AbSelector::A => AbSelector::B,
            AbSelector::B => AbSelector::A,
        }
    }
}

/// A double-buffered value: one copy per automaton buffer, so a smoothing
/// pass reads the old generation while writing the new one.
#[derive(Clone, Copy, Debug)]
pub struct AB<T> {
    a: T,
    b: T,
}

impl<T: Copy> AB<T> {
    spec fn get_spec(self, selector: AbSelector) -> T {
        if selector == AbSelector::A {
            self.a
        } else {
            self.b
        }
    }

    fn new(v: T) -> (r: Self)
        ensures
            r.get_spec(AbSelector::A) == v,
            r.get_spec(AbSelector::B) == v,
    {
        Self { a: v, b: v }
    }

    fn get(&self, selector: &AbSelector) -> (r: T)
        ensures
            r == self.get_spec(*selector),
    {
        match selector {
            AbSelector::A => self.a,
            AbSelector::B => self.b,
        }
    }

    fn set(&mut self, selector: &AbSelector, v: T)
        ensures
            final(self).get_spec(*selector) == v,
            final(self).get_spec(if *selector == AbSelector::A {
                AbSelector::B
            } else {
                AbSelector::A
            }) == old(self).get_spec(
                if *selector == AbSelector::A {
                    AbSelector::B
                } else {
                    AbSelector::A
                },
            ),
    {
        match selector {
            AbSelector::A => self.a = v,
            AbSelector::B => self.b = v,
        }
    }
}

/// The double-buffered wall/water grid the cellular automaton smooths.
#[derive(Debug)]
pub struct Grid {
    pub grid_size: (i32, i32),
    cells: Vec<AB<TileType>>,
    current: AbSelector,
}

impl Grid {
    /// Positive dimensions, a backing vector of exactly width times
    /// height cells, and a total small enough for breadth-first costs.
    pub closed spec fn wf(self) -> bool {
        &&& self.grid_size.0 >= 1
        &&& self.grid_size.1 >= 1
        &&& self.cells_len() == self.grid_size.0 as int * self.grid_size.1 as int
        &&& self.grid_size.0 as int * self.grid_size.1 as int + 2 <= i32::MAX
    }

    pub closed spec fn cells_len(self) -> int {
        self.cells@.len() as int
    }

    /// The grid's `(width, height)`.
    pub closed spec fn size_spec(self) -> (i32, i32) {
        self.grid_size
    }

    /// The tile of the current buffer at `(x, y)`.
    pub closed spec fn tile_at(self, x: int, y: int) -> TileType {
        self.cells@[y * self.grid_size.0 as int + x].get_spec(self.current)
    }

    /// The tile of the back buffer at `(x, y)`.
    spec fn back_at(self, x: int, y: int) -> TileType {
        self.cells@[y * self.grid_size.0 as int + x].get_spec(
            if self.current == AbSelector::A {
                AbSelector::B
            } else {
                AbSelector::A
            },
        )
    }

    /// `(x, y)` lies on the grid.
    pub closed spec fn on_grid(self, x: int, y: int) -> bool {
        0 <= x < self.grid_size.0 as int && 0 <= y < self.grid_size.1 as int
    }

    /// 1 for an off-grid or wall neighbour, 0 for water: off-grid cells
    /// count as walls.
    pub open spec fn wall_ind(self, x: int, y: int) -> int {
        if self.on_grid(x, y) {
            if self.tile_at(x, y) == TileType::WALL {
                1int
            } else {
                0int
            }
        } else {
            1int
        }
    }

    /// Walls among the nine cells of the Moore neighbourhood of `(x, y)`,
    /// the centre included.
    pub open spec fn wall_neighbour_count(self, x: int, y: int) -> int {
        self.wall_ind(x - 1, y - 1) + self.wall_ind(x, y - 1) + self.wall_ind(x + 1, y - 1)
            + self.wall_ind(x - 1, y) + self.wall_ind(x, y) + self.wall_ind(x + 1, y)
            + self.wall_ind(x - 1, y + 1) + self.wall_ind(x, y + 1) + self.wall_ind(x + 1, y + 1)
    }

    /// One automaton step for a cell: crowded or fully open neighbourhoods
    /// turn to wall, moderate ones to water.
    pub open spec fn automaton_step(self, x: int, y: int) -> TileType {
        let cnt = self.wall_neighbour_count(x, y);
        if cnt > 4 || cnt == 0 {
            TileType::WALL
        } else {
            TileType::WATER
        }
    }

    /// The set of water coordinates of the current buffer.
    pub open spec fn water_set(self) -> Set<(i32, i32)> {
        Set::new(
            |c: (i32, i32)|
                self.on_grid(c.0 as int, c.1 as int) && self.tile_at(c.0 as int, c.1 as int)
                    == TileType::WATER,
        )
    }

    /// A fresh grid: each cell is independently wall with a 55 in 100
    /// chance, water otherwise.
    pub fn new(grid_size: (i32, i32), rng: &mut rand::rngs::StdRng) -> (r: Self)
        requires
            grid_size.0 >= 1,
            grid_size.1 >= 1,
            grid_size.0 as int * grid_size.1 as int + 2 <= i32::MAX,
        ensures
            r.wf(),
            r.size_spec() == grid_size,
    {
        let total: usize = (grid_size.0 as usize) * (grid_size.1 as usize);
        let mut cells: Vec<AB<TileType>> = Vec::new();
        let mut i: usize = 0;
        while i < total
            invariant
                cells@.len() == i,
                i <= total,
            decreases total - i,
        {
            let roll = crate::rng::gen_index(rng, 100);
            let t = if roll < 55 {
                TileType::WALL
            } else {
                TileType::WATER
            };
            cells.push(AB::new(t));
            i += 1;
        }
        Self { grid_size, cells, current: AbSelector::A }
    }

    /// Read the current buffer at `(x, y)`.
    pub fn tile(&self, x: i32, y: i32) -> (r: TileType)
        requires
            self.wf(),
            self.on_grid(x as int, y as int),
        ensures
            r == self.tile_at(x as int, y as int),
    {
        proof {
            lemma_row_major(x as int, y as int, self.grid_size.0 as int, self.grid_size.1 as int);
        }
        let idx: usize = (y as usize) * (self.grid_size.0 as usize) + (x as usize);
        let ab = self.cells[idx];
        ab.get(&self.current)
    }

    /// Write the back buffer at `(x, y)`.
    fn set_back(&mut self, x: i32, y: i32, t: TileType)
        requires
            old(self).wf(),
            old(self).on_grid(x as int, y as int),
        ensures
            final(self).wf(),
            final(self).size_spec() == old(self).size_spec(),
            final(self).current == old(self).current,
            final(self).back_at(x as int, y as int) == t,
            forall|x2: int, y2: int|
                old(self).on_grid(x2, y2) && (x2 != x as int || y2 != y as int) ==> final(self).back_at(x2, y2) == old(self).back_at(x2, y2),
            forall|x2: int, y2: int|
                old(self).on_grid(x2, y2) ==> final(self).tile_at(x2, y2) == old(self).tile_at(
                    x2,
                    y2,
                ),
    {
        proof {
            lemma_row_major(x as int, y as int, self.grid_size.0 as int, self.grid_size.1 as int);
        }
        let idx: usize = (y as usize) * (self.grid_size.0 as usize) + (x as usize);
        let mut ab = self.cells[idx];
        let back = self.current.not();
        ab.set(&back, t);
        self.cells.set(idx, ab);
        proof {
            assert forall|x2: int, y2: int|
                old(self).on_grid(x2, y2) && (x2 != x as int || y2 != y as int) implies self.back_at(
                    x2,
                    y2,
                ) == old(self).back_at(x2, y2) by {
                lemma_row_major(x2, y2, self.grid_size.0 as int, self.grid_size.1 as int);
                lemma_row_major_distinct(
                    x as int,
                    y as int,
                    x2,
                    y2,
                    self.grid_size.0 as int,
                    self.grid_size.1 as int,
                );
            }
            assert forall|x2: int, y2: int| old(self).on_grid(x2, y2) implies self.tile_at(
                x2,
                y2,
            ) == old(self).tile_at(x2, y2) by {
                lemma_row_major(x2, y2, self.grid_size.0 as int, self.grid_size.1 as int);
                if x2 == x as int && y2 == y as int {
                } else {
                    lemma_row_major_distinct(
                        x as int,
                        y as int,
                        x2,
                        y2,
                        self.grid_size.0 as int,
                        self.grid_size.1 as int,
                    );
                }
            }
        }
    }

    /// Write the current buffer at `(x, y)`: used by the reachability cull.
    fn set_front(&mut self, x: i32, y: i32, t: TileType)
        requires
            old(self).wf(),
            old(self).on_grid(x as int, y as int),
        ensures
            final(self).wf(),
            final(self).size_spec() == old(self).size_spec(),
            final(self).current == old(self).current,
            final(self).tile_at(x as int, y as int) == t,
            forall|x2: int, y2: int|
                old(self).on_grid(x2, y2) && (x2 != x as int || y2 != y as int) ==> final(self).tile_at(x2, y2) == old(self).tile_at(x2, y2),
    {
        proof {
            lemma_row_major(x as int, y as int, self.grid_size.0 as int, self.grid_size.1 as int);
        }
        let idx: usize = (y as usize) * (self.grid_size.0 as usize) + (x as usize);
        let mut ab = self.cells[idx];
        let front = self.current;
        ab.set(&front, t);
        self.cells.set(idx, ab);
        proof {
            assert forall|x2: int, y2: int|
                old(self).on_grid(x2, y2) && (x2 != x as int || y2 != y as int) implies self.tile_at(
                    x2,
                    y2,
                ) == old(self).tile_at(x2, y2) by {
                lemma_row_major(x2, y2, self.grid_size.0 as int, self.grid_size.1 as int);
                lemma_row_major_distinct(
                    x as int,
                    y as int,
                    x2,
                    y2,
                    self.grid_size.0 as int,
                    self.grid_size.1 as int,
                );
            }
        }
    }

    /// Count walls in the Moore neighbourhood of `(x, y)`, off-grid cells
    /// included as walls.
    fn neighbour_walls(&self, x: i32, y: i32) -> (r: u32)
        requires
            self.wf(),
            self.on_grid(x as int, y as int),
        ensures
            r as int == self.wall_neighbour_count(x as int, y as int),
    {
        let mut count: u32 = 0;
        count = count + self.wall_ind_at(x - 1, y - 1) + self.wall_ind_at(x, y - 1)
            + self.wall_ind_at(x + 1, y - 1);
        count = count + self.wall_ind_at(x - 1, y) + self.wall_ind_at(x, y) + self.wall_ind_at(
            x + 1,
            y,
        );
        count = count + self.wall_ind_at(x - 1, y + 1) + self.wall_ind_at(x, y + 1)
            + self.wall_ind_at(x + 1, y + 1);
        count
    }

    /// The wall indicator of one (possibly off-grid) cell.
    fn wall_ind_at(&self, x: i32, y: i32) -> (r: u32)
        requires
            self.wf(),
            i32::MIN < x as int,
            x as int <= i32::MAX,
            i32::MIN < y as int,
            y as int <= i32::MAX,
        ensures
            r as int == self.wall_ind(x as int, y as int),
            r <= 1,
    {
        if 0 <= x && x < self.grid_size.0 && 0 <= y && y < self.grid_size.1 {
            let t = self.tile(x, y);
            if t == TileType::WALL {
                1
            } else {
                0
            }
        } else {
            1
        }
    }

    /// One smoothing pass: every cell of the new generation is the
    /// automaton step of the old one, computed against the old buffer and
    /// written to the other, which then becomes current.
    pub fn update(&mut self)
        requires
            old(self).wf(),
        ensures
            final(self).wf(),
            final(self).size_spec() == old(self).size_spec(),
            forall|x: int, y: int|
                old(self).on_grid(x, y) ==> final(self).tile_at(x, y) == old(self).automaton_step(
                    x,
                    y,
                ),
    {
        let ghost g0 = *self;
        let w = self.grid_size.0;
        let h = self.grid_size.1;
        let mut y: i32 = 0;
        while y < h
            invariant
                self.wf(),
                self.grid_size == g0.grid_size,
                self.current == g0.current,
                w == self.grid_size.0,
                h == self.grid_size.1,
                0 <= y <= h,
                forall|x2: int, y2: int|
                    g0.on_grid(x2, y2) ==> self.tile_at(x2, y2) == g0.tile_at(x2, y2),
                forall|x2: int, y2: int|
                    g0.on_grid(x2, y2) && y2 < y as int ==> self.back_at(x2, y2)
                        == g0.automaton_step(x2, y2),
            decreases h - y,
        {
            let mut x: i32 = 0;
            while x < w
                invariant
                    self.wf(),
                    self.grid_size == g0.grid_size,
                    self.current == g0.current,
                    w == self.grid_size.0,
                    h == self.grid_size.1,
                    0 <= y < h,
                    0 <= x <= w,
                    forall|x2: int, y2: int|
                        g0.on_grid(x2, y2) ==> self.tile_at(x2, y2) == g0.tile_at(x2, y2),
                    forall|x2: int, y2: int|
                        g0.on_grid(x2, y2) && (y2 < y as int || (y2 == y as int && x2 < x as int))
                            ==> self.back_at(x2, y2) == g0.automaton_step(x2, y2),
                decreases w - x,
            {
                let count = self.neighbour_walls(x, y);
                let new_type = if count > 4 || count == 0 {
                    TileType::WALL
                } else {
                    TileType::WATER
                };
                proof {
                    assert(self.wall_neighbour_count(x as int, y as int)
                        == g0.wall_neighbour_count(x as int, y as int));
                }
                self.set_back(x, y, new_type);
                x += 1;
            }
            y += 1;
        }
        self.current = self.current.not();
        proof {
            assert forall|x: int, y2: int| g0.on_grid(x, y2) implies self.tile_at(x, y2)
                == g0.automaton_step(x, y2) by {
            }
        }
    }
}

/// Row-major indexing stays within the backing vector.
proof fn lemma_row_major(x: int, y: int, w: int, h: int)
    requires
        0 <= x < w,
        0 <= y < h,
    ensures
        0 <= y * w + x < w * h,
{
    assert(y * w + x < w * h) by (nonlinear_arith)
        requires
            0 <= x < w,
            0 <= y < h,
    ;
    assert(y * w + x >= 0) by (nonlinear_arith)
        requires
            0 <= x,
            0 <= y,
            w > 0,
    ;
}

/// Distinct on-grid coordinates have distinct row-major indices.
proof fn lemma_row_major_distinct(x1: int, y1: int, x2: int, y2: int, w: int, h: int)
    requires
        0 <= x1 < w,
        0 <= y1 < h,
        0 <= x2 < w,
        0 <= y2 < h,
        x1 != x2 || y1 != y2,
    ensures
        y1 * w + x1 != y2 * w + x2,
{
    assert(y1 * w + x1 != y2 * w + x2) by (nonlinear_arith)
        requires
            0 <= x1 < w,
            0 <= y1 < h,
            0 <= x2 < w,
            0 <= y2 < h,
            x1 != x2 || y1 != y2,
    ;
}


/// The signed half of the scan offset: even indices probe to the right of
/// the centre column, odd ones to the left.
pub open spec fn half_signed(i: int) -> int {
    if i % 2 == 0 {
        i / 2
    } else {
        -(i / 2)
    }
}

impl Grid {
    /// The column the start scan probes at step `i`.
    pub open spec fn scan_x(self, i: int) -> int {
        self.size_spec().0 as int / 2 + half_signed(i)
    }

    /// The cell the start scan probes at step `(i, j)`: column by
    /// alternating offsets from the centre, rows bottom up.
    pub open spec fn scan_cell(self, i: int, j: int) -> (int, int) {
        (self.scan_x(i), self.size_spec().1 as int - 1 - j)
    }

    /// Search for a start cell: columns outward from the horizontal
    /// centre, each column bottom up, returning the first water cell this
    /// order meets, or `None` if the scan finds none.
    pub fn find_start(&self) -> (r: Option<(i32, i32)>)
        requires
            self.wf(),
        ensures
            match r {
                Some(p) => self.on_grid(p.0 as int, p.1 as int) && exists|i: int, j: int|
                    #![trigger self.scan_cell(i, j)]
                    0 <= i < self.size_spec().0 as int && 0 <= j < self.size_spec().1 as int && (
                    p.0 as int, p.1 as int) == self.scan_cell(i, j) && self.tile_at(
                        p.0 as int,
                        p.1 as int,
                    ) == TileType::WATER && (forall|i2: int, j2: int|
                        0 <= i2 < self.size_spec().0 as int && 0 <= j2 < self.size_spec().1 as int
                            && (i2 < i || (i2 == i && j2 < j)) ==> {
                            let c = #[trigger] self.scan_cell(i2, j2);
                            self.tile_at(c.0, c.1) != TileType::WATER
                        }),
                None => forall|i: int, j: int|
                    0 <= i < self.size_spec().0 as int && 0 <= j < self.size_spec().1 as int ==> {
                        let c = #[trigger] self.scan_cell(i, j);
                        self.tile_at(c.0, c.1) != TileType::WATER
                    },
            },
{
    let w = self.grid_size.0;
    let h = self.grid_size.1;
    let x0 = w / 2;
    let y0 = h - 1;
    let mut i: i32 = 0;
    while i < w
        invariant
            self.wf(),
            w == self.size_spec().0,
            h == self.size_spec().1,
            x0 == w / 2,
            y0 == h - 1,
            0 <= i <= w,
            forall|i2: int, j2: int|
                0 <= i2 < i as int && 0 <= j2 < h as int ==> {
                    let c = #[trigger] self.scan_cell(i2, j2);
                    self.tile_at(c.0, c.1) != TileType::WATER
                },
        decreases w - i,
    {
        let half = i / 2;
        let x = if i % 2 == 0 {
            x0 + half
        } else {
            x0 - half
        };
        assert(x as int == self.scan_x(i as int));
        let mut j: i32 = 0;
        while j < h
            invariant
                self.wf(),
                w == self.size_spec().0,
                h == self.size_spec().1,
                y0 == h - 1,
                0 <= i < w,
                0 <= j <= h,
                x as int == self.scan_x(i as int),
                0 <= x < w,
                forall|i2: int, j2: int|
                    0 <= i2 < i as int && 0 <= j2 < h as int ==> {
                        let c = #[trigger] self.scan_cell(i2, j2);
                        self.tile_at(c.0, c.1) != TileType::WATER
                    },
                forall|j2: int|
                    0 <= j2 < j as int ==> {
                        let c = #[trigger] self.scan_cell(i as int, j2);
                        self.tile_at(c.0, c.1) != TileType::WATER
                    },
            decreases h - j,
        {
            let y = y0 - j;
            assert((x as int, y as int) == self.scan_cell(i as int, j as int));
            if self.tile(x, y) == TileType::WATER {
                return Some((x, y));
            }
            let ghost jp = j as int;
            j += 1;
            assert(self.tile_at(self.scan_cell(i as int, jp).0, self.scan_cell(i as int, jp).1)
                != TileType::WATER);
        }
        let ghost ip = i as int;
        i += 1;
        proof {
            assert forall|i2: int, j2: int|
                0 <= i2 < i as int && 0 <= j2 < h as int implies {
                let c = #[trigger] self.scan_cell(i2, j2);
                self.tile_at(c.0, c.1) != TileType::WATER
            } by {
                if i2 == ip {
                    assert(self.scan_cell(ip, j2) == self.scan_cell(i2, j2));
                }
            }
        }
    }
    None
}

    /// Breadth-first mapping and reachability cull: compute the cost map
    /// of the region reachable from `start_point` through water, then turn
    /// every unreachable water cell to wall. Returns the cost map.
    pub fn map_and_cull(&mut self, start_point: (i32, i32)) -> (r: CellMap<i32>)
        requires
            old(self).wf(),
        ensures
            final(self).wf(),
            final(self).size_spec() == old(self).size_spec(),
            r.wf(),
            reach::bfs_post(old(self).water_set(), start_point, r.cost_map()),
            forall|x: int, y: int|
                old(self).on_grid(x, y) ==> final(self).tile_at(x, y) == (if old(self).tile_at(
                    x,
                    y,
                ) == TileType::WATER && !r.contains_spec((x as i32, y as i32)) {
                    TileType::WALL
                } else {
                    old(self).tile_at(x, y)
                }),
    {
        let ghost g0 = *self;
        let w = self.grid_size.0;
        let h = self.grid_size.1;
        let mut walkable: CellMap<i32> = CellMap::empty();
        let mut y: i32 = 0;
        while y < h
            invariant
                self.wf(),
                *self == g0,
                w == self.size_spec().0,
                h == self.size_spec().1,
                0 <= y <= h,
                walkable.wf(),
                walkable.cells_seq().len() <= y as int * w as int,
                forall|c: (i32, i32)| #[trigger] walkable.contains_spec(c) <==> (g0.on_grid(
                    c.0 as int,
                    c.1 as int,
                ) && (c.1 as int) < y as int && g0.tile_at(c.0 as int, c.1 as int)
                    == TileType::WATER),
            decreases h - y,
        {
            let mut x: i32 = 0;
            while x < w
                invariant
                    self.wf(),
                    *self == g0,
                    w == self.size_spec().0,
                    h == self.size_spec().1,
                    0 <= y < h,
                    0 <= x <= w,
                    walkable.wf(),
                    walkable.cells_seq().len() <= y as int * w as int + x as int,
                    forall|c: (i32, i32)| #[trigger] walkable.contains_spec(c) <==> (g0.on_grid(
                        c.0 as int,
                        c.1 as int,
                    ) && ((c.1 as int) < y as int || (c.1 as int == y as int && (c.0 as int)
                        < x as int)) && g0.tile_at(c.0 as int, c.1 as int) == TileType::WATER),
                decreases w - x,
            {
                if self.tile(x, y) == TileType::WATER {
                    walkable.insert((x, y), 0);
                }
                proof {
                    assert(y as int * w as int + x as int + 1 <= y as int * w as int + w as int);
                }
                x += 1;
            }
            proof {
                assert((y as int + 1) * w as int == y as int * w as int + w as int)
                    by (nonlinear_arith);
            }
            y += 1;
        }
        proof {
            assert(y as int * w as int == h as int * w as int);
            assert(h as int * w as int == w as int * h as int) by (nonlinear_arith);
            assert(walkable.keys_set() =~= g0.water_set());
        }
        let distance_map = walkable.recalculate(start_point);
        let mut cy: i32 = 0;
        while cy < h
            invariant
                self.wf(),
                self.size_spec() == g0.size_spec(),
                w == self.size_spec().0,
                h == self.size_spec().1,
                0 <= cy <= h,
                forall|x2: int, y2: int|
                    g0.on_grid(x2, y2) && y2 < cy as int ==> self.tile_at(x2, y2) == (
                    if g0.tile_at(x2, y2) == TileType::WATER && !distance_map.contains_spec(
                        (x2 as i32, y2 as i32),
                    ) {
                        TileType::WALL
                    } else {
                        g0.tile_at(x2, y2)
                    }),
                forall|x2: int, y2: int|
                    g0.on_grid(x2, y2) && y2 >= cy as int ==> self.tile_at(x2, y2) == g0.tile_at(
                        x2,
                        y2,
                    ),
            decreases h - cy,
        {
            let mut cx: i32 = 0;
            while cx < w
                invariant
                    self.wf(),
                    self.size_spec() == g0.size_spec(),
                    w == self.size_spec().0,
                    h == self.size_spec().1,
                    0 <= cy < h,
                    0 <= cx <= w,
                    forall|x2: int, y2: int|
                        g0.on_grid(x2, y2) && (y2 < cy as int || (y2 == cy as int && x2
                            < cx as int)) ==> self.tile_at(x2, y2) == (if g0.tile_at(x2, y2)
                            == TileType::WATER && !distance_map.contains_spec(
                            (x2 as i32, y2 as i32),
                        ) {
                            TileType::WALL
                        } else {
                            g0.tile_at(x2, y2)
                        }),
                    forall|x2: int, y2: int|
                        g0.on_grid(x2, y2) && (y2 > cy as int || (y2 == cy as int && x2
                            >= cx as int)) ==> self.tile_at(x2, y2) == g0.tile_at(x2, y2),
                decreases w - cx,
            {
                if self.tile(cx, cy) == TileType::WATER && !distance_map.contains(&(cx, cy)) {
                    self.set_front(cx, cy, TileType::WALL);
                }
                cx += 1;
            }
            cy += 1;
        }
        distance_map
    }
}


/// One generation attempt: seed a 20-by-20 grid, smooth it six times, find
/// a start cell, map and cull reachability from it, and keep the result if
/// the reachable region holds at least `min_size` cells, normalised so its
/// least coordinates are zero on both axes.
pub fn run_single(min_size: usize, rng: &mut rand::rngs::StdRng) -> (r: Option<CellMap<i32>>)
    ensures
        match r {
            Some(m) => {
                &&& m.wf()
                &&& m.cells_seq().len() >= min_size
                &&& (m.cells_seq().len() > 0 ==> m.is_min_x(0) && m.is_min_y(0))
                &&& forall|c: (i32, i32)| #[trigger] m.contains_spec(c) ==> m.cost_spec(c) >= 0
                &&& crate::cell_map::connected_cost_map(m)
            },
            None => true,
        },
{
    let mut grid = Grid::new((20, 20), rng);
    let mut pass: usize = 0;
    while pass < 6
        invariant
            grid.wf(),
            grid.size_spec() == (20i32, 20i32),
            pass <= 6,
        decreases 6 - pass,
    {
        grid.update();
        pass += 1;
    }
    let start = match grid.find_start() {
        Some(s) => s,
        None => {
            return None;
        },
    };
    let ghost gpre = grid;
    let cell_map = grid.map_and_cull(start);
    if cell_map.cell_count() < min_size {
        return None;
    }
    proof {
        assert forall|i: int| 0 <= i < cell_map.cells_seq().len() implies {
            let c = (#[trigger] cell_map.cells_seq()[i]).0;
            0 <= c.0 as int && (c.0 as int) < 20 && 0 <= c.1 as int && (c.1 as int)
                < 20
        } by {
            let c = cell_map.cells_seq()[i].0;
            assert(crate::assoc::has_key(cell_map.cells_seq(), c));
            assert(cell_map.contains_spec(c));
            assert(cell_map.cost_map().dom().contains(c));
            assert(reach::reachable(gpre.water_set(), start, c));
            let k = choose|k: nat| reach::reachable_in(gpre.water_set(), start, c, k);
            if c != start {
                reach::lemma_reachable_in_keys(gpre.water_set(), start, c, k);
                assert(gpre.water_set().contains(c));
            }
        }
    }
    let bounds = cell_map.bounds();
    match bounds {
        None => {
            let normalised = cell_map.normalise();
            Some(normalised)
        },
        Some((minx, miny, maxx, maxy)) => {
            proof {
                cell_map.lemma_bounds_from_witness(
                    minx as int,
                    miny as int,
                    maxx as int,
                    maxy as int,
                );
            }
            let ghost cm = cell_map;
            let normalised = cell_map.normalise();
            proof {
                let dx = -cm.min_x();
                let dy = -cm.min_y();
                assert forall|c: (i32, i32)| #[trigger] normalised.contains_spec(c) implies
                    normalised.cost_spec(c) >= 0 by {
                    let c0 = choose|c0: (i32, i32)|
                        crate::assoc::has_key(cm.cells_seq(), c0) && c0.0 + dx == c.0 as int
                            && c0.1 + dy == c.1 as int;
                    assert(cm.contains_spec(c0));
                    assert(cm.cost_map().dom().contains(c0));
                    let c2 = (((c0.0 + dx) as i32), ((c0.1 + dy) as i32));
                    assert(c2 == c);
                    assert(normalised.lookup_spec(c2) == cm.lookup_spec(c0));
                }
                let water = gpre.water_set();
                let dom = cm.keys_set();
                assert forall|q: (i32, i32)| #[trigger] dom.contains(q) <==> reach::reachable(
                    water,
                    start,
                    q,
                ) by {
                    assert(dom.contains(q) == cm.contains_spec(q));
                    assert(cm.cost_map().dom().contains(q) == cm.contains_spec(q));
                }
                reach::lemma_bfs_origin_cost_zero(water, start, cm.cost_map());
                assert(cm.contains_spec(start));
                assert(crate::assoc::has_key(cm.cells_seq(), start));
                let s2 = (((start.0 + dx) as i32), ((start.1 + dy) as i32));
                assert(normalised.contains_spec(s2) && normalised.lookup_spec(s2)
                    == cm.lookup_spec(start));
                assert(normalised.cost_spec(s2) == 0);
                assert forall|q: (i32, i32)| #[trigger] dom.contains(q) implies i32::MIN <= q.0
                    + dx <= i32::MAX && i32::MIN <= q.1 + dy <= i32::MAX
                    && normalised.keys_set().contains(
                    (((q.0 + dx) as i32), ((q.1 + dy) as i32)),
                ) by {
                    assert(crate::assoc::has_key(cm.cells_seq(), q));
                }
                assert forall|c: (i32, i32)| #[trigger] normalised.contains_spec(c) implies
                    reach::reachable(normalised.keys_set(), s2, c) by {
                    let c0 = choose|c0: (i32, i32)|
                        crate::assoc::has_key(cm.cells_seq(), c0) && c0.0 + dx == c.0 as int
                            && c0.1 + dy == c.1 as int;
                    assert(cm.contains_spec(c0));
                    assert(dom.contains(c0));
                    assert(reach::reachable(water, start, c0));
                    let k0 = choose|k: nat| reach::reachable_in(water, start, c0, k);
                    reach::lemma_levels_in_reachable_set(water, start, dom, k0);
                    assert(reach::reachable_in(dom, start, c0, k0));
                    reach::lemma_reachable_in_translate(
                        dom,
                        start,
                        c0,
                        k0,
                        normalised.keys_set(),
                        s2,
                        c,
                        dx,
                        dy,
                    );
                }
                assert(crate::cell_map::connected_cost_map(normalised));
            }
            Some(normalised)
        },
    }
}

/// Generate a playable map: repeat single attempts until one's reachable
/// region holds at least `min_size` cells, giving up after `max_tries`
/// attempts. `None` is a fatal startup failure for the caller — a level
/// cannot be played without a valid map.
pub fn get_cell_map(min_size: usize, max_tries: i32, rng: &mut rand::rngs::StdRng) -> (r: Option<
    CellMap<i32>,
>)
    ensures
        max_tries <= 0 ==> r is None,
        match r {
            Some(m) => {
                &&& m.wf()
                &&& m.cells_seq().len() >= min_size
                &&& (m.cells_seq().len() > 0 ==> m.is_min_x(0) && m.is_min_y(0))
                &&& forall|c: (i32, i32)| #[trigger] m.contains_spec(c) ==> m.cost_spec(c) >= 0
                &&& crate::cell_map::connected_cost_map(m)
            },
            None => true,
        },
{
    let mut t: i32 = 0;
    while t < max_tries
        invariant
            0 <= t,
        decreases max_tries - t,
    {
        match run_single(min_size, rng) {
            Some(valid_map) => {
                return Some(valid_map);
            },
            None => {},
        }
        t += 1;
    }
    None
}

} // verus!
