//! The sparse cost grid: a mapping from grid coordinate to a value, used as
//! the walkable map of a level. Keys present mean "walkable / in map"; for
//! the integer-valued specialization the values are breadth-first distances
//! from the last recomputation origin.

use crate::assoc;
use crate::reach;
use crate::tiles;
use vstd::prelude::*;

verus! {

/// A set of integer grid coordinates, each tagged with a value of type `V`.
/// Coordinates are unique; order is irrelevant to the mapping it denotes.
#[derive(Debug)]
pub struct CellMap<V> {
    cells: Vec<((i32, i32), V)>,
}

impl<V> CellMap<V> {
    /// The entries as a sequence of coordinate/value pairs.
    pub closed spec fn cells_seq(self) -> Seq<((i32, i32), V)> {
        self.cells@
    }

    /// Coordinates are unique.
    pub open spec fn wf(self) -> bool {
        assoc::unique_keys(self.cells_seq())
    }

    /// Whether `cell` is a key of the map.
    pub open spec fn contains_spec(self, cell: (i32, i32)) -> bool {
        assoc::has_key(self.cells_seq(), cell)
    }

    /// The value at `cell`, if present.
    pub open spec fn lookup_spec(self, cell: (i32, i32)) -> Option<V> {
        assoc::lookup(self.cells_seq(), cell)
    }

    /// The key set of the map.
    pub open spec fn keys_set(self) -> Set<(i32, i32)> {
        Set::new(|p: (i32, i32)| self.contains_spec(p))
    }

    /// Construct a map from a list of coordinate/value pairs with unique
    /// coordinates.
    pub fn new(cells: Vec<((i32, i32), V)>) -> (r: Self)
        requires
            assoc::unique_keys(cells@),
        ensures
            r.wf(),
            r.cells_seq() == cells@,
    {
        Self { cells }
    }

    /// The empty map.
    pub fn empty() -> (r: Self)
        ensures
            r.wf(),
            r.cells_seq() == Seq::<((i32, i32), V)>::empty(),
    {
        Self { cells: Vec::new() }
    }

    /// Set the value at `cell`, replacing any earlier value there.
    pub fn insert(&mut self, cell: (i32, i32), value: V)
        requires
            old(self).wf(),
        ensures
            final(self).wf(),
            final(self).lookup_spec(cell) == Some(value),
            final(self).contains_spec(cell),
            forall|q: (i32, i32)| q != cell ==> final(self).lookup_spec(q) == old(
                self,
            ).lookup_spec(q),
            forall|q: (i32, i32)| q != cell ==> final(self).contains_spec(q) == old(
                self,
            ).contains_spec(q),
            final(self).cells_seq().len() == old(self).cells_seq().len() + (if old(
                self,
            ).contains_spec(cell) {
                0int
            } else {
                1int
            }),
    {
        let found = assoc::index_of(&self.cells, cell);
        let ghost s1 = self.cells_seq();
        match found {
            Some(i) => {
                self.cells.set(i, (cell, value));
                proof {
                    assoc::lemma_update(s1, i as int, cell, value);
                    assert forall|q: (i32, i32)| q != cell implies self.contains_spec(q) == old(
                        self,
                    ).contains_spec(q) by {
                        lemma_has_key_from_lookup(self.cells_seq(), q);
                        lemma_has_key_from_lookup(s1, q);
                    }
                }
            },
            None => {
                self.cells.push((cell, value));
                proof {
                    assoc::lemma_push(s1, cell, value);
                    assert forall|q: (i32, i32)| q != cell implies self.contains_spec(q) == old(
                        self,
                    ).contains_spec(q) by {
                        lemma_has_key_from_lookup(self.cells_seq(), q);
                        lemma_has_key_from_lookup(s1, q);
                    }
                }
            },
        }
    }

    /// The number of cells in the map.
    pub fn cell_count(&self) -> (r: usize)
        ensures
            r == self.cells_seq().len(),
    {
        self.cells.len()
    }

    /// Whether `cell` is in the map.
    pub fn contains(&self, cell: &(i32, i32)) -> (r: bool)
        ensures
            r == self.contains_spec(*cell),
    {
        match assoc::index_of(&self.cells, *cell) {
            Some(_) => true,
            None => false,
        }
    }

    /// All coordinates of the map, in entry order.
    pub fn get_all_cells(&self) -> (r: Vec<(i32, i32)>)
        ensures
            r@.len() == self.cells_seq().len(),
            forall|i: int| 0 <= i < r@.len() ==> r@[i] == self.cells_seq()[i].0,
    {
        let n = self.cells.len();
        let mut out: Vec<(i32, i32)> = Vec::new();
        let mut i: usize = 0;
        while i < n
            invariant
                n == self.cells@.len(),
                i <= n,
                out@.len() == i,
                forall|j: int| 0 <= j < i ==> out@[j] == self.cells@[j].0,
            decreases n - i,
        {
            let e = &self.cells[i];
            out.push(e.0);
            i += 1;
        }
        out
    }

    /// Look up the value stored at `cell`.
    pub fn get(&self, cell: &(i32, i32)) -> (r: Option<&V>)
        requires
            self.wf(),
        ensures
            match r {
                Some(v) => self.lookup_spec(*cell) == Some(*v),
                None => !self.contains_spec(*cell),
            },
    {
        match assoc::index_of(&self.cells, *cell) {
            Some(i) => {
                proof {
                    assoc::lemma_lookup_at(self.cells_seq(), *cell, i as int);
                }
                let e = &self.cells[i];
                Some(&e.1)
            },
            None => None,
        }
    }
}

/// The x coordinate of an entry, as a mathematical integer.
pub open spec fn key_x<V>(e: ((i32, i32), V)) -> int {
    (e.0).0 as int
}

/// The y coordinate of an entry, as a mathematical integer.
pub open spec fn key_y<V>(e: ((i32, i32), V)) -> int {
    (e.0).1 as int
}

impl<V> CellMap<V> {
    /// `m` is the least x coordinate of any key.
    pub open spec fn is_min_x(self, m: int) -> bool {
        (exists|i: int| 0 <= i < self.cells_seq().len() && key_x(self.cells_seq()[i]) == m)
            && (forall|i: int| 0 <= i < self.cells_seq().len() ==> key_x(self.cells_seq()[i]) >= m)
    }

    /// `m` is the least y coordinate of any key.
    pub open spec fn is_min_y(self, m: int) -> bool {
        (exists|i: int| 0 <= i < self.cells_seq().len() && key_y(self.cells_seq()[i]) == m)
            && (forall|i: int| 0 <= i < self.cells_seq().len() ==> key_y(self.cells_seq()[i]) >= m)
    }

    /// `m` is the greatest x coordinate of any key.
    pub open spec fn is_max_x(self, m: int) -> bool {
        (exists|i: int| 0 <= i < self.cells_seq().len() && key_x(self.cells_seq()[i]) == m)
            && (forall|i: int| 0 <= i < self.cells_seq().len() ==> key_x(self.cells_seq()[i]) <= m)
    }

    /// `m` is the greatest y coordinate of any key.
    pub open spec fn is_max_y(self, m: int) -> bool {
        (exists|i: int| 0 <= i < self.cells_seq().len() && key_y(self.cells_seq()[i]) == m)
            && (forall|i: int| 0 <= i < self.cells_seq().len() ==> key_y(self.cells_seq()[i]) <= m)
    }

    /// The coordinate bounds of a non-empty map.
    pub open spec fn min_x(self) -> int {
        choose|m: int| self.is_min_x(m)
    }

    pub open spec fn min_y(self) -> int {
        choose|m: int| self.is_min_y(m)
    }

    pub open spec fn max_x(self) -> int {
        choose|m: int| self.is_max_x(m)
    }

    pub open spec fn max_y(self) -> int {
        choose|m: int| self.is_max_y(m)
    }

    /// The bounding rectangle is small enough that shifting the map so its
    /// minima reach zero stays inside the signed 32-bit range.
    pub open spec fn spread_ok(self) -> bool {
        self.cells_seq().len() > 0 ==> self.max_x() - self.min_x() <= i32::MAX && self.max_y()
            - self.min_y() <= i32::MAX
    }

    /// Compute `(min x, min y, max x, max y)` over the keys, or `None` on an
    /// empty map.
    pub fn bounds(&self) -> (r: Option<(i32, i32, i32, i32)>)
        ensures
            match r {
                Some(b) => self.cells_seq().len() > 0 && self.is_min_x(b.0 as int) && self.is_min_y(
                    b.1 as int,
                ) && self.is_max_x(b.2 as int) && self.is_max_y(b.3 as int),
                None => self.cells_seq().len() == 0,
            },
    {
        let n = self.cells.len();
        if n == 0 {
            return None;
        }
        let first = self.cells[0].0;
        let mut minx: i32 = first.0;
        let mut miny: i32 = first.1;
        let mut maxx: i32 = first.0;
        let mut maxy: i32 = first.1;
        let mut i: usize = 1;
        while i < n
            invariant
                n == self.cells@.len(),
                1 <= i <= n,
                exists|j: int| 0 <= j < i && key_x(self.cells@[j]) == minx as int,
                forall|j: int| 0 <= j < i ==> key_x(self.cells@[j]) >= minx as int,
                exists|j: int| 0 <= j < i && key_y(self.cells@[j]) == miny as int,
                forall|j: int| 0 <= j < i ==> key_y(self.cells@[j]) >= miny as int,
                exists|j: int| 0 <= j < i && key_x(self.cells@[j]) == maxx as int,
                forall|j: int| 0 <= j < i ==> key_x(self.cells@[j]) <= maxx as int,
                exists|j: int| 0 <= j < i && key_y(self.cells@[j]) == maxy as int,
                forall|j: int| 0 <= j < i ==> key_y(self.cells@[j]) <= maxy as int,
            decreases n - i,
        {
            let k = self.cells[i].0;
            if k.0 < minx {
                minx = k.0;
            }
            if k.1 < miny {
                miny = k.1;
            }
            if k.0 > maxx {
                maxx = k.0;
            }
            if k.1 > maxy {
                maxy = k.1;
            }
            i += 1;
        }
        Some((minx, miny, maxx, maxy))
    }

    /// Width and height of the bounding rectangle of the keys, `(0, 0)` on
    /// an empty map.
    pub fn rect_size(&self) -> (r: (usize, usize))
        ensures
            self.cells_seq().len() == 0 ==> r == (0usize, 0usize),
            self.cells_seq().len() > 0 ==> r.0 == self.max_x() - self.min_x() && r.1
                == self.max_y() - self.min_y(),
    {
        match self.bounds() {
            None => (0, 0),
            Some((minx, miny, maxx, maxy)) => {
                proof {
                    self.lemma_bounds_from_witness(
                        minx as int,
                        miny as int,
                        maxx as int,
                        maxy as int,
                    );
                }
                let w = (maxx as i64) - (minx as i64);
                let h = (maxy as i64) - (miny as i64);
                (w as usize, h as usize)
            },
        }
    }

    /// Values meeting the four bound predicates are the four bounds: each
    /// bound is unique, so a computed witness pins the `choose`-based specs.
    pub proof fn lemma_bounds_from_witness(self, minx: int, miny: int, maxx: int, maxy: int)
        requires
            self.is_min_x(minx),
            self.is_min_y(miny),
            self.is_max_x(maxx),
            self.is_max_y(maxy),
        ensures
            self.min_x() == minx,
            self.min_y() == miny,
            self.max_x() == maxx,
            self.max_y() == maxy,
    {
        assert(self.is_min_x(self.min_x()));
        assert(self.is_min_y(self.min_y()));
        assert(self.is_max_x(self.max_x()));
        assert(self.is_max_y(self.max_y()));
    }

    /// Translate every key by `offset`; values ride along. Pure: consumes
    /// the map and returns the translated one.
    pub fn offset(self, offset: (i32, i32)) -> (r: Self)
        requires
            self.wf(),
            forall|i: int| 0 <= i < self.cells_seq().len() ==> i32::MIN <= key_x(
                #[trigger] self.cells_seq()[i],
            ) + offset.0 <= i32::MAX && i32::MIN <= key_y(self.cells_seq()[i]) + offset.1
                <= i32::MAX,
        ensures
            r.wf(),
            offset_rel(self, r, offset.0 as int, offset.1 as int),
    {
        let ghost orig = self.cells@;
        let mut src = self;
        let mut out: Vec<((i32, i32), V)> = Vec::new();
        while src.cells.len() > 0
            invariant
                assoc::unique_keys(orig),
                forall|i: int| 0 <= i < orig.len() ==> i32::MIN <= key_x(#[trigger] orig[i])
                    + offset.0 <= i32::MAX && i32::MIN <= key_y(orig[i]) + offset.1 <= i32::MAX,
                src.cells@ == orig.take(src.cells@.len() as int),
                out@.len() + src.cells@.len() == orig.len(),
                forall|i: int| 0 <= i < out@.len() ==> {
                    let e = orig[orig.len() - 1 - i];
                    (#[trigger] out@[i]) == (
                        (((key_x(e) + offset.0) as i32), ((key_y(e) + offset.1) as i32)),
                        e.1,
                    )
                },
            decreases src.cells@.len(),
        {
            let ghost srclen = src.cells@.len() as int;
            proof {
                assert(orig.take(srclen)[srclen - 1] == orig[srclen - 1]);
                assert(orig.take(srclen).take(srclen - 1) =~= orig.take(srclen - 1));
            }
            let e = src.cells.pop().unwrap();
            assert(e == orig[srclen - 1]);
            let k = e.0;
            out.push(((k.0 + offset.0, k.1 + offset.1), e.1));
        }
        proof {
            lemma_offset_out(orig, out@, offset.0 as int, offset.1 as int);
        }
        Self { cells: out }
    }

    /// Shift the map so that the least x and least y coordinates both
    /// become zero; an empty map is returned unchanged.
    pub fn normalise(self) -> (r: Self)
        requires
            self.wf(),
            self.spread_ok(),
            self.cells_seq().len() > 0 ==> self.min_x() > i32::MIN && self.min_y() > i32::MIN,
        ensures
            r.wf(),
            self.cells_seq().len() == 0 ==> r.cells_seq() == self.cells_seq(),
            self.cells_seq().len() > 0 ==> offset_rel(self, r, -self.min_x(), -self.min_y())
                && r.is_min_x(0) && r.is_min_y(0),
    {
        match self.bounds() {
            None => self,
            Some((minx, miny, maxx, maxy)) => {
                proof {
                    self.lemma_bounds_from_witness(
                        minx as int,
                        miny as int,
                        maxx as int,
                        maxy as int,
                    );
                }
                let ghost me = self;
                let r = self.offset(((-minx), (-miny)));
                proof {
                    let dx = -minx as int;
                    let dy = -miny as int;
                    let rs = r.cells_seq();
                    let ms = me.cells_seq();
                    assert forall|i: int| 0 <= i < rs.len() implies key_x(#[trigger] rs[i]) >= 0
                        && key_y(rs[i]) >= 0 by {
                        let c2 = rs[i].0;
                        assert(assoc::has_key(rs, c2));
                        let c = choose|c: (i32, i32)|
                            assoc::has_key(ms, c) && c.0 + dx == c2.0 as int && c.1 + dy
                                == c2.1 as int;
                        let j = choose|j: int| 0 <= j < ms.len() && ms[j].0 == c;
                        assert(key_x(ms[j]) >= minx as int && key_y(ms[j]) >= miny as int);
                    }
                    let iw = choose|i: int|
                        0 <= i < ms.len() && key_x(ms[i]) == minx as int;
                    assert(assoc::has_key(ms, ms[iw].0));
                    let cw2 = ((((ms[iw].0).0 + dx) as i32), (((ms[iw].0).1 + dy) as i32));
                    assert(assoc::has_key(rs, cw2));
                    let jw = choose|j: int| 0 <= j < rs.len() && rs[j].0 == cw2;
                    assert(key_x(rs[jw]) == 0);
                    let iw2 = choose|i: int|
                        0 <= i < ms.len() && key_y(ms[i]) == miny as int;
                    assert(assoc::has_key(ms, ms[iw2].0));
                    let cw3 = ((((ms[iw2].0).0 + dx) as i32), (((ms[iw2].0).1 + dy) as i32));
                    assert(assoc::has_key(rs, cw3));
                    let jw2 = choose|j: int| 0 <= j < rs.len() && rs[j].0 == cw3;
                    assert(key_y(rs[jw2]) == 0);
                }
                r
            },
        }
    }
}

impl CellMap<i32> {
    /// The breadth-first cost stored at `c`, as a mathematical integer.
    /// Meaningful only where `contains_spec(c)` holds.
    pub open spec fn cost_spec(self, c: (i32, i32)) -> int {
        (self.lookup_spec(c)->0) as int
    }

    /// A coordinate whose cost is minimal, or `None` on an empty map.
    pub fn start_point(&self) -> (r: Option<(i32, i32)>)
        requires
            self.wf(),
        ensures
            match r {
                Some(p) => self.contains_spec(p) && forall|q: (i32, i32)|
                    #[trigger] self.contains_spec(q) ==> self.cost_spec(p) <= self.cost_spec(q),
                None => self.cells_seq().len() == 0,
            },
    {
        let n = self.cells.len();
        if n == 0 {
            return None;
        }
        let e0 = &self.cells[0];
        let mut best_key = e0.0;
        let mut best_val = e0.1;
        let mut i: usize = 1;
        while i < n
            invariant
                n == self.cells@.len(),
                1 <= i <= n,
                exists|j: int| 0 <= j < i && #[trigger] self.cells@[j] == (best_key, best_val),
                forall|j: int| 0 <= j < i ==> (#[trigger] self.cells@[j]).1 >= best_val,
            decreases n - i,
        {
            let e = &self.cells[i];
            if e.1 < best_val {
                best_key = e.0;
                best_val = e.1;
            }
            i += 1;
        }
        proof {
            let j = choose|j: int| 0 <= j < n && #[trigger] self.cells@[j] == (best_key, best_val);
            assoc::lemma_lookup_at(self.cells_seq(), best_key, j);
            assert forall|q: (i32, i32)| #[trigger] self.contains_spec(q) implies self.cost_spec(
                best_key,
            ) <= self.cost_spec(q) by {
                let k = choose|k: int| 0 <= k < self.cells@.len() && self.cells@[k].0 == q;
                assoc::lemma_lookup_at(self.cells_seq(), q, k);
            }
        }
        Some(best_key)
    }

    /// A coordinate whose cost is maximal, or `None` on an empty map.
    pub fn end_point(&self) -> (r: Option<(i32, i32)>)
        requires
            self.wf(),
        ensures
            match r {
                Some(p) => self.contains_spec(p) && forall|q: (i32, i32)|
                    #[trigger] self.contains_spec(q) ==> self.cost_spec(p) >= self.cost_spec(q),
                None => self.cells_seq().len() == 0,
            },
    {
        let n = self.cells.len();
        if n == 0 {
            return None;
        }
        let e0 = &self.cells[0];
        let mut best_key = e0.0;
        let mut best_val = e0.1;
        let mut i: usize = 1;
        while i < n
            invariant
                n == self.cells@.len(),
                1 <= i <= n,
                exists|j: int| 0 <= j < i && #[trigger] self.cells@[j] == (best_key, best_val),
                forall|j: int| 0 <= j < i ==> (#[trigger] self.cells@[j]).1 <= best_val,
            decreases n - i,
        {
            let e = &self.cells[i];
            if e.1 > best_val {
                best_key = e.0;
                best_val = e.1;
            }
            i += 1;
        }
        proof {
            let j = choose|j: int| 0 <= j < n && #[trigger] self.cells@[j] == (best_key, best_val);
            assoc::lemma_lookup_at(self.cells_seq(), best_key, j);
            assert forall|q: (i32, i32)| #[trigger] self.contains_spec(q) implies self.cost_spec(
                best_key,
            ) >= self.cost_spec(q) by {
                let k = choose|k: int| 0 <= k < self.cells@.len() && self.cells@[k].0 == q;
                assoc::lemma_lookup_at(self.cells_seq(), q, k);
            }
        }
        Some(best_key)
    }
}

/// `b` holds exactly the entries of `a` with every key translated by
/// `(dx, dy)`, values unchanged.
pub open spec fn offset_rel_seq<V>(
    a: Seq<((i32, i32), V)>,
    b: Seq<((i32, i32), V)>,
    dx: int,
    dy: int,
) -> bool {
    &&& b.len() == a.len()
    &&& forall|c: (i32, i32)| #[trigger] assoc::has_key(a, c) ==> {
        let c2 = (((c.0 + dx) as i32), ((c.1 + dy) as i32));
        c.0 + dx == c2.0 as int && c.1 + dy == c2.1 as int && assoc::has_key(b, c2)
            && assoc::lookup(b, c2) == assoc::lookup(a, c)
    }
    &&& forall|c2: (i32, i32)| #[trigger] assoc::has_key(b, c2) ==> exists|c: (i32, i32)|
        assoc::has_key(a, c) && c.0 + dx == c2.0 as int && c.1 + dy == c2.1 as int
}

/// `offset_rel_seq` lifted to whole maps.
pub open spec fn offset_rel<V>(a: CellMap<V>, b: CellMap<V>, dx: int, dy: int) -> bool {
    offset_rel_seq(a.cells_seq(), b.cells_seq(), dx, dy)
}

/// The reversed, key-translated copy of an entry list is key-unique and
/// realizes `offset_rel_seq`.
proof fn lemma_offset_out<V>(
    orig: Seq<((i32, i32), V)>,
    out: Seq<((i32, i32), V)>,
    dx: int,
    dy: int,
)
    requires
        assoc::unique_keys(orig),
        forall|i: int| 0 <= i < orig.len() ==> i32::MIN <= key_x(#[trigger] orig[i]) + dx
            <= i32::MAX && i32::MIN <= key_y(orig[i]) + dy <= i32::MAX,
        out.len() == orig.len(),
        forall|i: int| 0 <= i < out.len() ==> {
            let e = orig[orig.len() - 1 - i];
            (#[trigger] out[i]) == ((((key_x(e) + dx) as i32), ((key_y(e) + dy) as i32)), e.1)
        },
    ensures
        assoc::unique_keys(out),
        offset_rel_seq(orig, out, dx, dy),
{
    let n = orig.len();
    assert forall|i: int, j: int| 0 <= i < j < out.len() implies out[i].0 != out[j].0 by {
        let e1 = orig[n - 1 - i];
        let e2 = orig[n - 1 - j];
        if out[i].0 == out[j].0 {
            assert(key_x(e1) + dx == key_x(e2) + dx);
            assert(key_y(e1) + dy == key_y(e2) + dy);
            assert(e1.0 == e2.0);
            assert(orig[n - 1 - j].0 != orig[n - 1 - i].0);
        }
    }
    assert forall|c: (i32, i32)| #[trigger] assoc::has_key(orig, c) implies {
        let c2 = (((c.0 + dx) as i32), ((c.1 + dy) as i32));
        c.0 + dx == c2.0 as int && c.1 + dy == c2.1 as int && assoc::has_key(out, c2)
            && assoc::lookup(out, c2) == assoc::lookup(orig, c)
    } by {
        let i = choose|i: int| 0 <= i < orig.len() && orig[i].0 == c;
        let ii = n - 1 - i;
        let c2 = (((c.0 + dx) as i32), ((c.1 + dy) as i32));
        assert(out[ii] == ((((key_x(orig[i]) + dx) as i32), ((key_y(orig[i]) + dy) as i32)), orig[i].1));
        assert(out[ii].0 == c2);
        assoc::lemma_lookup_at(orig, c, i);
        assoc::lemma_lookup_at(out, c2, ii);
    }
    assert forall|c2: (i32, i32)| #[trigger] assoc::has_key(out, c2) implies exists|c: (i32, i32)|
        assoc::has_key(orig, c) && c.0 + dx == c2.0 as int && c.1 + dy == c2.1 as int by {
        let ii = choose|ii: int| 0 <= ii < out.len() && out[ii].0 == c2;
        let e = orig[n - 1 - ii];
        assert(assoc::has_key(orig, e.0));
        assert(key_x(e) + dx == c2.0 as int && key_y(e) + dy == c2.1 as int);
        assert((e.0).0 as int + dx == c2.0 as int && (e.0).1 as int + dy == c2.1 as int);
    }
}

/// `has_key` agrees with `lookup` being `Some`.
pub proof fn lemma_has_key_from_lookup<V>(s: Seq<((i32, i32), V)>, q: (i32, i32))
    ensures
        assoc::has_key(s, q) == (assoc::lookup(s, q) is Some),
{
}


/// The unit offset of direction index `k`.
fn dir_offset(k: usize) -> (r: (i32, i32))
    requires
        k < 4,
    ensures
        (r.0 as int, r.1 as int) == reach::offset_of(k as int),
{
    if k == 0 {
        (0, 1)
    } else if k == 1 {
        (1, 0)
    } else if k == 2 {
        (-1, 0)
    } else {
        (0, -1)
    }
}

/// Linear membership test on a list of coordinates.
fn vec_contains_pos(v: &Vec<(i32, i32)>, p: (i32, i32)) -> (r: bool)
    ensures
        r == v@.contains(p),
{
    let n = v.len();
    let mut i: usize = 0;
    while i < n
        invariant
            n == v@.len(),
            i <= n,
            forall|j: int| 0 <= j < i ==> v@[j] != p,
        decreases n - i,
    {
        let q = v[i];
        if q.0 == p.0 && q.1 == p.1 {
            assert(v@[i as int] == p);
            return true;
        }
        let ghost ip = i as int;
        i += 1;
        assert(v@[ip] != p);
    }
    assert(!v@.contains(p));
    false
}

/// Membership and uniqueness facts about pushing one coordinate.
proof fn lemma_push_contains(s: Seq<(i32, i32)>, x: (i32, i32))
    ensures
        forall|c: (i32, i32)| s.push(x).contains(c) <==> (s.contains(c) || c == x),
        s.no_duplicates() && !s.contains(x) ==> s.push(x).no_duplicates(),
{
    assert forall|c: (i32, i32)| s.push(x).contains(c) <==> (s.contains(c) || c == x) by {
        if s.push(x).contains(c) {
            let i = choose|i: int| 0 <= i < s.push(x).len() && s.push(x)[i] == c;
            if i < s.len() {
                assert(s[i] == c);
            }
        }
        if s.contains(c) {
            let i = choose|i: int| 0 <= i < s.len() && s[i] == c;
            assert(s.push(x)[i] == c);
        }
        if c == x {
            assert(s.push(x)[s.len() as int] == c);
        }
    }
    if s.no_duplicates() && !s.contains(x) {
        assert forall|i: int, j: int| 0 <= i < j < s.push(x).len() implies s.push(x)[i] != s.push(
            x,
        )[j] by {
            if j < s.len() {
                assert(s.push(x)[i] == s[i] && s.push(x)[j] == s[j]);
            } else {
                assert(s.push(x)[j] == x && s.push(x)[i] == s[i]);
                if s[i] == x {
                    assert(s.contains(x));
                }
            }
        }
    }
}

/// A key-unique entry list whose keys, apart from at most one `extra`
/// coordinate, all occur in a second list is at most one entry longer than
/// the second list.
proof fn lemma_keys_len_bound<A, B>(
    a: Seq<((i32, i32), A)>,
    b: Seq<((i32, i32), B)>,
    extra: (i32, i32),
)
    requires
        assoc::unique_keys(a),
        forall|i: int| 0 <= i < a.len() ==> (#[trigger] a[i]).0 == extra || assoc::has_key(
            b,
            a[i].0,
        ),
    ensures
        a.len() <= b.len() + 1,
{
    broadcast use vstd::set::group_set_axioms;
    broadcast use vstd::seq_lib::seq_to_set_is_finite;

    let ka = a.map_values(|e: ((i32, i32), A)| e.0);
    let kb = b.map_values(|e: ((i32, i32), B)| e.0);
    assert forall|i: int, j: int| 0 <= i < j < ka.len() implies ka[i] != ka[j] by {
        assert(ka[i] == a[i].0 && ka[j] == a[j].0);
    }
    assert(ka.no_duplicates());
    ka.unique_seq_to_set();
    kb.lemma_cardinality_of_set();
    let target = kb.to_set().insert(extra);
    assert forall|x: (i32, i32)| ka.to_set().contains(x) implies target.contains(x) by {
        let i = choose|i: int| 0 <= i < ka.len() && ka[i] == x;
        assert(a[i].0 == x);
        if x != extra {
            let j = choose|j: int| 0 <= j < b.len() && b[j].0 == x;
            assert(kb[j] == x);
            assert(kb.contains(x));
        }
    }
    assert(ka.to_set().subset_of(target));
    vstd::set_lib::lemma_len_subset(ka.to_set(), target);
}

/// The map is a coherent cost field: unless empty, some cell costs zero
/// and every cell is reachable from it through the map's own key set.
pub open spec fn connected_cost_map(m: CellMap<i32>) -> bool {
    m.cells_seq().len() > 0 ==> exists|s: (i32, i32)|
        #![trigger m.cost_spec(s)]
        m.contains_spec(s) && m.cost_spec(s) == 0 && forall|c: (i32, i32)|
            #[trigger] m.contains_spec(c) ==> reach::reachable(m.keys_set(), s, c)
}

impl CellMap<i32> {
    /// The cost mapping the map denotes, as a mathematical map.
    pub open spec fn cost_map(self) -> Map<(i32, i32), int> {
        Map::new(|c: (i32, i32)| self.contains_spec(c), |c: (i32, i32)| self.cost_spec(c))
    }

    /// Breadth-first recomputation from `start_point`: a new map whose key
    /// set is exactly the set of coordinates reachable from `start_point`
    /// through the keys of `self`, each valued with its shortest orthogonal
    /// path length. Coordinates unreachable from `start_point` are dropped.
    #[verifier::rlimit(100)]
    pub fn recalculate(&self, start_point: (i32, i32)) -> (r: Self)
        requires
            self.wf(),
            self.cells_seq().len() + 2 <= i32::MAX,
        ensures
            r.wf(),
            reach::bfs_post(self.keys_set(), start_point, r.cost_map()),
    {
        let ghost keys = self.keys_set();
        let o = start_point;
        let mut dist: CellMap<i32> = CellMap::empty();
        dist.insert(o, 0);
        let mut frontier: Vec<(i32, i32)> = Vec::new();
        frontier.push(o);
        let mut d: i32 = 0;
        proof {
            assert forall|c: (i32, i32)| #[trigger] dist.contains_spec(c)
                <==> reach::reachable_in(keys, o, c, 0) by {
                reach::lemma_reachable_zero(keys, o, c);
            }
            assert forall|c: (i32, i32)| #[trigger] frontier@.contains(c)
                <==> reach::reachable_in(keys, o, c, 0) by {
                reach::lemma_reachable_zero(keys, o, c);
                if frontier@.contains(c) {
                    let i = choose|i: int| 0 <= i < frontier@.len() && frontier@[i] == c;
                    assert(c == o);
                }
                if c == o {
                    assert(frontier@[0] == c);
                }
            }
        }
        while frontier.len() > 0
            invariant
                self.wf(),
                keys == self.keys_set(),
                o == start_point,
                dist.wf(),
                0 <= d,
                d as int <= dist.cells_seq().len() - 1,
                dist.cells_seq().len() <= self.cells_seq().len() + 1,
                self.cells_seq().len() + 2 <= i32::MAX,
                frontier@.len() > 0,
                forall|c: (i32, i32)| #[trigger] dist.contains_spec(c) <==> reach::reachable_in(
                    keys,
                    o,
                    c,
                    d as nat,
                ),
                forall|c: (i32, i32)| #[trigger] frontier@.contains(c) <==> (reach::reachable_in(
                    keys,
                    o,
                    c,
                    d as nat,
                ) && (d == 0 || !reach::reachable_in(keys, o, c, (d - 1) as nat))),
                forall|c: (i32, i32)| #[trigger] dist.contains_spec(c) ==> {
                    let v = dist.cost_spec(c);
                    0 <= v <= d && reach::reachable_in(keys, o, c, v as nat) && (v > 0
                        ==> !reach::reachable_in(keys, o, c, (v - 1) as nat))
                },
            ensures
                dist.wf(),
                forall|c: (i32, i32)| #[trigger] dist.contains_spec(c) <==> reach::reachable(
                    keys,
                    o,
                    c,
                ),
                forall|c: (i32, i32)| #[trigger] dist.contains_spec(c) ==> {
                    let v = dist.cost_spec(c);
                    0 <= v && reach::reachable_in(keys, o, c, v as nat) && (v > 0
                        ==> !reach::reachable_in(keys, o, c, (v - 1) as nat))
                },
            decreases self.cells_seq().len() + 1 - dist.cells_seq().len(),
        {
            let ghost dist0 = dist;
            let ghost d0 = d as int;
            let mut next: Vec<(i32, i32)> = Vec::new();
            let flen = frontier.len();
            let mut fi: usize = 0;
            while fi < flen
                invariant
                    self.wf(),
                    keys == self.keys_set(),
                    dist == dist0,
                    dist0.wf(),
                    0 <= d0,
                    flen == frontier@.len(),
                    fi <= flen,
                    forall|c: (i32, i32)| #[trigger] dist0.contains_spec(c)
                        <==> reach::reachable_in(keys, o, c, d0 as nat),
                    next@.no_duplicates(),
                    forall|c: (i32, i32)| #[trigger] next@.contains(c) ==> keys.contains(c)
                        && !dist0.contains_spec(c) && exists|j: int|
                        #![trigger frontier@[j]]
                        0 <= j < fi && reach::adjacent(frontier@[j], c),
                    forall|j: int, c: (i32, i32)|
                        #![trigger frontier@[j], next@.contains(c)]
                        0 <= j < fi && keys.contains(c) && !dist0.contains_spec(c)
                            && reach::adjacent(frontier@[j], c) ==> next@.contains(c),
                decreases flen - fi,
            {
                let f = frontier[fi];
                let ghost fii = fi as int;
                let mut k: usize = 0;
                while k < 4
                    invariant
                        self.wf(),
                        keys == self.keys_set(),
                        dist == dist0,
                        dist0.wf(),
                        0 <= d0,
                        flen == frontier@.len(),
                        fi < flen,
                        fii == fi as int,
                        f == frontier@[fii],
                        k <= 4,
                        forall|c: (i32, i32)| #[trigger] dist0.contains_spec(c)
                            <==> reach::reachable_in(keys, o, c, d0 as nat),
                        next@.no_duplicates(),
                        forall|c: (i32, i32)| #[trigger] next@.contains(c) ==> keys.contains(c)
                            && !dist0.contains_spec(c) && exists|j: int|
                            #![trigger frontier@[j]]
                            0 <= j <= fii && reach::adjacent(frontier@[j], c),
                        forall|j: int, c: (i32, i32)|
                            #![trigger frontier@[j], next@.contains(c)]
                            0 <= j < fii && keys.contains(c) && !dist0.contains_spec(c)
                                && reach::adjacent(frontier@[j], c) ==> next@.contains(c),
                        forall|k2: int, c: (i32, i32)|
                            #![trigger reach::offset_of(k2), next@.contains(c)]
                            0 <= k2 < k && keys.contains(c) && !dist0.contains_spec(c) && c.0 as int
                                == f.0 as int + reach::offset_of(k2).0 && c.1 as int == f.1 as int
                                + reach::offset_of(k2).1 ==> next@.contains(c),
                    decreases 4 - k,
                {
                    let off = dir_offset(k);
                    let ghost kk = k as int;
                    let ghost next_before = next@;
                    match tiles::shift_pos(f, off) {
                        Some(n) => {
                            let in_keys = self.contains(&n);
                            let in_dist = dist.contains(&n);
                            let in_next = vec_contains_pos(&next, n);
                            if in_keys && !in_dist && !in_next {
                                next.push(n);
                                proof {
                                    lemma_push_contains(next_before, n);
                                    reach::lemma_adjacent_offsets(f, n);
                                    assert(reach::adjacent(f, n));
                                    assert(frontier@[fii] == f);
                                    assert forall|c: (i32, i32)| #[trigger] next@.contains(c)
                                        implies keys.contains(c) && !dist0.contains_spec(c)
                                        && exists|j: int|
                                        #![trigger frontier@[j]]
                                        0 <= j <= fii && reach::adjacent(frontier@[j], c) by {
                                        if c == n {
                                            assert(reach::adjacent(frontier@[fii], c));
                                        } else {
                                            assert(next_before.contains(c));
                                        }
                                    }
                                    assert forall|k2: int, c: (i32, i32)|
                                        #![trigger reach::offset_of(k2), next@.contains(c)]
                                        0 <= k2 < k + 1 && keys.contains(c)
                                            && !dist0.contains_spec(c) && c.0 as int == f.0 as int
                                            + reach::offset_of(k2).0 && c.1 as int == f.1 as int
                                            + reach::offset_of(k2).1 implies next@.contains(c) by {
                                        if k2 == kk {
                                            assert(c == n);
                                        } else {
                                            assert(next_before.contains(c));
                                        }
                                    }
                                    assert forall|j: int, c: (i32, i32)|
                                        #![trigger frontier@[j], next@.contains(c)]
                                        0 <= j < fii && keys.contains(c) && !dist0.contains_spec(c)
                                            && reach::adjacent(frontier@[j], c) implies
                                        next@.contains(c) by {
                                        assert(next_before.contains(c));
                                    }
                                }
                            } else {
                                proof {
                                    assert forall|k2: int, c: (i32, i32)|
                                        #![trigger reach::offset_of(k2), next@.contains(c)]
                                        0 <= k2 < k + 1 && keys.contains(c)
                                            && !dist0.contains_spec(c) && c.0 as int == f.0 as int
                                            + reach::offset_of(k2).0 && c.1 as int == f.1 as int
                                            + reach::offset_of(k2).1 implies next@.contains(c) by {
                                        if k2 == kk {
                                            assert(c == n);
                                            assert(in_next);
                                        }
                                    }
                                }
                            }
                        },
                        None => {
                            proof {
                                assert forall|k2: int, c: (i32, i32)|
                                    #![trigger reach::offset_of(k2), next@.contains(c)]
                                    0 <= k2 < k + 1 && keys.contains(c) && !dist0.contains_spec(c)
                                        && c.0 as int == f.0 as int + reach::offset_of(k2).0
                                        && c.1 as int == f.1 as int + reach::offset_of(k2).1
                                        implies next@.contains(c) by {
                                    if k2 == kk {
                                        assert(i32::MIN <= c.0 as int <= i32::MAX);
                                        assert(false);
                                    }
                                }
                            }
                        },
                    }
                    k += 1;
                }
                proof {
                    assert forall|j: int, c: (i32, i32)|
                        #![trigger frontier@[j], next@.contains(c)]
                        0 <= j < fii + 1 && keys.contains(c) && !dist0.contains_spec(c)
                            && reach::adjacent(frontier@[j], c) implies next@.contains(c) by {
                        if j == fii {
                            reach::lemma_adjacent_offsets(f, c);
                            let k2 = choose|k2: int|
                                0 <= k2 < 4 && c.0 as int == f.0 as int + (
                                #[trigger] reach::offset_of(k2)).0 && c.1 as int == f.1 as int
                                    + reach::offset_of(k2).1;
                            assert(reach::offset_of(k2) == reach::offset_of(k2));
                        }
                    }
                }
                fi += 1;
            }
            // `next` is exactly the breadth-first level d0 + 1.
            proof {
                assert forall|c: (i32, i32)| #[trigger] next@.contains(c) implies
                    reach::reachable_in(keys, o, c, (d0 + 1) as nat) && !reach::reachable_in(
                    keys,
                    o,
                    c,
                    d0 as nat,
                ) by {
                    let j = choose|j: int|
                        #![trigger frontier@[j]]
                        0 <= j < flen && reach::adjacent(frontier@[j], c);
                    let b = frontier@[j];
                    assert(frontier@.contains(b));
                    reach::lemma_reachable_step(keys, o, b, c, d0 as nat);
                }
                assert forall|c: (i32, i32)|
                    reach::reachable_in(keys, o, c, (d0 + 1) as nat) && !reach::reachable_in(
                        keys,
                        o,
                        c,
                        d0 as nat,
                    ) implies next@.contains(c) by {
                    reach::lemma_reachable_origin(keys, o, d0 as nat);
                    assert(c != o);
                    reach::lemma_reachable_unstep(keys, o, c, (d0 + 1) as nat);
                    let b = choose|b: (i32, i32)|
                        #![trigger reach::adjacent(b, c)]
                        reach::reachable_in(keys, o, b, d0 as nat) && reach::adjacent(b, c);
                    if d0 > 0 && reach::reachable_in(keys, o, b, (d0 - 1) as nat) {
                        reach::lemma_reachable_step(keys, o, b, c, (d0 - 1) as nat);
                    }
                    assert(frontier@.contains(b));
                    let j = choose|j: int| 0 <= j < frontier@.len() && frontier@[j] == b;
                    assert(reach::adjacent(frontier@[j], c));
                }
            }
            if next.len() == 0 {
                proof {
                    assert forall|c: (i32, i32)| #[trigger] reach::reachable_in(
                        keys,
                        o,
                        c,
                        (d0 + 1) as nat,
                    ) implies reach::reachable_in(keys, o, c, d0 as nat) by {
                        if !reach::reachable_in(keys, o, c, d0 as nat) {
                            assert(next@.contains(c));
                        }
                    }
                    assert forall|c: (i32, i32)| #[trigger] dist.contains_spec(c)
                        <==> reach::reachable(keys, o, c) by {
                        if dist.contains_spec(c) {
                            assert(reach::reachable_in(keys, o, c, d0 as nat));
                        }
                        if reach::reachable(keys, o, c) {
                            let kk = choose|kk: nat| reach::reachable_in(keys, o, c, kk);
                            reach::lemma_fixed_point(keys, o, d0 as nat, kk);
                        }
                    }
                }
                break ;
            }
            d += 1;
            let nlen = next.len();
            let mut ni: usize = 0;
            while ni < nlen
                invariant
                    self.wf(),
                    keys == self.keys_set(),
                    dist.wf(),
                    d as int == d0 + 1,
                    0 <= d0,
                    nlen == next@.len(),
                    ni <= nlen,
                    next@.no_duplicates(),
                    forall|c: (i32, i32)| #[trigger] next@.contains(c) <==> (reach::reachable_in(
                        keys,
                        o,
                        c,
                        (d0 + 1) as nat,
                    ) && !reach::reachable_in(keys, o, c, d0 as nat)),
                    forall|c: (i32, i32)| #[trigger] dist.contains_spec(c)
                        <==> (reach::reachable_in(keys, o, c, d0 as nat) || exists|m: int|
                        0 <= m < ni && next@[m] == c),
                    forall|c: (i32, i32)| #[trigger] dist.contains_spec(c) ==> {
                        let v = dist.cost_spec(c);
                        0 <= v <= d && reach::reachable_in(keys, o, c, v as nat) && (v > 0
                            ==> !reach::reachable_in(keys, o, c, (v - 1) as nat))
                    },
                    dist.cells_seq().len() == dist0.cells_seq().len() + ni,
                    dist0.cells_seq().len() <= self.cells_seq().len() + 1,
                    self.cells_seq().len() + 2 <= i32::MAX,
                    d0 <= dist0.cells_seq().len() - 1,
                decreases nlen - ni,
            {
                let n = next[ni];
                let ghost dist_before = dist;
                proof {
                    assert(next@.contains(n));
                    assert(!dist.contains_spec(n)) by {
                        if exists|m: int| 0 <= m < ni && next@[m] == n {
                            let m = choose|m: int| 0 <= m < ni && next@[m] == n;
                            assert(next@[m] == next@[ni as int]);
                        }
                    }
                }
                dist.insert(n, d);
                proof {
                    assert forall|c: (i32, i32)| #[trigger] dist.contains_spec(c)
                        <==> (reach::reachable_in(keys, o, c, d0 as nat) || exists|m: int|
                        0 <= m < ni + 1 && next@[m] == c) by {
                        if c == n {
                            assert(next@[ni as int] == c);
                        } else {
                            if exists|m: int| 0 <= m < ni + 1 && next@[m] == c {
                                let m = choose|m: int| 0 <= m < ni + 1 && next@[m] == c;
                                assert(m < ni);
                            }
                        }
                    }
                    assert forall|c: (i32, i32)| #[trigger] dist.contains_spec(c) implies {
                        let v = dist.cost_spec(c);
                        0 <= v <= d && reach::reachable_in(keys, o, c, v as nat) && (v > 0
                            ==> !reach::reachable_in(keys, o, c, (v - 1) as nat))
                    } by {
                        if c == n {
                            assert(dist.lookup_spec(c) == Some(d));
                            assert(dist.cost_spec(c) == d as int);
                        } else {
                            assert(dist.lookup_spec(c) == dist_before.lookup_spec(c));
                            assert(dist_before.contains_spec(c));
                        }
                    }
                }
                ni += 1;
            }
            frontier = next;
            proof {
                assert forall|c: (i32, i32)| #[trigger] dist.contains_spec(c)
                    <==> reach::reachable_in(keys, o, c, d as nat) by {
                    if dist.contains_spec(c) {
                        if reach::reachable_in(keys, o, c, d0 as nat) {
                            reach::lemma_reachable_in_monotonic(
                                keys,
                                o,
                                c,
                                d0 as nat,
                                (d0 + 1) as nat,
                            );
                        } else {
                            let m = choose|m: int| 0 <= m < nlen && frontier@[m] == c;
                            assert(frontier@.contains(c));
                        }
                    }
                    if reach::reachable_in(keys, o, c, d as nat) {
                        if !reach::reachable_in(keys, o, c, d0 as nat) {
                            assert(frontier@.contains(c));
                            let m = choose|m: int| 0 <= m < frontier@.len() && frontier@[m] == c;
                        }
                    }
                }
                assert forall|i: int| 0 <= i < dist.cells_seq().len() implies (
                #[trigger] dist.cells_seq()[i]).0 == o || assoc::has_key(
                    self.cells_seq(),
                    dist.cells_seq()[i].0,
                ) by {
                    let c = dist.cells_seq()[i].0;
                    assert(assoc::has_key(dist.cells_seq(), c));
                    assert(dist.contains_spec(c));
                    if c != o {
                        reach::lemma_reachable_in_keys(keys, o, c, d as nat);
                        assert(keys.contains(c));
                    }
                }
                lemma_keys_len_bound(dist.cells_seq(), self.cells_seq(), o);
            }
        }
        proof {
            let m = dist.cost_map();
            assert forall|c: (i32, i32)| #[trigger] m.dom().contains(c) <==> reach::reachable(
                keys,
                o,
                c,
            ) by {
                assert(m.dom().contains(c) == dist.contains_spec(c));
            }
            assert forall|c: (i32, i32)| #[trigger] m.dom().contains(c) implies {
                &&& m[c] >= 0
                &&& reach::reachable_in(keys, o, c, m[c] as nat)
                &&& (m[c] > 0 ==> !reach::reachable_in(keys, o, c, (m[c] - 1) as nat))
            } by {
                assert(dist.contains_spec(c));
                assert(m[c] == dist.cost_spec(c));
            }
        }
        dist
    }
}


/// The number of entries whose value lies strictly between `lo` and `hi`
/// and whose coordinate is not in `excl`: the candidate pool of
/// `distribute_points_by_cost`.
pub open spec fn candidate_count(
    s: Seq<((i32, i32), i32)>,
    lo: int,
    hi: int,
    excl: Seq<(i32, i32)>,
) -> int
    decreases s.len(),
{
    if s.len() == 0 {
        0
    } else {
        candidate_count(s.drop_last(), lo, hi, excl) + (if lo < s.last().1 < hi && !excl.contains(
            s.last().0,
        ) {
            1int
        } else {
            0int
        })
    }
}

impl CellMap<i32> {
    /// `m` is the least cost value of any entry.
    pub open spec fn is_min_cost(self, m: int) -> bool {
        (exists|i: int| 0 <= i < self.cells_seq().len() && (#[trigger] self.cells_seq()[i]).1 == m)
            && (forall|i: int|
            0 <= i < self.cells_seq().len() ==> (#[trigger] self.cells_seq()[i]).1 >= m)
    }

    /// `m` is the greatest cost value of any entry.
    pub open spec fn is_max_cost(self, m: int) -> bool {
        (exists|i: int| 0 <= i < self.cells_seq().len() && (#[trigger] self.cells_seq()[i]).1 == m)
            && (forall|i: int|
            0 <= i < self.cells_seq().len() ==> (#[trigger] self.cells_seq()[i]).1 <= m)
    }

    /// The cost bounds of a non-empty map.
    pub open spec fn min_cost(self) -> int {
        choose|m: int| self.is_min_cost(m)
    }

    pub open spec fn max_cost(self) -> int {
        choose|m: int| self.is_max_cost(m)
    }

    /// A computed witness pins the `choose`-based cost bounds.
    pub proof fn lemma_cost_bounds_from_witness(self, minc: int, maxc: int)
        requires
            self.is_min_cost(minc),
            self.is_max_cost(maxc),
        ensures
            self.min_cost() == minc,
            self.max_cost() == maxc,
    {
        assert(self.is_min_cost(self.min_cost()));
        assert(self.is_max_cost(self.max_cost()));
    }

    /// Compute `(least cost, greatest cost)`, or `None` on an empty map.
    pub fn cost_bounds(&self) -> (r: Option<(i32, i32)>)
        ensures
            match r {
                Some(b) => self.cells_seq().len() > 0 && self.is_min_cost(b.0 as int)
                    && self.is_max_cost(b.1 as int),
                None => self.cells_seq().len() == 0,
            },
    {
        let n = self.cells.len();
        if n == 0 {
            return None;
        }
        let e0 = &self.cells[0];
        let mut minc: i32 = e0.1;
        let mut maxc: i32 = e0.1;
        let mut i: usize = 1;
        while i < n
            invariant
                n == self.cells@.len(),
                1 <= i <= n,
                exists|j: int| 0 <= j < i && (#[trigger] self.cells@[j]).1 == minc,
                forall|j: int| 0 <= j < i ==> (#[trigger] self.cells@[j]).1 >= minc,
                exists|j: int| 0 <= j < i && (#[trigger] self.cells@[j]).1 == maxc,
                forall|j: int| 0 <= j < i ==> (#[trigger] self.cells@[j]).1 <= maxc,
            decreases n - i,
        {
            let e = &self.cells[i];
            if e.1 < minc {
                minc = e.1;
            }
            if e.1 > maxc {
                maxc = e.1;
            }
            i += 1;
        }
        Some((minc, maxc))
    }

    /// Sample up to `n` coordinates without replacement, weighted towards
    /// the median breadth-first cost: a candidate is a coordinate whose
    /// cost lies strictly between the least and greatest cost present
    /// (both extremes excluded) and that is not in `exclude`; its weight is
    /// `mid - |mid - cost|`, clamped at zero, where `mid` is the midpoint
    /// of the cost range. Returns fewer than `n` points exactly when the
    /// candidate pool is smaller than `n`; callers must tolerate short
    /// results.
    pub fn distribute_points_by_cost(
        &self,
        n: usize,
        exclude: Option<&Vec<(i32, i32)>>,
        rng: &mut rand::rngs::StdRng,
    ) -> (r: Vec<(i32, i32)>)
        requires
            self.wf(),
            self.cells_seq().len() > 0,
        ensures
            r@.len() <= n,
            r@.len() == vstd::math::min(
                n as int,
                candidate_count(
                    self.cells_seq(),
                    self.min_cost(),
                    self.max_cost(),
                    match exclude {
                        Some(e) => e@,
                        None => Seq::<(i32, i32)>::empty(),
                    },
                ),
            ),
            forall|i: int| 0 <= i < r@.len() ==> {
                let c = #[trigger] r@[i];
                self.contains_spec(c) && self.min_cost() < self.cost_spec(c) < self.max_cost()
                    && !(match exclude {
                    Some(e) => e@,
                    None => Seq::<(i32, i32)>::empty(),
                }).contains(c)
            },
            forall|i1: int, i2: int| 0 <= i1 < i2 < r@.len() ==> r@[i1] != r@[i2],
    {
        let ghost excl: Seq<(i32, i32)> = match exclude {
            Some(e) => e@,
            None => Seq::<(i32, i32)>::empty(),
        };
        let bounds = self.cost_bounds();
        let (minc, maxc) = match bounds {
            Some(b) => b,
            None => {
                return Vec::new();
            },
        };
        proof {
            self.lemma_cost_bounds_from_witness(minc as int, maxc as int);
        }
        let mid: i64 = (minc as i64) + ((maxc as i64) - (minc as i64)) / 2;
        let len = self.cells.len();
        let mut cand: Vec<((i32, i32), u32)> = Vec::new();
        let mut i: usize = 0;
        while i < len
            invariant
                self.wf(),
                len == self.cells@.len(),
                i <= len,
                excl == (match exclude {
                    Some(e) => e@,
                    None => Seq::<(i32, i32)>::empty(),
                }),
                self.is_min_cost(minc as int),
                self.is_max_cost(maxc as int),
                minc as int == self.min_cost(),
                maxc as int == self.max_cost(),
                mid == minc as int + (maxc - minc) / 2,
                cand@.len() == candidate_count(
                    self.cells_seq().take(i as int),
                    minc as int,
                    maxc as int,
                    excl,
                ),
                forall|a: int| 0 <= a < cand@.len() ==> {
                    let c = (#[trigger] cand@[a]).0;
                    self.contains_spec(c) && minc < self.cost_spec(c) < maxc && !excl.contains(c)
                },
                forall|a: int, b: int| 0 <= a < b < cand@.len() ==> (#[trigger] cand@[a]).0 != (
                #[trigger] cand@[b]).0,
                forall|a: int| 0 <= a < cand@.len() ==> exists|j: int|
                    0 <= j < i && (#[trigger] cand@[a]).0 == self.cells@[j].0,
            decreases len - i,
        {
            let e = &self.cells[i];
            let c = e.0;
            let v = e.1;
            let excluded = match exclude {
                Some(ev) => vec_contains_pos(ev, c),
                None => false,
            };
            let ghost cand0 = cand@;
            if v > minc && v < maxc && !excluded {
                let diff: i64 = if (v as i64) >= mid {
                    (v as i64) - mid
                } else {
                    mid - (v as i64)
                };
                let w64: i64 = mid - diff;
                let w: u32 = if w64 < 0 {
                    0
                } else {
                    w64 as u32
                };
                proof {
                    assoc::lemma_lookup_at(self.cells_seq(), c, i as int);
                    assert(self.cost_spec(c) == v as int);
                    assert forall|a: int, b: int| 0 <= a < b < cand@.len() implies (
                    #[trigger] cand@[a]).0 != (#[trigger] cand@[b]).0 by {
                        if b == cand@.len() - 1 {
                            let j = choose|j: int|
                                0 <= j < i && (#[trigger] cand0[a]).0 == self.cells@[j].0;
                            assert(self.cells@[j].0 != self.cells@[i as int].0);
                        }
                    }
                }
                cand.push((c, w));
            }
            proof {
                let pre = self.cells_seq().take(i as int);
                let cur = self.cells_seq().take(i + 1 as int);
                assert(cur.drop_last() =~= pre);
                assert(cur.last() == self.cells_seq()[i as int]);
            }
            i += 1;
        }
        proof {
            assert(self.cells_seq().take(len as int) =~= self.cells_seq());
        }
        let picked = crate::rng::sample_weighted(rng, &cand, n);
        proof {
            assert forall|i1: int, i2: int| 0 <= i1 < i2 < picked@.len() implies picked@[i1]
                != picked@[i2] by {
                let (j1, j2) = choose|j1: int, j2: int|
                    0 <= j1 < cand@.len() && 0 <= j2 < cand@.len() && j1 != j2 && #[trigger] picked@[i1]
                        == (#[trigger] cand@[j1]).0 && #[trigger] picked@[i2] == (
                    #[trigger] cand@[j2]).0;
            }
        }
        picked
    }
}

} // verus!
