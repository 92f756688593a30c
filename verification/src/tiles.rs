//! Grid coordinates, facing directions, tile classification, and the
//! coordinate-indexed tile store that movement and line scanning read.
//! A coordinate is a pair of signed integers; a tile lookup fails closed
//! to `WALL` for any coordinate that holds no tile.

use crate::assoc;
use vstd::prelude::*;

verus! {

/// The four orthogonal facing / movement directions of the grid.
#[derive(Clone, Copy, Debug, Hash, PartialEq, Eq, Structural)]
pub enum MapDirection {
    Up,
    Right,
    Down,
    Left,
}

impl MapDirection {
    /// The unit coordinate offset of one step in this direction.
    pub open spec fn to_pos_move_spec(self) -> (int, int) {
        match self {
            MapDirection::Up => (0int, 1int),
            MapDirection::Down => (0int, -1int),
            MapDirection::Right => (1int, 0int),
            MapDirection::Left => (-1int, 0int),
        }
    }

    pub fn to_pos_move(&self) -> (r: (i32, i32))
        ensures
            (r.0 as int, r.1 as int) == self.to_pos_move_spec(),
    {
        match self {
            MapDirection::Up => (0, 1),
            MapDirection::Down => (0, -1),
            MapDirection::Right => (1, 0),
            MapDirection::Left => (-1, 0),
        }
    }
}

/// Tile classification: water is enterable, wall is not.
#[derive(Clone, Copy, Debug, PartialEq, Eq, Structural)]
pub enum TileType {
    WALL,
    WATER,
}

impl TileType {
    pub open spec fn can_enter_spec(self) -> bool {
        self == TileType::WATER
    }

    pub fn can_enter(&self) -> (r: bool)
        ensures
            r == self.can_enter_spec(),
    {
        match self {
            TileType::WALL => false,
            TileType::WATER => true,
        }
    }

    pub fn to_str(&self) -> (r: &'static str)
        ensures
            self == TileType::WALL ==> r@ == "X"@,
            self == TileType::WATER ==> r@ == " "@,
    {
        match self {
            TileType::WALL => "X",
            TileType::WATER => " ",
        }
    }
}

/// The `(x + dx, y + dy)` neighbour of a coordinate, or `None` where the sum
/// leaves the signed 32-bit range (no tile can lie there).
pub open spec fn shifted_pos(pos: (int, int), offset: (int, int)) -> Option<(int, int)> {
    let x = pos.0 + offset.0;
    let y = pos.1 + offset.1;
    if i32::MIN <= x <= i32::MAX && i32::MIN <= y <= i32::MAX {
        Some((x, y))
    } else {
        None
    }
}

/// Add an offset to a coordinate with an explicit range check.
pub fn shift_pos(pos: (i32, i32), offset: (i32, i32)) -> (r: Option<(i32, i32)>)
    ensures
        match shifted_pos((pos.0 as int, pos.1 as int), (offset.0 as int, offset.1 as int)) {
            Some(q) => r is Some && ((r->0).0 as int, (r->0).1 as int) == q,
            None => r is None,
        },
{
    let x = pos.0.checked_add(offset.0);
    let y = pos.1.checked_add(offset.1);
    match (x, y) {
        (Some(x), Some(y)) => Some((x, y)),
        _ => None,
    }
}

/// Tile store indexed by grid coordinate: a list of coordinate/tile pairs
/// with unique coordinates. Coordinates that hold no entry read as `WALL`.
pub struct TileGrid {
    entries: Vec<((i32, i32), TileType)>,
}

impl TileGrid {
    /// The entries as a sequence of coordinate/tile pairs.
    pub closed spec fn entries_seq(self) -> Seq<((i32, i32), TileType)> {
        self.entries@
    }

    /// Coordinates are unique.
    pub open spec fn wf(self) -> bool {
        assoc::unique_keys(self.entries_seq())
    }

    /// The tile stored at `pos`, walls filled in where nothing is stored.
    pub open spec fn lookup_spec(self, pos: (i32, i32)) -> TileType {
        match assoc::lookup(self.entries_seq(), pos) {
            Some(t) => t,
            None => TileType::WALL,
        }
    }

    /// Whether one may stand on `pos`.
    pub open spec fn enterable(self, pos: (i32, i32)) -> bool {
        self.lookup_spec(pos).can_enter_spec()
    }

    pub fn new() -> (r: Self)
        ensures
            r.wf(),
            forall|p: (i32, i32)| r.lookup_spec(p) == TileType::WALL,
    {
        Self { entries: Vec::new() }
    }

    /// Store `tile` at `pos`, replacing any earlier entry there.
    pub fn set(&mut self, pos: (i32, i32), tile: TileType)
        requires
            old(self).wf(),
        ensures
            final(self).wf(),
            final(self).lookup_spec(pos) == tile,
            forall|q: (i32, i32)| q != pos ==> final(self).lookup_spec(q) == old(
                self,
            ).lookup_spec(q),
    {
        let found = assoc::index_of(&self.entries, pos);
        let ghost s1 = self.entries_seq();
        match found {
            Some(i) => {
                self.entries.set(i, (pos, tile));
                proof {
                    assoc::lemma_update(s1, i as int, pos, tile);
                }
            },
            None => {
                self.entries.push((pos, tile));
                proof {
                    assoc::lemma_push(s1, pos, tile);
                }
            },
        }
    }

    /// Read the tile at `pos`; coordinates with no entry read as `WALL`.
    pub fn lookup(&self, pos: (i32, i32)) -> (r: TileType)
        requires
            self.wf(),
        ensures
            r == self.lookup_spec(pos),
    {
        match assoc::index_of(&self.entries, pos) {
            Some(i) => {
                proof {
                    assoc::lemma_lookup_at(self.entries_seq(), pos, i as int);
                }
                let e = &self.entries[i];
                e.1
            },
            None => TileType::WALL,
        }
    }
}

} // verus!
