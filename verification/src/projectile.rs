//! Straight-line scanning: stepping tile by tile from an origin until a
//! wall or a qualifying entity, used for ranged attacks and for enemy
//! lightning, plus the jellyfish turn kernel built on it.

use crate::tiles::MapDirection;
use crate::tiles::TileGrid;
use crate::tiles::shift_pos;
use crate::tiles::shifted_pos;
use crate::turn::GamePhase;
use vstd::prelude::*;

verus! {

/// Hard cap on scan length: a scan that runs this far without hitting a
/// wall indicates a malformed map, and the scan gives up.
pub const SCAN_STEP_CAP: usize = 150;

/// Where a straight-line scan ended: at a wall with nothing hit (carrying
/// the last enterable tile, or the origin if the very first step was
/// blocked), or on a target (carrying the target's tile and identity).
#[derive(Clone, Copy, Debug, PartialEq)]
pub enum ProjectileFate {
    EndNoTarget((i32, i32)),
    EndHitTarget(((i32, i32), u64)),
}

impl ProjectileFate {
    pub open spec fn tile_pos_spec(self) -> (i32, i32) {
        match self {
            ProjectileFate::EndNoTarget(tp) => tp,
            ProjectileFate::EndHitTarget((tp, _)) => tp,
        }
    }

    pub fn tile_pos(&self) -> (r: (i32, i32))
        ensures
            r == self.tile_pos_spec(),
    {
        match self {
            ProjectileFate::EndNoTarget(tp) => *tp,
            ProjectileFate::EndHitTarget((tp, _)) => *tp,
        }
    }

    pub open spec fn entity_spec(self) -> Option<u64> {
        match self {
            ProjectileFate::EndNoTarget(_) => None,
            ProjectileFate::EndHitTarget((_, e)) => Some(e),
        }
    }

    pub fn entity(&self) -> (r: Option<u64>)
        ensures
            r == self.entity_spec(),
    {
        match self {
            ProjectileFate::EndNoTarget(_) => None,
            ProjectileFate::EndHitTarget((_, e)) => Some(*e),
        }
    }
}

/// The first candidate of the list standing at `p`, in list order.
pub open spec fn target_at(ts: Seq<(u64, (i32, i32))>, p: (i32, i32)) -> Option<u64>
    decreases ts.len(),
{
    if ts.len() == 0 {
        None
    } else if ts[0].1 == p {
        Some(ts[0].0)
    } else {
        target_at(ts.subrange(1, ts.len() as int), p)
    }
}

/// The fate a finished scan reports: the remembered target if one was
/// passed, else no target at the last enterable tile `cur`.
pub open spec fn scan_finish(cur: (i32, i32), remembered: Option<(u64, (i32, i32))>) -> Option<
    ProjectileFate,
> {
    match remembered {
        Some((id, t)) => Some(ProjectileFate::EndHitTarget((t, id))),
        None => Some(ProjectileFate::EndNoTarget(cur)),
    }
}

/// One scanning state: standing on enterable tile `cur` with `fuel` steps
/// left and possibly a remembered target behind. Each step moves one tile
/// along `dir`: a non-enterable tile (or the edge of the coordinate range)
/// finishes the scan; a candidate on an enterable tile returns at once
/// when `early` is set; otherwise the first (nearest) such candidate is
/// remembered while the scan walks on to the wall. Exhausted fuel yields
/// `None`: the scan found no wall.
pub open spec fn scan_rec(
    tiles: TileGrid,
    targets: Seq<(u64, (i32, i32))>,
    cur: (i32, i32),
    dir: MapDirection,
    fuel: nat,
    remembered: Option<(u64, (i32, i32))>,
    early: bool,
) -> Option<ProjectileFate>
    decreases fuel,
{
    if fuel == 0 {
        None
    } else {
        match shifted_pos((cur.0 as int, cur.1 as int), dir.to_pos_move_spec()) {
            None => scan_finish(cur, remembered),
            Some(q) => {
                let p = ((q.0 as i32), (q.1 as i32));
                if !tiles.enterable(p) {
                    scan_finish(cur, remembered)
                } else {
                    match target_at(targets, p) {
                        Some(id) => if early {
                            Some(ProjectileFate::EndHitTarget((p, id)))
                        } else {
                            scan_rec(
                                tiles,
                                targets,
                                p,
                                dir,
                                (fuel - 1) as nat,
                                if remembered is Some {
                                    remembered
                                } else {
                                    Some((id, p))
                                },
                                early,
                            )
                        },
                        None => scan_rec(tiles, targets, p, dir, (fuel - 1) as nat, remembered, early),
                    }
                }
            },
        }
    }
}

/// What `scan_to_endpoint` returns.
pub open spec fn scan_spec(
    tiles: TileGrid,
    targets: Seq<(u64, (i32, i32))>,
    from: (i32, i32),
    dir: MapDirection,
    early: bool,
) -> Option<ProjectileFate> {
    scan_rec(tiles, targets, from, dir, SCAN_STEP_CAP as nat, None, early)
}

/// The first candidate standing at `p`, in list order.
fn find_target_at(ts: &Vec<(u64, (i32, i32))>, p: (i32, i32)) -> (r: Option<u64>)
    ensures
        r == target_at(ts@, p),
{
    let n = ts.len();
    proof {
        assert(ts@.subrange(0, n as int) =~= ts@);
    }
    let mut i: usize = 0;
    while i < n
        invariant
            n == ts@.len(),
            i <= n,
            target_at(ts@, p) == target_at(ts@.subrange(i as int, n as int), p),
        decreases n - i,
    {
        let (tid, tpos) = ts[i];
        proof {
            let rest = ts@.subrange(i as int, n as int);
            assert(rest[0] == ts@[i as int]);
            assert(rest.subrange(1, rest.len() as int) =~= ts@.subrange(i + 1, n as int));
        }
        if tpos.0 == p.0 && tpos.1 == p.1 {
            return Some(tid);
        }
        i += 1;
    }
    proof {
        assert(ts@.subrange(n as int, n as int).len() == 0);
    }
    None
}

/// Step tile by tile from `from` along `direction` until a wall or a
/// qualifying candidate. All scanned tiles share `from`'s row or column,
/// so candidates off that axis can never match. `None` means the scan ran
/// `SCAN_STEP_CAP` steps without finding a wall — a malformed map; the
/// caller treats that as a fatal invariant violation.
pub fn scan_to_endpoint(
    from: &(i32, i32),
    direction: &MapDirection,
    candidates: &Vec<(u64, (i32, i32))>,
    tiles: &TileGrid,
    return_early_on_target_hit: bool,
) -> (r: Option<ProjectileFate>)
    requires
        tiles.wf(),
    ensures
        r == scan_spec(*tiles, candidates@, *from, *direction, return_early_on_target_hit),
{
    let dir = *direction;
    let step = dir.to_pos_move();
    let mut cur = *from;
    let mut remembered: Option<(u64, (i32, i32))> = None;
    let mut fuel: usize = SCAN_STEP_CAP;
    let ghost target = scan_spec(
        *tiles,
        candidates@,
        *from,
        *direction,
        return_early_on_target_hit,
    );
    loop
        invariant
            tiles.wf(),
            target == scan_spec(
                *tiles,
                candidates@,
                *from,
                *direction,
                return_early_on_target_hit,
            ),
            dir == *direction,
            (step.0 as int, step.1 as int) == dir.to_pos_move_spec(),
            target == scan_rec(
                *tiles,
                candidates@,
                cur,
                dir,
                fuel as nat,
                remembered,
                return_early_on_target_hit,
            ),
        ensures
            target == scan_finish(cur, remembered),
        decreases fuel,
    {
        if fuel == 0 {
            proof {
                assert(target is None);
            }
            return None;
        }
        let next_pos = match shift_pos(cur, step) {
            Some(p) => p,
            None => {
                break ;
            },
        };
        let tile = tiles.lookup(next_pos);
        if !tile.can_enter() {
            break ;
        }
        match find_target_at(candidates, next_pos) {
            Some(id) => {
                if return_early_on_target_hit {
                    return Some(ProjectileFate::EndHitTarget((next_pos, id)));
                }
                if remembered.is_none() {
                    remembered = Some((id, next_pos));
                }
            },
            None => {},
        }
        cur = next_pos;
        fuel = fuel - 1;
    }
    match remembered {
        Some((id, t)) => Some(ProjectileFate::EndHitTarget((t, id))),
        None => Some(ProjectileFate::EndNoTarget(cur)),
    }
}


/// An effect that gates a turn phase: the phase may only complete once
/// all live effects of this kind are gone.
pub trait HasWatcherPhase {
    fn watcher_phase() -> GamePhase;
}

/// Marker for a tile of laid-out jellyfish lightning.
#[derive(Clone, Copy, Debug, PartialEq, Eq, Structural)]
pub struct JellyfishLightningTile;

impl HasWatcherPhase for JellyfishLightningTile {
    fn watcher_phase() -> GamePhase {
        GamePhase::EnemyPowerEffect
    }
}

/// The orthogonal (manhattan) distance between two coordinates.
pub open spec fn manhattan_spec(a: (i32, i32), b: (i32, i32)) -> int {
    let dx = a.0 as int - b.0 as int;
    let dy = a.1 as int - b.1 as int;
    (if dx >= 0 {
        dx
    } else {
        -dx
    }) + (if dy >= 0 {
        dy
    } else {
        -dy
    })
}

/// Orthogonal distance between two coordinates.
pub fn manhattan(a: (i32, i32), b: (i32, i32)) -> (r: u64)
    ensures
        r as int == manhattan_spec(a, b),
{
    let dx: i64 = (a.0 as i64) - (b.0 as i64);
    let dy: i64 = (a.1 as i64) - (b.1 as i64);
    let adx: u64 = if dx >= 0 {
        dx as u64
    } else {
        (-dx) as u64
    };
    let ady: u64 = if dy >= 0 {
        dy as u64
    } else {
        (-dy) as u64
    };
    adx + ady
}

/// How long a jellyfish has to recover after discharging.
pub const RECHARGE_TURNS: usize = 1;

/// A jellyfish's behavioural state: roaming, committed to discharging in a
/// direction next turn, or recovering for a number of turns (at least one).
#[derive(Clone, Copy, Debug, PartialEq, Eq, Structural)]
pub enum JellyfishState {
    Normal,
    Charging(MapDirection),
    Recharging(usize),
}

impl JellyfishState {
    /// A recharge counter never reads zero: it steps down to `Normal`
    /// instead.
    pub open spec fn wf(self) -> bool {
        match self {
            JellyfishState::Recharging(n) => n >= 1,
            _ => true,
        }
    }
}

impl Default for JellyfishState {
    fn default() -> (r: Self)
        ensures
            r == JellyfishState::Recharging(3usize),
    {
        JellyfishState::Recharging(3)
    }
}

/// The jellyfish enemy: its only per-entity state is the behavioural state.
#[derive(Debug, Default)]
pub struct Jellyfish {
    pub state: JellyfishState,
}

impl Jellyfish {
    /// A jellyfish holds still while charging, and through all but the
    /// last turn of a recharge.
    pub open spec fn can_move_spec(self) -> bool {
        match self.state {
            JellyfishState::Normal => true,
            JellyfishState::Recharging(remaining) => remaining < RECHARGE_TURNS,
            JellyfishState::Charging(_) => false,
        }
    }

    pub fn can_move(&self) -> (r: bool)
        ensures
            r == self.can_move_spec(),
    {
        match self.state {
            JellyfishState::Normal => true,
            JellyfishState::Recharging(remaining) => remaining < RECHARGE_TURNS,
            JellyfishState::Charging(_) => false,
        }
    }
}

/// A lightning bolt to lay out: the tile after the jellyfish, how many
/// tiles it covers, and its direction.
#[derive(Clone, Copy, Debug, PartialEq)]
pub struct LightningBolt {
    pub start: (i32, i32),
    pub length: u64,
    pub direction: MapDirection,
}

/// Scan from the jellyfish towards `firing_direction` and report how many
/// tiles the bolt covers and whom it struck. The bolt renders through the
/// whole corridor up to the wall even when it strikes someone on the way,
/// so its length is the distance to the last enterable tile, found by a
/// second scan that ignores the candidates. `None` means a scan found no
/// wall within the step cap — a malformed map.
pub fn jelly_lightning_projection(
    jelly_position: &(i32, i32),
    firing_direction: &MapDirection,
    player: &Vec<(u64, (i32, i32))>,
    tiles: &TileGrid,
) -> (r: Option<(u64, Option<u64>)>)
    requires
        tiles.wf(),
    ensures
        match r {
            Some((len, hit)) => {
                let ft = scan_spec(*tiles, player@, *jelly_position, *firing_direction, false);
                let fe = scan_spec(
                    *tiles,
                    Seq::<(u64, (i32, i32))>::empty(),
                    *jelly_position,
                    *firing_direction,
                    false,
                );
                &&& ft is Some
                &&& fe is Some
                &&& len as int == manhattan_spec(*jelly_position, (fe->0).tile_pos_spec())
                &&& hit == (ft->0).entity_spec()
            },
            None => scan_spec(*tiles, player@, *jelly_position, *firing_direction, false) is None
                || scan_spec(
                *tiles,
                Seq::<(u64, (i32, i32))>::empty(),
                *jelly_position,
                *firing_direction,
                false,
            ) is None,
        },
{
    let fate = match scan_to_endpoint(jelly_position, firing_direction, player, tiles, false) {
        Some(f) => f,
        None => {
            return None;
        },
    };
    let nobody: Vec<(u64, (i32, i32))> = Vec::new();
    let corridor = match scan_to_endpoint(jelly_position, firing_direction, &nobody, tiles, false) {
        Some(f) => f,
        None => {
            return None;
        },
    };
    let end = corridor.tile_pos();
    let len = manhattan(*jelly_position, end);
    Some((len, fate.entity()))
}

/// One jellyfish's pre-enemy-movement step: a roaming jellyfish commits to
/// charging in a random direction with one-in-two odds; a charging one
/// discharges — scanning for the player, reporting the bolt to lay and the
/// entity struck — and starts recharging; a recharging one counts down and
/// wakes. `None` means the discharge scan found no wall within the step
/// cap — a malformed map; the caller aborts as on any broken invariant.
pub fn jellyfish_turn(
    state: &JellyfishState,
    pos: &(i32, i32),
    player: &Vec<(u64, (i32, i32))>,
    tiles: &TileGrid,
    rng: &mut rand::rngs::StdRng,
) -> (r: Option<(JellyfishState, Option<LightningBolt>, Option<u64>)>)
    requires
        tiles.wf(),
        state.wf(),
    ensures
        match r {
            Some(out) => {
                let (ns, bolt, hit) = out;
                &&& ns.wf()
                &&& match *state {
                    JellyfishState::Normal => (ns == JellyfishState::Normal
                        || ns is Charging) && bolt is None && hit is None,
                    JellyfishState::Charging(d) => {
                        let f = scan_spec(*tiles, player@, *pos, d, false);
                        let fe = scan_spec(
                            *tiles,
                            Seq::<(u64, (i32, i32))>::empty(),
                            *pos,
                            d,
                            false,
                        );
                        &&& ns == JellyfishState::Recharging(RECHARGE_TURNS)
                        &&& f is Some
                        &&& fe is Some
                        &&& hit == (f->0).entity_spec()
                        &&& match bolt {
                            Some(b) => b.direction == d && b.length as int == manhattan_spec(
                                *pos,
                                (fe->0).tile_pos_spec(),
                            ) && b.length > 0 && (b.start.0 as int, b.start.1 as int)
                                == shifted_pos(
                                (pos.0 as int, pos.1 as int),
                                d.to_pos_move_spec(),
                            )->0,
                            None => manhattan_spec(*pos, (fe->0).tile_pos_spec()) == 0,
                        }
                    },
                    JellyfishState::Recharging(n) => ns == (if n == 1 {
                        JellyfishState::Normal
                    } else {
                        JellyfishState::Recharging((n - 1) as usize)
                    }) && bolt is None && hit is None,
                }
            },
            None => match *state {
                JellyfishState::Charging(d) => scan_spec(*tiles, player@, *pos, d, false) is None
                    || scan_spec(
                    *tiles,
                    Seq::<(u64, (i32, i32))>::empty(),
                    *pos,
                    d,
                    false,
                ) is None,
                _ => false,
            },
        },
{
    match state {
        JellyfishState::Normal => {
            let coin = crate::rng::gen_index(rng, 2);
            if coin == 0 {
                let d = crate::rng::gen_index(rng, 4);
                let dir = if d == 0 {
                    MapDirection::Up
                } else if d == 1 {
                    MapDirection::Right
                } else if d == 2 {
                    MapDirection::Down
                } else {
                    MapDirection::Left
                };
                Some((JellyfishState::Charging(dir), None, None))
            } else {
                Some((JellyfishState::Normal, None, None))
            }
        },
        JellyfishState::Charging(direction) => {
            let (length, hit) = match jelly_lightning_projection(pos, direction, player, tiles) {
                Some(out) => out,
                None => {
                    return None;
                },
            };
            let step = direction.to_pos_move();
            let bolt = if length > 0 {
                match shift_pos(*pos, step) {
                    Some(start) => Some(
                        LightningBolt { start, length, direction: *direction },
                    ),
                    None => {
                        proof {
                            assert(false);
                        }
                        None
                    },
                }
            } else {
                None
            };
            Some((JellyfishState::Recharging(RECHARGE_TURNS), bolt, hit))
        },
        JellyfishState::Recharging(recharge_turns) => {
            let n = *recharge_turns;
            if n == 1 {
                Some((JellyfishState::Normal, None, None))
            } else {
                Some((JellyfishState::Recharging(n - 1), None, None))
            }
        },
    }
}

} // verus!
