//! Movement and attack resolution: walking a straight line up to a maximum
//! number of tiles, stopping at the first non-enterable or blocked tile or
//! at the first occupant the attack criteria apply to, and the apply step
//! that carries a decision out against the actor store.

use crate::events::InputEvent;
use crate::tiles::MapDirection;
use crate::tiles::TileGrid;
use crate::tiles::shift_pos;
use crate::tiles::shifted_pos;
use vstd::prelude::*;

verus! {

/// Role tag of an actor standing on the grid. Actors with `Neutral` role
/// (collectibles and the like) never block or receive attacks.
#[derive(Clone, Copy, Debug, PartialEq, Eq, Structural)]
pub enum Role {
    PlayerActor,
    EnemyActor,
    Neutral,
}

/// An entity standing on a tile, as the resolver sees it: an identity, a
/// position, and a role.
#[derive(Clone, Copy, Debug, PartialEq)]
pub struct Occupant {
    pub id: u64,
    pub pos: (i32, i32),
    pub role: Role,
}

/// Payload of an attack that may advance the attacker.
#[derive(Clone, Copy, Debug, PartialEq)]
pub struct AttackAndMaybeMove {
    pub attack_target_pos: (i32, i32),
    pub attack_target_entity: u64,
    pub direction: MapDirection,
    pub position_before_enemy: Option<(i32, i32)>,
}

/// The outcome of resolving one actor's intended move for a turn.
#[derive(Clone, Copy, Debug, PartialEq)]
pub enum MoveDecision {
    Move(((i32, i32), MapDirection)),
    Nothing,
    AttackAndMaybeMove(AttackAndMaybeMove),
    AttackAndDontMove((u64, MapDirection)),
    Turn(MapDirection),
}

impl MoveDecision {
    /// The tile this decision may move its actor onto, if any.
    pub open spec fn to_move_position_spec(self) -> Option<(i32, i32)> {
        match self {
            MoveDecision::Nothing => None,
            MoveDecision::Turn(_) => None,
            MoveDecision::AttackAndDontMove(_) => None,
            MoveDecision::Move((p, _)) => Some(p),
            MoveDecision::AttackAndMaybeMove(a) => Some(a.attack_target_pos),
        }
    }

    pub fn to_move_position(&self) -> (r: Option<(i32, i32)>)
        ensures
            r == self.to_move_position_spec(),
    {
        match self {
            MoveDecision::Nothing => None,
            MoveDecision::Turn(_) => None,
            MoveDecision::AttackAndDontMove(_) => None,
            MoveDecision::Move((p, _)) => Some(*p),
            MoveDecision::AttackAndMaybeMove(a) => Some(a.attack_target_pos),
        }
    }
}

/// What an actor is allowed to attack, and whether a kill vacates a tile it
/// then moves onto.
#[derive(Clone, Copy, Debug, PartialEq, Eq, Structural)]
pub struct AttackCriteria {
    pub damage: usize,
    pub can_attack_enemy: bool,
    pub can_attack_player: bool,
    pub move_on_attack: bool,
}

impl AttackCriteria {
    /// The player attacks enemies and advances onto a killed enemy's tile.
    pub fn for_player() -> (r: Self)
        ensures
            r == (AttackCriteria {
                damage: 1usize,
                can_attack_enemy: true,
                can_attack_player: false,
                move_on_attack: true,
            }),
    {
        Self { damage: 1, can_attack_enemy: true, can_attack_player: false, move_on_attack: true }
    }

    /// An enemy may attack the player (when allowed) and does not advance
    /// onto the vacated tile unless it had already moved through free tiles.
    pub fn for_enemy(can_attack_directly: bool) -> (r: Self)
        ensures
            r == (AttackCriteria {
                damage: 1usize,
                can_attack_enemy: false,
                can_attack_player: can_attack_directly,
                move_on_attack: false,
            }),
    {
        Self {
            damage: 1,
            can_attack_enemy: false,
            can_attack_player: can_attack_directly,
            move_on_attack: false,
        }
    }

    /// Whether these criteria allow attacking an occupant of `role`.
    pub open spec fn allows(self, role: Role) -> bool {
        match role {
            Role::PlayerActor => self.can_attack_player,
            Role::EnemyActor => self.can_attack_enemy,
            Role::Neutral => false,
        }
    }
}

/// The attack decision for a permitted target: an attacker that advances on
/// kills, or one that has already advanced through free tiles, takes the
/// maybe-move form; otherwise it strikes without moving.
pub open spec fn attack_decision_spec(
    crit: AttackCriteria,
    dest: (i32, i32),
    prev: Option<(i32, i32)>,
    dir: MapDirection,
    target: u64,
) -> MoveDecision {
    if crit.move_on_attack || prev is Some {
        MoveDecision::AttackAndMaybeMove(
            AttackAndMaybeMove {
                attack_target_pos: dest,
                attack_target_entity: target,
                direction: dir,
                position_before_enemy: prev,
            },
        )
    } else {
        MoveDecision::AttackAndDontMove((target, dir))
    }
}

/// The first occupant of the list standing at `p` with a non-neutral role.
/// The list's order decides ties; one actor per tile is the expected state.
pub open spec fn first_occupant_at(occs: Seq<Occupant>, p: (i32, i32)) -> Option<Occupant>
    decreases occs.len(),
{
    if occs.len() == 0 {
        None
    } else if occs[0].pos == p && occs[0].role != Role::Neutral {
        Some(occs[0])
    } else {
        first_occupant_at(occs.subrange(1, occs.len() as int), p)
    }
}

/// One scanning state of the straight-line walk: standing at `pos` with
/// `remaining` steps left, the decision so far, and the last free tile
/// entered. Stops at the first blocked tile (the decision so far stands),
/// or at the first non-neutral occupant: a permitted target yields an
/// attack, a forbidden one a turn in place.
pub open spec fn decide_move_rec(
    tiles: TileGrid,
    occs: Seq<Occupant>,
    crit: AttackCriteria,
    dir: MapDirection,
    pos: (i32, i32),
    remaining: nat,
    prev: Option<(i32, i32)>,
    cur: MoveDecision,
    blocked: Seq<(i32, i32)>,
) -> MoveDecision
    decreases remaining,
{
    if remaining == 0 {
        cur
    } else {
        match shifted_pos((pos.0 as int, pos.1 as int), dir.to_pos_move_spec()) {
            None => cur,
            Some(q) => {
                let p = ((q.0 as i32), (q.1 as i32));
                if !(tiles.enterable(p) && !blocked.contains(p)) {
                    cur
                } else {
                    match first_occupant_at(occs, p) {
                        Some(occ) => if crit.allows(occ.role) {
                            attack_decision_spec(crit, p, prev, dir, occ.id)
                        } else {
                            MoveDecision::Turn(dir)
                        },
                        None => decide_move_rec(
                            tiles,
                            occs,
                            crit,
                            dir,
                            p,
                            (remaining - 1) as nat,
                            Some(p),
                            MoveDecision::Move((p, dir)),
                            blocked,
                        ),
                    }
                }
            },
        }
    }
}

/// What `decide_move` returns: the walk starts at `current_pos` facing
/// `dir`, with a bare turn as the default outcome.
pub open spec fn decide_move_spec(
    tiles: TileGrid,
    occs: Seq<Occupant>,
    crit: AttackCriteria,
    current_pos: (i32, i32),
    dir: MapDirection,
    max_distance: nat,
    blocked: Seq<(i32, i32)>,
) -> MoveDecision {
    decide_move_rec(
        tiles,
        occs,
        crit,
        dir,
        current_pos,
        max_distance,
        None,
        MoveDecision::Turn(dir),
        blocked,
    )
}

/// The first non-neutral occupant standing at `p`, scanning in list order.
fn find_occupant_at(occs: &Vec<Occupant>, p: (i32, i32)) -> (r: Option<Occupant>)
    ensures
        r == first_occupant_at(occs@, p),
{
    let n = occs.len();
    proof {
        assert(occs@.subrange(0, n as int) =~= occs@);
    }
    let mut i: usize = 0;
    while i < n
        invariant
            n == occs@.len(),
            i <= n,
            first_occupant_at(occs@, p) == first_occupant_at(occs@.subrange(i as int, n as int), p),
        decreases n - i,
    {
        let o = occs[i];
        proof {
            let rest = occs@.subrange(i as int, n as int);
            assert(rest[0] == occs@[i as int]);
            assert(rest.subrange(1, rest.len() as int) =~= occs@.subrange(i + 1, n as int));
        }
        if (o.pos.0 == p.0 && o.pos.1 == p.1) && !matches!(o.role, Role::Neutral) {
            return Some(o);
        }
        i += 1;
    }
    proof {
        assert(occs@.subrange(n as int, n as int).len() == 0);
    }
    None
}

/// Linear membership test on a list of coordinates.
fn contains_pos(v: &Vec<(i32, i32)>, p: (i32, i32)) -> (r: bool)
    ensures
        r == v@.contains(p),
{
    let n = v.len();
    let mut i: usize = 0;
    while i < n
        invariant
            n == v@.len(),
            i <= n,
            forall|j: int| 0 <= j < i ==> v@[j] != p,
        decreases n - i,
    {
        let q = v[i];
        if q.0 == p.0 && q.1 == p.1 {
            assert(v@[i as int] == p);
            return true;
        }
        let ghost ip = i as int;
        i += 1;
        assert(v@[ip] != p);
    }
    assert(!v@.contains(p));
    false
}

/// Resolve one actor's intended move: walk up to `max_move_distance` tiles
/// from `current_pos` along `move_direction`, stopping at the first tile
/// that is not enterable or lies in `additional_ignore_tilepos`, or at the
/// first occupant the criteria speak to. Finding no legal move yields
/// `Turn` — a normal outcome, not an error.
pub fn decide_move(
    current_pos: &(i32, i32),
    move_direction: &MapDirection,
    max_move_distance: usize,
    attack_criteria: &AttackCriteria,
    occupants: &Vec<Occupant>,
    tiles: &TileGrid,
    additional_ignore_tilepos: &Vec<(i32, i32)>,
) -> (r: MoveDecision)
    requires
        tiles.wf(),
    ensures
        r == decide_move_spec(
            *tiles,
            occupants@,
            *attack_criteria,
            *current_pos,
            *move_direction,
            max_move_distance as nat,
            additional_ignore_tilepos@,
        ),
{
    let dir = *move_direction;
    let step = dir.to_pos_move();
    let mut decision = MoveDecision::Turn(dir);
    let mut prev: Option<(i32, i32)> = None;
    let mut pos = *current_pos;
    let mut remaining = max_move_distance;
    let ghost target = decide_move_spec(
        *tiles,
        occupants@,
        *attack_criteria,
        *current_pos,
        *move_direction,
        max_move_distance as nat,
        additional_ignore_tilepos@,
    );
    while remaining > 0
        invariant
            tiles.wf(),
            dir == *move_direction,
            (step.0 as int, step.1 as int) == dir.to_pos_move_spec(),
            target == decide_move_rec(
                *tiles,
                occupants@,
                *attack_criteria,
                dir,
                pos,
                remaining as nat,
                prev,
                decision,
                additional_ignore_tilepos@,
            ),
        ensures
            target == decision,
        decreases remaining,
    {
        let next_pos = match shift_pos(pos, step) {
            Some(p) => p,
            None => {
                break ;
            },
        };
        let tile = tiles.lookup(next_pos);
        let can_move = tile.can_enter() && !contains_pos(additional_ignore_tilepos, next_pos);
        if !can_move {
            break ;
        }
        match find_occupant_at(occupants, next_pos) {
            Some(occ) => {
                let allowed = match occ.role {
                    Role::PlayerActor => attack_criteria.can_attack_player,
                    Role::EnemyActor => attack_criteria.can_attack_enemy,
                    Role::Neutral => false,
                };
                if allowed {
                    let maybe_move = attack_criteria.move_on_attack || prev.is_some();
                    decision = if maybe_move {
                        MoveDecision::AttackAndMaybeMove(
                            AttackAndMaybeMove {
                                attack_target_pos: next_pos,
                                attack_target_entity: occ.id,
                                direction: dir,
                                position_before_enemy: prev,
                            },
                        )
                    } else {
                        MoveDecision::AttackAndDontMove((occ.id, dir))
                    };
                } else {
                    decision = MoveDecision::Turn(dir);
                }
                break ;
            },
            None => {
                decision = MoveDecision::Move((next_pos, dir));
                prev = Some(next_pos);
                pos = next_pos;
                remaining = remaining - 1;
            },
        }
    }
    decision
}


/// The mutable state of one actor, as the apply step sees it.
#[derive(Clone, Copy, Debug, PartialEq)]
pub struct ActorState {
    pub id: u64,
    pub pos: (i32, i32),
    pub facing: MapDirection,
    pub hp: usize,
}

/// Some actor of the list carries `id`.
pub open spec fn has_actor(s: Seq<ActorState>, id: u64) -> bool {
    exists|i: int| 0 <= i < s.len() && s[i].id == id
}

/// The index of the actor carrying `id` (meaningful when ids are unique).
pub open spec fn actor_index(s: Seq<ActorState>, id: u64) -> int {
    choose|i: int| 0 <= i < s.len() && s[i].id == id
}

/// The hit points of the actor carrying `id`.
pub open spec fn actor_hp(s: Seq<ActorState>, id: u64) -> nat {
    s[actor_index(s, id)].hp as nat
}

/// Every entry whose actor carries `id`, rewritten by `f`; all others kept.
pub open spec fn map_actor(
    s: Seq<ActorState>,
    id: u64,
    f: spec_fn(ActorState) -> ActorState,
) -> Seq<ActorState> {
    Seq::new(
        s.len(),
        |i: int|
            if s[i].id == id {
                f(s[i])
            } else {
                s[i]
            },
    )
}

/// The list with the facing of actor `id` set to `dir`.
pub open spec fn with_facing(s: Seq<ActorState>, id: u64, dir: MapDirection) -> Seq<ActorState> {
    map_actor(s, id, |a: ActorState| ActorState { facing: dir, ..a })
}

/// The list with the position and facing of actor `id` set.
pub open spec fn with_pos_facing(
    s: Seq<ActorState>,
    id: u64,
    pos: (i32, i32),
    dir: MapDirection,
) -> Seq<ActorState> {
    map_actor(s, id, |a: ActorState| ActorState { pos: pos, facing: dir, ..a })
}

/// The list with the hit points of actor `id` reduced by one, floored at
/// zero.
pub open spec fn with_hp_hit(s: Seq<ActorState>, id: u64) -> Seq<ActorState> {
    map_actor(
        s,
        id,
        |a: ActorState|
            ActorState {
                hp: if a.hp >= 1 {
                    (a.hp - 1) as usize
                } else {
                    0usize
                },
                ..a
            },
    )
}

/// What applying one decision does to the actor list. A `Move` updates
/// position and facing; a `Turn` only facing; the attack forms strike the
/// target for one hit point, and the maybe-move form advances the attacker
/// onto the target's tile on a kill, or onto the last free tile it had
/// passed. An absent target or actor leaves the rest untouched; despawning
/// the dead is the health watcher's business, not the resolver's.
pub open spec fn apply_decision(
    s: Seq<ActorState>,
    entity: u64,
    d: MoveDecision,
) -> Seq<ActorState> {
    match d {
        MoveDecision::Nothing => s,
        MoveDecision::Turn(f) => with_facing(s, entity, f),
        MoveDecision::Move((p, f)) => with_pos_facing(s, entity, p, f),
        MoveDecision::AttackAndDontMove((t, f)) => with_facing(with_hp_hit(s, t), entity, f),
        MoveDecision::AttackAndMaybeMove(a) => {
            if has_actor(s, a.attack_target_entity) {
                let s1 = with_hp_hit(s, a.attack_target_entity);
                let dest = if actor_hp(s1, a.attack_target_entity) == 0 {
                    Some(a.attack_target_pos)
                } else {
                    a.position_before_enemy
                };
                match dest {
                    Some(p) => with_pos_facing(s1, entity, p, a.direction),
                    None => with_facing(s1, entity, a.direction),
                }
            } else {
                with_facing(s, entity, a.direction)
            }
        },
    }
}

/// The actor store the apply step mutates: every simulated actor's
/// position, facing and health, keyed by unique identity.
#[derive(Debug)]
pub struct ActorStore {
    actors: Vec<ActorState>,
}

impl ActorStore {
    /// The actors as a sequence.
    pub closed spec fn actors_seq(self) -> Seq<ActorState> {
        self.actors@
    }

    /// Identities are unique.
    pub open spec fn wf(self) -> bool {
        forall|i: int, j: int|
            0 <= i < j < self.actors_seq().len() ==> self.actors_seq()[i].id
                != self.actors_seq()[j].id
    }

    pub fn new(actors: Vec<ActorState>) -> (r: Self)
        requires
            forall|i: int, j: int| 0 <= i < j < actors@.len() ==> actors@[i].id != actors@[j].id,
        ensures
            r.wf(),
            r.actors_seq() == actors@,
    {
        Self { actors }
    }

    /// The state of actor `id`, if present.
    pub fn get(&self, id: u64) -> (r: Option<ActorState>)
        requires
            self.wf(),
        ensures
            match r {
                Some(a) => has_actor(self.actors_seq(), id) && a == self.actors_seq()[actor_index(
                    self.actors_seq(),
                    id,
                )],
                None => !has_actor(self.actors_seq(), id),
            },
    {
        match self.index_of(id) {
            Some(i) => {
                proof {
                    lemma_actor_index(self.actors_seq(), id, i as int);
                }
                Some(self.actors[i])
            },
            None => None,
        }
    }

    /// The index of the actor carrying `id`, if present.
    fn index_of(&self, id: u64) -> (r: Option<usize>)
        ensures
            match r {
                Some(i) => i < self.actors_seq().len() && self.actors_seq()[i as int].id == id,
                None => !has_actor(self.actors_seq(), id),
            },
    {
        let n = self.actors.len();
        let mut i: usize = 0;
        while i < n
            invariant
                n == self.actors@.len(),
                i <= n,
                forall|j: int| 0 <= j < i ==> self.actors@[j].id != id,
            decreases n - i,
        {
            if self.actors[i].id == id {
                return Some(i);
            }
            let ghost ip = i as int;
            i += 1;
            assert(self.actors@[ip].id != id);
        }
        None
    }

    /// Rewrite the actor carrying `id` with `f`'s exec counterpart: used by
    /// the apply step below.
    fn set_at(&mut self, i: usize, a: ActorState)
        requires
            i < old(self).actors_seq().len(),
        ensures
            final(self).actors_seq() == old(self).actors_seq().update(i as int, a),
    {
        self.actors.set(i, a);
    }

    /// Carry one decision out for `entity` against the store: the verified
    /// core of the apply step.
    pub fn apply_move_single(&mut self, entity: u64, move_decision: &MoveDecision)
        requires
            old(self).wf(),
        ensures
            final(self).wf(),
            final(self).actors_seq() == apply_decision(
                old(self).actors_seq(),
                entity,
                *move_decision,
            ),
    {
        let ghost s0 = self.actors_seq();
        match move_decision {
            MoveDecision::Nothing => {},
            MoveDecision::Turn(f) => {
                self.update_facing(entity, *f);
            },
            MoveDecision::Move((p, f)) => {
                self.update_pos_facing(entity, *p, *f);
            },
            MoveDecision::AttackAndDontMove((t, f)) => {
                self.hit_actor(*t);
                self.update_facing(entity, *f);
            },
            MoveDecision::AttackAndMaybeMove(a) => {
                match self.index_of(a.attack_target_entity) {
                    None => {
                        self.update_facing(entity, a.direction);
                    },
                    Some(ti) => {
                        proof {
                            lemma_actor_index(s0, a.attack_target_entity, ti as int);
                        }
                        self.hit_actor(a.attack_target_entity);
                        let hp_now = self.actors[ti].hp;
                        proof {
                            lemma_actor_index(
                                self.actors_seq(),
                                a.attack_target_entity,
                                ti as int,
                            );
                        }
                        if hp_now == 0 {
                            self.update_pos_facing(entity, a.attack_target_pos, a.direction);
                        } else {
                            match a.position_before_enemy {
                                Some(p) => {
                                    self.update_pos_facing(entity, p, a.direction);
                                },
                                None => {
                                    self.update_facing(entity, a.direction);
                                },
                            }
                        }
                    },
                }
            },
        }
    }

    /// Set the facing of actor `entity`, if present.
    fn update_facing(&mut self, entity: u64, dir: MapDirection)
        requires
            old(self).wf(),
        ensures
            final(self).wf(),
            final(self).actors_seq() == with_facing(old(self).actors_seq(), entity, dir),
    {
        let ghost s0 = self.actors_seq();
        match self.index_of(entity) {
            Some(i) => {
                let mut a = self.actors[i];
                a.facing = dir;
                self.set_at(i, a);
                proof {
                    lemma_map_actor_update(
                        s0,
                        entity,
                        i as int,
                        |x: ActorState| ActorState { facing: dir, ..x },
                    );
                }
            },
            None => {
                proof {
                    lemma_map_actor_absent(
                        s0,
                        entity,
                        |x: ActorState| ActorState { facing: dir, ..x },
                    );
                }
            },
        }
    }

    /// Set the position and facing of actor `entity`, if present.
    fn update_pos_facing(&mut self, entity: u64, pos: (i32, i32), dir: MapDirection)
        requires
            old(self).wf(),
        ensures
            final(self).wf(),
            final(self).actors_seq() == with_pos_facing(old(self).actors_seq(), entity, pos, dir),
    {
        let ghost s0 = self.actors_seq();
        match self.index_of(entity) {
            Some(i) => {
                let mut a = self.actors[i];
                a.pos = pos;
                a.facing = dir;
                self.set_at(i, a);
                proof {
                    lemma_map_actor_update(
                        s0,
                        entity,
                        i as int,
                        |x: ActorState| ActorState { pos: pos, facing: dir, ..x },
                    );
                }
            },
            None => {
                proof {
                    lemma_map_actor_absent(
                        s0,
                        entity,
                        |x: ActorState| ActorState { pos: pos, facing: dir, ..x },
                    );
                }
            },
        }
    }

    /// Strike actor `target` for one hit point, floored at zero.
    fn hit_actor(&mut self, target: u64)
        requires
            old(self).wf(),
        ensures
            final(self).wf(),
            final(self).actors_seq() == with_hp_hit(old(self).actors_seq(), target),
    {
        let ghost s0 = self.actors_seq();
        let ghost f = |x: ActorState|
            ActorState {
                hp: if x.hp >= 1 {
                    (x.hp - 1) as usize
                } else {
                    0usize
                },
                ..x
            };
        match self.index_of(target) {
            Some(i) => {
                let mut a = self.actors[i];
                a.hp = if a.hp >= 1 {
                    a.hp - 1
                } else {
                    0
                };
                self.set_at(i, a);
                proof {
                    lemma_map_actor_update(s0, target, i as int, f);
                }
            },
            None => {
                proof {
                    lemma_map_actor_absent(s0, target, f);
                }
            },
        }
    }
}

/// With unique ids, the witness index is the actor's index.
proof fn lemma_actor_index(s: Seq<ActorState>, id: u64, i: int)
    requires
        forall|a: int, b: int| 0 <= a < b < s.len() ==> s[a].id != s[b].id,
        0 <= i < s.len(),
        s[i].id == id,
    ensures
        has_actor(s, id),
        actor_index(s, id) == i,
{
    assert(has_actor(s, id));
    let j = actor_index(s, id);
    if i < j {
        assert(s[i].id != s[j].id);
    } else if j < i {
        assert(s[j].id != s[i].id);
    }
}

/// Updating the sole entry carrying `id` realizes `map_actor`, and keeps
/// ids unique.
proof fn lemma_map_actor_update(
    s: Seq<ActorState>,
    id: u64,
    i: int,
    f: spec_fn(ActorState) -> ActorState,
)
    requires
        forall|a: int, b: int| 0 <= a < b < s.len() ==> s[a].id != s[b].id,
        0 <= i < s.len(),
        s[i].id == id,
        f(s[i]).id == s[i].id,
    ensures
        s.update(i, f(s[i])) =~= map_actor(s, id, f),
        forall|a: int, b: int|
            0 <= a < b < s.update(i, f(s[i])).len() ==> (#[trigger] s.update(i, f(s[i]))[a]).id
                != (#[trigger] s.update(i, f(s[i]))[b]).id,
{
    assert forall|j: int| 0 <= j < s.len() implies s.update(i, f(s[i]))[j] == map_actor(
        s,
        id,
        f,
    )[j] by {
        if j != i && s[j].id == id {
            if j < i {
                assert(s[j].id != s[i].id);
            } else {
                assert(s[i].id != s[j].id);
            }
        }
    }
}

/// Where no actor carries `id`, `map_actor` changes nothing.
proof fn lemma_map_actor_absent(s: Seq<ActorState>, id: u64, f: spec_fn(ActorState) -> ActorState)
    requires
        !has_actor(s, id),
    ensures
        map_actor(s, id, f) =~= s,
{
    assert forall|j: int| 0 <= j < s.len() implies map_actor(s, id, f)[j] == s[j] by {
        if s[j].id == id {
            assert(has_actor(s, id));
        }
    }
}


/// The actor list after a sequence of `(entity, decision)` pairs has been
/// applied, first to last.
pub open spec fn apply_all(s: Seq<ActorState>, ds: Seq<(u64, MoveDecision)>) -> Seq<ActorState>
    decreases ds.len(),
{
    if ds.len() == 0 {
        s
    } else {
        apply_decision(apply_all(s, ds.drop_last()), ds.last().0, ds.last().1)
    }
}

impl ActorStore {
    /// Apply a batch of decisions in the order given. Callers hand the
    /// batch in a fixed order (the resolver emits decisions in input
    /// order), which makes simultaneous mutual attacks deterministic.
    pub fn apply_move(&mut self, move_decisions: &Vec<(u64, MoveDecision)>)
        requires
            old(self).wf(),
        ensures
            final(self).wf(),
            final(self).actors_seq() == apply_all(old(self).actors_seq(), move_decisions@),
    {
        let ghost s0 = self.actors_seq();
        let n = move_decisions.len();
        let mut i: usize = 0;
        proof {
            assert(move_decisions@.take(0) =~= Seq::<(u64, MoveDecision)>::empty());
        }
        while i < n
            invariant
                n == move_decisions@.len(),
                i <= n,
                self.wf(),
                self.actors_seq() == apply_all(s0, move_decisions@.take(i as int)),
            decreases n - i,
        {
            let (entity, decision) = &move_decisions[i];
            self.apply_move_single(*entity, decision);
            proof {
                let pre = move_decisions@.take(i as int);
                let cur = move_decisions@.take(i + 1 as int);
                assert(cur.drop_last() =~= pre);
                assert(cur.last() == move_decisions@[i as int]);
            }
            i += 1;
        }
        proof {
            assert(move_decisions@.take(n as int) =~= move_decisions@);
        }
    }
}

/// A per-direction value: a move allowance or a movement weight that
/// differs between the vertical and horizontal axes.
#[derive(Clone, Copy, Debug)]
pub struct DirectionDependentValue<T> {
    left: T,
    right: T,
    up: T,
    down: T,
}

impl<T: Copy> DirectionDependentValue<T> {
    pub closed spec fn get_spec(self, direction: MapDirection) -> T {
        match direction {
            MapDirection::Left => self.left,
            MapDirection::Right => self.right,
            MapDirection::Up => self.up,
            MapDirection::Down => self.down,
        }
    }

    pub fn all(value: T) -> (r: Self)
        ensures
            forall|d: MapDirection| r.get_spec(d) == value,
    {
        Self { left: value, right: value, up: value, down: value }
    }

    pub fn updown_leftright(updown: T, leftright: T) -> (r: Self)
        ensures
            r.get_spec(MapDirection::Up) == updown,
            r.get_spec(MapDirection::Down) == updown,
            r.get_spec(MapDirection::Left) == leftright,
            r.get_spec(MapDirection::Right) == leftright,
    {
        Self { left: leftright, right: leftright, up: updown, down: updown }
    }

    pub fn get(&self, direction: &MapDirection) -> (r: T)
        ensures
            r == self.get_spec(*direction),
    {
        match direction {
            MapDirection::Left => self.left,
            MapDirection::Right => self.right,
            MapDirection::Up => self.up,
            MapDirection::Down => self.down,
        }
    }
}

/// How far an actor may move, per direction.
pub type CanMoveDistance = DirectionDependentValue<usize>;

/// Per-direction movement weight multipliers, in thousandths (a weight of
/// 1000 is neutral).
pub type MoveWeighting = DirectionDependentValue<u32>;

/// Some direction carries a positive weight: there is something to draw.
pub open spec fn has_positive_weight(w: MoveWeighting) -> bool {
    ||| w.get_spec(MapDirection::Up) > 0
    ||| w.get_spec(MapDirection::Right) > 0
    ||| w.get_spec(MapDirection::Down) > 0
    ||| w.get_spec(MapDirection::Left) > 0
}

/// Pick a movement direction at random, weighted towards the target: each
/// direction's chance is its base pull times the external weight for that
/// direction. At least one external weight must be positive (all-zero
/// weights leave nothing to draw from).
pub fn weighted_rand_choice(
    from_pos: &(i32, i32),
    target_pos: &(i32, i32),
    external_weights: &MoveWeighting,
    rng: &mut rand::rngs::StdRng,
) -> (r: MapDirection)
    requires
        has_positive_weight(*external_weights),
    ensures
        external_weights.get_spec(r) > 0,
{
    let dx: i64 = (target_pos.0 as i64) - (from_pos.0 as i64);
    let dy: i64 = (target_pos.1 as i64) - (from_pos.1 as i64);
    let adx: i64 = if dx >= 0 { dx } else { -dx };
    let ady: i64 = if dy >= 0 { dy } else { -dy };
    let x_dominant = adx > ady;
    let xhigh: u64 = if x_dominant { 4000 } else { 3000 };
    let xlow: u64 = if x_dominant { 1000 } else { 2000 };
    let yhigh: u64 = if x_dominant { 3000 } else { 4000 };
    let ylow: u64 = if x_dominant { 2000 } else { 1000 };
    let dirs: [MapDirection; 4] = [
        MapDirection::Up,
        MapDirection::Right,
        MapDirection::Down,
        MapDirection::Left,
    ];
    let mut weights: Vec<u32> = Vec::new();
    let cap: u64 = 0x3FFFFFFF;
    let wu: u64 = (if dy > 0 { yhigh } else { ylow }) * (external_weights.get(
        &MapDirection::Up,
    ) as u64);
    let wr: u64 = (if dx > 0 { xhigh } else { xlow }) * (external_weights.get(
        &MapDirection::Right,
    ) as u64);
    let wd: u64 = (if dy > 0 { ylow } else { yhigh }) * (external_weights.get(
        &MapDirection::Down,
    ) as u64);
    let wl: u64 = (if dx > 0 { xlow } else { xhigh }) * (external_weights.get(
        &MapDirection::Left,
    ) as u64);
    weights.push(if wu > cap { cap as u32 } else { wu as u32 });
    weights.push(if wr > cap { cap as u32 } else { wr as u32 });
    weights.push(if wd > cap { cap as u32 } else { wd as u32 });
    weights.push(if wl > cap { cap as u32 } else { wl as u32 });
    proof {
        if external_weights.get_spec(MapDirection::Up) > 0 {
            assert(weights@[0] > 0);
        } else if external_weights.get_spec(MapDirection::Right) > 0 {
            assert(weights@[1] > 0);
        } else if external_weights.get_spec(MapDirection::Down) > 0 {
            assert(weights@[2] > 0);
        } else {
            assert(weights@[3] > 0);
        }
        assert(crate::rng::weight_sum(weights@) <= u32::MAX) by {
            reveal_with_fuel(crate::rng::weight_sum, 5);
            let w4 = weights@;
            let w3 = w4.drop_last();
            let w2 = w3.drop_last();
            let w1 = w2.drop_last();
            let w0 = w1.drop_last();
            assert(w0 =~= Seq::<u32>::empty());
            assert(w4.last() <= 0x3FFFFFFF && w3.last() <= 0x3FFFFFFF && w2.last() <= 0x3FFFFFFF
                && w1.last() <= 0x3FFFFFFF);
        }
    }
    let idx = crate::rng::choose_weighted_index(rng, &weights);
    let r = dirs[idx];
    proof {
        if idx == 0 {
            assert(external_weights.get_spec(MapDirection::Up) > 0);
        } else if idx == 1 {
            assert(external_weights.get_spec(MapDirection::Right) > 0);
        } else if idx == 2 {
            assert(external_weights.get_spec(MapDirection::Down) > 0);
        } else {
            assert(external_weights.get_spec(MapDirection::Left) > 0);
        }
    }
    r
}


/// The resolver never steps onto an unusable tile: if the decision carried
/// into one scanning state targets only an enterable tile outside the
/// blocked list, so does its outcome — every `Move` or advancing attack
/// lands on walkable, unclaimed ground.
pub proof fn lemma_decide_move_unblocked(
    tiles: TileGrid,
    occs: Seq<Occupant>,
    crit: AttackCriteria,
    dir: MapDirection,
    pos: (i32, i32),
    remaining: nat,
    prev: Option<(i32, i32)>,
    cur: MoveDecision,
    blocked: Seq<(i32, i32)>,
)
    requires
        match cur.to_move_position_spec() {
            Some(p) => !blocked.contains(p) && tiles.enterable(p),
            None => true,
        },
    ensures
        match decide_move_rec(
            tiles,
            occs,
            crit,
            dir,
            pos,
            remaining,
            prev,
            cur,
            blocked,
        ).to_move_position_spec() {
            Some(p) => !blocked.contains(p) && tiles.enterable(p),
            None => true,
        },
    decreases remaining,
{
    if remaining > 0 {
        match shifted_pos((pos.0 as int, pos.1 as int), dir.to_pos_move_spec()) {
            None => {},
            Some(q) => {
                let p = ((q.0 as i32), (q.1 as i32));
                if tiles.enterable(p) && !blocked.contains(p) {
                    match first_occupant_at(occs, p) {
                        Some(_) => {},
                        None => {
                            lemma_decide_move_unblocked(
                                tiles,
                                occs,
                                crit,
                                dir,
                                p,
                                (remaining - 1) as nat,
                                Some(p),
                                MoveDecision::Move((p, dir)),
                                blocked,
                            );
                        },
                    }
                }
            },
        }
    }
}

/// One enemy's turn input: identity, position, what it may attack, whether
/// a state (such as a jellyfish charging) forbids moving at all, how far it
/// may move per direction, and its per-direction movement weights.
#[derive(Clone, Copy, Debug)]
pub struct EnemyTurnInput {
    pub id: u64,
    pub pos: (i32, i32),
    pub can_attack_directly: bool,
    pub can_move: bool,
    pub move_distance: CanMoveDistance,
    pub move_weights: MoveWeighting,
}

/// The tiles that a batch of decisions moves onto, in order.
pub open spec fn move_positions(ds: Seq<(u64, MoveDecision)>) -> Seq<(i32, i32)>
    decreases ds.len(),
{
    if ds.len() == 0 {
        Seq::empty()
    } else {
        match ds.last().1.to_move_position_spec() {
            Some(p) => move_positions(ds.drop_last()).push(p),
            None => move_positions(ds.drop_last()),
        }
    }
}

/// The enemies of a batch that may move this phase, in input order.
pub open spec fn movable_enemies(s: Seq<EnemyTurnInput>) -> Seq<EnemyTurnInput>
    decreases s.len(),
{
    if s.len() == 0 {
        Seq::empty()
    } else {
        let rest = movable_enemies(s.drop_last());
        if s.last().can_move {
            rest.push(s.last())
        } else {
            rest
        }
    }
}

/// Resolve one whole enemy movement phase against a pre-phase snapshot of
/// positions: each enemy in turn draws a direction weighted towards the
/// player, resolves its move with every earlier enemy's destination marked
/// blocked, and contributes its decision in input order. Enemies whose
/// state forbids moving are skipped: the batch pairs one decision with
/// each movable enemy, in order, under its identity.
///
/// No two decisions of the batch move onto the same tile: a later enemy
/// sees the destinations of earlier ones as blocked even though the store
/// has not yet been mutated.
pub fn decide_enemy_moves(
    enemies: &Vec<EnemyTurnInput>,
    player_pos: &(i32, i32),
    occupants: &Vec<Occupant>,
    tiles: &TileGrid,
    rng: &mut rand::rngs::StdRng,
) -> (r: Vec<(u64, MoveDecision)>)
    requires
        tiles.wf(),
        forall|i: int| 0 <= i < enemies@.len() ==> has_positive_weight(
            (#[trigger] enemies@[i]).move_weights,
        ),
    ensures
        r@.len() == movable_enemies(enemies@).len(),
        forall|k: int| 0 <= k < r@.len() ==> {
            let e = movable_enemies(enemies@)[k];
            &&& (#[trigger] r@[k]).0 == e.id
            &&& exists|d: MapDirection|
                #![trigger e.move_weights.get_spec(d)]
                e.move_weights.get_spec(d) > 0 && r@[k].1 == decide_move_spec(
                    *tiles,
                    occupants@,
                    (AttackCriteria {
                        damage: 1usize,
                        can_attack_enemy: false,
                        can_attack_player: e.can_attack_directly,
                        move_on_attack: false,
                    }),
                    e.pos,
                    d,
                    e.move_distance.get_spec(d) as nat,
                    move_positions(r@.take(k)),
                )
        },
        forall|k1: int, k2: int|
            0 <= k1 < k2 < r@.len() ==> match ((#[trigger] r@[k1]).1.to_move_position_spec(), (
            #[trigger] r@[k2]).1.to_move_position_spec()) {
                (Some(p1), Some(p2)) => p1 != p2,
                _ => true,
            },
        forall|k: int| 0 <= k < r@.len() ==> match (#[trigger] r@[k]).1.to_move_position_spec() {
            Some(p) => tiles.enterable(p),
            None => true,
        },
{
    let n = enemies.len();
    let mut out: Vec<(u64, MoveDecision)> = Vec::new();
    let mut moved_to: Vec<(i32, i32)> = Vec::new();
    let mut i: usize = 0;
    proof {
        assert(out@.take(0) =~= Seq::<(u64, MoveDecision)>::empty());
        assert(enemies@.take(0) =~= Seq::<EnemyTurnInput>::empty());
    }
    while i < n
        invariant
            tiles.wf(),
            n == enemies@.len(),
            i <= n,
            forall|e: int| 0 <= e < enemies@.len() ==> has_positive_weight(
                (#[trigger] enemies@[e]).move_weights,
            ),
            moved_to@ == move_positions(out@),
            out@.len() == movable_enemies(enemies@.take(i as int)).len(),
            forall|k: int| 0 <= k < out@.len() ==> {
                let e = movable_enemies(enemies@.take(i as int))[k];
                &&& (#[trigger] out@[k]).0 == e.id
                &&& exists|d: MapDirection|
                    #![trigger e.move_weights.get_spec(d)]
                    e.move_weights.get_spec(d) > 0 && out@[k].1 == decide_move_spec(
                        *tiles,
                        occupants@,
                        (AttackCriteria {
                            damage: 1usize,
                            can_attack_enemy: false,
                            can_attack_player: e.can_attack_directly,
                            move_on_attack: false,
                        }),
                        e.pos,
                        d,
                        e.move_distance.get_spec(d) as nat,
                        move_positions(out@.take(k)),
                    )
            },
            forall|k: int| 0 <= k < out@.len() ==> match (#[trigger] out@[k]).1.to_move_position_spec() {
                Some(p) => !move_positions(out@.take(k)).contains(p) && tiles.enterable(p),
                None => true,
            },
        decreases n - i,
    {
        let ghost me0 = movable_enemies(enemies@.take(i as int));
        proof {
            assert(enemies@.take(i + 1 as int).drop_last() =~= enemies@.take(i as int));
            assert(enemies@.take(i + 1 as int).last() == enemies@[i as int]);
        }
        let e = &enemies[i];
        if e.can_move {
            let direction = weighted_rand_choice(&e.pos, player_pos, &e.move_weights, rng);
            let criteria = AttackCriteria::for_enemy(e.can_attack_directly);
            let max_dist = e.move_distance.get(&direction);
            let decision = decide_move(
                &e.pos,
                &direction,
                max_dist,
                &criteria,
                occupants,
                tiles,
                &moved_to,
            );
            proof {
                lemma_decide_move_unblocked(
                    *tiles,
                    occupants@,
                    criteria,
                    direction,
                    e.pos,
                    max_dist as nat,
                    None,
                    MoveDecision::Turn(direction),
                    moved_to@,
                );
            }
            let ghost out0 = out@;
            match decision.to_move_position() {
                Some(tilepos) => {
                    moved_to.push(tilepos);
                },
                None => {},
            }
            out.push((e.id, decision));
            proof {
                let me1 = movable_enemies(enemies@.take(i + 1 as int));
                assert(me1 == me0.push(enemies@[i as int]));
                assert(out@.drop_last() =~= out0);
                assert(out@.take(out0.len() as int) =~= out0);
                assert(out@.take(out@.len() as int) =~= out@);
                assert(moved_to@ == move_positions(out@));
                assert forall|k: int| 0 <= k < out@.len() implies match (
                #[trigger] out@[k]).1.to_move_position_spec() {
                    Some(p) => !move_positions(out@.take(k)).contains(p) && tiles.enterable(p),
                    None => true,
                } by {
                    if k < out0.len() {
                        assert(out@[k] == out0[k]);
                        assert(out@.take(k) =~= out0.take(k));
                    } else {
                        assert(out@[k] == (e.id, decision));
                        assert(out@.take(k) =~= out0);
                    }
                }
                assert forall|k: int| 0 <= k < out@.len() implies {
                    let en = me1[k];
                    &&& (#[trigger] out@[k]).0 == en.id
                    &&& exists|d: MapDirection|
                        #![trigger en.move_weights.get_spec(d)]
                        en.move_weights.get_spec(d) > 0 && out@[k].1 == decide_move_spec(
                            *tiles,
                            occupants@,
                            (AttackCriteria {
                                damage: 1usize,
                                can_attack_enemy: false,
                                can_attack_player: en.can_attack_directly,
                                move_on_attack: false,
                            }),
                            en.pos,
                            d,
                            en.move_distance.get_spec(d) as nat,
                            move_positions(out@.take(k)),
                        )
                } by {
                    if k < out0.len() {
                        assert(out@[k] == out0[k]);
                        assert(me1[k] == me0[k]);
                        assert(out@.take(k) =~= out0.take(k));
                    } else {
                        let en = me1[k];
                        assert(en == enemies@[i as int]);
                        assert(out@[k] == (e.id, decision));
                        assert(out@.take(k) =~= out0);
                        assert(en.move_weights.get_spec(direction) > 0 && out@[k].1
                            == decide_move_spec(
                            *tiles,
                            occupants@,
                            (AttackCriteria {
                                damage: 1usize,
                                can_attack_enemy: false,
                                can_attack_player: en.can_attack_directly,
                                move_on_attack: false,
                            }),
                            en.pos,
                            direction,
                            en.move_distance.get_spec(direction) as nat,
                            move_positions(out@.take(k)),
                        ));
                    }
                }
            }
        } else {
            proof {
                assert(movable_enemies(enemies@.take(i + 1 as int)) == me0);
            }
        }
        i += 1;
    }
    proof {
        assert(enemies@.take(n as int) =~= enemies@);
        lemma_move_positions_distinct(out@);
    }
    out
}

/// In a batch where each decision's destination avoids the destinations
/// before it, destinations are pairwise distinct.
proof fn lemma_move_positions_distinct(ds: Seq<(u64, MoveDecision)>)
    requires
        forall|k: int| 0 <= k < ds.len() ==> match (#[trigger] ds[k]).1.to_move_position_spec() {
            Some(p) => !move_positions(ds.take(k)).contains(p),
            None => true,
        },
    ensures
        forall|k1: int, k2: int|
            0 <= k1 < k2 < ds.len() ==> match ((#[trigger] ds[k1]).1.to_move_position_spec(), (
            #[trigger] ds[k2]).1.to_move_position_spec()) {
                (Some(p1), Some(p2)) => p1 != p2,
                _ => true,
            },
{
    assert forall|k1: int, k2: int| 0 <= k1 < k2 < ds.len() implies match ((
    #[trigger] ds[k1]).1.to_move_position_spec(), (#[trigger] ds[k2]).1.to_move_position_spec()) {
        (Some(p1), Some(p2)) => p1 != p2,
        _ => true,
    } by {
        match (ds[k1].1.to_move_position_spec(), ds[k2].1.to_move_position_spec()) {
            (Some(p1), Some(p2)) => {
                lemma_move_positions_member(ds.take(k2), k1);
                assert(move_positions(ds.take(k2)).contains(p1));
            },
            _ => {},
        }
    }
}

/// A destination at index `k` of a batch occurs in the batch's destination
/// list.
proof fn lemma_move_positions_member(ds: Seq<(u64, MoveDecision)>, k: int)
    requires
        0 <= k < ds.len(),
        ds[k].1.to_move_position_spec() is Some,
    ensures
        move_positions(ds).contains(ds[k].1.to_move_position_spec()->0),
    decreases ds.len(),
{
    if k == ds.len() - 1 {
        match ds.last().1.to_move_position_spec() {
            Some(p) => {
                let m = move_positions(ds);
                assert(m == move_positions(ds.drop_last()).push(p));
                assert(m[m.len() - 1] == p);
            },
            None => {},
        }
    } else {
        lemma_move_positions_member(ds.drop_last(), k);
        assert(ds.drop_last()[k] == ds[k]);
        let p = ds[k].1.to_move_position_spec()->0;
        let prev = move_positions(ds.drop_last());
        let j = choose|j: int| 0 <= j < prev.len() && prev[j] == p;
        match ds.last().1.to_move_position_spec() {
            Some(q) => {
                assert(move_positions(ds) == prev.push(q));
                assert(move_positions(ds)[j] == p);
            },
            None => {
                assert(move_positions(ds) == prev);
            },
        }
    }
}


/// What one unit of player input resolves to, before being applied.
#[derive(Clone, Copy, Debug, PartialEq)]
pub enum PlayerAction {
    Moved(MoveDecision),
    Waited,
    FiredPower,
    NoAction,
}

/// Resolve one player input event against the current board: a move
/// request becomes a full movement decision (one tile, player criteria), a
/// turn request a bare facing change, waiting passes the turn, and the
/// power fires only while charges remain. The hook request is handled by
/// the surrounding application, not the resolver.
pub fn resolve_player_input(
    event: &InputEvent,
    player_pos: &(i32, i32),
    occupants: &Vec<Occupant>,
    tiles: &TileGrid,
    power_charges: usize,
) -> (r: PlayerAction)
    requires
        tiles.wf(),
    ensures
        r == (match *event {
            InputEvent::MoveDirection(d) => PlayerAction::Moved(
                decide_move_spec(
                    *tiles,
                    occupants@,
                    (AttackCriteria {
                        damage: 1usize,
                        can_attack_enemy: true,
                        can_attack_player: false,
                        move_on_attack: true,
                    }),
                    *player_pos,
                    d,
                    1nat,
                    Seq::<(i32, i32)>::empty(),
                ),
            ),
            InputEvent::TurnDirection(d) => PlayerAction::Moved(MoveDecision::Turn(d)),
            InputEvent::Wait => PlayerAction::Waited,
            InputEvent::Power => if power_charges > 0 {
                PlayerAction::FiredPower
            } else {
                PlayerAction::NoAction
            },
            InputEvent::Hook => PlayerAction::NoAction,
        }),
{
    match event {
        InputEvent::MoveDirection(direction) => {
            let none_blocked: Vec<(i32, i32)> = Vec::new();
            let criteria = AttackCriteria::for_player();
            let decision = decide_move(
                player_pos,
                direction,
                1,
                &criteria,
                occupants,
                tiles,
                &none_blocked,
            );
            PlayerAction::Moved(decision)
        },
        InputEvent::TurnDirection(direction) => PlayerAction::Moved(
            MoveDecision::Turn(*direction),
        ),
        InputEvent::Wait => PlayerAction::Waited,
        InputEvent::Power => {
            if power_charges > 0 {
                PlayerAction::FiredPower
            } else {
                PlayerAction::NoAction
            }
        },
        InputEvent::Hook => PlayerAction::NoAction,
    }
}

} // verus!
