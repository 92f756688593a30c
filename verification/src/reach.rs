//! Breadth-first reachability over a sparse set of walkable coordinates:
//! the specification that `CellMap::recalculate` is proved against, and the
//! laws that follow from it. A coordinate's breadth-first cost is the length
//! of the shortest orthogonal path that reaches it from the origin, stepping
//! only onto coordinates of the key set.

use vstd::prelude::*;

verus! {

/// Orthogonal adjacency of two grid coordinates.
pub open spec fn adjacent(a: (i32, i32), b: (i32, i32)) -> bool {
    ||| b.0 as int == a.0 as int + 1 && b.1 == a.1
    ||| b.0 as int == a.0 as int - 1 && b.1 == a.1
    ||| b.0 == a.0 && b.1 as int == a.1 as int + 1
    ||| b.0 == a.0 && b.1 as int == a.1 as int - 1
}

/// `p` is a walk that starts at `from` and afterwards steps only onto
/// adjacent coordinates of `keys`. The origin itself need not lie in `keys`.
pub open spec fn is_path(keys: Set<(i32, i32)>, from: (i32, i32), p: Seq<(i32, i32)>) -> bool {
    &&& p.len() > 0
    &&& p[0] == from
    &&& forall|i: int| 1 <= i < p.len() ==> keys.contains(#[trigger] p[i]) && adjacent(
        p[i - 1],
        p[i],
    )
}

/// `c` can be reached from `from` in at most `k` orthogonal steps, stepping
/// only onto coordinates in `keys`.
pub open spec fn reachable_in(
    keys: Set<(i32, i32)>,
    from: (i32, i32),
    c: (i32, i32),
    k: nat,
) -> bool {
    exists|p: Seq<(i32, i32)>|
        #![trigger is_path(keys, from, p)]
        is_path(keys, from, p) && p.last() == c && p.len() <= k + 1
}

/// `c` is reachable from `from` through `keys` in some number of steps.
pub open spec fn reachable(keys: Set<(i32, i32)>, from: (i32, i32), c: (i32, i32)) -> bool {
    exists|k: nat| reachable_in(keys, from, c, k)
}

/// The origin reaches itself in zero steps.
pub proof fn lemma_reachable_origin(keys: Set<(i32, i32)>, from: (i32, i32), k: nat)
    ensures
        reachable_in(keys, from, from, k),
{
    let p: Seq<(i32, i32)> = seq![from];
    assert(is_path(keys, from, p));
    assert(p.last() == from && p.len() <= k + 1);
}

/// Zero steps reach exactly the origin.
pub proof fn lemma_reachable_zero(keys: Set<(i32, i32)>, from: (i32, i32), c: (i32, i32))
    ensures
        reachable_in(keys, from, c, 0) <==> c == from,
{
    if c == from {
        lemma_reachable_origin(keys, from, 0);
    }
    if reachable_in(keys, from, c, 0) {
        let p = choose|p: Seq<(i32, i32)>|
            #![trigger is_path(keys, from, p)]
            is_path(keys, from, p) && p.last() == c && p.len() <= 1;
        assert(p.last() == p[0]);
    }
}

/// The unit offsets of the four directions, by index.
pub open spec fn offset_of(k: int) -> (int, int) {
    if k == 0 {
        (0int, 1int)
    } else if k == 1 {
        (1int, 0int)
    } else if k == 2 {
        (-1int, 0int)
    } else {
        (0int, -1int)
    }
}

/// Adjacency is exactly "one of the four unit offsets away".
pub proof fn lemma_adjacent_offsets(a: (i32, i32), c: (i32, i32))
    ensures
        adjacent(a, c) <==> exists|k: int|
            0 <= k < 4 && c.0 as int == a.0 as int + (#[trigger] offset_of(k)).0 && c.1 as int
                == a.1 as int + offset_of(k).1,
{
    if adjacent(a, c) {
        if c.1 as int == a.1 as int + 1 && c.0 == a.0 {
            assert(c.0 as int == a.0 as int + offset_of(0).0 && c.1 as int == a.1 as int
                + offset_of(0).1);
        } else if c.0 as int == a.0 as int + 1 && c.1 == a.1 {
            assert(c.0 as int == a.0 as int + offset_of(1).0 && c.1 as int == a.1 as int
                + offset_of(1).1);
        } else if c.0 as int == a.0 as int - 1 && c.1 == a.1 {
            assert(c.0 as int == a.0 as int + offset_of(2).0 && c.1 as int == a.1 as int
                + offset_of(2).1);
        } else {
            assert(c.0 as int == a.0 as int + offset_of(3).0 && c.1 as int == a.1 as int
                + offset_of(3).1);
        }
    }
}

/// Reachability within `k1` steps implies reachability within any `k2 >= k1`.
pub proof fn lemma_reachable_in_monotonic(
    keys: Set<(i32, i32)>,
    from: (i32, i32),
    c: (i32, i32),
    k1: nat,
    k2: nat,
)
    requires
        k1 <= k2,
        reachable_in(keys, from, c, k1),
    ensures
        reachable_in(keys, from, c, k2),
{
    let p = choose|p: Seq<(i32, i32)>|
        #![trigger is_path(keys, from, p)]
        is_path(keys, from, p) && p.last() == c && p.len() <= k1 + 1;
    assert(is_path(keys, from, p) && p.last() == c && p.len() <= k2 + 1);
}

/// A reachable coordinate other than the origin lies in `keys`.
pub proof fn lemma_reachable_in_keys(
    keys: Set<(i32, i32)>,
    from: (i32, i32),
    c: (i32, i32),
    k: nat,
)
    requires
        reachable_in(keys, from, c, k),
        c != from,
    ensures
        keys.contains(c),
{
    let p = choose|p: Seq<(i32, i32)>|
        #![trigger is_path(keys, from, p)]
        is_path(keys, from, p) && p.last() == c && p.len() <= k + 1;
    assert(p.last() == p[p.len() - 1]);
}

/// Extending a reach by one step onto an adjacent key coordinate.
pub proof fn lemma_reachable_step(
    keys: Set<(i32, i32)>,
    from: (i32, i32),
    b: (i32, i32),
    c: (i32, i32),
    k: nat,
)
    requires
        reachable_in(keys, from, b, k),
        adjacent(b, c),
        keys.contains(c),
    ensures
        reachable_in(keys, from, c, (k + 1) as nat),
{
    let p = choose|p: Seq<(i32, i32)>|
        #![trigger is_path(keys, from, p)]
        is_path(keys, from, p) && p.last() == b && p.len() <= k + 1;
    let p2 = p.push(c);
    assert(p2.last() == c);
    assert forall|i: int| 1 <= i < p2.len() implies keys.contains(#[trigger] p2[i]) && adjacent(
        p2[i - 1],
        p2[i],
    ) by {
        if i < p.len() {
            assert(p2[i] == p[i] && p2[i - 1] == p[i - 1]);
        } else {
            assert(p2[i] == c && p2[i - 1] == p[p.len() - 1]);
            assert(p[p.len() - 1] == p.last());
        }
    }
    assert(is_path(keys, from, p2));
    assert(p2.len() <= k + 2);
}

/// A coordinate reached in `k > 0` steps, other than the origin, lies in
/// `keys` and is an adjacent successor of a coordinate reached in `k - 1`
/// steps.
pub proof fn lemma_reachable_unstep(
    keys: Set<(i32, i32)>,
    from: (i32, i32),
    c: (i32, i32),
    k: nat,
)
    requires
        k > 0,
        reachable_in(keys, from, c, k),
        c != from,
    ensures
        keys.contains(c),
        exists|b: (i32, i32)|
            #![trigger adjacent(b, c)]
            reachable_in(keys, from, b, (k - 1) as nat) && adjacent(b, c),
{
    lemma_reachable_in_keys(keys, from, c, k);
    let p = choose|p: Seq<(i32, i32)>|
        #![trigger is_path(keys, from, p)]
        is_path(keys, from, p) && p.last() == c && p.len() <= k + 1;
    let len = p.len() as int;
    assert(p.last() == p[len - 1]);
    assert(len >= 2);
    let b = p[len - 2];
    let q = p.take(len - 1);
    assert(q[0] == p[0]);
    assert forall|i: int| 1 <= i < q.len() implies keys.contains(#[trigger] q[i]) && adjacent(
        q[i - 1],
        q[i],
    ) by {
        assert(q[i] == p[i] && q[i - 1] == p[i - 1]);
    }
    assert(is_path(keys, from, q));
    assert(q.last() == b);
    assert(q.len() <= (k - 1) + 1);
    assert(reachable_in(keys, from, b, (k - 1) as nat));
    assert(adjacent(b, c));
}

/// Reachability survives translating every coordinate by a fixed offset:
/// a walk through `keys` replays, shifted, through the translated key set.
pub proof fn lemma_reachable_in_translate(
    keys: Set<(i32, i32)>,
    from: (i32, i32),
    c: (i32, i32),
    k: nat,
    keys2: Set<(i32, i32)>,
    from2: (i32, i32),
    c2: (i32, i32),
    dx: int,
    dy: int,
)
    requires
        reachable_in(keys, from, c, k),
        forall|q: (i32, i32)| #[trigger] keys.contains(q) ==> i32::MIN <= q.0 + dx <= i32::MAX
            && i32::MIN <= q.1 + dy <= i32::MAX && keys2.contains(
            (((q.0 + dx) as i32), ((q.1 + dy) as i32)),
        ),
        from2.0 as int == from.0 + dx && from2.1 as int == from.1 + dy,
        c2.0 as int == c.0 + dx && c2.1 as int == c.1 + dy,
    ensures
        reachable_in(keys2, from2, c2, k),
{
    let p = choose|p: Seq<(i32, i32)>|
        #![trigger is_path(keys, from, p)]
        is_path(keys, from, p) && p.last() == c && p.len() <= k + 1;
    let p2 = Seq::new(
        p.len(),
        |j: int| ((((p[j].0 as int + dx)) as i32), (((p[j].1 as int + dy)) as i32)),
    );
    assert(p2[0] == from2);
    assert forall|j: int| 1 <= j < p2.len() implies keys2.contains(#[trigger] p2[j]) && adjacent(
        p2[j - 1],
        p2[j],
    ) by {
        assert(keys.contains(p[j]));
        assert(p2[j].0 as int == p[j].0 as int + dx && p2[j].1 as int == p[j].1 as int + dy);
        if j == 1 {
            assert(p2[0].0 as int == p[0].0 as int + dx && p2[0].1 as int == p[0].1 as int + dy);
        } else {
            assert(keys.contains(p[j - 1]));
        }
        assert(adjacent(p[j - 1], p[j]));
    }
    assert(is_path(keys2, from2, p2));
    assert(p.last() == p[p.len() - 1] && p2.last() == p2[p.len() - 1]);
    assert(p2.last() == c2);
    assert(p2.len() <= k + 1);
}

/// Once one breadth-first level adds nothing, no later level adds anything.
pub proof fn lemma_fixed_point(keys: Set<(i32, i32)>, from: (i32, i32), d: nat, k: nat)
    requires
        forall|c: (i32, i32)| #[trigger] reachable_in(keys, from, c, (d + 1) as nat)
            ==> reachable_in(keys, from, c, d),
    ensures
        forall|c: (i32, i32)| #[trigger] reachable_in(keys, from, c, k) ==> reachable_in(
            keys,
            from,
            c,
            d,
        ),
    decreases k,
{
    if k <= d {
        assert forall|c: (i32, i32)| #[trigger] reachable_in(keys, from, c, k) implies
            reachable_in(keys, from, c, d) by {
            lemma_reachable_in_monotonic(keys, from, c, k, d);
        }
    } else {
        lemma_fixed_point(keys, from, d, (k - 1) as nat);
        assert forall|c: (i32, i32)| #[trigger] reachable_in(keys, from, c, k) implies
            reachable_in(keys, from, c, d) by {
            if !reachable_in(keys, from, c, (k - 1) as nat) {
                lemma_reachable_origin(keys, from, (k - 1) as nat);
                assert(c != from);
                lemma_reachable_unstep(keys, from, c, k);
                let b = choose|b: (i32, i32)|
                    #![trigger adjacent(b, c)]
                    reachable_in(keys, from, b, (k - 1) as nat) && adjacent(b, c);
                assert(reachable_in(keys, from, b, d));
                lemma_reachable_step(keys, from, b, c, d);
            }
        }
    }
}

/// What a breadth-first recomputation from `origin` over `keys` returns:
/// the domain is exactly the reachable set, and each value is the least
/// step count that reaches its coordinate — the shortest-path distance.
pub open spec fn bfs_post(
    keys: Set<(i32, i32)>,
    origin: (i32, i32),
    m: Map<(i32, i32), int>,
) -> bool {
    &&& forall|c: (i32, i32)| #[trigger] m.dom().contains(c) <==> reachable(keys, origin, c)
    &&& forall|c: (i32, i32)| #[trigger] m.dom().contains(c) ==> {
        &&& m[c] >= 0
        &&& reachable_in(keys, origin, c, m[c] as nat)
        &&& (m[c] > 0 ==> !reachable_in(keys, origin, c, (m[c] - 1) as nat))
    }
}

/// A breadth-first result always holds the origin, at cost zero.
pub proof fn lemma_bfs_origin_cost_zero(
    keys: Set<(i32, i32)>,
    origin: (i32, i32),
    m: Map<(i32, i32), int>,
)
    requires
        bfs_post(keys, origin, m),
    ensures
        m.dom().contains(origin),
        m[origin] == 0,
{
    lemma_reachable_origin(keys, origin, 0);
    assert(reachable(keys, origin, origin));
    if m[origin] > 0 {
        lemma_reachable_origin(keys, origin, (m[origin] - 1) as nat);
    }
}

/// BFS correctness pins the result down: any two maps that satisfy
/// `bfs_post` for the same keys and origin are equal.
pub proof fn lemma_bfs_post_unique(
    keys: Set<(i32, i32)>,
    origin: (i32, i32),
    m1: Map<(i32, i32), int>,
    m2: Map<(i32, i32), int>,
)
    requires
        bfs_post(keys, origin, m1),
        bfs_post(keys, origin, m2),
    ensures
        m1 =~= m2,
{
    assert forall|c: (i32, i32)| m1.dom().contains(c) implies m2.dom().contains(c) by {
        assert(reachable(keys, origin, c));
    }
    assert forall|c: (i32, i32)| m2.dom().contains(c) implies m1.dom().contains(c) by {
        assert(reachable(keys, origin, c));
    }
    assert(m1.dom() =~= m2.dom());
    assert forall|c: (i32, i32)| #[trigger] m1.dom().contains(c) implies m1[c] == m2[c] by {
        if m1[c] < m2[c] {
            lemma_reachable_in_monotonic(keys, origin, c, m1[c] as nat, (m2[c] - 1) as nat);
        } else if m2[c] < m1[c] {
            lemma_reachable_in_monotonic(keys, origin, c, m2[c] as nat, (m1[c] - 1) as nat);
        }
    }
}

/// A walk through the reachable set of `keys` can be replayed as a walk
/// through `keys` itself that is no longer and ends at the same coordinate.
proof fn lemma_path_in_reachable_set(
    keys: Set<(i32, i32)>,
    origin: (i32, i32),
    dom: Set<(i32, i32)>,
    p: Seq<(i32, i32)>,
)
    requires
        forall|c: (i32, i32)| #[trigger] dom.contains(c) <==> reachable(keys, origin, c),
        is_path(dom, origin, p),
    ensures
        exists|q: Seq<(i32, i32)>|
            #![trigger is_path(keys, origin, q)]
            is_path(keys, origin, q) && q.last() == p.last() && q.len() <= p.len(),
    decreases p.len(),
{
    let len = p.len() as int;
    if len == 1 {
        assert(p.last() == p[0]);
        assert(is_path(keys, origin, p));
    } else {
        let c = p.last();
        assert(c == p[len - 1]);
        if c == origin {
            let q: Seq<(i32, i32)> = seq![origin];
            assert(is_path(keys, origin, q));
            assert(q.last() == c && q.len() <= p.len());
        } else {
            let pp = p.take(len - 1);
            assert(pp[0] == p[0]);
            assert forall|i: int| 1 <= i < pp.len() implies dom.contains(#[trigger] pp[i])
                && adjacent(pp[i - 1], pp[i]) by {
                assert(pp[i] == p[i] && pp[i - 1] == p[i - 1]);
            }
            assert(is_path(dom, origin, pp));
            lemma_path_in_reachable_set(keys, origin, dom, pp);
            let q = choose|q: Seq<(i32, i32)>|
                #![trigger is_path(keys, origin, q)]
                is_path(keys, origin, q) && q.last() == pp.last() && q.len() <= pp.len();
            assert(dom.contains(c));
            assert(reachable(keys, origin, c));
            let kk = choose|kk: nat| reachable_in(keys, origin, c, kk);
            lemma_reachable_in_keys(keys, origin, c, kk);
            let q2 = q.push(c);
            assert(q2[0] == q[0]);
            assert forall|i: int| 1 <= i < q2.len() implies keys.contains(#[trigger] q2[i])
                && adjacent(q2[i - 1], q2[i]) by {
                if i < q.len() {
                    assert(q2[i] == q[i] && q2[i - 1] == q[i - 1]);
                } else {
                    assert(q2[i] == c && q2[i - 1] == q[q.len() - 1]);
                    assert(q[q.len() - 1] == q.last());
                    assert(q.last() == pp.last());
                    assert(pp.last() == pp[len - 2] && pp[len - 2] == p[len - 2]);
                    assert(adjacent(p[len - 2], p[len - 1]));
                }
            }
            assert(is_path(keys, origin, q2));
            assert(q2.last() == c && q2.len() <= p.len());
        }
    }
}

/// Stepping through the reachable set reaches exactly what stepping through
/// the full key set reaches, level by level.
pub proof fn lemma_levels_in_reachable_set(
    keys: Set<(i32, i32)>,
    origin: (i32, i32),
    dom: Set<(i32, i32)>,
    k: nat,
)
    requires
        forall|c: (i32, i32)| #[trigger] dom.contains(c) <==> reachable(keys, origin, c),
    ensures
        forall|c: (i32, i32)| #[trigger] reachable_in(dom, origin, c, k) <==> reachable_in(
            keys,
            origin,
            c,
            k,
        ),
{
    assert forall|c: (i32, i32)| #[trigger] reachable_in(dom, origin, c, k) implies reachable_in(
        keys,
        origin,
        c,
        k,
    ) by {
        let p = choose|p: Seq<(i32, i32)>|
            #![trigger is_path(dom, origin, p)]
            is_path(dom, origin, p) && p.last() == c && p.len() <= k + 1;
        lemma_path_in_reachable_set(keys, origin, dom, p);
        let q = choose|q: Seq<(i32, i32)>|
            #![trigger is_path(keys, origin, q)]
            is_path(keys, origin, q) && q.last() == p.last() && q.len() <= p.len();
        assert(is_path(keys, origin, q) && q.last() == c && q.len() <= k + 1);
    }
    assert forall|c: (i32, i32)| #[trigger] reachable_in(keys, origin, c, k) implies reachable_in(
        dom,
        origin,
        c,
        k,
    ) by {
        let p = choose|p: Seq<(i32, i32)>|
            #![trigger is_path(keys, origin, p)]
            is_path(keys, origin, p) && p.last() == c && p.len() <= k + 1;
        assert forall|i: int| 1 <= i < p.len() implies dom.contains(#[trigger] p[i]) && adjacent(
            p[i - 1],
            p[i],
        ) by {
            let pre = p.take(i + 1);
            assert(pre[0] == p[0]);
            assert forall|j: int| 1 <= j < pre.len() implies keys.contains(#[trigger] pre[j])
                && adjacent(pre[j - 1], pre[j]) by {
                assert(pre[j] == p[j] && pre[j - 1] == p[j - 1]);
            }
            assert(is_path(keys, origin, pre));
            assert(pre.last() == p[i]);
            assert(pre.len() <= i + 1);
            assert(reachable_in(keys, origin, p[i], i as nat));
            assert(reachable(keys, origin, p[i]));
        }
        assert(is_path(dom, origin, p));
    }
}

/// Reachability culling idempotence: recomputing from the same origin on a
/// map that is itself a breadth-first result reproduces that map exactly —
/// same key set, same costs.
pub proof fn lemma_recalculate_idempotent(
    keys: Set<(i32, i32)>,
    origin: (i32, i32),
    m1: Map<(i32, i32), int>,
    m2: Map<(i32, i32), int>,
)
    requires
        bfs_post(keys, origin, m1),
        bfs_post(m1.dom(), origin, m2),
    ensures
        m2 =~= m1,
{
    assert forall|c: (i32, i32)| #[trigger] m2.dom().contains(c) <==> reachable(
        keys,
        origin,
        c,
    ) by {
        if m2.dom().contains(c) {
            assert(reachable(m1.dom(), origin, c));
            let k = choose|k: nat| reachable_in(m1.dom(), origin, c, k);
            lemma_levels_in_reachable_set(keys, origin, m1.dom(), k);
            assert(reachable_in(keys, origin, c, k));
        }
        if reachable(keys, origin, c) {
            let k = choose|k: nat| reachable_in(keys, origin, c, k);
            lemma_levels_in_reachable_set(keys, origin, m1.dom(), k);
            assert(reachable_in(m1.dom(), origin, c, k));
            assert(reachable(m1.dom(), origin, c));
        }
    }
    assert forall|c: (i32, i32)| #[trigger] m2.dom().contains(c) implies {
        &&& m2[c] >= 0
        &&& reachable_in(keys, origin, c, m2[c] as nat)
        &&& (m2[c] > 0 ==> !reachable_in(keys, origin, c, (m2[c] - 1) as nat))
    } by {
        lemma_levels_in_reachable_set(keys, origin, m1.dom(), m2[c] as nat);
        if m2[c] > 0 {
            lemma_levels_in_reachable_set(keys, origin, m1.dom(), (m2[c] - 1) as nat);
        }
    }
    assert(bfs_post(keys, origin, m2));
    lemma_bfs_post_unique(keys, origin, m1, m2);
}

} // verus!
