//! The two narrow phases that run over a fresh quadtree each tick: soft
//! repulsion between capital units, and projectile hits on units.
use vstd::prelude::*;
use crate::components::{Hp, Player, Projectile, Velocity};
use crate::geometry::{
    circles_overlap, dist2, distance_squared, overlaps, Rectangle2D, Vec2, MAX_COORD,
};
use crate::quadtree::{CollisionQuadtree, EntityBody, CQT_MAX_OBJECTS_PER_NODE};

verus! {

broadcast use vstd::seq_lib::group_to_multiset_ensures;

/// Gain of the repulsion law: the impulse between two capital units `d` apart
/// is `REPULSION_GAIN * d / |d|^2`, in micro world units per tick.
pub const REPULSION_GAIN: i64 = 25_000_000_000;

/// One component of the repulsion impulse for the displacement component `d`
/// when the squared distance is `d2`, rounded toward zero.
pub open spec fn impulse_part(d: int, d2: int) -> int {
    if d >= 0 {
        d * REPULSION_GAIN / d2
    } else {
        -((-d) * REPULSION_GAIN / d2)
    }
}

/// The impulse that pushes a unit at `a` away from a unit at `b`.
pub open spec fn impulse(a: Vec2, b: Vec2) -> (int, int) {
    (impulse_part(a.x - b.x, dist2(a, b)), impulse_part(a.y - b.y, dist2(a, b)))
}

/// `a + b`, held within the range of `i64`.
pub open spec fn sat_add(a: int, b: int) -> int {
    if a + b > i64::MAX {
        i64::MAX as int
    } else if a + b < i64::MIN {
        i64::MIN as int
    } else {
        a + b
    }
}

/// A velocity after a push of `(px, py)`.
pub open spec fn pushed(v: Velocity, px: int, py: int) -> Velocity {
    Velocity { dx: sat_add(v.dx as int, px) as i64, dy: sat_add(v.dy as int, py) as i64, dw: v.dw }
}

proof fn lemma_impulse_part_bound(d: int, d2: int)
    requires
        d * d <= d2,
        0 < d2,
    ensures
        -REPULSION_GAIN <= impulse_part(d, d2) <= REPULSION_GAIN,
{
    let m = if d >= 0 { d } else { -d };
    assert(m * m <= d2) by (nonlinear_arith)
        requires
            d * d <= d2,
            m == d || m == -d,
    ;
    let q = m * REPULSION_GAIN / d2;
    assert(0 <= q <= REPULSION_GAIN) by (nonlinear_arith)
        requires
            0 <= m,
            m * m <= d2,
            0 < d2,
            q == m * REPULSION_GAIN / d2,
            REPULSION_GAIN > 0,
    {
        assert(q * d2 <= m * REPULSION_GAIN);
        if m > 0 {
            assert(m <= d2);
            assert(q * m <= q * d2);
        }
    }
}

/// The repulsion impulse that pushes a unit at `a` away from a unit at `b`.
pub fn repulsion_impulse(a: Vec2, b: Vec2) -> (r: (i64, i64))
    requires
        a.valid(),
        b.valid(),
        dist2(a, b) > 0,
    ensures
        r.0 == impulse(a, b).0,
        r.1 == impulse(a, b).1,
        -REPULSION_GAIN <= r.0 <= REPULSION_GAIN,
        -REPULSION_GAIN <= r.1 <= REPULSION_GAIN,
{
    let d2 = distance_squared(a, b);
    let dx = a.x as i128 - b.x as i128;
    let dy = a.y as i128 - b.y as i128;
    proof {
        assert(dx * dx >= 0 && dy * dy >= 0) by (nonlinear_arith);
        lemma_impulse_part_bound(dx as int, d2 as int);
        lemma_impulse_part_bound(dy as int, d2 as int);
    }
    let px = if dx >= 0 {
        dx * (REPULSION_GAIN as i128) / d2
    } else {
        -((-dx) * (REPULSION_GAIN as i128) / d2)
    };
    let py = if dy >= 0 {
        dy * (REPULSION_GAIN as i128) / d2
    } else {
        -((-dy) * (REPULSION_GAIN as i128) / d2)
    };
    (px as i64, py as i64)
}

/// Two units repel each other with equal and opposite impulses: swapping the
/// two negates the impulse.
pub proof fn lemma_repulsion_symmetric(a: Vec2, b: Vec2)
    requires
        dist2(a, b) > 0,
    ensures
        dist2(b, a) == dist2(a, b),
        impulse(b, a).0 == -impulse(a, b).0,
        impulse(b, a).1 == -impulse(a, b).1,
{
    assert((a.x - b.x) * (a.x - b.x) == (b.x - a.x) * (b.x - a.x)) by (nonlinear_arith);
    assert((a.y - b.y) * (a.y - b.y) == (b.y - a.y) * (b.y - a.y)) by (nonlinear_arith);
}

fn saturating_add(a: i64, b: i64) -> (r: i64)
    ensures
        r == sat_add(a as int, b as int),
{
    let s = a as i128 + b as i128;
    if s > i64::MAX as i128 {
        i64::MAX
    } else if s < i64::MIN as i128 {
        i64::MIN
    } else {
        s as i64
    }
}

fn saturating_push(velocities: &mut Vec<Velocity>, i: usize, px: i64, py: i64)
    requires
        i < old(velocities)@.len(),
    ensures
        final(velocities)@ == old(velocities)@.update(
            i as int,
            pushed(old(velocities)@[i as int], px as int, py as int),
        ),
{
    let v = velocities[i];
    let nv = Velocity { dx: saturating_add(v.dx, px), dy: saturating_add(v.dy, py), dw: v.dw };
    velocities.set(i, nv);
}

/// Pushes the units of entities `a` and `b` apart: `a` gets the impulse away
/// from `b`, and `b` the opposite impulse.
pub fn repel_pair(velocities: &mut Vec<Velocity>, a: &EntityBody, b: &EntityBody)
    requires
        a.valid(),
        b.valid(),
        a.entity != b.entity,
        a.entity < old(velocities)@.len(),
        b.entity < old(velocities)@.len(),
        dist2(a.position, b.position) > 0,
    ensures
        final(velocities)@ == old(velocities)@.update(
            b.entity as int,
            pushed(
                old(velocities)@[b.entity as int],
                -impulse(a.position, b.position).0,
                -impulse(a.position, b.position).1,
            ),
        ).update(
            a.entity as int,
            pushed(
                old(velocities)@[a.entity as int],
                impulse(a.position, b.position).0,
                impulse(a.position, b.position).1,
            ),
        ),
{
    let (px, py) = repulsion_impulse(a.position, b.position);
    saturating_push(velocities, b.entity, -px, -py);
    saturating_push(velocities, a.entity, px, py);
}

/// Velocities after the capital `a` met candidate `b`: when `b` is another
/// entity whose circle overlaps that of `a`, at a distance above zero, the
/// pair is pushed apart (see `repel_pair`); otherwise nothing changes.
pub open spec fn repel_step(v: Seq<Velocity>, a: EntityBody, b: EntityBody) -> Seq<Velocity> {
    if b.entity != a.entity && circles_overlap(
        a.position,
        a.radius as int,
        b.position,
        b.radius as int,
    ) && dist2(a.position, b.position) > 0 {
        let (px, py) = impulse(a.position, b.position);
        v.update(b.entity as int, pushed(v[b.entity as int], -px, -py)).update(
            a.entity as int,
            pushed(v[a.entity as int], px, py),
        )
    } else {
        v
    }
}

/// Velocities after the capital `a` met each candidate in turn.
pub open spec fn repel_all(v: Seq<Velocity>, a: EntityBody, cands: Seq<EntityBody>) -> Seq<
    Velocity,
>
    decreases cands.len(),
{
    if cands.len() == 0 {
        v
    } else {
        repel_step(repel_all(v, a, cands.drop_last()), a, cands.last())
    }
}

/// Repels the capital `a` from each of `candidates` in turn (see `repel_step`).
pub fn repel_from(velocities: &mut Vec<Velocity>, a: &EntityBody, candidates: &Vec<EntityBody>)
    requires
        a.valid(),
        a.entity < old(velocities)@.len(),
        forall|k: int|
            0 <= k < candidates@.len() ==> (#[trigger] candidates@[k]).valid()
                && candidates@[k].entity < old(velocities)@.len(),
    ensures
        final(velocities)@ == repel_all(old(velocities)@, *a, candidates@),
{
    let ghost orig = velocities@;
    let m = candidates.len();
    let mut c: usize = 0;
    while c < m
        invariant
            m == candidates@.len(),
            c <= m,
            a.valid(),
            a.entity < orig.len(),
            forall|k: int|
                0 <= k < candidates@.len() ==> (#[trigger] candidates@[k]).valid()
                    && candidates@[k].entity < orig.len(),
            velocities@ == repel_all(orig, *a, candidates@.subrange(0, c as int)),
            velocities@.len() == orig.len(),
        decreases m - c,
    {
        let b = candidates[c];
        proof {
            assert(candidates@.subrange(0, c + 1).drop_last() =~= candidates@.subrange(0, c as int));
        }
        if b.entity != a.entity && overlaps(a.position, a.radius, b.position, b.radius) {
            let d2 = distance_squared(a.position, b.position);
            if d2 > 0 {
                repel_pair(velocities, a, &b);
            }
        }
        c = c + 1;
    }
    assert(candidates@.subrange(0, m as int) =~= candidates@);
}

proof fn lemma_repel_all_frame(
    v: Seq<Velocity>,
    a: EntityBody,
    cands: Seq<EntityBody>,
    capitals: Seq<EntityBody>,
    i: int,
)
    requires
        0 <= i < capitals.len(),
        capitals[i] == a,
        forall|x: EntityBody| #[trigger] cands.contains(x) ==> capitals.contains(x),
        forall|k: int|
            0 <= k < capitals.len() ==> (#[trigger] capitals[k]).valid() && capitals[k].entity
                < v.len(),
    ensures
        repel_all(v, a, cands).len() == v.len(),
        forall|id: int|
            0 <= id < v.len() ==> (#[trigger] repel_all(v, a, cands)[id]).dw == v[id].dw,
        forall|id: int|
            0 <= id < v.len() && !repelled(capitals, id) ==> (#[trigger] repel_all(v, a, cands)[id])
                == v[id],
    decreases cands.len(),
{
    if cands.len() > 0 {
        let rest = cands.drop_last();
        assert forall|x: EntityBody| #[trigger] rest.contains(x) implies capitals.contains(x) by {
            let k = choose|k: int| 0 <= k < rest.len() && rest[k] == x;
            assert(cands[k] == x);
            assert(cands.contains(x));
        }
        lemma_repel_all_frame(v, a, rest, capitals, i);
        let b = cands.last();
        assert(cands.contains(b)) by {
            assert(cands[cands.len() - 1] == b);
        }
        let j = choose|j: int| 0 <= j < capitals.len() && capitals[j] == b;
        if b.entity != a.entity && circles_overlap(
            a.position,
            a.radius as int,
            b.position,
            b.radius as int,
        ) && dist2(a.position, b.position) > 0 {
            lemma_overlap_symmetric(a.position, a.radius as int, b.position, b.radius as int);
            assert(repelled(capitals, a.entity as int)) by {
                assert(capitals[i] == a && capitals[j] == b);
            }
            assert(repelled(capitals, b.entity as int)) by {
                assert(capitals[i] == a && capitals[j] == b);
            }
        }
    }
}

/// Velocities after the first `k` capitals of `caps` each met all of `cands`
/// in turn.
pub open spec fn repel_sweep(
    v: Seq<Velocity>,
    caps: Seq<EntityBody>,
    cands: Seq<EntityBody>,
    k: int,
) -> Seq<Velocity>
    decreases k,
{
    if k <= 0 {
        v
    } else {
        repel_all(repel_sweep(v, caps, cands, k - 1), caps[k - 1], cands)
    }
}

/// Two overlapping capital units with no other neighbours: after a sweep in
/// which each meets both, the velocity change of the one is exactly the
/// opposite of the other's, twice the impulse away from the other, and no
/// other entity's velocity changes. (Velocities are taken small enough that
/// no addition saturates.)
pub proof fn lemma_two_capitals_repel_oppositely(v: Seq<Velocity>, a: EntityBody, b: EntityBody)
    requires
        a.valid(),
        b.valid(),
        a.entity != b.entity,
        a.entity < v.len(),
        b.entity < v.len(),
        circles_overlap(a.position, a.radius as int, b.position, b.radius as int),
        dist2(a.position, b.position) > 0,
        -MAX_COORD <= v[a.entity as int].dx <= MAX_COORD,
        -MAX_COORD <= v[a.entity as int].dy <= MAX_COORD,
        -MAX_COORD <= v[b.entity as int].dx <= MAX_COORD,
        -MAX_COORD <= v[b.entity as int].dy <= MAX_COORD,
    ensures
        ({
            let w = repel_sweep(v, seq![a, b], seq![a, b], 2);
            let (ia, ib) = (a.entity as int, b.entity as int);
            &&& w.len() == v.len()
            &&& w[ia].dx - v[ia].dx == -(w[ib].dx - v[ib].dx)
            &&& w[ia].dy - v[ia].dy == -(w[ib].dy - v[ib].dy)
            &&& w[ia].dx - v[ia].dx == 2 * impulse(a.position, b.position).0
            &&& w[ia].dy - v[ia].dy == 2 * impulse(a.position, b.position).1
            &&& w[ia].dw == v[ia].dw && w[ib].dw == v[ib].dw
            &&& forall|id: int| 0 <= id < v.len() && id != ia && id != ib ==> #[trigger] w[id] == v[id]
        }),
{
    let (ia, ib) = (a.entity as int, b.entity as int);
    let cands = seq![a, b];
    let caps = seq![a, b];
    lemma_repulsion_symmetric(a.position, b.position);
    lemma_overlap_symmetric(a.position, a.radius as int, b.position, b.radius as int);
    let d2 = dist2(a.position, b.position);
    let dx = a.position.x - b.position.x;
    let dy = a.position.y - b.position.y;
    assert(dx * dx >= 0 && dy * dy >= 0) by (nonlinear_arith);
    lemma_impulse_part_bound(dx, d2);
    lemma_impulse_part_bound(dy, d2);
    let (px, py) = impulse(a.position, b.position);
    assert(cands.drop_last() =~= seq![a]);
    assert(seq![a].drop_last() =~= Seq::<EntityBody>::empty());
    reveal_with_fuel(repel_all, 3);
    reveal_with_fuel(repel_sweep, 3);
    let v1 = repel_all(v, a, cands);
    assert(repel_all(v, a, seq![a]) == v);
    assert(v1 == repel_step(v, a, b));
    assert(caps[0] == a && caps[1] == b);
    assert(repel_sweep(v, caps, cands, 1) == v1);
    let w = repel_all(v1, b, cands);
    assert(repel_all(v1, b, seq![a]) == repel_step(v1, b, a));
    assert(w == repel_step(repel_step(v1, b, a), b, b));
    assert(w == repel_step(v1, b, a));
    assert(repel_sweep(v, caps, cands, 2) == w);
}

/// Velocities after the first `k` capitals of `caps` each met what the index
/// `t` retrieves for its repulsion circle.
pub open spec fn repel_index_sweep(
    v: Seq<Velocity>,
    caps: Seq<EntityBody>,
    t: CollisionQuadtree,
    k: int,
) -> Seq<Velocity>
    decreases k,
{
    if k <= 0 {
        v
    } else {
        let a = caps[k - 1];
        repel_all(repel_index_sweep(v, caps, t, k - 1), a, t.retrieved(a.position, a.radius as int))
    }
}

/// The entity `id` is one of two capital units of different entities whose
/// repulsion circles overlap.
pub open spec fn repelled(capitals: Seq<EntityBody>, id: int) -> bool {
    exists|i: int, j: int|
        #![trigger capitals[i], capitals[j]]
        0 <= i < capitals.len() && 0 <= j < capitals.len() && capitals[i].entity == id
            && capitals[j].entity != id && circles_overlap(
            capitals[i].position,
            capitals[i].radius as int,
            capitals[j].position,
            capitals[j].radius as int,
        )
}

proof fn lemma_overlap_symmetric(a: Vec2, ra: int, b: Vec2, rb: int)
    requires
        circles_overlap(a, ra, b, rb),
    ensures
        circles_overlap(b, rb, a, ra),
{
    assert((a.x - b.x) * (a.x - b.x) == (b.x - a.x) * (b.x - a.x)) by (nonlinear_arith);
    assert((a.y - b.y) * (a.y - b.y) == (b.y - a.y) * (b.y - a.y)) by (nonlinear_arith);
    assert((ra + rb) * (ra + rb) == (rb + ra) * (rb + ra)) by (nonlinear_arith);
}

/// Builds a quadtree over the records, in order, within `bounds`.
pub fn build_quadtree(records: &Vec<EntityBody>, bounds: Rectangle2D) -> (r: CollisionQuadtree)
    requires
        bounds.valid(),
        forall|i: int| 0 <= i < records@.len() ==> (#[trigger] records@[i]).valid(),
    ensures
        r.wf(),
        r.bounds == bounds,
        r.held() =~= records@.to_multiset(),
        records@.len() <= CQT_MAX_OBJECTS_PER_NODE ==> !r.is_split && r.entities@ == records@,
        r.minimal(),
{
    let mut qtree = CollisionQuadtree::new(0, bounds);
    let n = records.len();
    let mut k: usize = 0;
    while k < n
        invariant
            n == records@.len(),
            k <= n,
            qtree.wf(),
            qtree.bounds == bounds,
            qtree.held() =~= records@.subrange(0, k as int).to_multiset(),
            qtree.level == 0,
            qtree.minimal(),
            n <= CQT_MAX_OBJECTS_PER_NODE ==> !qtree.is_split && qtree.entities@
                == records@.subrange(0, k as int),
            forall|i: int| 0 <= i < records@.len() ==> (#[trigger] records@[i]).valid(),
        decreases n - k,
    {
        qtree.insert(records[k]);
        proof {
            assert(records@.subrange(0, k + 1) =~= records@.subrange(0, k as int).push(
                records@[k as int],
            ));
        }
        k = k + 1;
    }
    assert(records@.subrange(0, n as int) =~= records@);
    qtree
}

/// Pushes overlapping capital units apart. Each capital is looked up in a
/// quadtree over all of them, keyed by its repulsion radius, and repelled from
/// what is found as `repel_from` says: for each other entity whose circle
/// overlaps its own, at a distance above zero, the impulse away from it is
/// added to the capital's velocity and taken from the other's. Velocities are indexed by entity; `dw` is never touched, and a unit
/// that overlaps no capital of another entity keeps its velocity.
pub fn capital_ship_repulsion_system(
    capitals: &Vec<EntityBody>,
    velocities: &mut Vec<Velocity>,
    bounds: Rectangle2D,
)
    requires
        bounds.valid(),
        forall|i: int|
            0 <= i < capitals@.len() ==> (#[trigger] capitals@[i]).valid() && capitals@[i].entity
                < old(velocities)@.len(),
    ensures
        final(velocities)@.len() == old(velocities)@.len(),
        forall|id: int|
            0 <= id < old(velocities)@.len() ==> (#[trigger] final(velocities)@[id]).dw == old(
                velocities,
            )@[id].dw,
        forall|id: int|
            0 <= id < old(velocities)@.len() && !repelled(capitals@, id) ==> (
            #[trigger] final(velocities)@[id]) == old(velocities)@[id],
        capitals@.len() <= CQT_MAX_OBJECTS_PER_NODE ==> final(velocities)@ == repel_sweep(
            old(velocities)@,
            capitals@,
            capitals@,
            capitals@.len() as int,
        ),
        exists|t: CollisionQuadtree|
            t.wf() && t.minimal() && t.bounds == bounds && t.held() =~= capitals@.to_multiset()
                && final(velocities)@ == #[trigger] repel_index_sweep(
                old(velocities)@,
                capitals@,
                t,
                capitals@.len() as int,
            ),
{
    let qtree = build_quadtree(capitals, bounds);
    let ghost orig = velocities@;
    let mut colliders: Vec<EntityBody> = Vec::new();
    let n = capitals.len();
    let mut i: usize = 0;
    while i < n
        invariant
            n == capitals@.len(),
            i <= n,
            qtree.wf(),
            qtree.held() =~= capitals@.to_multiset(),
            qtree.minimal(),
            velocities@.len() == orig.len(),
            orig == old(velocities)@,
            forall|k: int|
                0 <= k < capitals@.len() ==> (#[trigger] capitals@[k]).valid()
                    && capitals@[k].entity < orig.len(),
            forall|id: int| 0 <= id < orig.len() ==> (#[trigger] velocities@[id]).dw == orig[id].dw,
            forall|id: int|
                0 <= id < orig.len() && !repelled(capitals@, id) ==> (
                #[trigger] velocities@[id]) == orig[id],
            n <= CQT_MAX_OBJECTS_PER_NODE ==> !qtree.is_split && qtree.entities@ == capitals@,
            n <= CQT_MAX_OBJECTS_PER_NODE ==> velocities@ == repel_sweep(
                orig,
                capitals@,
                capitals@,
                i as int,
            ),
            qtree.bounds == bounds,
            velocities@ == repel_index_sweep(orig, capitals@, qtree, i as int),
        decreases n - i,
    {
        let a = capitals[i];
        colliders.clear();
        qtree.retrieve(a.position, a.radius, &mut colliders);
        proof {
            qtree.lemma_retrieved_held(a.position, a.radius as int);
            assert(colliders@ =~= qtree.retrieved(a.position, a.radius as int));
        }
        proof {
            assert forall|x: EntityBody| #[trigger] colliders@.contains(x) implies capitals@.contains(
                x,
            ) by {
                assert(qtree.held().count(x) > 0);
            }
            assert forall|k: int| 0 <= k < colliders@.len() implies (#[trigger] colliders@[k]).valid()
                && colliders@[k].entity < velocities@.len() by {
                assert(colliders@.contains(colliders@[k]));
                let j = choose|j: int| 0 <= j < capitals@.len() && capitals@[j] == colliders@[k];
                assert(capitals@[j].valid());
            }
            lemma_repel_all_frame(velocities@, a, colliders@, capitals@, i as int);
        }
        repel_from(velocities, &a, &colliders);
        i = i + 1;
    }
    assert(velocities@ == repel_index_sweep(orig, capitals@, qtree, n as int));
}

/// A unit as the collision phase sees it.
#[derive(Clone, Copy, Debug, PartialEq, Eq, Structural)]
pub struct UnitCollider {
    pub entity: usize,
    pub player: Player,
    pub position: Vec2,
    pub radius: i64,
    pub hp: Hp,
}

/// A projectile as the collision phase sees it.
#[derive(Clone, Copy, Debug, PartialEq, Eq, Structural)]
pub struct ProjectileCollider {
    pub entity: usize,
    pub player: Player,
    pub damage: u64,
    pub position: Vec2,
    pub radius: i64,
}

impl UnitCollider {
    pub open spec fn valid(&self) -> bool {
        self.position.valid() && 0 <= self.radius <= MAX_COORD
    }
}

impl ProjectileCollider {
    pub open spec fn valid(&self) -> bool {
        self.position.valid() && 0 <= self.radius <= MAX_COORD
    }
}

/// A projectile hits a unit when their owners differ and their collision
/// circles overlap.
pub open spec fn hits(u: UnitCollider, p: ProjectileCollider) -> bool {
    u.player.id != p.player.id && circles_overlap(
        u.position,
        u.radius as int,
        p.position,
        p.radius as int,
    )
}

/// Whether `p` hits `u`.
pub fn projectile_hits(u: &UnitCollider, p: &ProjectileCollider) -> (r: bool)
    requires
        u.valid(),
        p.valid(),
    ensures
        r == hits(*u, *p),
{
    u.player.id != p.player.id && overlaps(u.position, u.radius, p.position, p.radius)
}

/// A projectile never hits a unit of its own player, however they overlap.
pub proof fn lemma_no_friendly_fire(u: UnitCollider, p: ProjectileCollider)
    requires
        u.player == p.player,
    ensures
        !hits(u, p),
{
}

/// The hit threshold: a projectile of another player whose centre lies at a
/// distance `s - eps` from the unit's, `s` being the sum of the radii, hits;
/// one at `s + eps` does not.
pub proof fn lemma_collision_threshold(
    u: UnitCollider,
    p: ProjectileCollider,
    q: ProjectileCollider,
    eps: int,
)
    requires
        u.player.id != p.player.id,
        0 < eps <= u.radius + p.radius,
        p.radius >= 0 && u.radius >= 0,
        dist2(u.position, p.position) == (u.radius + p.radius - eps) * (u.radius + p.radius - eps),
        q.radius == p.radius,
        dist2(u.position, q.position) == (u.radius + q.radius + eps) * (u.radius + q.radius + eps),
    ensures
        hits(u, p),
        !hits(u, q),
{
    let s = u.radius + p.radius;
    assert((s - eps) * (s - eps) < s * s) by (nonlinear_arith)
        requires
            0 < eps <= s,
    ;
    assert((s + eps) * (s + eps) > s * s) by (nonlinear_arith)
        requires
            0 < eps,
            0 <= s,
    ;
}

/// The hit points left after a hit of `damage`: none once the damage reaches them.
pub open spec fn damaged(hp: Hp, damage: u64) -> Hp {
    Hp { max: hp.max, current: if hp.current >= damage { (hp.current - damage) as u64 } else { 0 } }
}

/// Some projectile hits the unit.
pub open spec fn hit_by_any(u: UnitCollider, projectiles: Seq<ProjectileCollider>) -> bool {
    exists|k: int| 0 <= k < projectiles.len() && hits(u, #[trigger] projectiles[k])
}

/// The projectile entity `id` hits some unit.
pub open spec fn spent(
    units: Seq<UnitCollider>,
    projectiles: Seq<ProjectileCollider>,
    id: usize,
) -> bool {
    exists|i: int, k: int|
        #![trigger units[i], projectiles[k]]
        0 <= i < units.len() && 0 <= k < projectiles.len() && projectiles[k].entity == id && hits(
            units[i],
            projectiles[k],
        )
}

/// Where the collision phase stands while it works through one unit: the
/// unit's hit points, which projectiles (by index) are gone, and the entities
/// of the projectiles removed so far, in order.
pub type CollisionState = (Hp, Seq<bool>, Seq<usize>);

/// The state after the unit `u` met candidate record `c`, whose entity is the
/// index of a projectile: a projectile still there that hits the unit takes
/// its damage off, is gone, and is listed for removal.
pub open spec fn hit_step(
    st: CollisionState,
    u: UnitCollider,
    projectiles: Seq<ProjectileCollider>,
    c: EntityBody,
) -> CollisionState {
    let k = c.entity as int;
    if k < projectiles.len() && k < st.1.len() && !st.1[k] && hits(u, projectiles[k]) {
        (damaged(st.0, projectiles[k].damage), st.1.update(k, true), st.2.push(projectiles[k].entity))
    } else {
        st
    }
}

/// The state after the unit `u` met each candidate in turn.
pub open spec fn collide_all(
    st: CollisionState,
    u: UnitCollider,
    projectiles: Seq<ProjectileCollider>,
    cands: Seq<EntityBody>,
) -> CollisionState
    decreases cands.len(),
{
    if cands.len() == 0 {
        st
    } else {
        hit_step(collide_all(st, u, projectiles, cands.drop_last()), u, projectiles, cands.last())
    }
}

/// Applies to `unit` the hits of the projectiles that `candidates` name by
/// index, in turn: each that is not yet `gone` and hits the unit takes its
/// damage off the unit's hit points (not below zero), is marked gone, and its
/// entity is appended to `despawned` (see `collide_all`).
pub fn collide_unit(
    unit: &mut UnitCollider,
    projectiles: &Vec<ProjectileCollider>,
    candidates: &Vec<EntityBody>,
    gone: &mut Vec<bool>,
    despawned: &mut Vec<usize>,
)
    requires
        old(unit).valid(),
        forall|k: int| 0 <= k < projectiles@.len() ==> (#[trigger] projectiles@[k]).valid(),
        old(gone)@.len() == projectiles@.len(),
    ensures
        ({
            let r = collide_all(
                (old(unit).hp, old(gone)@, old(despawned)@),
                *old(unit),
                projectiles@,
                candidates@,
            );
            &&& *final(unit) == (UnitCollider { hp: r.0, ..*old(unit) })
            &&& final(gone)@ == r.1
            &&& final(despawned)@ == r.2
        }),
{
    let ghost start = *unit;
    let ghost st0 = (unit.hp, gone@, despawned@);
    let m = candidates.len();
    let mut c: usize = 0;
    while c < m
        invariant
            m == candidates@.len(),
            c <= m,
            start.valid(),
            forall|k: int| 0 <= k < projectiles@.len() ==> (#[trigger] projectiles@[k]).valid(),
            gone@.len() == projectiles@.len(),
            ({
                let r = collide_all(st0, start, projectiles@, candidates@.subrange(0, c as int));
                &&& *unit == (UnitCollider { hp: r.0, ..start })
                &&& gone@ == r.1
                &&& despawned@ == r.2
            }),
        decreases m - c,
    {
        let rec = candidates[c];
        proof {
            assert(candidates@.subrange(0, c + 1).drop_last() =~= candidates@.subrange(0, c as int));
        }
        if rec.entity < projectiles.len() && !gone[rec.entity] {
            let p = projectiles[rec.entity];
            if projectile_hits(unit, &p) {
                let left: u64 = if unit.hp.current >= p.damage {
                    unit.hp.current - p.damage
                } else {
                    0
                };
                unit.hp = Hp { max: unit.hp.max, current: left };
                gone.set(rec.entity, true);
                despawned.push(p.entity);
            }
        }
        c = c + 1;
    }
    assert(candidates@.subrange(0, m as int) =~= candidates@);
}

proof fn lemma_collide_all_frame(
    st: CollisionState,
    u: UnitCollider,
    projectiles: Seq<ProjectileCollider>,
    cands: Seq<EntityBody>,
)
    ensures
        ({
            let r = collide_all(st, u, projectiles, cands);
            &&& r.0.max == st.0.max
            &&& r.0.current <= st.0.current
            &&& r.1.len() == st.1.len()
            &&& !hit_by_any(u, projectiles) ==> r == st
            &&& r.2.len() >= st.2.len()
            &&& forall|j: int| 0 <= j < st.2.len() ==> #[trigger] r.2[j] == st.2[j]
            &&& forall|j: int|
                st.2.len() <= j < r.2.len() ==> exists|k: int|
                    0 <= k < projectiles.len() && projectiles[k].entity == #[trigger] r.2[j]
                        && hits(u, projectiles[k])
        }),
    decreases cands.len(),
{
    if cands.len() > 0 {
        let rest = cands.drop_last();
        lemma_collide_all_frame(st, u, projectiles, rest);
        let q = collide_all(st, u, projectiles, rest);
        let r = collide_all(st, u, projectiles, cands);
        let c = cands.last();
        let k = c.entity as int;
        if k < projectiles.len() && k < q.1.len() && !q.1[k] && hits(u, projectiles[k]) {
            assert(hit_by_any(u, projectiles));
            assert forall|j: int|
                st.2.len() <= j < r.2.len() implies exists|k2: int|
                    0 <= k2 < projectiles.len() && projectiles[k2].entity == #[trigger] r.2[j]
                        && hits(u, projectiles[k2]) by {
                if j == q.2.len() {
                    assert(projectiles[k].entity == r.2[j]);
                } else {
                    assert(r.2[j] == q.2[j]);
                }
            }
            assert forall|j: int| 0 <= j < st.2.len() implies #[trigger] r.2[j] == st.2[j] by {
                assert(r.2[j] == q.2[j]);
            }
        } else {
            assert(r == q);
        }
    }
}

/// Friendly fire: a unit that meets a projectile of its own player is left as
/// it was, and so is the projectile; when all projectiles are friendly,
/// meeting any candidates changes nothing.
pub proof fn lemma_friendly_projectiles_harmless(
    st: CollisionState,
    u: UnitCollider,
    projectiles: Seq<ProjectileCollider>,
    cands: Seq<EntityBody>,
    c: EntityBody,
)
    ensures
        c.entity < projectiles.len() && projectiles[c.entity as int].player == u.player ==> hit_step(
            st,
            u,
            projectiles,
            c,
        ) == st,
        (forall|k: int| 0 <= k < projectiles.len() ==> (#[trigger] projectiles[k]).player == u.player)
            ==> collide_all(st, u, projectiles, cands) == st,
    decreases cands.len(),
{
    if cands.len() > 0 {
        lemma_friendly_projectiles_harmless(st, u, projectiles, cands.drop_last(), c);
    }
}

/// The quadtree records of the projectiles: each names its projectile by index.
pub open spec fn records_of(projectiles: Seq<ProjectileCollider>) -> Seq<EntityBody> {
    Seq::new(
        projectiles.len(),
        |k: int|
            EntityBody {
                entity: k as usize,
                position: projectiles[k].position,
                radius: projectiles[k].radius,
            },
    )
}

/// No projectile is gone yet.
pub open spec fn none_gone(n: nat) -> Seq<bool> {
    Seq::new(n, |k: int| false)
}

/// The state after unit `k` of `units` met what the index `t` retrieves for
/// its collision circle, starting from `gone` and `spent`.
pub open spec fn unit_meets(
    units: Seq<UnitCollider>,
    projectiles: Seq<ProjectileCollider>,
    t: CollisionQuadtree,
    k: int,
    gone: Seq<bool>,
    spent: Seq<usize>,
) -> CollisionState {
    let u = units[k];
    collide_all((u.hp, gone, spent), u, projectiles, t.retrieved(u.position, u.radius as int))
}

/// Which projectiles are gone, and which entities were removed, after the
/// first `k` units met what the index `t` retrieves for each of them.
pub open spec fn collision_sweep(
    units: Seq<UnitCollider>,
    projectiles: Seq<ProjectileCollider>,
    t: CollisionQuadtree,
    k: int,
) -> (Seq<bool>, Seq<usize>)
    decreases k,
{
    if k <= 0 {
        (none_gone(projectiles.len()), Seq::<usize>::empty())
    } else {
        let s = collision_sweep(units, projectiles, t, k - 1);
        let m = unit_meets(units, projectiles, t, k - 1, s.0, s.1);
        (m.1, m.2)
    }
}

/// The hit points of each unit after it met, in order, what the index `t`
/// retrieves for its collision circle, and the projectiles removed, are those
/// of `units2` and `despawned`.
pub open spec fn collided_by_index(
    units: Seq<UnitCollider>,
    projectiles: Seq<ProjectileCollider>,
    t: CollisionQuadtree,
    units2: Seq<UnitCollider>,
    despawned: Seq<usize>,
) -> bool {
    &&& forall|i: int|
        0 <= i < units.len() ==> (#[trigger] units2[i]).hp == unit_meets(
            units,
            projectiles,
            t,
            i,
            collision_sweep(units, projectiles, t, i).0,
            collision_sweep(units, projectiles, t, i).1,
        ).0
    &&& despawned == collision_sweep(units, projectiles, t, units.len() as int).1
}

/// Applies projectile hits. The projectiles go into a quadtree keyed by their
/// collision radius; each unit in turn looks up the projectiles near its own
/// collision circle and meets them as `collide_unit` says: each one found that
/// is still there and hits it takes its damage off the unit's hit points (not
/// below zero) and is removed, so it hits no other unit. A unit that no
/// projectile hits keeps its hit points; no other field of a unit changes,
/// and hit points never rise. With no more projectiles than a node holds, the
/// index does not split and every unit meets every projectile.
pub fn projectile_collision_system(
    units: &mut Vec<UnitCollider>,
    projectiles: &Vec<ProjectileCollider>,
    bounds: Rectangle2D,
) -> (despawned: Vec<usize>)
    requires
        bounds.valid(),
        forall|i: int| 0 <= i < old(units)@.len() ==> (#[trigger] old(units)@[i]).valid(),
        forall|k: int| 0 <= k < projectiles@.len() ==> (#[trigger] projectiles@[k]).valid(),
    ensures
        final(units)@.len() == old(units)@.len(),
        forall|i: int|
            0 <= i < old(units)@.len() ==> {
                let (u, v) = (#[trigger] final(units)@[i], old(units)@[i]);
                &&& u.entity == v.entity && u.player == v.player
                &&& u.position == v.position && u.radius == v.radius
                &&& u.hp.max == v.hp.max && u.hp.current <= v.hp.current
                &&& !hit_by_any(v, projectiles@) ==> u.hp == v.hp
            },
        forall|j: int|
            0 <= j < despawned@.len() ==> spent(old(units)@, projectiles@, #[trigger] despawned@[j]),
        exists|t: CollisionQuadtree|
            t.wf() && t.minimal() && t.bounds == bounds && t.held() =~= records_of(
                projectiles@,
            ).to_multiset() && (
            projectiles@.len() <= CQT_MAX_OBJECTS_PER_NODE ==> !t.is_split && t.entities@
                == records_of(projectiles@)) && #[trigger] collided_by_index(
                old(units)@,
                projectiles@,
                t,
                final(units)@,
                despawned@,
            ),
{
    let mut records: Vec<EntityBody> = Vec::new();
    let mut gone: Vec<bool> = Vec::new();
    let np = projectiles.len();
    let mut k: usize = 0;
    while k < np
        invariant
            np == projectiles@.len(),
            k <= np,
            records@.len() == k,
            gone@.len() == k,
            forall|q: int| 0 <= q < k ==> !(#[trigger] gone@[q]),
            forall|q: int| 0 <= q < projectiles@.len() ==> (#[trigger] projectiles@[q]).valid(),
            forall|q: int|
                0 <= q < k ==> (#[trigger] records@[q]) == (EntityBody {
                    entity: q as usize,
                    position: projectiles@[q].position,
                    radius: projectiles@[q].radius,
                }),
        decreases np - k,
    {
        let p = projectiles[k];
        records.push(EntityBody { entity: k, position: p.position, radius: p.radius });
        gone.push(false);
        k = k + 1;
    }
    assert(records@ =~= records_of(projectiles@));
    assert(gone@ =~= none_gone(projectiles@.len()));
    let qtree = build_quadtree(&records, bounds);
    let ghost orig = units@;
    let mut despawned: Vec<usize> = Vec::new();
    let mut colliders: Vec<EntityBody> = Vec::new();
    let n = units.len();
    let mut i: usize = 0;
    while i < n
        invariant
            n == units@.len(),
            n == orig.len(),
            orig == old(units)@,
            i <= n,
            qtree.wf(),
            qtree.bounds == bounds,
            qtree.held() =~= records@.to_multiset(),
            qtree.minimal(),
            records@ == records_of(projectiles@),
            np == projectiles@.len(),
            np <= CQT_MAX_OBJECTS_PER_NODE ==> !qtree.is_split && qtree.entities@ == records@,
            gone@.len() == np,
            forall|q: int| 0 <= q < projectiles@.len() ==> (#[trigger] projectiles@[q]).valid(),
            forall|q: int| 0 <= q < n ==> (#[trigger] orig[q]).valid(),
            forall|q: int|
                0 <= q < n ==> {
                    let (u, v) = (#[trigger] units@[q], orig[q]);
                    &&& u.entity == v.entity && u.player == v.player
                    &&& u.position == v.position && u.radius == v.radius
                    &&& u.hp.max == v.hp.max && u.hp.current <= v.hp.current
                    &&& !hit_by_any(v, projectiles@) ==> u.hp == v.hp
                },
            forall|j: int|
                0 <= j < despawned@.len() ==> spent(orig, projectiles@, #[trigger] despawned@[j]),
            forall|q: int| i <= q < n ==> #[trigger] units@[q] == orig[q],
            gone@ == collision_sweep(orig, projectiles@, qtree, i as int).0,
            despawned@ == collision_sweep(orig, projectiles@, qtree, i as int).1,
            forall|q: int|
                0 <= q < i ==> (#[trigger] units@[q]).hp == unit_meets(
                    orig,
                    projectiles@,
                    qtree,
                    q,
                    collision_sweep(orig, projectiles@, qtree, q).0,
                    collision_sweep(orig, projectiles@, qtree, q).1,
                ).0,
        decreases n - i,
    {
        let mut u = units[i];
        colliders.clear();
        qtree.retrieve(u.position, u.radius, &mut colliders);
        let ghost before = despawned@;
        proof {
            lemma_collide_all_frame((u.hp, gone@, despawned@), u, projectiles@, colliders@);
        }
        collide_unit(&mut u, projectiles, &colliders, &mut gone, &mut despawned);
        units.set(i, u);
        proof {
            let o = orig[i as int];
            assert forall|j: int|
                0 <= j < despawned@.len() implies spent(
                orig,
                projectiles@,
                #[trigger] despawned@[j],
            ) by {
                if j >= before.len() {
                    let k = choose|k: int|
                        0 <= k < projectiles@.len() && projectiles@[k].entity == despawned@[j]
                            && hits(o, projectiles@[k]);
                    assert(orig[i as int] == o && projectiles@[k] == projectiles@[k]);
                } else {
                    assert(despawned@[j] == before[j]);
                }
            }
        }
        i = i + 1;
    }
    assert(collided_by_index(orig, projectiles@, qtree, units@, despawned@));
    despawned
}

/// The entities of the units of `s` whose hit points have run out, in order.
pub open spec fn destroyed(s: Seq<UnitCollider>) -> Seq<usize>
    decreases s.len(),
{
    if s.len() == 0 {
        Seq::<usize>::empty()
    } else {
        let rest = destroyed(s.drop_last());
        if s.last().hp.current == 0 {
            rest.push(s.last().entity)
        } else {
            rest
        }
    }
}

/// The capital units whose hit points have run out, in order: each is
/// replaced by an explosion and removed with its children.
pub fn capital_ship_destruction_system(capitals: &Vec<UnitCollider>) -> (r: Vec<usize>)
    ensures
        r@ == destroyed(capitals@),
{
    let mut r: Vec<usize> = Vec::new();
    let n = capitals.len();
    let mut k: usize = 0;
    while k < n
        invariant
            n == capitals@.len(),
            k <= n,
            r@ == destroyed(capitals@.subrange(0, k as int)),
        decreases n - k,
    {
        let u = capitals[k];
        assert(capitals@.subrange(0, k + 1).drop_last() =~= capitals@.subrange(0, k as int));
        if u.hp.current == 0 {
            r.push(u.entity);
        }
        k = k + 1;
    }
    assert(capitals@.subrange(0, n as int) =~= capitals@);
    r
}

/// A projectile has flown past its range once its distance from where it was
/// fired exceeds the range; it is then removed instead of moved.
pub fn projectile_out_of_range(projectile: &Projectile, position: Vec2) -> (r: bool)
    requires
        projectile.fired_from.valid(),
        position.valid(),
    ensures
        r == (projectile.range < 0 || dist2(projectile.fired_from, position) > projectile.range
            * projectile.range),
{
    if projectile.range < 0 {
        return true;
    }
    let d2 = distance_squared(projectile.fired_from, position);
    let range = projectile.range as i128;
    assert(range * range <= 85070591730234615865843651857942052864) by (nonlinear_arith)
        requires
            0 <= range <= 9223372036854775807,
    ;
    d2 > range * range
}

} // verus!
