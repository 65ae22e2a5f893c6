//! The turret state machine: a turret follows the front of its owner's target
//! queue, turns toward the target and fires when aligned, in range and
//! reloaded.
use vstd::prelude::*;
use crate::geometry::{dist2, Vec2, MAX_COORD};
use crate::components::{
    collision_radius_of, repulsion_radius_of, Body, Player, Projectile, Velocity, MAX_SIZE,
};
use crate::targets::{advanced, front, Targets};

verus! {

/// Fixed-point scale of angles and of normalized products: one unit is a
/// millionth (of a radian).
pub const ANGLE_SCALE: i64 = 1_000_000;

/// A turret keeps turning while the normalized cross product of its heading and
/// the direction to its target exceeds this (0.001).
pub const TURRET_ON_TARGET_THRESH: i64 = 1_000;

/// A turret may fire while the normalized cross product is below this (ten
/// degrees in radians).
pub const TURRET_FIRE_THRESH: i64 = 174_533;

/// Bound on each component of a heading vector.
pub const MAX_HEADING: i64 = 1_048_576;

/// The greatest `r` with `r * r <= n`.
pub open spec fn floor_sqrt(n: nat) -> nat
    decreases n,
{
    if n == 0 {
        0
    } else {
        let r = floor_sqrt((n - 1) as nat);
        if (r + 1) * (r + 1) <= n {
            r + 1
        } else {
            r
        }
    }
}

pub proof fn lemma_floor_sqrt(n: nat)
    ensures
        floor_sqrt(n) * floor_sqrt(n) <= n < (floor_sqrt(n) + 1) * (floor_sqrt(n) + 1),
    decreases n,
{
    if n > 0 {
        lemma_floor_sqrt((n - 1) as nat);
        let r = floor_sqrt((n - 1) as nat);
        assert((r + 1) * (r + 1) < (r + 2) * (r + 2)) by (nonlinear_arith);
        let s = floor_sqrt(n);
        if (r + 1) * (r + 1) <= n {
            assert(s == r + 1);
            assert(s * s <= n && n < (s + 1) * (s + 1)) by (nonlinear_arith)
                requires
                    s == r + 1,
                    (r + 1) * (r + 1) <= n,
                    n - 1 < (r + 1) * (r + 1),
                    (r + 1) * (r + 1) < (r + 2) * (r + 2),
            ;
        } else {
            assert(s == r);
            assert(s * s <= n && n < (s + 1) * (s + 1)) by (nonlinear_arith)
                requires
                    s == r,
                    r * r <= n - 1,
                    n < (r + 1) * (r + 1),
            ;
        }
    } else {
        let s = floor_sqrt(n);
        assert(s == 0);
        assert(s * s <= n && n < (s + 1) * (s + 1)) by (nonlinear_arith)
            requires
                s == 0,
                n == 0,
        ;
    }
}

/// The square root by floors is the one `r` with `r * r <= n < (r + 1) * (r + 1)`.
pub proof fn lemma_floor_sqrt_unique(n: nat, r: nat)
    requires
        r * r <= n < (r + 1) * (r + 1),
    ensures
        floor_sqrt(n) == r,
{
    lemma_floor_sqrt(n);
    let s = floor_sqrt(n);
    if s < r {
        assert((s + 1) * (s + 1) <= r * r) by (nonlinear_arith)
            requires
                s + 1 <= r,
        ;
    } else if r < s {
        assert((r + 1) * (r + 1) <= s * s) by (nonlinear_arith)
            requires
                r + 1 <= s,
        ;
    }
}

/// The square root of `n`, rounded down.
pub fn isqrt(n: u128) -> (r: u128)
    ensures
        r == floor_sqrt(n as nat),
{
    let mut lo: u128 = 0;
    let mut hi: u128 = 0x1_0000_0000_0000_0000;
    assert(n < hi * hi);
    while hi - lo > 1
        invariant
            lo < hi <= 0x1_0000_0000_0000_0000,
            lo * lo <= n,
            n < hi * hi,
        decreases hi - lo,
    {
        let mid = lo + (hi - lo) / 2;
        assert(mid * mid < 0x1_0000_0000_0000_0000 * 0x1_0000_0000_0000_0000) by (nonlinear_arith)
            requires
                mid < 0x1_0000_0000_0000_0000,
        ;
        if mid * mid <= n {
            lo = mid;
        } else {
            hi = mid;
        }
    }
    proof {
        lemma_floor_sqrt_unique(n as nat, lo as nat);
    }
    lo
}

/// `v / len` in units of `ANGLE_SCALE`, rounded toward zero; zero when `len` is.
pub open spec fn normalized(v: int, len: int) -> int {
    if len <= 0 {
        0
    } else if v >= 0 {
        v * ANGLE_SCALE / len
    } else {
        -((-v) * ANGLE_SCALE / len)
    }
}

/// The geometry of a turret at `p` heading along `h` toward a target at `g`:
/// the cross and dot products of the direction to the target with the
/// heading, normalized, and the squared distance.
pub struct Aim {
    pub cross: i64,
    pub dot: i64,
    pub distance2: i128,
    pub length: u128,
}

pub open spec fn cross_of(p: Vec2, h: Vec2, g: Vec2) -> int {
    (g.x - p.x) * h.y - (g.y - p.y) * h.x
}

pub open spec fn dot_of(p: Vec2, h: Vec2, g: Vec2) -> int {
    (g.x - p.x) * h.x + (g.y - p.y) * h.y
}

/// The product of the lengths of the direction to the target and of the
/// heading, rounded down.
pub open spec fn length_of(p: Vec2, h: Vec2, g: Vec2) -> int {
    floor_sqrt((dist2(g, p) * (h.x * h.x + h.y * h.y)) as nat) as int
}

pub open spec fn heading_valid(h: Vec2) -> bool {
    -MAX_HEADING <= h.x <= MAX_HEADING && -MAX_HEADING <= h.y <= MAX_HEADING
}

proof fn lemma_lagrange(a: int, b: int, c: int, d: int)
    ensures
        (a * d - b * c) * (a * d - b * c) + (a * c + b * d) * (a * c + b * d) == (a * a + b * b) * (c
            * c + d * d),
{
    let (p, q, u, v) = (a * d, b * c, a * c, b * d);
    assert((p - q) * (p - q) == p * p - 2 * (p * q) + q * q) by (nonlinear_arith);
    assert((u + v) * (u + v) == u * u + 2 * (u * v) + v * v) by (nonlinear_arith);
    assert(p * q == u * v) by (nonlinear_arith)
        requires
            p == a * d,
            q == b * c,
            u == a * c,
            v == b * d,
    ;
    assert(p * p == (a * a) * (d * d)) by (nonlinear_arith)
        requires
            p == a * d,
    ;
    assert(q * q == (b * b) * (c * c)) by (nonlinear_arith)
        requires
            q == b * c,
    ;
    assert(u * u == (a * a) * (c * c)) by (nonlinear_arith)
        requires
            u == a * c,
    ;
    assert(v * v == (b * b) * (d * d)) by (nonlinear_arith)
        requires
            v == b * d,
    ;
    let (aa, bb, cc, dd) = (a * a, b * b, c * c, d * d);
    assert((aa + bb) * (cc + dd) == aa * cc + aa * dd + bb * cc + bb * dd) by (nonlinear_arith);
}

proof fn lemma_below_floor_sqrt(x: int, n: nat)
    requires
        0 <= x,
        x * x <= n,
    ensures
        x <= floor_sqrt(n),
{
    lemma_floor_sqrt(n);
    let r = floor_sqrt(n) as int;
    if x > r {
        assert((r + 1) * (r + 1) <= x * x) by (nonlinear_arith)
            requires
                r + 1 <= x,
                0 <= r,
        ;
    }
}

proof fn lemma_normalized_bound(v: int, len: int)
    requires
        0 < len,
        -len <= v <= len,
    ensures
        -ANGLE_SCALE <= normalized(v, len) <= ANGLE_SCALE,
{
    let m = if v >= 0 { v } else { -v };
    let q = m * ANGLE_SCALE / len;
    assert(0 <= q <= ANGLE_SCALE) by (nonlinear_arith)
        requires
            0 <= m <= len,
            0 < len,
            q == m * ANGLE_SCALE / len,
            ANGLE_SCALE > 0,
    {
        assert(q * len <= m * ANGLE_SCALE);
        assert(m * ANGLE_SCALE <= len * ANGLE_SCALE);
    }
}

/// Computes the aim of a turret at `p` heading along `h` toward `g`.
pub fn aim(p: Vec2, h: Vec2, g: Vec2) -> (r: Aim)
    requires
        p.valid(),
        g.valid(),
        heading_valid(h),
    ensures
        r.distance2 == dist2(g, p),
        r.length == length_of(p, h, g),
        r.cross == normalized(cross_of(p, h, g), length_of(p, h, g)),
        r.dot == normalized(dot_of(p, h, g), length_of(p, h, g)),
        -ANGLE_SCALE <= r.cross <= ANGLE_SCALE,
        -ANGLE_SCALE <= r.dot <= ANGLE_SCALE,
{
    let dx = g.x as i128 - p.x as i128;
    let dy = g.y as i128 - p.y as i128;
    let hx = h.x as i128;
    let hy = h.y as i128;
    let ghost b: int = 2199023255552int;
    assert(-b * MAX_HEADING <= dx * hy <= b * MAX_HEADING) by (nonlinear_arith)
        requires
            -b <= dx <= b,
            -MAX_HEADING <= hy <= MAX_HEADING,
    ;
    assert(-b * MAX_HEADING <= dy * hx <= b * MAX_HEADING) by (nonlinear_arith)
        requires
            -b <= dy <= b,
            -MAX_HEADING <= hx <= MAX_HEADING,
    ;
    assert(-b * MAX_HEADING <= dx * hx <= b * MAX_HEADING) by (nonlinear_arith)
        requires
            -b <= dx <= b,
            -MAX_HEADING <= hx <= MAX_HEADING,
    ;
    assert(-b * MAX_HEADING <= dy * hy <= b * MAX_HEADING) by (nonlinear_arith)
        requires
            -b <= dy <= b,
            -MAX_HEADING <= hy <= MAX_HEADING,
    ;
    let cross = dx * hy - dy * hx;
    let dot = dx * hx + dy * hy;
    assert(0 <= dx * dx <= 4835703278458516698824704 && 0 <= dy * dy <= 4835703278458516698824704)
        by (nonlinear_arith)
        requires
            -2199023255552 <= dx <= 2199023255552,
            -2199023255552 <= dy <= 2199023255552,
    ;
    assert(0 <= hx * hx <= 1099511627776 && 0 <= hy * hy <= 1099511627776)
        by (nonlinear_arith)
        requires
            -MAX_HEADING <= hx <= MAX_HEADING,
            -MAX_HEADING <= hy <= MAX_HEADING,
    ;
    let d2 = dx * dx + dy * dy;
    let h2 = hx * hx + hy * hy;
    assert(0 <= d2 * h2 <= 21267647932558653966460912964485513216) by (nonlinear_arith)
        requires
            0 <= d2 <= 9671406556917033397649408,
            0 <= h2 <= 2199023255552,
    ;
    let len = isqrt((d2 * h2) as u128);
    proof {
        lemma_lagrange(dx as int, dy as int, hx as int, hy as int);
        let mc = if cross >= 0 { cross as int } else { -cross };
        let md = if dot >= 0 { dot as int } else { -dot };
        assert(mc * mc <= d2 * h2 && md * md <= d2 * h2) by (nonlinear_arith)
            requires
                cross * cross + dot * dot == d2 * h2,
                mc == cross || mc == -cross,
                md == dot || md == -dot,
        ;
        lemma_below_floor_sqrt(mc, (d2 * h2) as nat);
        lemma_below_floor_sqrt(md, (d2 * h2) as nat);
        if len > 0 {
            lemma_normalized_bound(cross as int, len as int);
            lemma_normalized_bound(dot as int, len as int);
        }
        lemma_floor_sqrt((d2 * h2) as nat);
        assert(len * len <= d2 * h2);
        assert(len <= 0x1_0000_0000_0000_0000) by (nonlinear_arith)
            requires
                len * len <= d2 * h2,
                d2 * h2 <= 21267647932558653966460912964485513216,
        ;
    }
    let scale = ANGLE_SCALE as i128;
    let c: i128 = if len == 0 {
        0
    } else if cross >= 0 {
        cross * scale / (len as i128)
    } else {
        -((-cross) * scale / (len as i128))
    };
    let d: i128 = if len == 0 {
        0
    } else if dot >= 0 {
        dot * scale / (len as i128)
    } else {
        -((-dot) * scale / (len as i128))
    };
    Aim { cross: c as i64, dot: d as i64, distance2: d2, length: len }
}

/// The angular velocity, in micro radians per tick, that turns a turret toward
/// its target: a tenth of a radian times the square root of the angular error
/// `1 - cos`, capped at one, with the sign that reduces the cross product.
pub open spec fn steer_rate(dot: int) -> int {
    let root = floor_sqrt(((ANGLE_SCALE - dot) * ANGLE_SCALE) as nat) as int;
    (if root < ANGLE_SCALE { root } else { ANGLE_SCALE as int }) / 10
}

/// The angular velocity a turret at `p` heading along `h` takes toward `g`, or
/// none while it is on target (it then keeps its angular velocity).
pub open spec fn steering(p: Vec2, h: Vec2, g: Vec2) -> Option<i64> {
    let len = length_of(p, h, g);
    let c = normalized(cross_of(p, h, g), len);
    let rate = steer_rate(normalized(dot_of(p, h, g), len));
    if c > TURRET_ON_TARGET_THRESH {
        Some((-rate) as i64)
    } else if c < -TURRET_ON_TARGET_THRESH {
        Some(rate as i64)
    } else {
        None
    }
}

/// Aligned closely enough to fire; never when the turret sits on its target.
pub open spec fn aligned(p: Vec2, h: Vec2, g: Vec2) -> bool {
    let len = length_of(p, h, g);
    let c = normalized(cross_of(p, h, g), len);
    len > 0 && -TURRET_FIRE_THRESH < c < TURRET_FIRE_THRESH
}

/// The target is closer than the turret's range.
pub open spec fn in_range(p: Vec2, g: Vec2, range: int) -> bool {
    0 < range && dist2(g, p) < range * range
}

/// A countdown in milliseconds that runs once. It finishes on the tick that
/// brings the elapsed time to the duration, and not before its first tick,
/// even when the duration is zero.
#[derive(Clone, Copy, Debug, PartialEq, Eq, Structural)]
pub struct Timer {
    pub duration: u64,
    pub elapsed: u64,
    pub finished: bool,
}

/// A fresh timer of `duration` milliseconds.
pub open spec fn fresh(duration: u64) -> Timer {
    Timer { duration, elapsed: 0, finished: false }
}

/// A timer after `delta` more milliseconds: a finished timer stays as it is;
/// otherwise the elapsed time grows, up to the duration, and the timer
/// finishes once it reaches it.
pub open spec fn ticked(t: Timer, delta: int) -> Timer {
    if t.finished {
        t
    } else if t.elapsed + delta >= t.duration {
        Timer { duration: t.duration, elapsed: t.duration, finished: true }
    } else {
        Timer { duration: t.duration, elapsed: (t.elapsed + delta) as u64, finished: false }
    }
}

impl Timer {
    /// The elapsed time never passes the duration, and a finished timer has
    /// run its whole duration.
    pub open spec fn wf(&self) -> bool {
        &&& self.elapsed <= self.duration
        &&& self.finished ==> self.elapsed == self.duration
    }

    pub fn new(duration: u64) -> (r: Timer)
        ensures
            r == fresh(duration),
            r.wf(),
    {
        Timer { duration, elapsed: 0, finished: false }
    }

    pub fn tick(&mut self, delta: u64)
        requires
            old(self).wf(),
        ensures
            *final(self) == ticked(*old(self), delta as int),
            final(self).wf(),
    {
        if self.finished {
            return;
        }
        if delta >= self.duration || self.elapsed >= self.duration - delta {
            self.elapsed = self.duration;
            self.finished = true;
        } else {
            self.elapsed = self.elapsed + delta;
        }
    }

    pub fn finished(&self) -> (r: bool)
        ensures
            r == self.finished,
    {
        self.finished
    }

    /// Milliseconds left until the timer reaches its duration.
    pub fn remaining(&self) -> (r: u64)
        ensures
            r == (if self.elapsed >= self.duration { 0 } else { self.duration - self.elapsed }),
    {
        if self.elapsed >= self.duration {
            0
        } else {
            self.duration - self.elapsed
        }
    }
}

/// A turret on a subunit: what it fires, how far, how often, and from which
/// offsets. With the "alternating" firing pattern one source fires per shot,
/// in turn; with any other, all fire together.
pub struct Turret {
    pub name: String,
    pub projectile: String,
    pub range: i64,
    pub reload_time: u64,
    pub timer: Timer,
    pub firing_pattern: String,
    pub sources: Vec<Vec2>,
    pub source_index: usize,
}

/// The sources of `t` that fire on its next shot.
pub open spec fn sources_of(t: Turret) -> Seq<Vec2> {
    if t.firing_pattern@ == "alternating"@ {
        if t.source_index < t.sources@.len() {
            seq![t.sources@[t.source_index as int]]
        } else {
            Seq::<Vec2>::empty()
        }
    } else {
        t.sources@
    }
}

/// The source that fires after the one at `i`, among `n`.
pub open spec fn next_source(i: int, n: int) -> int {
    if n > 0 {
        (i + 1) % n
    } else {
        0
    }
}

/// The source cursor of `t` after a shot: it moves on, in turn, only under
/// the "alternating" pattern.
pub open spec fn cursor_after_shot(t: Turret) -> usize {
    if t.firing_pattern@ == "alternating"@ {
        next_source(t.source_index as int, t.sources@.len() as int) as usize
    } else {
        t.source_index
    }
}

/// `a` and `b` agree but for the timer and the source index.
pub open spec fn same_setup(a: Turret, b: Turret) -> bool {
    &&& a.name == b.name && a.projectile == b.projectile
    &&& a.range == b.range && a.reload_time == b.reload_time
    &&& a.firing_pattern == b.firing_pattern && a.sources == b.sources
}

impl Turret {
    /// The source cursor points at a source, and the timer is well formed.
    pub open spec fn wf(&self) -> bool {
        &&& if self.sources@.len() > 0 {
            self.source_index < self.sources@.len()
        } else {
            self.source_index == 0
        }
        &&& self.timer.wf()
    }

    /// A turret that first fires once `reload_time` milliseconds have passed.
    pub fn new(
        name: String,
        projectile: String,
        range: i64,
        reload_time: u64,
        firing_pattern: String,
        sources: Vec<Vec2>,
    ) -> (r: Turret)
        ensures
            r.wf(),
            r.name == name && r.projectile == projectile && r.firing_pattern == firing_pattern,
            r.range == range && r.reload_time == reload_time,
            r.sources == sources,
            r.timer == fresh(reload_time),
            r.source_index == 0,
    {
        Turret {
            name,
            projectile,
            range,
            reload_time,
            timer: Timer::new(reload_time),
            firing_pattern,
            sources,
            source_index: 0,
        }
    }

    /// The offsets that fire on the next shot.
    pub fn get_sources(&self) -> (r: Vec<Vec2>)
        ensures
            r@ == sources_of(*self),
    {
        let alternating = "alternating".to_owned();
        let mut v: Vec<Vec2> = Vec::new();
        if self.firing_pattern == alternating {
            if self.source_index < self.sources.len() {
                v.push(self.sources[self.source_index]);
            }
            assert(v@ =~= sources_of(*self));
        } else {
            let n = self.sources.len();
            let mut k: usize = 0;
            while k < n
                invariant
                    n == self.sources@.len(),
                    k <= n,
                    v@ == self.sources@.subrange(0, k as int),
                decreases n - k,
            {
                v.push(self.sources[k]);
                k = k + 1;
                assert(v@ =~= self.sources@.subrange(0, k as int));
            }
            assert(v@ =~= self.sources@);
        }
        v
    }

    pub fn tick(&mut self, delta: u64)
        requires
            old(self).wf(),
        ensures
            final(self).wf(),
            final(self).timer == ticked(old(self).timer, delta as int),
            final(self).source_index == old(self).source_index,
            same_setup(*final(self), *old(self)),
    {
        self.timer.tick(delta);
    }

    pub fn ready(&self) -> (r: bool)
        ensures
            r == self.timer.finished,
    {
        self.timer.finished()
    }

    /// Restarts the cooldown and, under the "alternating" pattern, moves on
    /// to the next source.
    pub fn reload(&mut self)
        requires
            old(self).wf(),
        ensures
            final(self).wf(),
            final(self).timer == fresh(old(self).reload_time),
            final(self).source_index == cursor_after_shot(*old(self)),
            same_setup(*final(self), *old(self)),
    {
        self.timer = Timer::new(self.reload_time);
        let alternating = "alternating".to_owned();
        if self.firing_pattern == alternating {
            let n = self.sources.len();
            if n > 0 {
                self.source_index = (self.source_index + 1) % n;
            } else {
                self.source_index = 0;
            }
        }
    }
}

/// The state of a turret in a tick, derived from whether it has a target,
/// whether its cooldown has run out, and whether it is aligned.
#[derive(Clone, Copy, Debug, PartialEq, Eq, Structural)]
pub enum TurretState {
    Idle,
    Tracking,
    OnTarget,
    Reloading,
}

pub open spec fn state_of(has_target: bool, ready: bool, is_aligned: bool) -> TurretState {
    if !has_target {
        TurretState::Idle
    } else if !ready {
        TurretState::Reloading
    } else if is_aligned {
        TurretState::OnTarget
    } else {
        TurretState::Tracking
    }
}

/// What a turret did in one tick: its state, the angular velocity it set, if
/// any, the offsets it fired from (empty when it did not fire), and the
/// projectiles fired from them, one for each offset.
pub struct TurretOutcome {
    pub state: TurretState,
    pub steer: Option<i64>,
    pub fired: Vec<Vec2>,
    pub spawned: Vec<SpawnedProjectile>,
}

/// Bound on each coordinate of a turret that fires: half of `MAX_COORD`.
pub const MAX_FIRING_COORD: i64 = 549_755_813_888;

/// Bound on each coordinate of a source offset: a quarter of `MAX_COORD`.
pub const MAX_SOURCE_OFFSET: i64 = 274_877_906_944;

/// What firing needs to know of a projectile type: its speed in micro world
/// units per tick, how far it flies, the damage it deals and its size.
#[derive(Clone, Copy, Debug, PartialEq, Eq, Structural)]
pub struct ProjectileType {
    pub speed: i64,
    pub range: i64,
    pub damage: u64,
    pub size_x: i64,
    pub size_y: i64,
}

impl ProjectileType {
    pub open spec fn valid(&self) -> bool {
        -i64::MAX <= self.speed && 0 <= self.size_x <= MAX_SIZE && 0 <= self.size_y <= MAX_SIZE
    }

    pub fn is_valid(&self) -> (r: bool)
        ensures
            r == self.valid(),
    {
        -i64::MAX <= self.speed && 0 <= self.size_x && self.size_x <= MAX_SIZE && 0 <= self.size_y
            && self.size_y <= MAX_SIZE
    }
}

/// A projectile as it leaves a turret.
#[derive(Clone, Copy, Debug, PartialEq, Eq, Structural)]
pub struct SpawnedProjectile {
    pub projectile: Projectile,
    pub body: Body,
    pub velocity: Velocity,
}

/// `a / b` rounded toward zero.
pub open spec fn div_toward_zero(a: int, b: int) -> int {
    if a >= 0 {
        a / b
    } else {
        -((-a) / b)
    }
}

/// The length of a heading vector, rounded down.
pub open spec fn heading_length(h: Vec2) -> int {
    floor_sqrt((h.x * h.x + h.y * h.y) as nat) as int
}

pub open spec fn offset_valid(s: Vec2) -> bool {
    -MAX_SOURCE_OFFSET <= s.x <= MAX_SOURCE_OFFSET && -MAX_SOURCE_OFFSET <= s.y <= MAX_SOURCE_OFFSET
}

pub open spec fn firing_position_valid(p: Vec2) -> bool {
    -MAX_FIRING_COORD <= p.x <= MAX_FIRING_COORD && -MAX_FIRING_COORD <= p.y <= MAX_FIRING_COORD
}

/// Whether a turret at `p` may fire (see `MAX_FIRING_COORD`).
pub fn firing_position_ok(p: Vec2) -> (r: bool)
    ensures
        r == firing_position_valid(p),
{
    -MAX_FIRING_COORD <= p.x && p.x <= MAX_FIRING_COORD && -MAX_FIRING_COORD <= p.y && p.y
        <= MAX_FIRING_COORD
}

/// Whether `s` may serve as a source offset (see `MAX_SOURCE_OFFSET`).
pub fn offset_ok(s: Vec2) -> (r: bool)
    ensures
        r == offset_valid(s),
{
    -MAX_SOURCE_OFFSET <= s.x && s.x <= MAX_SOURCE_OFFSET && -MAX_SOURCE_OFFSET <= s.y && s.y
        <= MAX_SOURCE_OFFSET
}

/// The projectile fired from offset `s` of a turret at `origin` heading along
/// `h`: it starts at the offset turned by the heading, carries the owner and
/// the type's range and damage, has a body of the type's size facing along the
/// heading, and flies along the heading at the type's speed.
pub open spec fn spawn_of(
    s: Vec2,
    owner: Player,
    origin: Vec2,
    h: Vec2,
    kind: ProjectileType,
) -> SpawnedProjectile {
    let l = heading_length(h);
    let pos = Vec2 {
        x: (origin.x + div_toward_zero(s.x * h.x - s.y * h.y, l)) as i64,
        y: (origin.y + div_toward_zero(s.x * h.y + s.y * h.x, l)) as i64,
    };
    let radius = collision_radius_of(kind.size_x as int, kind.size_y as int);
    SpawnedProjectile {
        projectile: Projectile { player: owner, fired_from: pos, range: kind.range, damage: kind.damage },
        body: Body {
            position: pos,
            heading: h,
            size_x: kind.size_x,
            size_y: kind.size_y,
            selection_radius: radius as i64,
            collision_radius: radius as i64,
            repulsion_radius: repulsion_radius_of(kind.size_x as int, kind.size_y as int) as i64,
        },
        velocity: Velocity {
            dx: div_toward_zero(h.x * kind.speed, l) as i64,
            dy: div_toward_zero(h.y * kind.speed, l) as i64,
            dw: 0,
        },
    }
}

fn div_toward_zero_exec(a: i128, b: i128) -> (r: i128)
    requires
        b > 0,
        a > i128::MIN,
    ensures
        r == div_toward_zero(a as int, b as int),
{
    if a >= 0 {
        a / b
    } else {
        -((-a) / b)
    }
}

proof fn lemma_div_shrinks(a: int, m: int, l: int)
    requires
        0 < l,
        -(m * l) <= a <= m * l,
        0 <= m,
    ensures
        -m <= div_toward_zero(a, l) <= m,
{
    if a >= 0 {
        assert(a / l <= m) by (nonlinear_arith)
            requires
                0 <= a <= m * l,
                0 < l,
        {
            assert((a / l) * l <= a);
            if a / l > m {
                assert((a / l) * l >= (m + 1) * l);
            }
        }
        assert(a / l >= 0) by (nonlinear_arith)
            requires
                0 <= a,
                0 < l,
        ;
    } else {
        assert((-a) / l <= m) by (nonlinear_arith)
            requires
                0 < -a <= m * l,
                0 < l,
        {
            assert(((-a) / l) * l <= -a);
            if (-a) / l > m {
                assert(((-a) / l) * l >= (m + 1) * l);
            }
        }
        assert((-a) / l >= 0) by (nonlinear_arith)
            requires
                0 < -a,
                0 < l,
        ;
    }
}

/// The projectile fired from offset `s` (see `spawn_of`).
pub fn spawn_projectile(
    s: Vec2,
    owner: Player,
    origin: Vec2,
    h: Vec2,
    kind: &ProjectileType,
) -> (r: SpawnedProjectile)
    requires
        offset_valid(s),
        firing_position_valid(origin),
        heading_valid(h),
        h.x != 0 || h.y != 0,
        kind.valid(),
    ensures
        r == spawn_of(s, owner, origin, h, *kind),
        r.body.valid(),
{
    let hx = h.x as i128;
    let hy = h.y as i128;
    let sx = s.x as i128;
    let sy = s.y as i128;
    let ghost m: int = 1048576;
    let ghost so: int = 274877906944;
    assert(0 <= hx * hx <= m * m && 0 <= hy * hy <= m * m) by (nonlinear_arith)
        requires
            -m <= hx <= m,
            -m <= hy <= m,
    ;
    let h2 = hx * hx + hy * hy;
    assert(h2 > 0) by (nonlinear_arith)
        requires
            hx != 0 || hy != 0,
            h2 == hx * hx + hy * hy,
    ;
    let lu = isqrt(h2 as u128);
    proof {
        lemma_floor_sqrt(h2 as nat);
        assert(lu <= m * 2) by (nonlinear_arith)
            requires
                lu * lu <= h2,
                h2 <= 2 * m * m,
                0 <= lu,
                m == 1048576,
        {
            if lu > m * 2 {
                assert(lu * lu > (m * 2) * (m * 2));
            }
        }
    }
    let l = lu as i128;
    proof {
        let ax = if hx >= 0 { hx as int } else { -hx };
        let ay = if hy >= 0 { hy as int } else { -hy };
        assert(ax * ax <= h2 && ay * ay <= h2 && 1 <= h2) by (nonlinear_arith)
            requires
                h2 == hx * hx + hy * hy,
                ax == hx || ax == -hx,
                ay == hy || ay == -hy,
                h2 > 0,
        ;
        lemma_below_floor_sqrt(ax, h2 as nat);
        lemma_below_floor_sqrt(ay, h2 as nat);
        lemma_below_floor_sqrt(1, h2 as nat);
        let asx = if sx >= 0 { sx as int } else { -sx };
        let asy = if sy >= 0 { sy as int } else { -sy };
        assert(-((asx + asy) * l) <= sx * hx - sy * hy <= (asx + asy) * l) by (nonlinear_arith)
            requires
                asx == sx || asx == -sx,
                asy == sy || asy == -sy,
                0 <= asx && 0 <= asy,
                -l <= hx <= l,
                -l <= hy <= l,
        ;
        assert(-((asx + asy) * l) <= sx * hy + sy * hx <= (asx + asy) * l) by (nonlinear_arith)
            requires
                asx == sx || asx == -sx,
                asy == sy || asy == -sy,
                0 <= asx && 0 <= asy,
                -l <= hx <= l,
                -l <= hy <= l,
        ;
        lemma_div_shrinks(sx * hx - sy * hy, asx + asy, l as int);
        lemma_div_shrinks(sx * hy + sy * hx, asx + asy, l as int);
        let sp = kind.speed as int;
        let asp = if sp >= 0 { sp } else { -sp };
        assert(-(asp * l) <= hx * sp <= asp * l && -(asp * l) <= hy * sp <= asp * l) by (nonlinear_arith)
            requires
                asp == sp || asp == -sp,
                0 <= asp,
                -l <= hx <= l,
                -l <= hy <= l,
        ;
        lemma_div_shrinks(hx * sp, asp, l as int);
        lemma_div_shrinks(hy * sp, asp, l as int);
        assert(-so * (m * 2) <= sx * hx <= so * (m * 2)) by (nonlinear_arith)
            requires
                -so <= sx <= so,
                -(m * 2) <= hx <= m * 2,
        ;
        assert(-so * (m * 2) <= sy * hy <= so * (m * 2)) by (nonlinear_arith)
            requires
                -so <= sy <= so,
                -(m * 2) <= hy <= m * 2,
        ;
        assert(-so * (m * 2) <= sx * hy <= so * (m * 2)) by (nonlinear_arith)
            requires
                -so <= sx <= so,
                -(m * 2) <= hy <= m * 2,
        ;
        assert(-so * (m * 2) <= sy * hx <= so * (m * 2)) by (nonlinear_arith)
            requires
                -so <= sy <= so,
                -(m * 2) <= hx <= m * 2,
        ;
        assert(-9223372036854775808 * (m * 2) <= hx * sp <= 9223372036854775808 * (m * 2))
            by (nonlinear_arith)
            requires
                -9223372036854775808 <= sp <= 9223372036854775808,
                -(m * 2) <= hx <= m * 2,
        ;
        assert(-9223372036854775808 * (m * 2) <= hy * sp <= 9223372036854775808 * (m * 2))
            by (nonlinear_arith)
            requires
                -9223372036854775808 <= sp <= 9223372036854775808,
                -(m * 2) <= hy <= m * 2,
        ;
    }
    let rx = div_toward_zero_exec(sx * hx - sy * hy, l);
    let ry = div_toward_zero_exec(sx * hy + sy * hx, l);
    let pos = Vec2 { x: (origin.x as i128 + rx) as i64, y: (origin.y as i128 + ry) as i64 };
    let speed = kind.speed as i128;
    let vx = div_toward_zero_exec(hx * speed, l);
    let vy = div_toward_zero_exec(hy * speed, l);
    let body = Body::new(pos, h, kind.size_x, kind.size_y);
    SpawnedProjectile {
        projectile: Projectile {
            player: owner,
            fired_from: pos,
            range: kind.range,
            damage: kind.damage,
        },
        body,
        velocity: Velocity { dx: vx as i64, dy: vy as i64, dw: 0 },
    }
}

/// The position of entity `t`, if it still exists.
pub open spec fn target_position(positions: Seq<Option<Vec2>>, t: usize) -> Option<Vec2> {
    if t < positions.len() {
        positions[t as int]
    } else {
        None
    }
}

/// The position of the target at the front of queue `q`, if there is one and
/// it still exists.
pub open spec fn resolved(q: Seq<usize>, positions: Seq<Option<Vec2>>) -> Option<Vec2> {
    match front(q) {
        Some(t) => target_position(positions, t),
        None => None,
    }
}

/// Whether a turret at `p` heading along `h`, whose timer has been ticked to
/// `timer`, fires at a target at `g`.
pub open spec fn fires(p: Vec2, h: Vec2, g: Vec2, timer: Timer, range: int) -> bool {
    aligned(p, h, g) && timer.finished && in_range(p, g, range)
}

fn rate_for(dot: i64) -> (r: i64)
    requires
        -ANGLE_SCALE <= dot <= ANGLE_SCALE,
    ensures
        r == steer_rate(dot as int),
        0 <= r <= ANGLE_SCALE / 10,
{
    let err = (ANGLE_SCALE - dot) as u128;
    let root = isqrt(err * (ANGLE_SCALE as u128));
    let capped: u128 = if root < ANGLE_SCALE as u128 {
        root
    } else {
        ANGLE_SCALE as u128
    };
    (capped / 10) as i64
}

/// One tick of a turret whose owner's target queue is `targets`; `positions`
/// holds the position of each entity, or none for one that no longer exists.
///
/// With no target the turret is idle and nothing changes. A target that no
/// longer exists is dropped from the queue, and nothing else changes. Otherwise
/// the turret steers toward the target (see `steering`), ticks its cooldown by
/// `delta` milliseconds, and, when aligned, reloaded and in range, fires from
/// the sources of its firing pattern and restarts its cooldown. Each source
/// that fires yields one projectile of type `kind` owned by `owner` (see
/// `spawn_of`). With no projectile type, firing is skipped for the tick: the
/// cooldown keeps running and the source cursor stays.
pub fn turret_track_and_fire(
    turret: &mut Turret,
    targets: &mut Targets,
    position: Vec2,
    heading: Vec2,
    positions: &Vec<Option<Vec2>>,
    owner: Player,
    kind: Option<ProjectileType>,
    delta: u64,
) -> (r: TurretOutcome)
    requires
        old(turret).wf(),
        old(targets).wf(),
        firing_position_valid(position),
        heading_valid(heading),
        forall|k: int| 0 <= k < old(turret).sources@.len() ==> offset_valid(#[trigger] old(turret).sources@[k]),
        kind matches Some(t) ==> t.valid(),
        forall|i: int|
            0 <= i < positions@.len() && (#[trigger] positions@[i]) is Some ==> positions@[i]->0.valid(),
    ensures
        final(targets).wf(),
        final(turret).wf(),
        same_setup(*final(turret), *old(turret)),
        resolved(old(targets)@, positions@) is None ==> {
            &&& r.state == TurretState::Idle
            &&& r.steer is None
            &&& r.fired@.len() == 0
            &&& *final(turret) == *old(turret)
            &&& final(targets)@ == (if front(old(targets)@) is Some {
                advanced(old(targets)@)
            } else {
                old(targets)@
            })
        },
        resolved(old(targets)@, positions@) matches Some(g) ==> {
            let timer = ticked(old(turret).timer, delta as int);
            let ready = timer.finished;
            let fire = kind is Some && fires(position, heading, g, timer, old(turret).range as int);
            &&& final(targets)@ == old(targets)@
            &&& r.steer == steering(position, heading, g)
            &&& r.state == state_of(true, ready, aligned(position, heading, g))
            &&& fire ==> {
                &&& final(turret).timer == fresh(old(turret).reload_time)
                &&& final(turret).source_index == cursor_after_shot(*old(turret))
                &&& r.fired@ == sources_of(*old(turret))
            }
            &&& !fire ==> {
                &&& final(turret).timer == timer
                &&& final(turret).source_index == old(turret).source_index
                &&& r.fired@.len() == 0
            }
        },
        r.spawned@.len() == r.fired@.len(),
        forall|k: int|
            0 <= k < r.spawned@.len() ==> kind is Some && #[trigger] r.spawned@[k] == spawn_of(
                r.fired@[k],
                owner,
                position,
                heading,
                kind->0,
            ),
        r.spawned@.len() > 0 ==> ticked(old(turret).timer, delta as int).elapsed >= old(
            turret,
        ).timer.duration,
        r.fired@.len() > 0 ==> (resolved(old(targets)@, positions@) matches Some(g) && fires(
            position,
            heading,
            g,
            ticked(old(turret).timer, delta as int),
            old(turret).range as int,
        )),
{
    match targets.get_target() {
        None => TurretOutcome {
            state: TurretState::Idle,
            steer: None,
            fired: Vec::new(),
            spawned: Vec::new(),
        },
        Some(t) => {
            let found: Option<Vec2> = if t < positions.len() {
                positions[t]
            } else {
                None
            };
            match found {
                None => {
                    targets.move_to_next();
                    TurretOutcome {
            state: TurretState::Idle,
            steer: None,
            fired: Vec::new(),
            spawned: Vec::new(),
        }
                },
                Some(g) => {
                    assert(positions@[t as int] is Some ==> positions@[t as int]->0.valid());
                    let a = aim(position, heading, g);
                    let steer: Option<i64> = if a.cross > TURRET_ON_TARGET_THRESH {
                        Some(-rate_for(a.dot))
                    } else if a.cross < -TURRET_ON_TARGET_THRESH {
                        Some(rate_for(a.dot))
                    } else {
                        None
                    };
                    turret.tick(delta);
                    let ready = turret.ready();
                    let is_aligned = a.length > 0 && -TURRET_FIRE_THRESH < a.cross && a.cross
                        < TURRET_FIRE_THRESH;
                    let range = turret.range as i128;
                    assert(range * range <= 85070591730234615865843651857942052864) by (
                    nonlinear_arith)
                        requires
                            -9223372036854775808 <= range <= 9223372036854775807,
                    ;
                    let close = range > 0 && a.distance2 < range * range;
                    let state = if !ready {
                        TurretState::Reloading
                    } else if is_aligned {
                        TurretState::OnTarget
                    } else {
                        TurretState::Tracking
                    };
                    let mut fired: Vec<Vec2> = Vec::new();
                    let mut spawned: Vec<SpawnedProjectile> = Vec::new();
                    if is_aligned && ready && close {
                        if let Some(k) = kind {
                            fired = turret.get_sources();
                            proof {
                                assert(heading.x != 0 || heading.y != 0) by {
                                    if heading.x == 0 && heading.y == 0 {
                                        assert(dist2(g, position) * (heading.x * heading.x
                                            + heading.y * heading.y) == 0) by (nonlinear_arith)
                                            requires
                                                heading.x == 0,
                                                heading.y == 0,
                                        ;
                                        assert(floor_sqrt(0) == 0);
                                    }
                                }
                                assert forall|j: int| 0 <= j < fired@.len() implies offset_valid(
                                    #[trigger] fired@[j],
                                ) by {
                                    if turret.firing_pattern@ == "alternating"@ {
                                        assert(fired@[j] == turret.sources@[turret.source_index as int]);
                                    } else {
                                        assert(fired@[j] == turret.sources@[j]);
                                    }
                                }
                            }
                            let m = fired.len();
                            let mut c: usize = 0;
                            while c < m
                                invariant
                                    m == fired@.len(),
                                    c <= m,
                                    spawned@.len() == c,
                                    k.valid(),
                                    firing_position_valid(position),
                                    heading_valid(heading),
                                    heading.x != 0 || heading.y != 0,
                                    forall|j: int| 0 <= j < fired@.len() ==> offset_valid(#[trigger] fired@[j]),
                                    forall|j: int|
                                        0 <= j < c ==> #[trigger] spawned@[j] == spawn_of(
                                            fired@[j],
                                            owner,
                                            position,
                                            heading,
                                            k,
                                        ),
                                decreases m - c,
                            {
                                let p = spawn_projectile(fired[c], owner, position, heading, &k);
                                spawned.push(p);
                                c = c + 1;
                            }
                            turret.reload();
                        }
                    }
                    TurretOutcome { state, steer, fired, spawned }
                },
            }
        },
    }
}

} // verus!
