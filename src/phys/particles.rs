use vstd::prelude::*;

verus! {

/// Largest magnitude of a position coordinate that collision checks accept.
pub const POS_LIMIT: i64 = 0x1_0000_0000;

/// Largest magnitude of a velocity component that collision checks accept.
pub const VEL_LIMIT: i64 = 0x100_0000;

/// Largest magnitude of a coordinate that `step` accepts.
pub const MOVE_LIMIT: i64 = 0x400_0000_0000;

/// Largest magnitude of a velocity component that `step` and `energy` accept.
pub const SPEED_LIMIT: i64 = 0x4000_0000;

/// Largest radius of a particle.
pub const R_LIMIT: i64 = 0x100_0000;

/// Largest time increment of a particle.
pub const DT_LIMIT: i64 = 0x100;

/// Display tag of a particle.
#[derive(Debug, Clone, Copy, PartialEq, Eq, Structural)]
pub enum ParticleColor {
    Green,
    Red,
    Blue,
    Yellow,
    White,
}

impl Default for ParticleColor {
    fn default() -> (c: ParticleColor)
        ensures
            c == ParticleColor::Green,
    {
        ParticleColor::Green
    }
}

/// Mathematical state of a particle.
pub ghost struct ParticleModel {
    pub px: int,
    pub py: int,
    pub vx: int,
    pub vy: int,
    pub dt: int,
    pub r: int,
    pub collided: bool,
    pub color: ParticleColor,
}

pub open spec fn abs(a: int) -> int {
    if a < 0 { -a } else { a }
}

/// Integer division rounding toward zero, as Rust's `/` does.
pub open spec fn div_trunc(a: int, b: int) -> int {
    if a >= 0 { a / b } else { -((-a) / b) }
}

impl ParticleModel {
    /// The constant parameters are sensible: positive radius, non-negative time step.
    pub open spec fn wf(self) -> bool {
        &&& 0 < self.r <= R_LIMIT
        &&& 0 <= self.dt <= DT_LIMIT
    }

    /// Small enough for the collision and bounce arithmetic.
    pub open spec fn in_range(self) -> bool {
        &&& self.wf()
        &&& abs(self.px) <= POS_LIMIT
        &&& abs(self.py) <= POS_LIMIT
        &&& abs(self.vx) <= VEL_LIMIT
        &&& abs(self.vy) <= VEL_LIMIT
    }

    /// Small enough for one integration step.
    pub open spec fn movable(self) -> bool {
        &&& self.wf()
        &&& abs(self.px) <= MOVE_LIMIT
        &&& abs(self.py) <= MOVE_LIMIT
        &&& abs(self.vx) <= SPEED_LIMIT
        &&& abs(self.vy) <= SPEED_LIMIT
    }

    pub open spec fn next_x(self) -> int {
        self.px + self.vx * self.dt
    }

    pub open spec fn next_y(self) -> int {
        self.py + self.vy * self.dt
    }

    /// The particle after one time increment: moved by its velocity, flag cleared.
    pub open spec fn stepped(self) -> ParticleModel {
        ParticleModel { px: self.next_x(), py: self.next_y(), collided: false, ..self }
    }

    pub open spec fn energy(self) -> int {
        self.vx * self.vx + self.vy * self.vy
    }

    /// The particle after a wall check against the box `[xmin, xmax] x [ymin, ymax]`.
    pub open spec fn bounced(self, xmin: int, xmax: int, ymin: int, ymax: int) -> ParticleModel {
        let out_x = self.px >= xmax || self.px <= xmin;
        let out_y = self.py >= ymax || self.py <= ymin;
        ParticleModel {
            px: if self.px >= xmax { xmax } else if self.px <= xmin { xmin } else { self.px },
            py: if self.py >= ymax { ymax } else if self.py <= ymin { ymin } else { self.py },
            vx: if out_x { -self.vx } else { self.vx },
            vy: if out_y { -self.vy } else { self.vy },
            collided: out_x || out_y,
            ..self
        }
    }

    pub open spec fn hits_wall(self, xmin: int, xmax: int, ymin: int, ymax: int) -> bool {
        self.px >= xmax || self.px <= xmin || self.py >= ymax || self.py <= ymin
    }
}

/// Squared distance between two centres now.
pub open spec fn dist2(p: ParticleModel, q: ParticleModel) -> int {
    (p.px - q.px) * (p.px - q.px) + (p.py - q.py) * (p.py - q.py)
}

/// Squared distance between two centres after the next step.
pub open spec fn next_dist2(p: ParticleModel, q: ParticleModel) -> int {
    (p.next_x() - q.next_x()) * (p.next_x() - q.next_x()) + (p.next_y() - q.next_y()) * (
    p.next_y() - q.next_y())
}

/// The two discs overlap or touch.
pub open spec fn touching(p: ParticleModel, q: ParticleModel) -> bool {
    dist2(p, q) <= (p.r + q.r) * (p.r + q.r)
}

/// The centres do not move apart during the next step.
pub open spec fn closing(p: ParticleModel, q: ParticleModel) -> bool {
    next_dist2(p, q) <= dist2(p, q)
}

pub open spec fn collides(p: ParticleModel, q: ParticleModel) -> bool {
    touching(p, q) && closing(p, q)
}

/// Centres closer than one radius: the analytic update is ill-conditioned there.
pub open spec fn too_close(p: ParticleModel, q: ParticleModel) -> bool {
    dist2(p, q) < p.r * p.r
}

/// Dot product of the centre offset `p - q` with the velocity difference `q.v - p.v`.
pub open spec fn approach(p: ParticleModel, q: ParticleModel) -> int {
    (p.px - q.px) * (q.vx - p.vx) + (p.py - q.py) * (q.vy - p.vy)
}

/// Velocity change of `p` along x in the analytic update (the change of `q` is its negation).
pub open spec fn kick_x(p: ParticleModel, q: ParticleModel) -> int {
    div_trunc((p.px - q.px) * approach(p, q), dist2(p, q))
}

pub open spec fn kick_y(p: ParticleModel, q: ParticleModel) -> int {
    div_trunc((p.py - q.py) * approach(p, q), dist2(p, q))
}

/// The pair after an elastic collision: velocities exchanged when the centres are
/// too close, else the relative velocity projected on the line of centres is exchanged.
pub open spec fn collided_pair(p: ParticleModel, q: ParticleModel) -> (
    ParticleModel,
    ParticleModel,
) {
    if too_close(p, q) {
        (
            ParticleModel { vx: q.vx, vy: q.vy, collided: true, ..p },
            ParticleModel { vx: p.vx, vy: p.vy, collided: true, ..q },
        )
    } else {
        (
            ParticleModel {
                vx: p.vx + kick_x(p, q),
                vy: p.vy + kick_y(p, q),
                collided: true,
                ..p
            },
            ParticleModel {
                vx: q.vx - kick_x(p, q),
                vy: q.vy - kick_y(p, q),
                collided: true,
                ..q
            },
        )
    }
}

/// A round particle moving in the plane, on an integer grid.
#[derive(Debug, Clone, Copy)]
pub struct Particle {
    px: i64,
    py: i64,
    vx: i64,
    vy: i64,
    dt: i64,
    r: i64,
    m: bool,
    c: ParticleColor,
}

impl View for Particle {
    type V = ParticleModel;

    closed spec fn view(&self) -> ParticleModel {
        ParticleModel {
            px: self.px as int,
            py: self.py as int,
            vx: self.vx as int,
            vy: self.vy as int,
            dt: self.dt as int,
            r: self.r as int,
            collided: self.m,
            color: self.c,
        }
    }
}


/// `|a * b| <= A * B` whenever `|a| <= A` and `|b| <= B`.
proof fn lemma_mul_abs_bound(a: int, b: int, ba: int, bb: int)
    requires
        abs(a) <= ba,
        abs(b) <= bb,
    ensures
        abs(a * b) <= ba * bb,
        -(ba * bb) <= a * b <= ba * bb,
{
    assert(abs(a * b) == abs(a) * abs(b)) by (nonlinear_arith);
    assert(abs(a) * abs(b) <= ba * bb) by (nonlinear_arith)
        requires
            0 <= abs(a) <= ba,
            0 <= abs(b) <= bb,
    ;
}

/// The projection numerator is bounded by the squared distance times the velocity difference.
proof fn lemma_kick_numerator_bound(dx: int, dy: int, a: int, b: int)
    ensures
        abs(dx * (dx * a + dy * b)) <= (dx * dx + dy * dy) * (abs(a) + abs(b)),
{
    assert(abs(dx * dy) * 2 <= dx * dx + dy * dy) by (nonlinear_arith);
    assert(abs(dx * (dx * a + dy * b)) <= (dx * dx) * abs(a) + abs(dx * dy) * abs(b))
        by (nonlinear_arith);
    assert((dx * dx) * abs(a) <= (dx * dx + dy * dy) * abs(a)) by (nonlinear_arith);
    assert(abs(dx * dy) * abs(b) <= (dx * dx + dy * dy) * abs(b)) by (nonlinear_arith)
        requires
            abs(dx * dy) * 2 <= dx * dx + dy * dy,
    ;
    assert((dx * dx + dy * dy) * abs(a) + (dx * dx + dy * dy) * abs(b) == (dx * dx + dy * dy) * (
    abs(a) + abs(b))) by (nonlinear_arith);
}

/// Dividing toward zero by `d` keeps a multiple-of-`d` bound.
proof fn lemma_div_trunc_bound(n: int, d: int, m: int)
    requires
        0 < d,
        0 <= m,
        abs(n) <= d * m,
    ensures
        abs(div_trunc(n, d)) <= m,
{
    broadcast use vstd::arithmetic::div_mod::lemma_div_multiples_vanish;
    broadcast use vstd::arithmetic::div_mod::lemma_div_pos_is_pos;

    vstd::arithmetic::div_mod::lemma_div_is_ordered(abs(n), d * m, d);
    assert((d * m) / d == m);
}

/// Division rounding toward zero.
fn div_toward_zero(a: i128, b: i128) -> (c: i128)
    requires
        b > 0,
        a > i128::MIN,
    ensures
        c == div_trunc(a as int, b as int),
{
    if a >= 0 {
        a / b
    } else {
        -((-a) / b)
    }
}

impl Default for Particle {
    /// A particle at rest at the origin, radius 5, unit time step.
    fn default() -> (p: Particle)
        ensures
            p@ == (ParticleModel {
                px: 0,
                py: 0,
                vx: 0,
                vy: 0,
                dt: 1,
                r: 5,
                collided: false,
                color: ParticleColor::Green,
            }),
    {
        Particle { px: 0, py: 0, vx: 0, vy: 0, dt: 1, r: 5, m: false, c: ParticleColor::Green }
    }
}

impl Particle {
    pub fn new(px: i64, py: i64, vx: i64, vy: i64, r: i64, dt: i64, c: ParticleColor) -> (p:
        Particle)
        requires
            0 < r <= R_LIMIT,
            0 <= dt <= DT_LIMIT,
        ensures
            p@ == (ParticleModel {
                px: px as int,
                py: py as int,
                vx: vx as int,
                vy: vy as int,
                dt: dt as int,
                r: r as int,
                collided: false,
                color: c,
            }),
            p@.wf(),
    {
        Particle { px, py, vx, vy, dt, r, m: false, c }
    }

    /// A particle placed from four bytes: position `(b0 / 2, b1 / 2)` and
    /// velocity `(b2 % 16 + 1, b3 % 16 + 1)`.
    pub fn from_bytes(b: [u8; 4], r: i64, dt: i64, c: ParticleColor) -> (p: Particle)
        requires
            0 < r <= R_LIMIT,
            0 <= dt <= DT_LIMIT,
        ensures
            p@ == (ParticleModel {
                px: b[0] as int / 2,
                py: b[1] as int / 2,
                vx: b[2] as int % 16 + 1,
                vy: b[3] as int % 16 + 1,
                dt: dt as int,
                r: r as int,
                collided: false,
                color: c,
            }),
            p@.in_range(),
    {
        Particle::new(
            (b[0] / 2) as i64,
            (b[1] / 2) as i64,
            (b[2] % 16 + 1) as i64,
            (b[3] % 16 + 1) as i64,
            r,
            dt,
            c,
        )
    }

    /// Corners of the square that bounds the disc.
    pub fn area(&self) -> (a: ((i64, i64), (i64, i64)))
        requires
            self@.movable(),
        ensures
            a.0.0 == self@.px - self@.r,
            a.0.1 == self@.py - self@.r,
            a.1.0 == self@.px + self@.r,
            a.1.1 == self@.py + self@.r,
    {
        ((self.px - self.r, self.py - self.r), (self.px + self.r, self.py + self.r))
    }

    pub fn get_x(&self) -> (x: i64)
        ensures
            x == self@.px,
    {
        self.px
    }

    pub fn get_y(&self) -> (y: i64)
        ensures
            y == self@.py,
    {
        self.py
    }

    pub fn get_vx(&self) -> (vx: i64)
        ensures
            vx == self@.vx,
    {
        self.vx
    }

    pub fn get_vy(&self) -> (vy: i64)
        ensures
            vy == self@.vy,
    {
        self.vy
    }

    pub fn get_r(&self) -> (r: i64)
        ensures
            r == self@.r,
    {
        self.r
    }

    pub fn get_color(&self) -> (c: ParticleColor)
        ensures
            c == self@.color,
    {
        self.c
    }

    pub fn set_color(&mut self, c: ParticleColor)
        ensures
            final(self)@ == (ParticleModel { color: c, ..old(self)@ }),
    {
        self.c = c;
    }

    pub fn collided(&self) -> (m: bool)
        ensures
            m == self@.collided,
    {
        self.m
    }

    /// Whether the particle is small enough for `collide` and `bounce`.
    pub fn in_range(&self) -> (b: bool)
        ensures
            b == self@.in_range(),
    {
        0 < self.r && self.r <= R_LIMIT && 0 <= self.dt && self.dt <= DT_LIMIT && -POS_LIMIT <= self.px && self.px <= POS_LIMIT && -POS_LIMIT <= self.py && self.py
            <= POS_LIMIT && -VEL_LIMIT <= self.vx && self.vx <= VEL_LIMIT && -VEL_LIMIT <= self.vy
            && self.vy <= VEL_LIMIT
    }

    /// Whether the particle is small enough for `step`.
    pub fn movable(&self) -> (b: bool)
        ensures
            b == self@.movable(),
    {
        0 < self.r && self.r <= R_LIMIT && 0 <= self.dt && self.dt <= DT_LIMIT && -MOVE_LIMIT <= self.px && self.px <= MOVE_LIMIT && -MOVE_LIMIT <= self.py && self.py
            <= MOVE_LIMIT && -SPEED_LIMIT <= self.vx && self.vx <= SPEED_LIMIT && -SPEED_LIMIT
            <= self.vy && self.vy <= SPEED_LIMIT
    }

    /// Advances the position by one time increment and clears the collision flag.
    pub fn step(&mut self)
        requires
            old(self)@.movable(),
        ensures
            final(self)@ == old(self)@.stepped(),
    {
        proof {
            lemma_mul_abs_bound(self.vx as int, self.dt as int, SPEED_LIMIT as int, DT_LIMIT as int);
            lemma_mul_abs_bound(self.vy as int, self.dt as int, SPEED_LIMIT as int, DT_LIMIT as int);
        }
        self.px = self.px + self.vx * self.dt;
        self.py = self.py + self.vy * self.dt;
        self.m = false;
    }

    /// `vx * vx + vy * vy`, a relative measure of kinetic energy.
    pub fn energy(&self) -> (e: i64)
        requires
            self@.movable(),
        ensures
            e == self@.energy(),
    {
        proof {
            lemma_mul_abs_bound(self.vx as int, self.vx as int, SPEED_LIMIT as int, SPEED_LIMIT as int);
            lemma_mul_abs_bound(self.vy as int, self.vy as int, SPEED_LIMIT as int, SPEED_LIMIT as int);
        }
        self.vx * self.vx + self.vy * self.vy
    }
}

/// Squared distance between the centres now and after the next step.
fn distances(p: &Particle, q: &Particle) -> (d: (i128, i128))
    requires
        p@.in_range(),
        q@.in_range(),
    ensures
        d.0 == dist2(p@, q@),
        d.1 == next_dist2(p@, q@),
{
    let pos: i128 = POS_LIMIT as i128;
    let vel: i128 = VEL_LIMIT as i128;
    let dtl: i128 = DT_LIMIT as i128;
    let dx: i128 = p.px as i128 - q.px as i128;
    let dy: i128 = p.py as i128 - q.py as i128;
    proof {
        lemma_mul_abs_bound(p.dt as int, p.vx as int, dtl as int, vel as int);
        lemma_mul_abs_bound(p.dt as int, p.vy as int, dtl as int, vel as int);
        lemma_mul_abs_bound(q.dt as int, q.vx as int, dtl as int, vel as int);
        lemma_mul_abs_bound(q.dt as int, q.vy as int, dtl as int, vel as int);
    }
    let dx1: i128 = (p.px as i128 + p.dt as i128 * p.vx as i128) - (q.px as i128 + q.dt as i128
        * q.vx as i128);
    let dy1: i128 = (p.py as i128 + p.dt as i128 * p.vy as i128) - (q.py as i128 + q.dt as i128
        * q.vy as i128);
    let far: i128 = 2 * (pos + dtl * vel);
    assert(far == 0x4_0000_0000);
    assert(abs(dx1 as int) <= far);
    assert(abs(dy1 as int) <= far);
    proof {
        lemma_mul_abs_bound(dx as int, dx as int, 2 * pos, 2 * pos);
        lemma_mul_abs_bound(dy as int, dy as int, 2 * pos, 2 * pos);
        lemma_mul_abs_bound(dx1 as int, dx1 as int, far as int, far as int);
        lemma_mul_abs_bound(dy1 as int, dy1 as int, far as int, far as int);
    }
    (dx * dx + dy * dy, dx1 * dx1 + dy1 * dy1)
}

/// Velocity changes of the first particle in the analytic update.
fn kicks(dx: i128, dy: i128, dvx: i128, dvy: i128) -> (k: (i128, i128))
    requires
        abs(dx as int) <= 2 * POS_LIMIT,
        abs(dy as int) <= 2 * POS_LIMIT,
        abs(dvx as int) <= 2 * VEL_LIMIT,
        abs(dvy as int) <= 2 * VEL_LIMIT,
        dx * dx + dy * dy > 0,
    ensures
        k.0 == div_trunc(dx * (dx * dvx + dy * dvy), dx * dx + dy * dy),
        k.1 == div_trunc(dy * (dx * dvx + dy * dvy), dx * dx + dy * dy),
        abs(k.0 as int) <= abs(dvx as int) + abs(dvy as int),
        abs(k.1 as int) <= abs(dvx as int) + abs(dvy as int),
{
    proof {
        lemma_mul_abs_bound(dx as int, dx as int, 0x2_0000_0000, 0x2_0000_0000);
        lemma_mul_abs_bound(dy as int, dy as int, 0x2_0000_0000, 0x2_0000_0000);
        lemma_mul_abs_bound(dx as int, dvx as int, 0x2_0000_0000, 0x200_0000);
        lemma_mul_abs_bound(dy as int, dvy as int, 0x2_0000_0000, 0x200_0000);
    }
    let rr: i128 = dx * dx + dy * dy;
    let a: i128 = dx * dvx + dy * dvy;
    proof {
        lemma_mul_abs_bound(dx as int, a as int, 0x2_0000_0000, 0x800_0000_0000_0000);
        lemma_mul_abs_bound(dy as int, a as int, 0x2_0000_0000, 0x800_0000_0000_0000);
        lemma_kick_numerator_bound(dx as int, dy as int, dvx as int, dvy as int);
        lemma_kick_numerator_bound(dy as int, dx as int, dvy as int, dvx as int);
        assert(dy * (dy * dvy + dx * dvx) == dy * a) by (nonlinear_arith)
            requires
                a == dx * dvx + dy * dvy,
        ;
        assert(dy * dy + dx * dx == rr);
        lemma_div_trunc_bound(dx * a, rr as int, abs(dvx as int) + abs(dvy as int));
        lemma_div_trunc_bound(dy * a, rr as int, abs(dvx as int) + abs(dvy as int));
    }
    (div_toward_zero(dx * a, rr), div_toward_zero(dy * a, rr))
}

impl Particle {
    /// Whether the two particles touch and are not moving apart, which is
    /// when `collide` acts on them.
    pub fn will_collide(p: &Particle, q: &Particle) -> (b: bool)
        requires
            p@.in_range(),
            q@.in_range(),
        ensures
            b == collides(p@, q@),
    {
        let (rr, rr1) = distances(p, q);
        proof {
            lemma_mul_abs_bound(
                p.r as int + q.r as int,
                p.r as int + q.r as int,
                2 * R_LIMIT,
                2 * R_LIMIT,
            );
        }
        let rs: i128 = p.r as i128 + q.r as i128;
        rr <= rs * rs && rr1 <= rr
    }

    /// Perfectly elastic collision of two round particles of equal mass.
    ///
    /// Nothing changes unless the discs touch and their centres are not moving
    /// apart; otherwise both get the velocities of `collided_pair` and are
    /// marked as collided.
    pub fn collide(p: &mut Particle, q: &mut Particle) -> (hit: bool)
        requires
            old(p)@.in_range(),
            old(q)@.in_range(),
        ensures
            hit == collides(old(p)@, old(q)@),
            hit ==> (final(p)@, final(q)@) == collided_pair(old(p)@, old(q)@),
            !hit ==> final(p)@ == old(p)@ && final(q)@ == old(q)@,
    {
        let ghost gp = p@;
        let ghost gq = q@;
        if !Particle::will_collide(p, q) {
            return false;
        }
        let (rr, _) = distances(p, q);
        proof {
            lemma_mul_abs_bound(p.r as int, p.r as int, R_LIMIT as int, R_LIMIT as int);
        }
        if rr < p.r as i128 * p.r as i128 {
            // centres too close for the discrete time step: exchange velocities
            let (pvx, pvy) = (p.vx, p.vy);
            p.vx = q.vx;
            p.vy = q.vy;
            q.vx = pvx;
            q.vy = pvy;
        } else {
            proof {
                let pr = p.r as int;
                assert(pr * pr > 0) by (nonlinear_arith)
                    requires
                        pr > 0,
                ;
            }
            let dx: i128 = p.px as i128 - q.px as i128;
            let dy: i128 = p.py as i128 - q.py as i128;
            let (kx, ky) = kicks(dx, dy, q.vx as i128 - p.vx as i128, q.vy as i128 - p.vy as i128);
            assert(kx == kick_x(gp, gq));
            assert(ky == kick_y(gp, gq));
            p.vx = (p.vx as i128 + kx) as i64;
            p.vy = (p.vy as i128 + ky) as i64;
            q.vx = (q.vx as i128 - kx) as i64;
            q.vy = (q.vy as i128 - ky) as i64;
        }
        p.m = true;
        q.m = true;
        true
    }

    /// Reflects the particle from the walls of `[xmin, xmax] x [ymin, ymax]`:
    /// a coordinate at or past a wall is clamped to it and that velocity
    /// component changes sign. Returns whether a wall was hit, which also
    /// becomes the collision flag.
    pub fn bounce(p: &mut Particle, xmin: i64, xmax: i64, ymin: i64, ymax: i64) -> (hit: bool)
        requires
            old(p)@.movable(),
            xmin < xmax,
            ymin < ymax,
        ensures
            hit == old(p)@.hits_wall(xmin as int, xmax as int, ymin as int, ymax as int),
            final(p)@ == old(p)@.bounced(xmin as int, xmax as int, ymin as int, ymax as int),
    {
        let mut res = false;
        if p.px >= xmax {
            p.vx = -p.vx;
            p.px = xmax;
            res = true;
        }
        if p.px <= xmin {
            p.vx = -p.vx;
            p.px = xmin;
            res = true;
        }
        if p.py >= ymax {
            p.vy = -p.vy;
            p.py = ymax;
            res = true;
        }
        if p.py <= ymin {
            p.vy = -p.vy;
            p.py = ymin;
            res = true;
        }
        p.m = res;
        res
    }
}

/// Rounding toward zero is off by less than one divisor.
proof fn lemma_div_trunc_close(n: int, d: int)
    requires
        0 < d,
    ensures
        abs(d * div_trunc(n, d) - n) < d,
{
    let m = abs(n);
    vstd::arithmetic::div_mod::lemma_fundamental_div_mod(m, d);
    vstd::arithmetic::div_mod::lemma_mod_bound(m, d);
    if n < 0 {
        assert(d * div_trunc(n, d) == -(d * (m / d))) by (nonlinear_arith)
            requires
                div_trunc(n, d) == -(m / d),
        ;
    }
}

/// Exchanging `t * d` of momentum along the line of centres `d` keeps the
/// sum of squares when `t * |d|^2` equals the approach rate; here scaled by `rr`.
proof fn lemma_scaled_exchange(
    dx: int,
    dy: int,
    pvx: int,
    pvy: int,
    qvx: int,
    qvy: int,
    a: int,
    rr: int,
)
    requires
        a == dx * (qvx - pvx) + dy * (qvy - pvy),
        rr == dx * dx + dy * dy,
    ensures
        (rr * pvx + dx * a) * (rr * pvx + dx * a) + (rr * pvy + dy * a) * (rr * pvy + dy * a) + (
        rr * qvx - dx * a) * (rr * qvx - dx * a) + (rr * qvy - dy * a) * (rr * qvy - dy * a) == rr
            * rr * (pvx * pvx + pvy * pvy + qvx * qvx + qvy * qvy),
{
    lemma_axis_exchange(dx, pvx, qvx, a, rr);
    lemma_axis_exchange(dy, pvy, qvy, a, rr);
    let sx = dx * (pvx - qvx);
    let sy = dy * (pvy - qvy);
    let t = rr * a;
    assert(sx + sy == -a) by (nonlinear_arith)
        requires
            a == dx * (qvx - pvx) + dy * (qvy - pvy),
            sx == dx * (pvx - qvx),
            sy == dy * (pvy - qvy),
    ;
    assert(t * sx + t * sy == -(rr * (a * a))) by (nonlinear_arith)
        requires
            sx + sy == -a,
            t == rr * a,
    ;
    assert((dx * dx) * (a * a) + (dy * dy) * (a * a) == rr * (a * a)) by (nonlinear_arith)
        requires
            rr == dx * dx + dy * dy,
    ;
    assert(rr * rr * (pvx * pvx + qvx * qvx) + rr * rr * (pvy * pvy + qvy * qvy) == rr * rr * (pvx
        * pvx + pvy * pvy + qvx * qvx + qvy * qvy)) by (nonlinear_arith);
}

/// One axis of `lemma_scaled_exchange`, expanded.
proof fn lemma_axis_exchange(d: int, pv: int, qv: int, a: int, rr: int)
    ensures
        (rr * pv + d * a) * (rr * pv + d * a) + (rr * qv - d * a) * (rr * qv - d * a) == rr * rr * (
        pv * pv + qv * qv) + 2 * ((rr * a) * (d * (pv - qv))) + 2 * ((d * d) * (a * a)),
{
    let u = rr * pv;
    let v = rr * qv;
    let w = d * a;
    assert((u + w) * (u + w) + (v - w) * (v - w) == (u * u + v * v) + 2 * (w * (u - v)) + 2 * (w
        * w)) by (nonlinear_arith);
    assert(u * u + v * v == rr * rr * (pv * pv + qv * qv)) by (nonlinear_arith)
        requires
            u == rr * pv,
            v == rr * qv,
    ;
    assert(w * (u - v) == (rr * a) * (d * (pv - qv))) by (nonlinear_arith)
        requires
            u == rr * pv,
            v == rr * qv,
            w == d * a,
    ;
    assert(w * w == (d * d) * (a * a)) by (nonlinear_arith)
        requires
            w == d * a,
    ;
}

/// Squaring a value known within one unit of `u / rr` moves the square by
/// less than `2 * |v| + 1`, scaled by `rr * rr`.
proof fn lemma_square_rounding(v: int, u: int, rr: int)
    requires
        rr > 0,
        abs(rr * v - u) < rr,
    ensures
        abs((rr * v) * (rr * v) - u * u) < rr * rr * (2 * abs(v) + 1),
{
    let big = rr * v;
    let d = big - u;
    assert(big * big - u * u == d * (2 * big - d)) by (nonlinear_arith)
        requires
            d == big - u,
    ;
    assert(abs(big) == rr * abs(v)) by (nonlinear_arith)
        requires
            big == rr * v,
            rr > 0,
    ;
    assert(abs(2 * big - d) < 2 * (rr * abs(v)) + rr);
    assert(abs(d * (2 * big - d)) <= abs(d) * abs(2 * big - d)) by (nonlinear_arith);
    assert(abs(d) * abs(2 * big - d) < rr * (2 * (rr * abs(v)) + rr)) by (nonlinear_arith)
        requires
            0 <= abs(d) < rr,
            0 <= abs(2 * big - d) < 2 * (rr * abs(v)) + rr,
    ;
    assert(rr * (2 * (rr * abs(v)) + rr) == rr * rr * (2 * abs(v) + 1)) by (nonlinear_arith);
}

/// A collision conserves the energy of the pair, up to the rounding of integer division.
///
/// Momentum is conserved exactly. When the centres are too close the
/// velocities are exchanged and the energy is exactly the same. Otherwise the
/// unrounded velocities, scaled by the squared distance `rr`, have exactly
/// `rr * rr` times the energy before, and every velocity component after the
/// collision lies within one unit of its unrounded value. Either way the
/// energy after differs from the energy before by less than
/// `2 * (|p.vx| + |p.vy| + |q.vx| + |q.vy|) + 4`, taken after the collision.
pub proof fn lemma_collision_conserves_energy(p: ParticleModel, q: ParticleModel)
    requires
        p.wf(),
        q.wf(),
        collides(p, q),
    ensures
        ({
            let (p2, q2) = collided_pair(p, q);
            let rr = dist2(p, q);
            let a = approach(p, q);
            let dx = p.px - q.px;
            let dy = p.py - q.py;
            &&& p2.vx + q2.vx == p.vx + q.vx
            &&& p2.vy + q2.vy == p.vy + q.vy
            &&& too_close(p, q) ==> p2.energy() + q2.energy() == p.energy() + q.energy()
            &&& !too_close(p, q) ==> {
                &&& (rr * p.vx + dx * a) * (rr * p.vx + dx * a) + (rr * p.vy + dy * a) * (rr
                    * p.vy + dy * a) + (rr * q.vx - dx * a) * (rr * q.vx - dx * a) + (rr * q.vy
                    - dy * a) * (rr * q.vy - dy * a) == rr * rr * (p.energy() + q.energy())
                &&& abs(rr * p2.vx - (rr * p.vx + dx * a)) < rr
                &&& abs(rr * p2.vy - (rr * p.vy + dy * a)) < rr
                &&& abs(rr * q2.vx - (rr * q.vx - dx * a)) < rr
                &&& abs(rr * q2.vy - (rr * q.vy - dy * a)) < rr
            }
            &&& abs((p2.energy() + q2.energy()) - (p.energy() + q.energy())) < 2 * (abs(p2.vx)
                + abs(p2.vy) + abs(q2.vx) + abs(q2.vy)) + 4
        }),
{
    let rr = dist2(p, q);
    let a = approach(p, q);
    let dx = p.px - q.px;
    let dy = p.py - q.py;
    if !too_close(p, q) {
        let pr = p.r;
        assert(pr * pr > 0) by (nonlinear_arith)
            requires
                pr > 0,
        ;
        lemma_scaled_exchange(dx, dy, p.vx, p.vy, q.vx, q.vy, a, rr);
        lemma_div_trunc_close(dx * a, rr);
        lemma_div_trunc_close(dy * a, rr);
        let kx = kick_x(p, q);
        let ky = kick_y(p, q);
        assert(rr * (p.vx + kx) - (rr * p.vx + dx * a) == rr * kx - dx * a) by (nonlinear_arith);
        assert(rr * (p.vy + ky) - (rr * p.vy + dy * a) == rr * ky - dy * a) by (nonlinear_arith);
        assert(rr * (q.vx - kx) - (rr * q.vx - dx * a) == -(rr * kx - dx * a)) by (
        nonlinear_arith);
        assert(rr * (q.vy - ky) - (rr * q.vy - dy * a) == -(rr * ky - dy * a)) by (
        nonlinear_arith);
        let (p2, q2) = collided_pair(p, q);
        lemma_square_rounding(p2.vx, rr * p.vx + dx * a, rr);
        lemma_square_rounding(p2.vy, rr * p.vy + dy * a, rr);
        lemma_square_rounding(q2.vx, rr * q.vx - dx * a, rr);
        lemma_square_rounding(q2.vy, rr * q.vy - dy * a, rr);
        let e2 = p2.energy() + q2.energy();
        let e1 = p.energy() + q.energy();
        let bound = 2 * (abs(p2.vx) + abs(p2.vy) + abs(q2.vx) + abs(q2.vy)) + 4;
        let sq = rr * rr;
        assert((rr * p2.vx) * (rr * p2.vx) == sq * (p2.vx * p2.vx)) by (nonlinear_arith)
            requires
                sq == rr * rr,
        ;
        assert((rr * p2.vy) * (rr * p2.vy) == sq * (p2.vy * p2.vy)) by (nonlinear_arith)
            requires
                sq == rr * rr,
        ;
        assert((rr * q2.vx) * (rr * q2.vx) == sq * (q2.vx * q2.vx)) by (nonlinear_arith)
            requires
                sq == rr * rr,
        ;
        assert((rr * q2.vy) * (rr * q2.vy) == sq * (q2.vy * q2.vy)) by (nonlinear_arith)
            requires
                sq == rr * rr,
        ;
        let (w1, w2, w3, w4) = (p2.vx * p2.vx, p2.vy * p2.vy, q2.vx * q2.vx, q2.vy * q2.vy);
        assert(sq * w1 + sq * w2 + sq * w3 + sq * w4 == sq * (w1 + w2 + w3 + w4)) by (
        nonlinear_arith);
        assert(rr * rr * (2 * abs(p2.vx) + 1) + rr * rr * (2 * abs(p2.vy) + 1) + rr * rr * (2
            * abs(q2.vx) + 1) + rr * rr * (2 * abs(q2.vy) + 1) == rr * rr * bound) by (
        nonlinear_arith)
            requires
                bound == 2 * (abs(p2.vx) + abs(p2.vy) + abs(q2.vx) + abs(q2.vy)) + 4,
        ;
        assert(abs(rr * rr * e2 - rr * rr * e1) < rr * rr * bound);
        assert(abs(e2 - e1) < bound) by (nonlinear_arith)
            requires
                abs(rr * rr * e2 - rr * rr * e1) < rr * rr * bound,
                rr > 0,
        ;
    }
}

/// Each axis of a wall bounce is independent: a coordinate beyond or on a
/// wall is clamped exactly to that wall and its velocity component changes
/// sign; a coordinate strictly inside keeps its position and velocity.
pub proof fn lemma_bounce_clamps(p: ParticleModel, xmin: int, xmax: int, ymin: int, ymax: int)
    requires
        xmin < xmax,
        ymin < ymax,
    ensures
        ({
            let b = p.bounced(xmin, xmax, ymin, ymax);
            &&& p.px >= xmax ==> b.px == xmax && b.vx == -p.vx
            &&& p.px <= xmin ==> b.px == xmin && b.vx == -p.vx
            &&& xmin < p.px < xmax ==> b.px == p.px && b.vx == p.vx
            &&& p.py >= ymax ==> b.py == ymax && b.vy == -p.vy
            &&& p.py <= ymin ==> b.py == ymin && b.vy == -p.vy
            &&& ymin < p.py < ymax ==> b.py == p.py && b.vy == p.vy
            &&& b.r == p.r && b.dt == p.dt && b.color == p.color
            &&& xmin <= b.px <= xmax && ymin <= b.py <= ymax
        }),
{
}

/// Both particles stay small enough to move after a collision.
pub proof fn lemma_collided_pair_movable(p: ParticleModel, q: ParticleModel)
    requires
        p.in_range(),
        q.in_range(),
    ensures
        collided_pair(p, q).0.movable(),
        collided_pair(p, q).1.movable(),
{
    if !too_close(p, q) {
        let dx = p.px - q.px;
        let dy = p.py - q.py;
        let a = q.vx - p.vx;
        let b = q.vy - p.vy;
        let rr = dist2(p, q);
        let pr = p.r;
        assert(pr * pr > 0) by (nonlinear_arith)
            requires
                pr > 0,
        ;
        lemma_kick_numerator_bound(dx, dy, a, b);
        lemma_kick_numerator_bound(dy, dx, b, a);
        assert(dy * (dy * b + dx * a) == dy * approach(p, q)) by (nonlinear_arith)
            requires
                approach(p, q) == dx * a + dy * b,
        ;
        assert(dy * dy + dx * dx == rr);
        lemma_div_trunc_bound(dx * approach(p, q), rr, abs(a) + abs(b));
        lemma_div_trunc_bound(dy * approach(p, q), rr, abs(a) + abs(b));
    }
}

/// A particle small enough to collide can still be bounced after one step.
pub proof fn lemma_step_keeps_movable(p: ParticleModel)
    requires
        p.in_range(),
    ensures
        p.stepped().movable(),
        abs(p.stepped().px - p.px) <= VEL_LIMIT * DT_LIMIT,
        abs(p.stepped().py - p.py) <= VEL_LIMIT * DT_LIMIT,
{
    lemma_mul_abs_bound(p.vx, p.dt, VEL_LIMIT as int, DT_LIMIT as int);
    lemma_mul_abs_bound(p.vy, p.dt, VEL_LIMIT as int, DT_LIMIT as int);
}

} // verus!
