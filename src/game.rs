use vstd::prelude::*;
use crate::phys::particles::{lemma_step_keeps_movable, Particle, ParticleModel, POS_LIMIT};
use crate::phys::racket::{Racket, RacketModel};

verus! {

/// The ball has got past the racket: it is below the racket's far edge by
/// less than its own radius, and outside the racket's horizontal span.
pub open spec fn scores(b: ParticleModel, r: RacketModel) -> bool {
    b.py < r.cy + r.hh + b.r && (b.px < r.cx - r.hw || b.px > r.cx + r.hw)
}

/// Racket displacement for the stable button states: one way for the left
/// button alone, the other way for the right button alone, none otherwise.
pub open spec fn shift(left: bool, right: bool, speed: int) -> int {
    if left && !right {
        speed
    } else if !left && right {
        -speed
    } else {
        0
    }
}

/// Mathematical state of a game.
pub ghost struct SquashModel {
    pub ball: ParticleModel,
    pub racket: RacketModel,
    pub width: int,
    pub height: int,
    pub speed: int,
    pub over: bool,
}

impl SquashModel {
    /// A playable state: the ball and racket are inside the field and every
    /// quantity is small enough for the arithmetic.
    pub open spec fn wf(self) -> bool {
        &&& 0 < self.width <= POS_LIMIT
        &&& 0 < self.height <= POS_LIMIT
        &&& 0 <= self.speed <= POS_LIMIT
        &&& self.ball.in_range()
        &&& 0 <= self.ball.px <= self.width
        &&& 0 <= self.ball.py <= self.height
        &&& 0 <= self.racket.cx <= self.width
        &&& -POS_LIMIT <= self.racket.cy <= POS_LIMIT
        &&& 0 <= self.racket.hw <= POS_LIMIT
        &&& 0 <= self.racket.hh <= POS_LIMIT
    }

    /// One step of the game: the ball moves, the racket follows the buttons,
    /// both are held inside the field, and a ball that bounced past the
    /// racket ends the game. A finished game does not change.
    pub open spec fn next(self, left: bool, right: bool) -> SquashModel {
        if self.over {
            self
        } else {
            let b1 = self.ball.stepped();
            let r1 = RacketModel { cx: self.racket.cx + shift(left, right, self.speed), ..self.racket };
            let hit = b1.hits_wall(0, self.width, 0, self.height);
            let b2 = b1.bounced(0, self.width, 0, self.height);
            let r2 = r1.clamped(0, self.width);
            SquashModel { ball: b2, racket: r2, over: hit && scores(b2, r2), ..self }
        }
    }
}

/// Whether the ball has scored past the racket.
pub fn score(b: &Particle, r: &Racket) -> (s: bool)
    requires
        b@.movable(),
        -POS_LIMIT <= r@.cx <= POS_LIMIT,
        -POS_LIMIT <= r@.cy <= POS_LIMIT,
        -POS_LIMIT <= r@.hw <= POS_LIMIT,
        -POS_LIMIT <= r@.hh <= POS_LIMIT,
    ensures
        s == scores(b@, r@),
{
    b.get_y() < r.get_cy() + r.get_hh() + b.get_r() && (b.get_x() < r.get_cx() - r.get_hw()
        || b.get_x() > r.get_cx() + r.get_hw())
}

/// Racket displacement for the stable states of the left and right buttons.
pub fn racket_shift(left: bool, right: bool, speed: i64) -> (dx: i64)
    requires
        speed > i64::MIN,
    ensures
        dx == shift(left, right, speed as int),
{
    match (left, right) {
        (true, false) => speed,
        (false, true) => -speed,
        _ => 0,
    }
}

/// The paddle game: a ball in a field of `width` by `height`, and a racket
/// moved by `speed` per step.
#[derive(Debug, Clone, Copy)]
pub struct Squash {
    ball: Particle,
    racket: Racket,
    width: i64,
    height: i64,
    speed: i64,
    over: bool,
}

impl View for Squash {
    type V = SquashModel;

    closed spec fn view(&self) -> SquashModel {
        SquashModel {
            ball: self.ball@,
            racket: self.racket@,
            width: self.width as int,
            height: self.height as int,
            speed: self.speed as int,
            over: self.over,
        }
    }
}

impl Squash {
    /// A game in progress, or `None` when the pieces are not a playable state.
    pub fn new(ball: Particle, racket: Racket, width: i64, height: i64, speed: i64) -> (g: Option<
        Squash,
    >)
        ensures
            ({
                let m = SquashModel {
                    ball: ball@,
                    racket: racket@,
                    width: width as int,
                    height: height as int,
                    speed: speed as int,
                    over: false,
                };
                &&& g is Some <==> m.wf()
                &&& g is Some ==> g->Some_0@ == m
            }),
    {
        let ok = 0 < width && width <= POS_LIMIT && 0 < height && height <= POS_LIMIT && 0 <= speed
            && speed <= POS_LIMIT && ball.in_range() && 0 <= ball.get_x() && ball.get_x() <= width
            && 0 <= ball.get_y() && ball.get_y() <= height && 0 <= racket.get_cx()
            && racket.get_cx() <= width && -POS_LIMIT <= racket.get_cy() && racket.get_cy()
            <= POS_LIMIT && 0 <= racket.get_hw() && racket.get_hw() <= POS_LIMIT && 0
            <= racket.get_hh() && racket.get_hh() <= POS_LIMIT;
        if ok {
            Some(Squash { ball, racket, width, height, speed, over: false })
        } else {
            None
        }
    }

    pub fn ball(&self) -> (b: Particle)
        ensures
            b@ == self@.ball,
    {
        self.ball
    }

    pub fn racket(&self) -> (r: Racket)
        ensures
            r@ == self@.racket,
    {
        self.racket
    }

    pub fn is_over(&self) -> (o: bool)
        ensures
            o == self@.over,
    {
        self.over
    }

    /// Plays one step with the stable states of the two buttons; returns
    /// whether the game is over.
    pub fn step(&mut self, left: bool, right: bool) -> (over: bool)
        requires
            old(self)@.wf(),
        ensures
            final(self)@ == old(self)@.next(left, right),
            final(self)@.wf(),
            over == final(self)@.over,
    {
        if self.over {
            return true;
        }
        proof {
            lemma_step_keeps_movable(self.ball@);
        }
        self.ball.step();
        let dx = racket_shift(left, right, self.speed);
        self.racket.step(dx);
        let hit = Particle::bounce(&mut self.ball, 0, self.width, 0, self.height);
        Racket::bounce(&mut self.racket, 0, self.width);
        if hit && score(&self.ball, &self.racket) {
            self.over = true;
        }
        self.over
    }
}

} // verus!
