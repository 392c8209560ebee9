use vstd::prelude::*;

verus! {

/// Mathematical state of a racket.
pub ghost struct RacketModel {
    pub cx: int,
    pub cy: int,
    pub hw: int,
    pub hh: int,
}

impl RacketModel {
    /// The position after a wall check against `[xmin, xmax]`.
    pub open spec fn clamped(self, xmin: int, xmax: int) -> RacketModel {
        RacketModel {
            cx: if self.cx >= xmax { xmax } else if self.cx <= xmin { xmin } else { self.cx },
            ..self
        }
    }
}

/// A paddle: a rectangle with centre `(cx, cy)`, half-width `hw` and
/// half-height `hh` that moves along the x axis only.
#[derive(Debug, Clone, Copy)]
pub struct Racket {
    cx: i64,
    cy: i64,
    hw: i64,
    hh: i64,
}

impl View for Racket {
    type V = RacketModel;

    closed spec fn view(&self) -> RacketModel {
        RacketModel {
            cx: self.cx as int,
            cy: self.cy as int,
            hw: self.hw as int,
            hh: self.hh as int,
        }
    }
}

impl Racket {
    pub fn new(cx: i64, cy: i64, hw: i64, hh: i64) -> (r: Racket)
        ensures
            r@ == (RacketModel { cx: cx as int, cy: cy as int, hw: hw as int, hh: hh as int }),
    {
        Racket { cx, cy, hw, hh }
    }

    /// Moves the racket by `dx` along the x axis.
    pub fn step(&mut self, dx: i64)
        requires
            i64::MIN <= old(self)@.cx + dx <= i64::MAX,
        ensures
            final(self)@ == (RacketModel { cx: old(self)@.cx + dx, ..old(self)@ }),
    {
        self.cx = self.cx + dx;
    }

    pub fn get_cx(&self) -> (cx: i64)
        ensures
            cx == self@.cx,
    {
        self.cx
    }

    pub fn get_cy(&self) -> (cy: i64)
        ensures
            cy == self@.cy,
    {
        self.cy
    }

    pub fn get_hw(&self) -> (hw: i64)
        ensures
            hw == self@.hw,
    {
        self.hw
    }

    pub fn get_hh(&self) -> (hh: i64)
        ensures
            hh == self@.hh,
    {
        self.hh
    }

    /// Clamps the centre into `[xmin, xmax]`; returns whether it was at or
    /// beyond either end.
    pub fn bounce(r: &mut Racket, xmin: i64, xmax: i64) -> (hit: bool)
        requires
            xmin <= xmax,
        ensures
            hit == (old(r)@.cx >= xmax || old(r)@.cx <= xmin),
            final(r)@ == old(r)@.clamped(xmin as int, xmax as int),
            xmin <= final(r)@.cx <= xmax,
    {
        let mut res = false;
        if r.cx >= xmax {
            r.cx = xmax;
            res = true;
        }
        if r.cx <= xmin {
            r.cx = xmin;
            res = true;
        }
        res
    }

    /// Corners of the rectangle.
    pub fn area(&self) -> (a: ((i64, i64), (i64, i64)))
        requires
            i64::MIN <= self@.cx - self@.hw,
            self@.cx + self@.hw <= i64::MAX,
            i64::MIN <= self@.cy - self@.hh,
            self@.cy + self@.hh <= i64::MAX,
            i64::MIN <= self@.cx + self@.hw,
            self@.cx - self@.hw <= i64::MAX,
            i64::MIN <= self@.cy + self@.hh,
            self@.cy - self@.hh <= i64::MAX,
        ensures
            a.0.0 == self@.cx - self@.hw,
            a.0.1 == self@.cy - self@.hh,
            a.1.0 == self@.cx + self@.hw,
            a.1.1 == self@.cy + self@.hh,
    {
        ((self.cx - self.hw, self.cy - self.hh), (self.cx + self.hw, self.cy + self.hh))
    }
}

} // verus!
