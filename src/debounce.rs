use vstd::prelude::*;

verus! {

/// A raw digital input sample. Inputs are active low: `Low` means pressed.
#[derive(Debug, Clone, Copy, PartialEq, Eq, Structural)]
pub enum Level {
    Low,
    High,
}

/// A stable state change reported by a debouncer.
#[derive(Debug, Clone, Copy, PartialEq, Eq, Structural)]
pub enum Edge {
    Press,
    Release,
}

/// Whether a sample reads as pressed.
pub open spec fn is_pressed_level(l: Level) -> bool {
    l == Level::Low
}

/// The event reported when `l` is sampled while the stable state is `pressed`.
pub open spec fn edge_of(pressed: bool, l: Level) -> Option<Edge> {
    if is_pressed_level(l) && !pressed {
        Some(Edge::Press)
    } else if !is_pressed_level(l) && pressed {
        Some(Edge::Release)
    } else {
        None
    }
}

/// The stable state after a run of samples.
pub open spec fn state_after(pressed: bool, samples: Seq<Level>) -> bool
    decreases samples.len(),
{
    if samples.len() == 0 {
        pressed
    } else {
        is_pressed_level(samples.last())
    }
}

/// The events reported over a run of samples, oldest first.
pub open spec fn edges(pressed: bool, samples: Seq<Level>) -> Seq<Edge>
    decreases samples.len(),
{
    if samples.len() == 0 {
        Seq::empty()
    } else {
        let prev = edges(pressed, samples.drop_last());
        let st = state_after(pressed, samples.drop_last());
        match edge_of(st, samples.last()) {
            Some(e) => prev.push(e),
            None => prev,
        }
    }
}

/// Debouncer of one input channel, latched on each sample of a fixed-rate
/// timer: the stable state follows the sample, and each change is reported once.
#[derive(Debug, Clone, Copy)]
pub struct Debounce {
    pressed: bool,
}

impl Debounce {
    /// A debouncer whose input is released.
    pub fn new() -> (d: Debounce)
        ensures
            !d.spec_pressed(),
    {
        Debounce { pressed: false }
    }

    pub closed spec fn spec_pressed(&self) -> bool {
        self.pressed
    }

    /// The stable state: whether the input is held down.
    pub fn is_pressed(&self) -> (b: bool)
        ensures
            b == self.spec_pressed(),
    {
        self.pressed
    }

    /// Takes one sample and reports the change it makes to the stable state, if any.
    pub fn sample(&mut self, l: Level) -> (e: Option<Edge>)
        ensures
            e == edge_of(old(self).spec_pressed(), l),
            final(self).spec_pressed() == is_pressed_level(l),
    {
        match l {
            Level::Low => {
                if !self.pressed {
                    self.pressed = true;
                    Some(Edge::Press)
                } else {
                    None
                }
            },
            Level::High => {
                if self.pressed {
                    self.pressed = false;
                    Some(Edge::Release)
                } else {
                    None
                }
            },
        }
    }
}

/// The debouncers of the four buttons, sampled together on each timer tick.
#[derive(Debug, Clone, Copy)]
pub struct Buttons {
    pub ch: [Debounce; 4],
}

impl Buttons {
    /// Four released buttons.
    pub fn new() -> (b: Buttons)
        ensures
            forall|k: int| 0 <= k < 4 ==> !(#[trigger] b.ch[k]).spec_pressed(),
    {
        Buttons { ch: [Debounce::new(), Debounce::new(), Debounce::new(), Debounce::new()] }
    }

    /// Samples all four inputs; the events come in channel order.
    pub fn sample_all(&mut self, levels: [Level; 4]) -> (e: [Option<Edge>; 4])
        ensures
            forall|k: int|
                0 <= k < 4 ==> #[trigger] e[k] == edge_of(old(self).ch[k].spec_pressed(), levels[k])
                    && final(self).ch[k].spec_pressed() == is_pressed_level(levels[k]),
    {
        let mut c0 = self.ch[0];
        let mut c1 = self.ch[1];
        let mut c2 = self.ch[2];
        let mut c3 = self.ch[3];
        let e0 = c0.sample(levels[0]);
        let e1 = c1.sample(levels[1]);
        let e2 = c2.sample(levels[2]);
        let e3 = c3.sample(levels[3]);
        self.ch = [c0, c1, c2, c3];
        let e = [e0, e1, e2, e3];
        assert(e[0] == e0 && e[1] == e1 && e[2] == e2 && e[3] == e3);
        e
    }

    /// Whether button `k` is held down.
    pub fn is_pressed(&self, k: usize) -> (b: bool)
        requires
            k < 4,
        ensures
            b == self.ch[k as int].spec_pressed(),
    {
        self.ch[k].is_pressed()
    }
}

/// A run of samples all at the level the stable state already shows gives no
/// event: chatter between two samples is never seen.
pub proof fn lemma_steady_input_is_silent(pressed: bool, samples: Seq<Level>)
    requires
        forall|k: int| 0 <= k < samples.len() ==> is_pressed_level(#[trigger] samples[k]) == pressed,
    ensures
        edges(pressed, samples).len() == 0,
        state_after(pressed, samples) == pressed,
    decreases samples.len(),
{
    if samples.len() > 0 {
        lemma_steady_input_is_silent(pressed, samples.drop_last());
    }
}

/// A released input that reads high for a while and then low for at least one
/// sample reports exactly one event, a press.
pub proof fn lemma_one_press(a: nat, b: nat)
    requires
        b >= 1,
    ensures
        edges(false, Seq::new(a, |i: int| Level::High) + Seq::new(b, |i: int| Level::Low)) == seq![
            Edge::Press,
        ],
    decreases b,
{
    let hs = Seq::new(a, |i: int| Level::High);
    let s = hs + Seq::new(b, |i: int| Level::Low);
    let prefix = hs + Seq::new((b - 1) as nat, |i: int| Level::Low);
    assert(s.drop_last() =~= prefix);
    if b == 1 {
        assert(prefix =~= hs);
        lemma_steady_input_is_silent(false, hs);
    } else {
        lemma_one_press(a, (b - 1) as nat);
        assert(prefix.last() == Level::Low);
    }
}

/// Events alternate, starting with the one that leaves the initial state:
/// each physical change of the stable state is reported once.
pub proof fn lemma_edges_alternate(pressed: bool, samples: Seq<Level>)
    ensures
        forall|k: int|
            0 <= k < edges(pressed, samples).len() ==> #[trigger] edges(pressed, samples)[k] == (if (
            k % 2 == 0) == pressed {
                Edge::Release
            } else {
                Edge::Press
            }),
        state_after(pressed, samples) == (if edges(pressed, samples).len() % 2 == 0 {
            pressed
        } else {
            !pressed
        }),
    decreases samples.len(),
{
    if samples.len() > 0 {
        lemma_edges_alternate(pressed, samples.drop_last());
    }
}

} // verus!
