use vstd::prelude::*;

verus! {

/// A task to run at an absolute cycle count.
#[derive(Debug, Clone, Copy, PartialEq, Eq, Structural)]
pub struct Entry {
    pub at: u64,
    pub task: usize,
}

/// Why a task could not be queued.
#[derive(Debug, Clone, Copy, PartialEq, Eq, Structural)]
pub enum SchedError {
    /// The queue holds as many entries as it was sized for.
    Full,
    /// The next deadline lies beyond the range of the cycle counter.
    Overflow,
}

/// Deadlines in `s` do not decrease.
pub open spec fn sorted(s: Seq<Entry>) -> bool {
    forall|i: int, j: int| 0 <= i < j < s.len() ==> (#[trigger] s[i]).at <= (#[trigger] s[j]).at
}

/// `pos` is where an entry due at `at` goes: after every entry due no later,
/// before every entry due later.
pub open spec fn insert_pos(s: Seq<Entry>, at: u64, pos: int) -> bool {
    &&& 0 <= pos <= s.len()
    &&& forall|i: int| 0 <= i < pos ==> (#[trigger] s[i]).at <= at
    &&& forall|i: int| pos <= i < s.len() ==> (#[trigger] s[i]).at > at
}

/// `s` with `e` inserted after the entries due no later than it.
pub open spec fn inserted(s: Seq<Entry>, e: Entry) -> Seq<Entry> {
    let pos = choose|pos: int| insert_pos(s, e.at, pos);
    s.insert(pos, e)
}

/// The entries after taking out the first one if it is due at `now`, and that entry.
pub open spec fn popped(s: Seq<Entry>, now: u64) -> (Seq<Entry>, Option<Entry>) {
    if s.len() > 0 && s[0].at <= now {
        (s.drop_first(), Some(s[0]))
    } else {
        (s, None)
    }
}

proof fn lemma_insert_pos_unique(s: Seq<Entry>, at: u64, first: int, second: int)
    requires
        insert_pos(s, at, first),
        insert_pos(s, at, second),
    ensures
        first == second,
{
    if first < second {
        assert(s[first].at <= at);
    } else if second < first {
        assert(s[second].at <= at);
    }
}

/// A bounded queue of tasks ordered by deadline; tasks due at the same
/// cycle leave in the order they were queued.
pub struct DeadlineQueue {
    entries: Vec<Entry>,
    cap: usize,
}

impl View for DeadlineQueue {
    type V = Seq<Entry>;

    closed spec fn view(&self) -> Seq<Entry> {
        self.entries@
    }
}

impl DeadlineQueue {
    pub closed spec fn spec_capacity(&self) -> nat {
        self.cap as nat
    }

    pub closed spec fn wf(&self) -> bool {
        &&& sorted(self.entries@)
        &&& self.entries@.len() <= self.cap
    }

    /// An empty queue for at most `cap` tasks.
    pub fn new(cap: usize) -> (q: DeadlineQueue)
        ensures
            q.wf(),
            q@ == Seq::<Entry>::empty(),
            q.spec_capacity() == cap,
    {
        DeadlineQueue { entries: Vec::new(), cap }
    }

    pub fn len(&self) -> (n: usize)
        ensures
            n == self@.len(),
    {
        self.entries.len()
    }

    pub fn capacity(&self) -> (n: usize)
        ensures
            n == self.spec_capacity(),
    {
        self.cap
    }

    /// The earliest deadline, if any task is queued.
    pub fn next_deadline(&self) -> (d: Option<u64>)
        ensures
            d == (if self@.len() > 0 {
                Some(self@[0].at)
            } else {
                None
            }),
    {
        if self.entries.len() > 0 {
            Some(self.entries[0].at)
        } else {
            None
        }
    }

    /// Queues `task` to run at cycle `at`, unless the queue is full.
    pub fn schedule(&mut self, at: u64, task: usize) -> (r: Result<(), SchedError>)
        requires
            old(self).wf(),
        ensures
            final(self).wf(),
            final(self).spec_capacity() == old(self).spec_capacity(),
            r is Err <==> old(self)@.len() == old(self).spec_capacity(),
            r is Err ==> r == Err::<(), SchedError>(SchedError::Full) && final(self)@ == old(self)@,
            r is Ok ==> final(self)@ == inserted(old(self)@, Entry { at, task }),
    {
        if self.entries.len() >= self.cap {
            return Err(SchedError::Full);
        }
        let n = self.entries.len();
        let mut pos: usize = 0;
        while pos < n && self.entries[pos].at <= at
            invariant
                n == self.entries@.len(),
                pos <= n,
                forall|i: int| 0 <= i < pos ==> (#[trigger] self.entries@[i]).at <= at,
            decreases n - pos,
        {
            pos = pos + 1;
        }
        let ghost s = self.entries@;
        proof {
            assert(insert_pos(s, at, pos as int));
            let c = choose|p: int| insert_pos(s, at, p);
            lemma_insert_pos_unique(s, at, c, pos as int);
        }
        self.entries.insert(pos, Entry { at, task });
        assert(sorted(self.entries@)) by {
            assert forall|i: int, j: int| 0 <= i < j < self.entries@.len() implies (
            #[trigger] self.entries@[i]).at <= (#[trigger] self.entries@[j]).at by {
                if j < pos {
                } else if j == pos {
                } else if i < pos {
                    assert(s[j - 1].at > at);
                } else if i == pos {
                    assert(s[j - 1].at > at);
                } else {
                    assert(s[i - 1].at <= s[j - 1].at);
                }
            }
        }
        Ok(())
    }

    /// Takes out the earliest task if it is due at cycle `now`.
    pub fn pop_due(&mut self, now: u64) -> (r: Option<Entry>)
        requires
            old(self).wf(),
        ensures
            final(self).wf(),
            final(self).spec_capacity() == old(self).spec_capacity(),
            (final(self)@, r) == popped(old(self)@, now),
    {
        if self.entries.len() > 0 && self.entries[0].at <= now {
            let e = self.entries.remove(0);
            assert(self.entries@ =~= old(self)@.drop_first());
            Some(e)
        } else {
            None
        }
    }
}

/// The deadline that follows `at` for a task repeating every `period` cycles.
pub open spec fn next_deadline_of(at: u64, period: u64) -> int {
    at + period
}

/// Ends a run of a periodic task that was due at `fired.at`: unless the task
/// reached its terminal state, it is queued again one period after the cycle
/// it was due at, not after the cycle it actually ran at.
pub fn finish_periodic(q: &mut DeadlineQueue, fired: Entry, period: u64, done: bool) -> (r: Result<
    (),
    SchedError,
>)
    requires
        old(q).wf(),
    ensures
        final(q).wf(),
        final(q).spec_capacity() == old(q).spec_capacity(),
        done ==> r is Ok && final(q)@ == old(q)@,
        !done && next_deadline_of(fired.at, period) > u64::MAX ==> r == Err::<(), SchedError>(
            SchedError::Overflow,
        ) && final(q)@ == old(q)@,
        !done && next_deadline_of(fired.at, period) <= u64::MAX && old(q)@.len()
            == old(q).spec_capacity() ==> r == Err::<(), SchedError>(SchedError::Full) && final(q)@
            == old(q)@,
        !done && next_deadline_of(fired.at, period) <= u64::MAX && old(q)@.len() < old(
            q,
        ).spec_capacity() ==> r is Ok && final(q)@ == inserted(
            old(q)@,
            Entry { at: (fired.at + period) as u64, task: fired.task },
        ),
{
    if done {
        return Ok(());
    }
    match fired.at.checked_add(period) {
        None => Err(SchedError::Overflow),
        Some(at) => q.schedule(at, fired.task),
    }
}

/// One pass of the service loop at cycle `now`: the due entry, if any, is
/// taken out and queued again one period after its deadline. Returns the
/// queue after the pass and the deadline of the run, if one ran.
pub open spec fn serve(s: Seq<Entry>, now: u64, period: u64) -> (Seq<Entry>, Option<u64>) {
    let (rest, e) = popped(s, now);
    match e {
        Some(f) => (
            inserted(rest, Entry { at: (f.at + period) as u64, task: f.task }),
            Some(f.at),
        ),
        None => (rest, None),
    }
}

/// The deadlines of the runs over a sequence of passes at cycles `nows`.
pub open spec fn fired(s: Seq<Entry>, nows: Seq<u64>, period: u64) -> Seq<u64>
    decreases nows.len(),
{
    if nows.len() == 0 {
        Seq::empty()
    } else {
        let (s1, f) = serve(s, nows[0], period);
        let rest = fired(s1, nows.drop_first(), period);
        match f {
            Some(d) => seq![d] + rest,
            None => rest,
        }
    }
}

/// Rescheduling by absolute deadline does not drift: a periodic task queued
/// alone at `d0` runs at `d0`, `d0 + period`, `d0 + 2 * period`, ... however
/// late each pass of the service loop comes.
pub proof fn lemma_drift_free(d0: u64, task: usize, period: u64, nows: Seq<u64>)
    requires
        d0 + nows.len() * period <= u64::MAX,
    ensures
        forall|k: int|
            0 <= k < fired(seq![Entry { at: d0, task }], nows, period).len() ==> #[trigger] fired(
                seq![Entry { at: d0, task }],
                nows,
                period,
            )[k] == d0 + k * period,
    decreases nows.len(),
{
    let s = seq![Entry { at: d0, task }];
    if nows.len() > 0 {
        let rest_nows = nows.drop_first();
        assert(d0 + rest_nows.len() * period <= u64::MAX) by (nonlinear_arith)
            requires
                d0 + nows.len() * period <= u64::MAX,
                rest_nows.len() == nows.len() - 1,
                period >= 0,
        ;
        if d0 <= nows[0] {
            assert(d0 + period <= u64::MAX) by (nonlinear_arith)
                requires
                    d0 + nows.len() * period <= u64::MAX,
                    nows.len() >= 1,
                    period >= 0,
            ;
            let d1 = (d0 + period) as u64;
            let e1 = Entry { at: d1, task };
            let empty = Seq::<Entry>::empty();
            assert(s.drop_first() =~= empty);
            assert(insert_pos(empty, d1, 0));
            lemma_insert_pos_unique(empty, d1, choose|p: int| insert_pos(empty, d1, p), 0);
            assert(inserted(empty, e1) =~= seq![e1]);
            assert(popped(s, nows[0]) == (empty, Some(Entry { at: d0, task })));
            assert(serve(s, nows[0], period) == (seq![e1], Some(d0)));
            assert(d1 + rest_nows.len() * period <= u64::MAX) by (nonlinear_arith)
                requires
                    d0 + nows.len() * period <= u64::MAX,
                    rest_nows.len() == nows.len() - 1,
                    d1 == d0 + period,
            ;
            lemma_drift_free(d1, task, period, rest_nows);
            let f = fired(s, nows, period);
            let r = fired(seq![e1], rest_nows, period);
            assert(f =~= seq![d0] + r);
            assert forall|k: int| 0 <= k < f.len() implies #[trigger] f[k] == d0 + k * period by {
                if k > 0 {
                    assert(f[k] == r[k - 1]);
                    assert(d1 + (k - 1) * period == d0 + k * period) by (nonlinear_arith)
                        requires
                            d1 == d0 + period,
                    ;
                }
            }
        } else {
            assert(serve(s, nows[0], period) == (s, None::<u64>));
            assert(fired(s, nows, period) == fired(s, rest_nows, period));
            lemma_drift_free(d0, task, period, rest_nows);
        }
    }
}

/// Extends a free-running 32-bit cycle counter to a 64-bit count of the
/// cycles elapsed since the clock was started, for counter readings taken
/// less than one counter period apart.
pub struct CycleClock {
    raw: u32,
    ticks: u64,
}

/// Cycles from counter reading `from` to reading `to`, modulo the counter period.
pub open spec fn elapsed(from: u32, to: u32) -> int {
    if to >= from {
        to - from
    } else {
        to + 0x1_0000_0000 - from
    }
}

impl CycleClock {
    pub closed spec fn spec_ticks(&self) -> u64 {
        self.ticks
    }

    pub closed spec fn spec_raw(&self) -> u32 {
        self.raw
    }

    /// A clock at zero, started at counter reading `raw`.
    pub fn new(raw: u32) -> (c: CycleClock)
        ensures
            c.spec_ticks() == 0,
            c.spec_raw() == raw,
    {
        CycleClock { raw, ticks: 0 }
    }

    /// Advances by the cycles since the previous reading and returns the count.
    pub fn observe(&mut self, raw: u32) -> (t: u64)
        requires
            old(self).spec_ticks() + 0x1_0000_0000 <= u64::MAX,
        ensures
            t == final(self).spec_ticks(),
            final(self).spec_ticks() == old(self).spec_ticks() + elapsed(old(self).spec_raw(), raw),
            final(self).spec_raw() == raw,
    {
        let d: u64 = if raw >= self.raw {
            (raw - self.raw) as u64
        } else {
            raw as u64 + 0x1_0000_0000 - self.raw as u64
        };
        self.ticks = self.ticks + d;
        self.raw = raw;
        self.ticks
    }

    pub fn ticks(&self) -> (t: u64)
        ensures
            t == self.spec_ticks(),
    {
        self.ticks
    }
}

} // verus!
