use vstd::prelude::*;
use crate::phys::particles::{
    collided_pair, collides, lemma_collided_pair_movable, Particle, ParticleColor, POS_LIMIT,
    SPEED_LIMIT, R_LIMIT, DT_LIMIT,
};
use rand_core::RngCore;
use wyhash::WyRng;

verus! {

/// One resolved event of a collision pass.
#[derive(Debug, Clone, Copy, PartialEq, Eq, Structural)]
pub enum Contact {
    /// The particle at this index bounced from a wall.
    Wall(usize),
    /// The particles at these indices (first one lower) collided with each other.
    Pair(usize, usize),
}

impl Contact {
    pub open spec fn involves(self, k: int) -> bool {
        match self {
            Contact::Wall(i) => i == k,
            Contact::Pair(i, j) => i == k || j == k,
        }
    }

    /// What the event did, from the ensemble `before` to the ensemble `after`.
    pub open spec fn applied(
        self,
        before: Seq<Particle>,
        after: Seq<Particle>,
        xmin: int,
        xmax: int,
        ymin: int,
        ymax: int,
    ) -> bool {
        match self {
            Contact::Wall(k) => {
                &&& k < before.len()
                &&& before[k as int]@.hits_wall(xmin, xmax, ymin, ymax)
                &&& after[k as int]@ == before[k as int]@.bounced(xmin, xmax, ymin, ymax)
            },
            Contact::Pair(i, j) => {
                &&& i < j < before.len()
                &&& collides(before[i as int]@, before[j as int]@)
                &&& (after[i as int]@, after[j as int]@) == collided_pair(
                    before[i as int]@,
                    before[j as int]@,
                )
            },
        }
    }
}

/// No event of `cs` involves particle `k`.
pub open spec fn untouched(cs: Seq<Contact>, k: int) -> bool {
    forall|t: int| 0 <= t < cs.len() ==> !(#[trigger] cs[t]).involves(k)
}

/// No particle takes part in two events of `cs`.
pub open spec fn at_most_once(cs: Seq<Contact>) -> bool {
    forall|t1: int, t2: int, k: int|
        0 <= t1 < t2 < cs.len() && #[trigger] cs[t1].involves(k) ==> !#[trigger] cs[t2].involves(k)
}

pub open spec fn all_in_range(s: Seq<Particle>) -> bool {
    forall|k: int| 0 <= k < s.len() ==> (#[trigger] s[k])@.in_range()
}

pub open spec fn all_movable(s: Seq<Particle>) -> bool {
    forall|k: int| 0 <= k < s.len() ==> (#[trigger] s[k])@.movable()
}

/// The events `cs` account for every difference between `o` and `e`.
spec fn consistent(
    o: Seq<Particle>,
    e: Seq<Particle>,
    cs: Seq<Contact>,
    xmin: int,
    xmax: int,
    ymin: int,
    ymax: int,
) -> bool {
    &&& e.len() == o.len()
    &&& at_most_once(cs)
    &&& forall|t: int, k: int|
        0 <= t < cs.len() && #[trigger] cs[t].involves(k) ==> 0 <= k < o.len() && !o[k]@.collided
            && e[k]@.collided
    &&& forall|t: int|
        0 <= t < cs.len() ==> (#[trigger] cs[t]).applied(o, e, xmin, xmax, ymin, ymax)
    &&& forall|k: int| 0 <= k < o.len() && untouched(cs, k) ==> (#[trigger] e[k])@ == o[k]@
}

/// Appending one event that touches only particles no earlier event touched
/// keeps the record consistent.
proof fn lemma_record(
    o: Seq<Particle>,
    before: Seq<Particle>,
    after: Seq<Particle>,
    cs0: Seq<Contact>,
    cs1: Seq<Contact>,
    xmin: int,
    xmax: int,
    ymin: int,
    ymax: int,
)
    requires
        consistent(o, before, cs0, xmin, xmax, ymin, ymax),
        cs1.len() == cs0.len() + 1,
        cs1.subrange(0, cs0.len() as int) == cs0,
        after.len() == before.len(),
        forall|k: int|
            0 <= k < after.len() && !cs1[cs0.len() as int].involves(k) ==> (#[trigger] after[k])@
                == before[k]@,
        forall|k: int|
            #[trigger] cs1[cs0.len() as int].involves(k) ==> 0 <= k < o.len() && untouched(cs0, k)
                && !o[k]@.collided && after[k]@.collided,
        cs1[cs0.len() as int].applied(o, after, xmin, xmax, ymin, ymax),
    ensures
        consistent(o, after, cs1, xmin, xmax, ymin, ymax),
        forall|k: int| #[trigger] untouched(cs1, k) ==> untouched(cs0, k),
        forall|k: int| cs1[cs0.len() as int].involves(k) ==> !#[trigger] untouched(cs1, k),
{
    let m = cs0.len() as int;
    assert forall|t: int| 0 <= t < m implies cs1[t] == cs0[t] by {
        assert(cs1.subrange(0, m)[t] == cs1[t]);
    }
    assert forall|k: int| #[trigger] untouched(cs1, k) implies untouched(cs0, k) by {
        assert forall|t: int| 0 <= t < cs0.len() implies !(#[trigger] cs0[t]).involves(k) by {
            assert(cs1[t] == cs0[t]);
            assert(!cs1[t].involves(k));
        }
    }
    assert forall|t1: int, t2: int, k: int|
        0 <= t1 < t2 < cs1.len() && #[trigger] cs1[t1].involves(k) implies !#[trigger] cs1[t2].involves(
        k) by {
        if t2 == m {
            assert(cs0[t1].involves(k));
        } else {
            assert(cs1[t1] == cs0[t1]);
            assert(cs1[t2] == cs0[t2]);
        }
    }
    assert forall|t: int, k: int|
        0 <= t < cs1.len() && #[trigger] cs1[t].involves(k) implies 0 <= k < o.len()
        && !o[k]@.collided && after[k]@.collided by {
        if t < m {
            assert(cs1[t] == cs0[t]);
            assert(!untouched(cs0, k));
            assert(before[k]@.collided);
            assert(!cs1[m].involves(k));
        }
    }
    assert forall|t: int| 0 <= t < cs1.len() implies (#[trigger] cs1[t]).applied(
        o,
        after,
        xmin,
        xmax,
        ymin,
        ymax,
    ) by {
        if t < m {
            assert(cs1[t] == cs0[t]);
            assert(cs0[t].applied(o, before, xmin, xmax, ymin, ymax));
            match cs0[t] {
                Contact::Wall(k) => {
                    assert(cs0[t].involves(k as int));
                    assert(!cs1[m].involves(k as int));
                },
                Contact::Pair(k, l) => {
                    assert(cs0[t].involves(k as int));
                    assert(cs0[t].involves(l as int));
                    assert(!cs1[m].involves(k as int));
                    assert(!cs1[m].involves(l as int));
                },
            }
        }
    }
    assert forall|k: int| 0 <= k < o.len() && untouched(cs1, k) implies (#[trigger] after[k])@
        == o[k]@ by {
        assert(!cs1[m].involves(k));
        assert(untouched(cs0, k));
    }
}

/// The first particle after `i` that has not collided yet and collides with particle `i`.
fn first_partner(ens: &Vec<Particle>, i: usize) -> (r: Option<usize>)
    requires
        i < ens@.len(),
        ens@[i as int]@.in_range(),
        forall|l: int| 0 <= l < ens@.len() && !ens@[l]@.collided ==> (#[trigger] ens@[l])@.in_range(),
    ensures
        match r {
            Some(j) => {
                &&& i < j < ens@.len()
                &&& !ens@[j as int]@.collided
                &&& collides(ens@[i as int]@, ens@[j as int]@)
                &&& forall|l: int|
                    i < l < j && !ens@[l]@.collided ==> !collides(
                        ens@[i as int]@,
                        #[trigger] ens@[l]@,
                    )
            },
            None => forall|l: int|
                i < l < ens@.len() && !ens@[l]@.collided ==> !collides(
                    ens@[i as int]@,
                    #[trigger] ens@[l]@,
                ),
        },
{
    let n = ens.len();
    let mut j: usize = i + 1;
    while j < n
        invariant
            n == ens@.len(),
            i < j <= n,
            ens@[i as int]@.in_range(),
            forall|l: int| 0 <= l < ens@.len() && !ens@[l]@.collided ==> (#[trigger] ens@[l])@.in_range(),
            forall|l: int|
                i < l < j && !ens@[l]@.collided ==> !collides(ens@[i as int]@, #[trigger] ens@[l]@),
        decreases n - j,
    {
        if !ens[j].collided() && Particle::will_collide(&ens[i], &ens[j]) {
            return Some(j);
        }
        j = j + 1;
    }
    None
}

/// One collision pass over an ensemble.
///
/// Particles are visited in index order. A particle that has already
/// collided in this step is skipped; otherwise it is first checked against
/// the walls, and if it does not bounce, against every later particle that
/// has not collided yet, the first colliding partner winning. The returned
/// events say what happened: every particle takes part in at most one event,
/// a particle in no event is left as it was, and among the particles left
/// untouched that had not collided before, none touches a wall and no two of
/// them collide.
pub fn resolve(ens: &mut Vec<Particle>, xmin: i64, xmax: i64, ymin: i64, ymax: i64) -> (cs: Vec<
    Contact,
>)
    requires
        all_in_range(old(ens)@),
        -POS_LIMIT <= xmin < xmax <= POS_LIMIT,
        -POS_LIMIT <= ymin < ymax <= POS_LIMIT,
    ensures
        final(ens)@.len() == old(ens)@.len(),
        at_most_once(cs@),
        forall|t: int, k: int|
            0 <= t < cs@.len() && #[trigger] cs@[t].involves(k) ==> 0 <= k < old(ens)@.len()
                && !old(ens)@[k]@.collided,
        forall|t: int|
            0 <= t < cs@.len() ==> (#[trigger] cs@[t]).applied(
                old(ens)@,
                final(ens)@,
                xmin as int,
                xmax as int,
                ymin as int,
                ymax as int,
            ),
        forall|k: int|
            0 <= k < old(ens)@.len() && untouched(cs@, k) ==> (#[trigger] final(ens)@[k])@ == old(
                ens,
            )@[k]@,
        forall|k: int|
            0 <= k < old(ens)@.len() && untouched(cs@, k) && !old(ens)@[k]@.collided
                ==> !(#[trigger] old(ens)@[k])@.hits_wall(
                xmin as int,
                xmax as int,
                ymin as int,
                ymax as int,
            ),
        forall|k: int, l: int|
            0 <= k < l < old(ens)@.len() && untouched(cs@, k) && untouched(cs@, l) && !old(
                ens,
            )@[k]@.collided && !old(ens)@[l]@.collided ==> !collides(
                #[trigger] old(ens)@[k]@,
                #[trigger] old(ens)@[l]@,
            ),
        all_movable(final(ens)@),
{
    let ghost o = ens@;
    let n = ens.len();
    let mut cs: Vec<Contact> = Vec::new();
    let mut i: usize = 0;
    while i < n
        invariant
            n == o.len(),
            -POS_LIMIT <= xmin < xmax <= POS_LIMIT,
            -POS_LIMIT <= ymin < ymax <= POS_LIMIT,
            i <= n,
            pass_inv(o, ens@, cs@, i as int, xmin as int, xmax as int, ymin as int, ymax as int),
        decreases n - i,
    {
        visit(ens, &mut cs, i, xmin, xmax, ymin, ymax, Ghost(o));
        i = i + 1;
    }
    cs
}

/// Everything that holds after the particles before index `i` were visited.
spec fn pass_inv(
    o: Seq<Particle>,
    e: Seq<Particle>,
    cs: Seq<Contact>,
    i: int,
    xmin: int,
    xmax: int,
    ymin: int,
    ymax: int,
) -> bool {
    &&& all_in_range(o)
    &&& consistent(o, e, cs, xmin, xmax, ymin, ymax)
    &&& forall|k: int|
        0 <= k < i && untouched(cs, k) && !o[k]@.collided ==> !(#[trigger] o[k])@.hits_wall(
            xmin,
            xmax,
            ymin,
            ymax,
        )
    &&& forall|k: int, l: int|
        0 <= k < i && k < l < o.len() && untouched(cs, k) && untouched(cs, l) && !o[k]@.collided
            && !o[l]@.collided ==> !collides(#[trigger] o[k]@, #[trigger] o[l]@)
    &&& all_movable(e)
}

/// Visits particle `i`: a wall check, then the search for a partner.
fn visit(
    ens: &mut Vec<Particle>,
    cs: &mut Vec<Contact>,
    i: usize,
    xmin: i64,
    xmax: i64,
    ymin: i64,
    ymax: i64,
    o: Ghost<Seq<Particle>>,
)
    requires
        i < o@.len(),
        -POS_LIMIT <= xmin < xmax <= POS_LIMIT,
        -POS_LIMIT <= ymin < ymax <= POS_LIMIT,
        pass_inv(o@, old(ens)@, old(cs)@, i as int, xmin as int, xmax as int, ymin as int, ymax as int),
    ensures
        pass_inv(o@, final(ens)@, final(cs)@, i + 1, xmin as int, xmax as int, ymin as int, ymax as int),
{
    let ghost o = o@;
    let n = ens.len();
        let ghost cs0 = cs@;
    let ghost e0 = ens@;
    if !ens[i].collided() {
        proof {
            assert forall|t: int| 0 <= t < cs@.len() implies !(#[trigger] cs@[t]).involves(
                i as int,
            ) by {
                if cs@[t].involves(i as int) {
                    assert(ens@[i as int]@.collided);
                }
            }
        }
        let mut p = ens[i];
        if Particle::bounce(&mut p, xmin, xmax, ymin, ymax) {
            ens.set(i, p);
            cs.push(Contact::Wall(i));
            proof {
                assert(cs@.subrange(0, cs0.len() as int) =~= cs0);
                lemma_record(o, e0, ens@, cs0, cs@, xmin as int, xmax as int, ymin as int, ymax as int);
            }
        } else {
            proof {
                assert forall|l: int| 0 <= l < ens@.len() && !ens@[l]@.collided implies (
                #[trigger] ens@[l])@.in_range() by {
                    if !untouched(cs@, l) {
                        let t = choose|t: int| 0 <= t < cs@.len() && #[trigger] cs@[t].involves(l);
                        assert(ens@[l]@.collided);
                    }
                    assert(ens@[l]@ == o[l]@);
                }
            }
            match first_partner(ens, i) {
                Some(j) => {
                    proof {
                        assert forall|t: int| 0 <= t < cs@.len() implies !(#[trigger] cs@[t]).involves(
                            j as int,
                        ) by {
                            if cs@[t].involves(j as int) {
                                assert(ens@[j as int]@.collided);
                            }
                        }
                        lemma_collided_pair_movable(o[i as int]@, o[j as int]@);
                    }
                    let mut pi = ens[i];
                    let mut q = ens[j];
                    Particle::collide(&mut pi, &mut q);
                    ens.set(i, pi);
                    ens.set(j, q);
                    cs.push(Contact::Pair(i, j));
                    proof {
                        assert(cs@.subrange(0, cs0.len() as int) =~= cs0);
                        lemma_record(o, e0, ens@, cs0, cs@, xmin as int, xmax as int, ymin as int, ymax as int);
                    }
                },
                None => {
                    proof {
                        assert forall|l: int|
                            i < l < n && untouched(cs@, l) && !o[l]@.collided implies !collides(
                            o[i as int]@,
                            #[trigger] o[l]@,
                        ) by {
                            assert(ens@[l]@ == o[l]@);
                        }
                    }
                },
            }
        }
    }
}

/// Sum of the energies of the particles of `s`.
pub open spec fn energy_sum(s: Seq<Particle>) -> int
    decreases s.len(),
{
    if s.len() == 0 {
        0
    } else {
        energy_sum(s.drop_last()) + s.last()@.energy()
    }
}

/// Total energy of an ensemble.
pub fn total_energy(ens: &Vec<Particle>) -> (e: i128)
    requires
        all_movable(ens@),
    ensures
        e == energy_sum(ens@),
{
    let n = ens.len();
    let mut sum: i128 = 0;
    let mut i: usize = 0;
    while i < n
        invariant
            n == ens@.len(),
            i <= n,
            all_movable(ens@),
            sum == energy_sum(ens@.subrange(0, i as int)),
            0 <= sum <= i * 0x8000_0000_0000_0000,
        decreases n - i,
    {
        let e = ens[i].energy();
        proof {
            let p = ens@[i as int]@;
            assert(0 <= p.vx * p.vx <= 0x1000_0000_0000_0000) by (nonlinear_arith)
                requires
                    -SPEED_LIMIT <= p.vx <= SPEED_LIMIT,
            ;
            assert(0 <= p.vy * p.vy <= 0x1000_0000_0000_0000) by (nonlinear_arith)
                requires
                    -SPEED_LIMIT <= p.vy <= SPEED_LIMIT,
            ;
            assert(ens@.subrange(0, i + 1).drop_last() =~= ens@.subrange(0, i as int));
            assert(i * 0x8000_0000_0000_0000 + 0x8000_0000_0000_0000 == (i + 1)
                * 0x8000_0000_0000_0000) by (nonlinear_arith);
            assert((i + 1) * 0x8000_0000_0000_0000 <= 0x1_0000_0000_0000_0000
                * 0x8000_0000_0000_0000) by (nonlinear_arith)
                requires
                    i + 1 <= 0x1_0000_0000_0000_0000,
            ;
        }
        sum = sum + e as i128;
        i = i + 1;
    }
    assert(ens@.subrange(0, n as int) =~= ens@);
    sum
}

/// Advances every particle by one time increment.
pub fn advance(ens: &mut Vec<Particle>)
    requires
        all_movable(old(ens)@),
    ensures
        final(ens)@.len() == old(ens)@.len(),
        forall|k: int|
            0 <= k < old(ens)@.len() ==> (#[trigger] final(ens)@[k])@ == old(ens)@[k]@.stepped(),
{
    let ghost o = ens@;
    let n = ens.len();
    let mut i: usize = 0;
    while i < n
        invariant
            n == o.len(),
            ens@.len() == n,
            i <= n,
            all_movable(o),
            forall|k: int| 0 <= k < i ==> (#[trigger] ens@[k])@ == o[k]@.stepped(),
            forall|k: int| i <= k < n ==> (#[trigger] ens@[k]) == o[k],
        decreases n - i,
    {
        let mut p = ens[i];
        p.step();
        ens.set(i, p);
        i = i + 1;
    }
}

#[verifier::external_type_specification]
#[verifier::external_body]
pub struct ExWyRng(WyRng);

/// Relies on `rand_core::RngCore::fill_bytes` as `wyhash::WyRng` implements
/// it: four bytes drawn from the generator, which also advances. Nothing is
/// known of their values.
#[verifier::external_body]
fn random_bytes(rng: &mut WyRng) -> (b: [u8; 4]) {
    let mut b: [u8; 4] = [0; 4];
    rng.fill_bytes(&mut b);
    b
}

/// The display tag of the particle at index `k` of a random ensemble: the
/// first four stand out, the rest are green.
pub open spec fn seeded_color(k: int) -> ParticleColor {
    if k == 0 {
        ParticleColor::Red
    } else if k == 1 {
        ParticleColor::Blue
    } else if k == 2 {
        ParticleColor::Yellow
    } else if k == 3 {
        ParticleColor::White
    } else {
        ParticleColor::Green
    }
}

/// `n` particles of radius `r` and time step `dt`, each placed from four
/// random bytes by `Particle::from_bytes`; the first four are recoloured so
/// that their motion is easy to follow.
pub fn random_ensemble(rng: &mut WyRng, n: usize, r: i64, dt: i64) -> (ens: Vec<Particle>)
    requires
        0 < r <= R_LIMIT,
        0 <= dt <= DT_LIMIT,
    ensures
        ens@.len() == n,
        forall|k: int|
            0 <= k < n ==> {
                let p = (#[trigger] ens@[k])@;
                &&& 0 <= p.px < 128
                &&& 0 <= p.py < 128
                &&& 1 <= p.vx <= 16
                &&& 1 <= p.vy <= 16
                &&& p.r == r
                &&& p.dt == dt
                &&& !p.collided
                &&& p.color == seeded_color(k)
            },
        all_in_range(ens@),
{
    let mut ens: Vec<Particle> = Vec::new();
    let mut i: usize = 0;
    while i < n
        invariant
            i <= n,
            ens@.len() == i,
            0 < r <= R_LIMIT,
            0 <= dt <= DT_LIMIT,
            forall|k: int|
                0 <= k < i ==> {
                    let p = (#[trigger] ens@[k])@;
                    &&& 0 <= p.px < 128
                    &&& 0 <= p.py < 128
                    &&& 1 <= p.vx <= 16
                    &&& 1 <= p.vy <= 16
                    &&& p.r == r
                    &&& p.dt == dt
                    &&& !p.collided
                    &&& p.color == seeded_color(k)
                },
        decreases n - i,
    {
        let b = random_bytes(rng);
        let mut p = Particle::from_bytes(b, r, dt, ParticleColor::Green);
        if i == 0 {
            p.set_color(ParticleColor::Red);
        } else if i == 1 {
            p.set_color(ParticleColor::Blue);
        } else if i == 2 {
            p.set_color(ParticleColor::Yellow);
        } else if i == 3 {
            p.set_color(ParticleColor::White);
        }
        ens.push(p);
        i = i + 1;
    }
    ens
}

/// Number of particle-particle collisions among the events `cs`.
pub open spec fn pair_count(cs: Seq<Contact>) -> nat
    decreases cs.len(),
{
    if cs.len() == 0 {
        0
    } else {
        pair_count(cs.drop_last()) + if cs.last() is Pair {
            1nat
        } else {
            0nat
        }
    }
}

/// Counts the particle-particle collisions among the events of a pass.
pub fn pairs(cs: &Vec<Contact>) -> (n: usize)
    ensures
        n == pair_count(cs@),
{
    let mut n: usize = 0;
    let mut i: usize = 0;
    while i < cs.len()
        invariant
            i <= cs@.len(),
            n == pair_count(cs@.subrange(0, i as int)),
            n <= i,
        decreases cs@.len() - i,
    {
        assert(cs@.subrange(0, i + 1).drop_last() =~= cs@.subrange(0, i as int));
        if let Contact::Pair(_, _) = cs[i] {
            n = n + 1;
        }
        i = i + 1;
    }
    assert(cs@.subrange(0, i as int) =~= cs@);
    n
}

} // verus!
