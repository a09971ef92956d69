//! The trail buffer and the simulation pass.
//!
//! One flat buffer holds `particles * trail_length` records; the records of
//! particle `p` occupy the contiguous slice of slots `p * trail_length`
//! up to (excluding) `(p + 1) * trail_length`, ordered oldest first.  A
//! simulation step for one particle shifts that slice one slot towards the
//! front (tail-push: the oldest sample is discarded, the newest stays at
//! the highest index) and integrates a new head state into the last slot.
//! Slices of distinct particles are disjoint, so the per-particle steps are
//! independent of one another.

use crate::lorenz::{integrate, lorenz_step_s};
use crate::rational::{Q, qs_le};
use crate::vec3::{Qv, V3, V3v};
use vstd::arithmetic::div_mod::lemma_fundamental_div_mod;
use vstd::arithmetic::mul::{
    lemma_mul_inequality, lemma_mul_is_distributive_add_other_way, lemma_mul_nonnegative,
};
use vstd::prelude::*;

verus! {

/// The simulation's only failure: an exact rational outgrew its 64-bit
/// representation.  Divergence of the attractor itself is not an error.
#[derive(Clone, Copy, PartialEq, Eq, Structural, Debug)]
pub struct Overflow;

/// One stored sample: a position and the auxiliary scalar (the squared
/// speed computed by the integrator, `0` for seeded records).
#[derive(Clone, Copy, PartialEq, Eq, Structural, Debug)]
pub struct TrailRecord {
    pub pos: V3,
    pub aux: Q,
}

impl TrailRecord {
    /// All rational components are well-formed.
    pub open spec fn wf(self) -> bool {
        self.pos.wf() && self.aux.wf()
    }
}

/// The flat arena of trail records shared by the simulation pass and the
/// render pass.
pub struct TrailBuffer {
    pub particles: usize,
    pub trail_length: usize,
    pub records: Vec<TrailRecord>,
}

/// The exact rational whose value is the unbounded pair `v`; meaningful
/// when both components fit 64 bits.
pub open spec fn q_of(v: Qv) -> Q {
    Q { num: v.0 as i64, den: v.1 as i64 }
}

/// The record holding the integrator output `t` (position and auxiliary
/// scalar).
pub open spec fn rec_of(t: (V3v, Qv)) -> TrailRecord {
    TrailRecord { pos: V3 { x: q_of(t.0.0), y: q_of(t.0.1), z: q_of(t.0.2) }, aux: q_of(t.1) }
}

/// The record of particle `p` at age `a` (age `len - 1` is the newest).
pub open spec fn rec_at(s: Seq<TrailRecord>, len: int, p: int, a: int) -> TrailRecord {
    s[p * len + a]
}

/// The integrator step taken from particle `p`'s newest record in `s`.
pub open spec fn step_of(s: Seq<TrailRecord>, len: int, p: int, dt: Qv, scale: Qv) -> Option<
    (V3v, Qv),
> {
    lorenz_step_s(rec_at(s, len, p, len - 1).pos.v(), dt, scale)
}

/// Every particle's next step stays within the representation.
pub open spec fn advance_ok_s(
    s: Seq<TrailRecord>,
    len: int,
    particles: int,
    dt: Qv,
    scale: Qv,
) -> bool {
    forall|p: int| 0 <= p < particles ==> (#[trigger] step_of(s, len, p, dt, scale)) is Some
}

/// `s_new` is `s_old` with exactly particle `p` advanced one step: its
/// slice shifted one slot forward, its head slot re-integrated, everything
/// outside its slice untouched.
pub open spec fn advanced_one(
    s_old: Seq<TrailRecord>,
    s_new: Seq<TrailRecord>,
    len: int,
    p: int,
    dt: Qv,
    scale: Qv,
) -> bool {
    &&& s_new.len() == s_old.len()
    &&& step_of(s_old, len, p, dt, scale) is Some
    &&& forall|j: int|
        0 <= j < len - 1 ==> #[trigger] rec_at(s_new, len, p, j) == rec_at(s_old, len, p, j + 1)
    &&& rec_at(s_new, len, p, len - 1) == rec_of(step_of(s_old, len, p, dt, scale)->Some_0)
    &&& forall|k: int|
        0 <= k < s_old.len() && !(p * len <= k < p * len + len) ==> s_new[k] == s_old[k]
}

/// `s_new` is `s_old` with every particle advanced one step.
pub open spec fn advanced_all(
    s_old: Seq<TrailRecord>,
    s_new: Seq<TrailRecord>,
    len: int,
    particles: int,
    dt: Qv,
    scale: Qv,
) -> bool {
    &&& s_new.len() == s_old.len()
    &&& forall|p: int, j: int|
        0 <= p < particles && 0 <= j < len - 1 ==> #[trigger] rec_at(s_new, len, p, j) == rec_at(
            s_old,
            len,
            p,
            j + 1,
        )
    &&& forall|p: int|
        0 <= p < particles ==> #[trigger] rec_at(s_new, len, p, len - 1) == rec_of(
            step_of(s_old, len, p, dt, scale)->Some_0,
        )
}

/// The whole buffer advanced one step, as a function of the old contents.
pub open spec fn advance_s(s: Seq<TrailRecord>, len: int, dt: Qv, scale: Qv) -> Seq<TrailRecord> {
    Seq::new(
        s.len(),
        |k: int|
            if k % len == len - 1 {
                rec_of(step_of(s, len, k / len, dt, scale)->Some_0)
            } else {
                s[k + 1]
            },
    )
}

/// `n` sub-steps of size `dt`, each a full `advance_s` over the result of
/// the previous one; `None` as soon as one of them overflows.
pub open spec fn iter_advance_s(
    s: Seq<TrailRecord>,
    len: int,
    particles: int,
    dt: Qv,
    scale: Qv,
    n: nat,
) -> Option<Seq<TrailRecord>>
    decreases n,
{
    if n == 0 {
        Some(s)
    } else {
        match iter_advance_s(s, len, particles, dt, scale, (n - 1) as nat) {
            None => None,
            Some(t) => if advance_ok_s(t, len, particles, dt, scale) {
                Some(advance_s(t, len, dt, scale))
            } else {
                None
            },
        }
    }
}

impl TrailBuffer {
    /// Well-formedness: at least one record per particle, ages fit the
    /// rational numerators used by the render pass, the arena holds exactly
    /// `particles * trail_length` records, and every record is well-formed.
    pub open spec fn wf(self) -> bool {
        &&& 1 <= self.trail_length
        &&& self.trail_length as int <= i64::MAX as int
        &&& self.records.len() == self.particles as int * self.trail_length as int
        &&& forall|k: int| 0 <= k < self.records.len() ==> (#[trigger] self.records[k]).wf()
    }
}

/// A seed position component: a well-formed rational within one hundredth
/// of the origin.
pub open spec fn seed_component_ok(c: Q) -> bool {
    c.wf() && qs_le((-1int, 100int), c.v()) && qs_le(c.v(), (1int, 100int))
}

/// A freshly seeded record: a near-origin position and a zero auxiliary
/// scalar.
pub open spec fn seed_rec_ok(rec: TrailRecord) -> bool {
    &&& seed_component_ok(rec.pos.x)
    &&& seed_component_ok(rec.pos.y)
    &&& seed_component_ok(rec.pos.z)
    &&& rec.aux.wf()
    &&& rec.aux.v() == (0int, 1int)
}

/// Relies on rand::Rng::gen_range, called on rand::thread_rng(): the
/// sampled value lies inside the given inclusive range, which `lo <= hi`
/// keeps non-empty.
#[verifier::external_body]
fn random_in_range(lo: i64, hi: i64) -> (r: i64)
    requires
        lo <= hi,
    ensures
        lo <= r <= hi,
{
    rand::Rng::gen_range(&mut rand::thread_rng(), lo..=hi)
}

/// Allocates the arena: every particle gets a random position within one
/// hundredth of the origin, replicated over its whole slice, so each
/// initial trail degenerates to a point; every auxiliary slot starts at
/// zero.
pub fn init_trail_buffer(particles: usize, trail_length: usize) -> (r: TrailBuffer)
    requires
        1 <= trail_length,
        trail_length as int <= i64::MAX as int,
        particles as int * trail_length as int <= usize::MAX as int,
    ensures
        r.wf(),
        r.particles == particles,
        r.trail_length == trail_length,
        forall|p: int, a: int|
            0 <= p < particles && 0 <= a < trail_length ==> #[trigger] rec_at(
                r.records@,
                trail_length as int,
                p,
                a,
            ) == rec_at(r.records@, trail_length as int, p, 0),
        forall|p: int, a: int|
            0 <= p < particles && 0 <= a < trail_length ==> seed_rec_ok(
                #[trigger] rec_at(r.records@, trail_length as int, p, a),
            ),
{
    let leni = trail_length;
    let mut records: Vec<TrailRecord> = Vec::new();
    let mut p: usize = 0;
    while p < particles
        invariant
            1 <= leni,
            leni as int <= i64::MAX as int,
            particles as int * leni as int <= usize::MAX as int,
            0 <= p <= particles,
            records.len() == p as int * leni as int,
            forall|q: int, a: int|
                0 <= q < p && 0 <= a < leni ==> #[trigger] rec_at(records@, leni as int, q, a)
                    == rec_at(records@, leni as int, q, 0),
            forall|q: int, a: int|
                0 <= q < p && 0 <= a < leni ==> seed_rec_ok(
                    #[trigger] rec_at(records@, leni as int, q, a),
                ),
            forall|k: int| 0 <= k < records.len() ==> (#[trigger] records@[k]).wf(),
        decreases particles - p,
    {
        proof {
            lemma_slice_in_bounds(p as int, particles as int, leni as int);
        }
        let sx = random_in_range(-100, 100);
        let sy = random_in_range(-100, 100);
        let sz = random_in_range(-100, 100);
        let rec = TrailRecord {
            pos: V3 {
                x: Q { num: sx, den: 10000 },
                y: Q { num: sy, den: 10000 },
                z: Q { num: sz, den: 10000 },
            },
            aux: Q { num: 0, den: 1 },
        };
        let ghost s_before = records@;
        let mut a: usize = 0;
        while a < leni
            invariant
                0 <= a <= leni,
                records.len() == s_before.len() + a,
                s_before.len() == p as int * leni as int,
                records.len() <= usize::MAX,
                records@.subrange(0, s_before.len() as int) == s_before,
                forall|t: int|
                    0 <= t < a ==> #[trigger] rec_at(records@, leni as int, p as int, t) == rec,
                forall|k: int| 0 <= k < records.len() ==> (#[trigger] records@[k]).wf(),
                rec.wf(),
                p as int * leni as int + leni as int <= particles as int * leni as int,
                particles as int * leni as int <= usize::MAX as int,
            decreases leni - a,
        {
            let ghost r_pre = records@;
            records.push(rec);
            proof {
                let li = leni as int;
                let base = s_before.len() as int;
                assert(records@ == r_pre.push(rec));
                assert(records@.subrange(0, base) =~= s_before);
                assert forall|t: int| 0 <= t < a + 1 implies #[trigger] rec_at(
                    records@,
                    li,
                    p as int,
                    t,
                ) == rec by {
                    if t < a as int {
                        assert(rec_at(r_pre, li, p as int, t) == rec);
                        assert(records@[p as int * li + t] == r_pre[p as int * li + t]);
                    } else {
                        assert(records@[base + t] == rec);
                    }
                }
            }
            a += 1;
        }
        proof {
            let li = leni as int;
            assert forall|q: int, aa: int| 0 <= q < p + 1 && 0 <= aa < li implies #[trigger] rec_at(
                records@,
                li,
                q,
                aa,
            ) == rec_at(records@, li, q, 0) && seed_rec_ok(rec_at(records@, li, q, aa)) by {
                lemma_slice_in_bounds(q, particles as int, li);
                if q < p as int {
                    lemma_mul_inequality(q + 1, p as int, li);
                    lemma_mul_is_distributive_add_other_way(li, q, 1);
                    assert(records@[q * li + aa] == s_before[q * li + aa]);
                    assert(records@[q * li + 0] == s_before[q * li + 0]);
                    assert(rec_at(s_before, li, q, aa) == rec_at(s_before, li, q, 0));
                    assert(seed_rec_ok(rec_at(s_before, li, q, aa)));
                } else {
                    assert(rec_at(records@, li, p as int, aa) == rec);
                    assert(rec_at(records@, li, p as int, 0) == rec);
                    assert(records@[q * li + aa] == rec);
                    assert(records@[q * li + 0] == rec);
                }
            }
            lemma_mul_is_distributive_add_other_way(leni as int, p as int, 1);
        }
        p += 1;
    }
    TrailBuffer { particles, trail_length, records }
}

/// Law: trail slices of distinct particles are disjoint.  For any particle
/// count and any positive trail length, no slot index belongs to the slices
/// of two different particles.
pub proof fn lemma_slices_disjoint(p1: int, p2: int, len: int, a1: int, a2: int)
    requires
        p1 != p2,
        0 <= p1,
        0 <= p2,
        1 <= len,
        0 <= a1 < len,
        0 <= a2 < len,
    ensures
        p1 * len + a1 != p2 * len + a2,
{
    if p1 < p2 {
        lemma_mul_inequality(p1 + 1, p2, len);
        lemma_mul_is_distributive_add_other_way(len, p1, 1);
    } else {
        lemma_mul_inequality(p2 + 1, p1, len);
        lemma_mul_is_distributive_add_other_way(len, p2, 1);
    }
}

/// A slot of particle `p`'s slice lies outside particle `q`'s slice.
proof fn lemma_slot_outside_other_slice(p: int, q: int, len: int, j: int)
    requires
        p != q,
        0 <= p,
        0 <= q,
        1 <= len,
        0 <= j < len,
    ensures
        !(q * len <= p * len + j < q * len + len),
{
    if p < q {
        lemma_mul_inequality(p + 1, q, len);
        lemma_mul_is_distributive_add_other_way(len, p, 1);
    } else {
        lemma_mul_inequality(q + 1, p, len);
        lemma_mul_is_distributive_add_other_way(len, q, 1);
    }
}

/// Law: the steps of distinct particles commute.  Advancing particle `p`
/// and then particle `q` leaves exactly the buffer that advancing `q`
/// first and then `p` leaves: the two steps touch disjoint slices and read
/// no state of one another, so any schedule of the parallel dispatch
/// produces the same result.
pub proof fn lemma_particle_steps_commute(
    s0: Seq<TrailRecord>,
    s1: Seq<TrailRecord>,
    s2: Seq<TrailRecord>,
    t1: Seq<TrailRecord>,
    t2: Seq<TrailRecord>,
    len: int,
    p: int,
    q: int,
    dt: Qv,
    scale: Qv,
)
    requires
        1 <= len,
        0 <= p,
        0 <= q,
        p != q,
        (p + 1) * len <= s0.len(),
        (q + 1) * len <= s0.len(),
        advanced_one(s0, s1, len, p, dt, scale),
        advanced_one(s1, s2, len, q, dt, scale),
        advanced_one(s0, t1, len, q, dt, scale),
        advanced_one(t1, t2, len, p, dt, scale),
    ensures
        s2 == t2,
{
    lemma_mul_is_distributive_add_other_way(len, p, 1);
    lemma_mul_is_distributive_add_other_way(len, q, 1);
    lemma_mul_nonnegative(p, len);
    lemma_mul_nonnegative(q, len);
    // both orders take the same step for each particle, because neither
    // step changes the other particle's newest record
    assert(rec_at(s1, len, q, len - 1) == rec_at(s0, len, q, len - 1)) by {
        lemma_slot_outside_other_slice(q, p, len, len - 1);
    }
    assert(rec_at(t1, len, p, len - 1) == rec_at(s0, len, p, len - 1)) by {
        lemma_slot_outside_other_slice(p, q, len, len - 1);
    }
    assert forall|k: int| 0 <= k < s2.len() implies s2[k] == t2[k] by {
        if p * len <= k < p * len + len {
            let j = k - p * len;
            lemma_slot_outside_other_slice(p, q, len, j);
            assert(s2[k] == s1[k]);
            assert(t1[k] == s0[k]);
            if j < len - 1 {
                assert(rec_at(s1, len, p, j) == rec_at(s0, len, p, j + 1));
                assert(rec_at(t2, len, p, j) == rec_at(t1, len, p, j + 1));
                lemma_slot_outside_other_slice(p, q, len, j + 1);
                assert(t1[p * len + j + 1] == s0[p * len + j + 1]);
            } else {
                assert(rec_at(s1, len, p, len - 1) == rec_of(
                    step_of(s0, len, p, dt, scale)->Some_0,
                ));
                assert(rec_at(t2, len, p, len - 1) == rec_of(
                    step_of(t1, len, p, dt, scale)->Some_0,
                ));
                assert(step_of(t1, len, p, dt, scale) == step_of(s0, len, p, dt, scale));
            }
        } else if q * len <= k < q * len + len {
            let j = k - q * len;
            lemma_slot_outside_other_slice(q, p, len, j);
            assert(t2[k] == t1[k]);
            assert(s1[k] == s0[k]);
            if j < len - 1 {
                assert(rec_at(t1, len, q, j) == rec_at(s0, len, q, j + 1));
                assert(rec_at(s2, len, q, j) == rec_at(s1, len, q, j + 1));
                lemma_slot_outside_other_slice(q, p, len, j + 1);
                assert(s1[q * len + j + 1] == s0[q * len + j + 1]);
            } else {
                assert(rec_at(t1, len, q, len - 1) == rec_of(
                    step_of(s0, len, q, dt, scale)->Some_0,
                ));
                assert(rec_at(s2, len, q, len - 1) == rec_of(
                    step_of(s1, len, q, dt, scale)->Some_0,
                ));
                assert(step_of(s1, len, q, dt, scale) == step_of(s0, len, q, dt, scale));
            }
        } else {
            assert(s1[k] == s0[k]);
            assert(s2[k] == s1[k]);
            assert(t1[k] == s0[k]);
            assert(t2[k] == t1[k]);
        }
    }
    assert(s2 =~= t2);
}

/// The slice of particle `p` lies inside the arena.
proof fn lemma_slice_in_bounds(p: int, particles: int, len: int)
    requires
        0 <= p < particles,
        1 <= len,
    ensures
        0 <= p * len,
        p * len + len <= particles * len,
{
    lemma_mul_nonnegative(p, len);
    lemma_mul_inequality(p + 1, particles, len);
    lemma_mul_is_distributive_add_other_way(len, p, 1);
}

/// Advances particle `id` by one step: shifts its slice one slot forward
/// and writes the integrated state into the freed head slot.  This is the
/// per-particle unit of the simulation pass.  On overflow the buffer is
/// left unchanged.
pub fn compute(points: &mut TrailBuffer, id: usize, dt: Q, scale: Q) -> (r: Result<(), Overflow>)
    requires
        old(points).wf(),
        id < old(points).particles,
        dt.wf(),
        scale.wf(),
    ensures
        final(points).wf(),
        final(points).particles == old(points).particles,
        final(points).trail_length == old(points).trail_length,
        r is Ok <==> step_of(
            old(points).records@,
            old(points).trail_length as int,
            id as int,
            dt.v(),
            scale.v(),
        ) is Some,
        r is Ok ==> advanced_one(
            old(points).records@,
            final(points).records@,
            old(points).trail_length as int,
            id as int,
            dt.v(),
            scale.v(),
        ),
        r is Err ==> *final(points) == *old(points),
{
    let len = points.trail_length;
    proof {
        lemma_slice_in_bounds(id as int, points.particles as int, len as int);
    }
    let n = id * len;
    let head = points.records[n + len - 1];
    let stepped = match integrate(&head.pos, dt, scale) {
        Some(t) => t,
        None => {
            return Err(Overflow);
        },
    };
    let mut j: usize = 0;
    while j < len - 1
        invariant
            points.wf(),
            points.particles == old(points).particles,
            points.trail_length == old(points).trail_length,
            points.trail_length == len,
            points.records.len() == old(points).records.len(),
            id < points.particles,
            n == id as int * len as int,
            n + len <= points.records.len(),
            0 <= j <= len - 1,
            forall|t: int|
                0 <= t < j ==> #[trigger] rec_at(points.records@, len as int, id as int, t)
                    == rec_at(old(points).records@, len as int, id as int, t + 1),
            forall|k: int|
                0 <= k < points.records.len() && !(n <= k < n + j) ==> points.records@[k] == old(
                    points,
                ).records@[k],
        decreases len - 1 - j,
    {
        let ghost s_pre = points.records@;
        let v = points.records[n + j + 1];
        points.records[n + j] = v;
        proof {
            let leni = len as int;
            let pi = id as int;
            assert(points.records@ == s_pre.update(n as int + j as int, v));
            assert forall|t: int| 0 <= t < j + 1 implies #[trigger] rec_at(
                points.records@,
                leni,
                pi,
                t,
            ) == rec_at(old(points).records@, leni, pi, t + 1) by {
                if t < j as int {
                    assert(rec_at(s_pre, leni, pi, t) == rec_at(
                        old(points).records@,
                        leni,
                        pi,
                        t + 1,
                    ));
                    assert(points.records@[pi * leni + t] == s_pre[pi * leni + t]);
                } else {
                    assert(points.records@[pi * leni + t] == v);
                    assert(s_pre[n as int + j as int + 1] == old(points).records@[n as int
                        + j as int + 1]);
                }
            }
        }
        j += 1;
    }
    let ghost s_shift = points.records@;
    points.records[n + len - 1] = TrailRecord { pos: stepped.0, aux: stepped.1 };
    proof {
        let lo = old(points).records@;
        let ln = points.records@;
        let leni = len as int;
        let pi = id as int;
        assert(ln == s_shift.update(n as int + len as int - 1, TrailRecord {
            pos: stepped.0,
            aux: stepped.1,
        }));
        assert(rec_of(step_of(lo, leni, pi, dt.v(), scale.v())->Some_0) == (TrailRecord {
            pos: stepped.0,
            aux: stepped.1,
        }));
        assert forall|jj: int| 0 <= jj < leni - 1 implies #[trigger] rec_at(ln, leni, pi, jj)
            == rec_at(lo, leni, pi, jj + 1) by {
            assert(rec_at(s_shift, leni, pi, jj) == rec_at(lo, leni, pi, jj + 1));
            assert(ln[pi * leni + jj] == s_shift[pi * leni + jj]);
        }
        assert(rec_at(ln, leni, pi, leni - 1) == rec_of(
            step_of(lo, leni, pi, dt.v(), scale.v())->Some_0,
        ));
        assert forall|k: int| 0 <= k < lo.len() && !(pi * leni <= k < pi * leni + leni) implies
            ln[k] == lo[k] by {
            assert(s_shift[k] == lo[k]);
        }
    }
    Ok(())
}

/// One full simulation dispatch: advances every particle by one step of
/// size `dt`.  Either every particle advances (`Ok`) or the step of some
/// particle overflows and the buffer is left unchanged (`Err`).
pub fn dispatch(points: &mut TrailBuffer, dt: Q, scale: Q) -> (r: Result<(), Overflow>)
    requires
        old(points).wf(),
        dt.wf(),
        scale.wf(),
    ensures
        final(points).wf(),
        final(points).particles == old(points).particles,
        final(points).trail_length == old(points).trail_length,
        r is Ok <==> advance_ok_s(
            old(points).records@,
            old(points).trail_length as int,
            old(points).particles as int,
            dt.v(),
            scale.v(),
        ),
        r is Ok ==> final(points).records@ == advance_s(
            old(points).records@,
            old(points).trail_length as int,
            dt.v(),
            scale.v(),
        ),
        r is Err ==> *final(points) == *old(points),
{
    let len = points.trail_length;
    let count = points.particles;
    let mut p: usize = 0;
    while p < count
        invariant
            *points == *old(points),
            points.wf(),
            dt.wf(),
            scale.wf(),
            len == points.trail_length,
            count == points.particles,
            0 <= p <= count,
            forall|q: int|
                0 <= q < p ==> (#[trigger] step_of(
                    points.records@,
                    len as int,
                    q,
                    dt.v(),
                    scale.v(),
                )) is Some,
        decreases count - p,
    {
        proof {
            lemma_slice_in_bounds(p as int, count as int, len as int);
        }
        let head = points.records[p * len + len - 1];
        if integrate(&head.pos, dt, scale).is_none() {
            proof {
                assert(head == rec_at(points.records@, len as int, p as int, len as int - 1));
                assert(step_of(points.records@, len as int, p as int, dt.v(), scale.v()) is None);
                assert(!advance_ok_s(
                    points.records@,
                    len as int,
                    count as int,
                    dt.v(),
                    scale.v(),
                ));
            }
            return Err(Overflow);
        }
        p += 1;
    }
    let ghost s_old = points.records@;
    let mut p: usize = 0;
    while p < count
        invariant
            points.wf(),
            points.particles == old(points).particles,
            points.trail_length == old(points).trail_length,
            points.records.len() == s_old.len(),
            s_old == old(points).records@,
            len == points.trail_length,
            count == points.particles,
            dt.wf(),
            scale.wf(),
            0 <= p <= count,
            advance_ok_s(s_old, len as int, count as int, dt.v(), scale.v()),
            forall|q: int, j: int|
                0 <= q < p && 0 <= j < len - 1 ==> #[trigger] rec_at(
                    points.records@,
                    len as int,
                    q,
                    j,
                ) == rec_at(s_old, len as int, q, j + 1),
            forall|q: int|
                0 <= q < p ==> #[trigger] rec_at(points.records@, len as int, q, len - 1) == rec_of(
                    step_of(s_old, len as int, q, dt.v(), scale.v())->Some_0,
                ),
            forall|k: int|
                p as int * len as int <= k < s_old.len() ==> points.records@[k] == s_old[k],
        decreases count - p,
    {
        let ghost s_pre = points.records@;
        let ghost leni = len as int;
        let ghost pi = p as int;
        proof {
            lemma_slice_in_bounds(pi, count as int, leni);
            // the head of particle `p` is still the original one
            assert(rec_at(s_pre, leni, pi, leni - 1) == rec_at(s_old, leni, pi, leni - 1));
            assert(step_of(s_old, leni, pi, dt.v(), scale.v()) is Some);
        }
        let r = compute(points, p, dt, scale);
        proof {
            assert(r is Ok);
            lemma_mul_is_distributive_add_other_way(leni, pi, 1);
            // stitch: slots of earlier particles were untouched by this call
            assert forall|q: int, j: int| 0 <= q < pi + 1 && 0 <= j < leni - 1 implies #[trigger]
                rec_at(points.records@, leni, q, j) == rec_at(s_old, leni, q, j + 1) by {
                lemma_slice_in_bounds(q, count as int, leni);
                if q < pi {
                    lemma_mul_inequality(q + 1, pi, leni);
                    lemma_mul_is_distributive_add_other_way(leni, q, 1);
                    assert(rec_at(s_pre, leni, q, j) == rec_at(s_old, leni, q, j + 1));
                    assert(points.records@[q * leni + j] == s_pre[q * leni + j]);
                } else {
                    assert(rec_at(points.records@, leni, pi, j) == rec_at(s_pre, leni, pi, j + 1));
                    assert(s_pre[pi * leni + j + 1] == s_old[pi * leni + j + 1]);
                }
            }
            assert forall|q: int| 0 <= q < pi + 1 implies #[trigger] rec_at(
                points.records@,
                leni,
                q,
                leni - 1,
            ) == rec_of(step_of(s_old, leni, q, dt.v(), scale.v())->Some_0) by {
                lemma_slice_in_bounds(q, count as int, leni);
                if q < pi {
                    lemma_mul_inequality(q + 1, pi, leni);
                    lemma_mul_is_distributive_add_other_way(leni, q, 1);
                    assert(rec_at(s_pre, leni, q, leni - 1) == rec_of(
                        step_of(s_old, leni, q, dt.v(), scale.v())->Some_0,
                    ));
                    assert(points.records@[q * leni + leni - 1] == s_pre[q * leni + leni - 1]);
                } else {
                    assert(step_of(s_pre, leni, pi, dt.v(), scale.v()) == step_of(
                        s_old,
                        leni,
                        pi,
                        dt.v(),
                        scale.v(),
                    ));
                }
            }
            assert forall|k: int| (pi + 1) * leni <= k < s_old.len() implies points.records@[k]
                == s_old[k] by {
                lemma_mul_is_distributive_add_other_way(leni, pi, 1);
                assert(points.records@[k] == s_pre[k]);
            }
        }
        p += 1;
    }
    proof {
        lemma_advanced_all_is_advance_s(
            s_old,
            points.records@,
            len as int,
            count as int,
            dt.v(),
            scale.v(),
        );
    }
    Ok(())
}

/// A buffer satisfying the slot-wise shift relation for every particle is
/// exactly the functional `advance_s` of the old contents.
proof fn lemma_advanced_all_is_advance_s(
    s_old: Seq<TrailRecord>,
    s_new: Seq<TrailRecord>,
    len: int,
    particles: int,
    dt: Qv,
    scale: Qv,
)
    requires
        1 <= len,
        s_old.len() == particles * len,
        s_new.len() == s_old.len(),
        advance_ok_s(s_old, len, particles, dt, scale),
        forall|q: int, j: int|
            0 <= q < particles && 0 <= j < len - 1 ==> #[trigger] rec_at(s_new, len, q, j)
                == rec_at(s_old, len, q, j + 1),
        forall|q: int|
            0 <= q < particles ==> #[trigger] rec_at(s_new, len, q, len - 1) == rec_of(
                step_of(s_old, len, q, dt, scale)->Some_0,
            ),
    ensures
        s_new == advance_s(s_old, len, dt, scale),
{
    let target = advance_s(s_old, len, dt, scale);
    assert forall|k: int| 0 <= k < s_new.len() implies s_new[k] == target[k] by {
        lemma_fundamental_div_mod(k, len);
        let q = k / len;
        let j = k % len;
        vstd::arithmetic::div_mod::lemma_mod_division_less_than_divisor(k, len);
        vstd::arithmetic::div_mod::lemma_div_pos_is_pos(k, len);
        assert(k < len * particles) by {
            vstd::arithmetic::mul::lemma_mul_is_commutative(particles, len);
        }
        vstd::arithmetic::div_mod::lemma_multiply_divide_lt(k, len, particles);
        assert(k == q * len + j) by {
            vstd::arithmetic::mul::lemma_mul_is_commutative(q, len);
        }
        if j == len - 1 {
            assert(rec_at(s_new, len, q, len - 1) == rec_of(
                step_of(s_old, len, q, dt, scale)->Some_0,
            ));
        } else {
            assert(rec_at(s_new, len, q, j) == rec_at(s_old, len, q, j + 1));
        }
    }
    assert(s_new =~= target);
}

/// Once a sub-step overflows, every longer sub-step sequence overflows.
proof fn lemma_iter_advance_none(
    s: Seq<TrailRecord>,
    len: int,
    particles: int,
    dt: Qv,
    scale: Qv,
    m: nat,
    n: nat,
)
    requires
        iter_advance_s(s, len, particles, dt, scale, m) is None,
        m <= n,
    ensures
        iter_advance_s(s, len, particles, dt, scale, n) is None,
    decreases n,
{
    if n > m {
        lemma_iter_advance_none(s, len, particles, dt, scale, m, (n - 1) as nat);
    }
}

/// Runs `k` complete, strictly sequenced simulation dispatches with the
/// same `dt`: `k` Euler sub-steps of equal size.  On overflow the buffer
/// keeps the state reached by the completed sub-steps.
pub fn run_sub_steps(points: &mut TrailBuffer, dt: Q, scale: Q, k: usize) -> (r: Result<
    (),
    Overflow,
>)
    requires
        old(points).wf(),
        dt.wf(),
        scale.wf(),
    ensures
        final(points).wf(),
        final(points).particles == old(points).particles,
        final(points).trail_length == old(points).trail_length,
        r is Ok <==> iter_advance_s(
            old(points).records@,
            old(points).trail_length as int,
            old(points).particles as int,
            dt.v(),
            scale.v(),
            k as nat,
        ) is Some,
        r is Ok ==> Some(final(points).records@) == iter_advance_s(
            old(points).records@,
            old(points).trail_length as int,
            old(points).particles as int,
            dt.v(),
            scale.v(),
            k as nat,
        ),
        r is Err ==> exists|m: nat|
            m < k as nat && Some(final(points).records@) == #[trigger] iter_advance_s(
                old(points).records@,
                old(points).trail_length as int,
                old(points).particles as int,
                dt.v(),
                scale.v(),
                m,
            ) && iter_advance_s(
                old(points).records@,
                old(points).trail_length as int,
                old(points).particles as int,
                dt.v(),
                scale.v(),
                m + 1,
            ) is None,
{
    let ghost s0 = points.records@;
    let ghost leni = points.trail_length as int;
    let ghost counti = points.particles as int;
    let mut i: usize = 0;
    while i < k
        invariant
            points.wf(),
            points.particles == old(points).particles,
            points.trail_length == old(points).trail_length,
            s0 == old(points).records@,
            leni == points.trail_length as int,
            counti == points.particles as int,
            dt.wf(),
            scale.wf(),
            0 <= i <= k,
            Some(points.records@) == iter_advance_s(s0, leni, counti, dt.v(), scale.v(), i as nat),
        decreases k - i,
    {
        let r = dispatch(points, dt, scale);
        if r.is_err() {
            proof {
                let m = i as nat;
                assert(iter_advance_s(s0, leni, counti, dt.v(), scale.v(), m + 1) is None);
                lemma_iter_advance_none(s0, leni, counti, dt.v(), scale.v(), m + 1, k as nat);
            }
            return Err(Overflow);
        }
        i += 1;
    }
    Ok(())
}

/// Law: sub-stepping is plain sequential composition.  `n` sub-steps from
/// `s` are one step from `s` followed by `n - 1` sub-steps from its result:
/// there is no batching shortcut.
pub proof fn lemma_sub_stepping_equivalence(
    s: Seq<TrailRecord>,
    len: int,
    particles: int,
    dt: Qv,
    scale: Qv,
    n: nat,
)
    requires
        n >= 1,
    ensures
        iter_advance_s(s, len, particles, dt, scale, n) == (if advance_ok_s(
            s,
            len,
            particles,
            dt,
            scale,
        ) {
            iter_advance_s(
                advance_s(s, len, dt, scale),
                len,
                particles,
                dt,
                scale,
                (n - 1) as nat,
            )
        } else {
            None::<Seq<TrailRecord>>
        }),
    decreases n,
{
    if n == 1 {
    } else {
        lemma_sub_stepping_equivalence(s, len, particles, dt, scale, (n - 1) as nat);
    }
}

} // verus!
