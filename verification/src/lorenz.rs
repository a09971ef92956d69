//! The attractor integrator.
//!
//! One forward Euler step of the Lorenz system with the classical
//! parameters `a = 10`, `b = 28`, `c = 8/3`: given a state `p` the
//! derivative is `d = (a*(y - x), x*(b - z) - y, x*y - c*z)` and the next
//! state is `p + dt * scale * d`.  The auxiliary output is the squared
//! Euclidean norm of the raw (unscaled) derivative; it is stored beside the
//! position so the render stage can map it to a colour.  The squared norm
//! is used because it is exact, where the norm itself is irrational.
//!
//! Divergence of the attractor is accepted behaviour; the only failure is
//! an exact value outgrowing the 64-bit rational representation, reported
//! as `None`.

use crate::rational::{Q, q_add, q_mul, q_sub, qc_add, qc_mul, qc_sub};
use crate::vec3::{Qv, V3, V3v};
use vstd::prelude::*;

verus! {

/// The derivative of the Lorenz system at `p`, or `None` on overflow.
pub open spec fn lorenz_deriv_s(p: V3v) -> Option<V3v> {
    let dx = qc_mul(Some((10int, 1int)), qc_sub(Some(p.1), Some(p.0)));
    let dy = qc_sub(qc_mul(Some(p.0), qc_sub(Some((28int, 1int)), Some(p.2))), Some(p.1));
    let dz = qc_sub(qc_mul(Some(p.0), Some(p.1)), qc_mul(Some((8int, 3int)), Some(p.2)));
    match (dx, dy, dz) {
        (Some(a), Some(b), Some(c)) => Some((a, b, c)),
        _ => None,
    }
}

/// The squared Euclidean norm of `d`, or `None` on overflow.
pub open spec fn norm_sq_s(d: V3v) -> Option<Qv> {
    qc_add(
        qc_add(qc_mul(Some(d.0), Some(d.0)), qc_mul(Some(d.1), Some(d.1))),
        qc_mul(Some(d.2), Some(d.2)),
    )
}

/// One integrator step: the next state and the squared speed of the raw
/// derivative, or `None` when any exact intermediate overflows.
pub open spec fn lorenz_step_s(p: V3v, dt: Qv, scale: Qv) -> Option<(V3v, Qv)> {
    match lorenz_deriv_s(p) {
        None => None,
        Some(d) => {
            let f = qc_mul(Some(dt), Some(scale));
            let nx = qc_add(Some(p.0), qc_mul(f, Some(d.0)));
            let ny = qc_add(Some(p.1), qc_mul(f, Some(d.1)));
            let nz = qc_add(Some(p.2), qc_mul(f, Some(d.2)));
            match (nx, ny, nz, norm_sq_s(d)) {
                (Some(a), Some(b), Some(c), Some(w)) => Some(((a, b, c), w)),
                _ => None,
            }
        },
    }
}

/// Computes the Lorenz derivative at `p` exactly.
pub fn lorenz_deriv(p: &V3) -> (r: Option<V3>)
    requires
        p.wf(),
    ensures
        r matches Some(d) ==> d.wf() && Some(d.v()) == lorenz_deriv_s(p.v()),
        r is Some <==> lorenz_deriv_s(p.v()) is Some,
{
    let a = Q::from_int(10);
    let b = Q::from_int(28);
    let c = Q { num: 8, den: 3 };
    let dx = match q_sub(p.y, p.x) {
        Some(v) => match q_mul(a, v) {
            Some(v) => v,
            None => {
                return None;
            },
        },
        None => {
            return None;
        },
    };
    let dy = match q_sub(b, p.z) {
        Some(v) => match q_mul(p.x, v) {
            Some(v) => match q_sub(v, p.y) {
                Some(v) => v,
                None => {
                    return None;
                },
            },
            None => {
                return None;
            },
        },
        None => {
            return None;
        },
    };
    let dz = match (q_mul(p.x, p.y), q_mul(c, p.z)) {
        (Some(u), Some(v)) => match q_sub(u, v) {
            Some(v) => v,
            None => {
                return None;
            },
        },
        _ => {
            return None;
        },
    };
    Some(V3 { x: dx, y: dy, z: dz })
}

/// One forward Euler step: returns the next position and the squared speed
/// of the raw derivative, exactly as `lorenz_step_s` states.
pub fn integrate(p: &V3, dt: Q, scale: Q) -> (r: Option<(V3, Q)>)
    requires
        p.wf(),
        dt.wf(),
        scale.wf(),
    ensures
        r matches Some(t) ==> t.0.wf() && t.1.wf() && Some((t.0.v(), t.1.v()))
            == lorenz_step_s(p.v(), dt.v(), scale.v()),
        r is Some <==> lorenz_step_s(p.v(), dt.v(), scale.v()) is Some,
{
    let d = match lorenz_deriv(p) {
        Some(d) => d,
        None => {
            return None;
        },
    };
    let f = match q_mul(dt, scale) {
        Some(f) => f,
        None => {
            return None;
        },
    };
    let nx = match q_mul(f, d.x) {
        Some(v) => match q_add(p.x, v) {
            Some(v) => v,
            None => {
                return None;
            },
        },
        None => {
            return None;
        },
    };
    let ny = match q_mul(f, d.y) {
        Some(v) => match q_add(p.y, v) {
            Some(v) => v,
            None => {
                return None;
            },
        },
        None => {
            return None;
        },
    };
    let nz = match q_mul(f, d.z) {
        Some(v) => match q_add(p.z, v) {
            Some(v) => v,
            None => {
                return None;
            },
        },
        None => {
            return None;
        },
    };
    let aux = match (q_mul(d.x, d.x), q_mul(d.y, d.y), q_mul(d.z, d.z)) {
        (Some(sx), Some(sy), Some(sz)) => match q_add(sx, sy) {
            Some(v) => match q_add(v, sz) {
                Some(v) => v,
                None => {
                    return None;
                },
            },
            None => {
                return None;
            },
        },
        _ => {
            return None;
        },
    };
    Some((V3 { x: nx, y: ny, z: nz }, aux))
}

/// Law: the integrator is deterministic.  It is a function of the position,
/// the time delta and the scale alone: equal inputs give equal results,
/// including equal auxiliary outputs and equal overflow behaviour.
pub proof fn lemma_integrator_deterministic(p1: V3v, dt1: Qv, s1: Qv, p2: V3v, dt2: Qv, s2: Qv)
    requires
        p1 == p2,
        dt1 == dt2,
        s1 == s2,
    ensures
        lorenz_step_s(p1, dt1, s1) == lorenz_step_s(p2, dt2, s2),
{
}

} // verus!
