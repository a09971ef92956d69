//! The orbit camera's state and its per-frame integration.
//!
//! The camera orbits the focus with a yaw and a pitch driven by angular
//! velocities, and a zoom distance driven by a zoom velocity.  Each frame
//! the angles and the zoom advance by `velocity * dt`, the pitch is
//! clamped inside its limit, the zoom is clamped non-negative, and both
//! velocities decay by the damping factor `9/10`.  Turning this state into
//! a view-projection matrix takes trigonometry and is left to the caller;
//! this module holds the exact part: the state, its invariant, and the
//! update law.

use crate::rational::{Q, q_add, q_le, q_mul, qc_add, qc_mul, qs_le};
use crate::trail::Overflow;
use crate::vec3::Qv;
use vstd::arithmetic::mul::{lemma_mul_nonnegative, lemma_mul_unary_negation};
use vstd::prelude::*;

verus! {

/// The negation of a spec-level rational.
pub open spec fn qs_neg(a: Qv) -> Qv {
    (-a.0, a.1)
}

/// The orbit camera state.
#[derive(Clone, Copy, PartialEq, Eq, Structural, Debug)]
pub struct Camera {
    pub yaw: Q,
    pub pitch: Q,
    pub yaw_vel: Q,
    pub pitch_vel: Q,
    pub zoom: Q,
    pub zoom_vel: Q,
    pub pitch_limit: Q,
    pub dragging: bool,
}

/// The camera state after one update with time delta `dt`, or `None` when
/// an exact intermediate overflows: angles and zoom advanced by
/// `velocity * dt`, pitch clamped to `[-limit, limit]`, zoom clamped
/// non-negative, velocities damped by `9/10`.  The fields are
/// `(yaw, pitch, yaw_vel, pitch_vel, zoom, zoom_vel)`.
pub open spec fn cam_step_s(c: Camera, dt: Qv) -> Option<(Qv, Qv, Qv, Qv, Qv, Qv)> {
    let lim = c.pitch_limit.v();
    let yaw = qc_add(Some(c.yaw.v()), qc_mul(Some(c.yaw_vel.v()), Some(dt)));
    let pitch_raw = qc_add(Some(c.pitch.v()), qc_mul(Some(c.pitch_vel.v()), Some(dt)));
    let zoom_raw = qc_add(Some(c.zoom.v()), qc_mul(Some(c.zoom_vel.v()), Some(dt)));
    let yaw_vel = qc_mul(Some(c.yaw_vel.v()), Some((9int, 10int)));
    let pitch_vel = qc_mul(Some(c.pitch_vel.v()), Some((9int, 10int)));
    let zoom_vel = qc_mul(Some(c.zoom_vel.v()), Some((9int, 10int)));
    match (yaw, pitch_raw, zoom_raw, yaw_vel, pitch_vel, zoom_vel) {
        (Some(y), Some(pr), Some(zr), Some(yv), Some(pv), Some(zv)) => {
            let pitch = if !qs_le(qs_neg(lim), pr) {
                qs_neg(lim)
            } else if !qs_le(pr, lim) {
                lim
            } else {
                pr
            };
            let zoom = if !qs_le((0int, 1int), zr) {
                (0int, 1int)
            } else {
                zr
            };
            Some((y, pitch, yv, pv, zoom, zv))
        },
        _ => None,
    }
}

impl Camera {
    /// Well-formedness: all scalars are well-formed rationals, the pitch
    /// limit and the zoom are non-negative, and the pitch lies inside
    /// `[-limit, limit]`.
    pub open spec fn wf(self) -> bool {
        &&& self.yaw.wf() && self.pitch.wf() && self.yaw_vel.wf() && self.pitch_vel.wf()
        &&& self.zoom.wf() && self.zoom_vel.wf() && self.pitch_limit.wf()
        &&& qs_le((0int, 1int), self.pitch_limit.v())
        &&& qs_le((0int, 1int), self.zoom.v())
        &&& qs_le(qs_neg(self.pitch_limit.v()), self.pitch.v())
        &&& qs_le(self.pitch.v(), self.pitch_limit.v())
    }

    /// The state as unbounded rationals:
    /// `(yaw, pitch, yaw_vel, pitch_vel, zoom, zoom_vel)`.
    pub open spec fn v(self) -> (Qv, Qv, Qv, Qv, Qv, Qv) {
        (
            self.yaw.v(),
            self.pitch.v(),
            self.yaw_vel.v(),
            self.pitch_vel.v(),
            self.zoom.v(),
            self.zoom_vel.v(),
        )
    }

    /// A camera at rest: zero angles and velocities, the given zoom
    /// distance and pitch limit, not dragging.
    pub fn new(zoom: Q, pitch_limit: Q) -> (r: Camera)
        requires
            zoom.wf(),
            qs_le((0int, 1int), zoom.v()),
            pitch_limit.wf(),
            qs_le((0int, 1int), pitch_limit.v()),
        ensures
            r.wf(),
            r.yaw.v() == (0int, 1int),
            r.pitch.v() == (0int, 1int),
            r.yaw_vel.v() == (0int, 1int),
            r.pitch_vel.v() == (0int, 1int),
            r.zoom == zoom,
            r.zoom_vel.v() == (0int, 1int),
            r.pitch_limit == pitch_limit,
            !r.dragging,
    {
        proof {
            lemma_mul_nonnegative(pitch_limit.num as int, pitch_limit.den as int);
        }
        Camera {
            yaw: Q::zero(),
            pitch: Q::zero(),
            yaw_vel: Q::zero(),
            pitch_vel: Q::zero(),
            zoom,
            zoom_vel: Q::zero(),
            pitch_limit,
            dragging: false,
        }
    }

    /// Starts or stops a mouse drag.
    pub fn set_dragging(&mut self, dragging: bool)
        ensures
            *final(self) == (Camera { dragging, ..*old(self) }),
    {
        self.dragging = dragging;
    }

    /// Sets the angular velocity from pointer motion.
    pub fn set_angle_velocity(&mut self, yaw_vel: Q, pitch_vel: Q)
        requires
            yaw_vel.wf(),
            pitch_vel.wf(),
        ensures
            *final(self) == (Camera { yaw_vel, pitch_vel, ..*old(self) }),
    {
        self.yaw_vel = yaw_vel;
        self.pitch_vel = pitch_vel;
    }

    /// Sets the zoom velocity from scroll input.
    pub fn set_zoom_velocity(&mut self, zoom_vel: Q)
        requires
            zoom_vel.wf(),
        ensures
            *final(self) == (Camera { zoom_vel, ..*old(self) }),
    {
        self.zoom_vel = zoom_vel;
    }

    /// One per-frame update: advances angles and zoom, clamps pitch and
    /// zoom, damps the velocities.  On overflow the state is unchanged.
    pub fn update(&mut self, dt: Q) -> (r: Result<(), Overflow>)
        requires
            old(self).wf(),
            dt.wf(),
        ensures
            final(self).wf(),
            final(self).pitch_limit == old(self).pitch_limit,
            final(self).dragging == old(self).dragging,
            r is Ok <==> cam_step_s(*old(self), dt.v()) is Some,
            r is Ok ==> Some(final(self).v()) == cam_step_s(*old(self), dt.v()),
            r is Err ==> *final(self) == *old(self),
    {
        let nine_tenths = Q { num: 9, den: 10 };
        let yaw = match q_mul(self.yaw_vel, dt) {
            Some(d) => match q_add(self.yaw, d) {
                Some(v) => v,
                None => {
                    return Err(Overflow);
                },
            },
            None => {
                return Err(Overflow);
            },
        };
        let pitch_raw = match q_mul(self.pitch_vel, dt) {
            Some(d) => match q_add(self.pitch, d) {
                Some(v) => v,
                None => {
                    return Err(Overflow);
                },
            },
            None => {
                return Err(Overflow);
            },
        };
        let zoom_raw = match q_mul(self.zoom_vel, dt) {
            Some(d) => match q_add(self.zoom, d) {
                Some(v) => v,
                None => {
                    return Err(Overflow);
                },
            },
            None => {
                return Err(Overflow);
            },
        };
        let yaw_vel = match q_mul(self.yaw_vel, nine_tenths) {
            Some(v) => v,
            None => {
                return Err(Overflow);
            },
        };
        let pitch_vel = match q_mul(self.pitch_vel, nine_tenths) {
            Some(v) => v,
            None => {
                return Err(Overflow);
            },
        };
        let zoom_vel = match q_mul(self.zoom_vel, nine_tenths) {
            Some(v) => v,
            None => {
                return Err(Overflow);
            },
        };
        let neg_limit = Q { num: -self.pitch_limit.num, den: self.pitch_limit.den };
        let pitch = if !q_le(neg_limit, pitch_raw) {
            neg_limit
        } else if !q_le(pitch_raw, self.pitch_limit) {
            self.pitch_limit
        } else {
            pitch_raw
        };
        let zoom = if !q_le(Q::zero(), zoom_raw) {
            Q::zero()
        } else {
            zoom_raw
        };
        proof {
            lemma_mul_nonnegative(self.pitch_limit.num as int, self.pitch_limit.den as int);
            lemma_mul_unary_negation(self.pitch_limit.num as int, self.pitch_limit.den as int);
        }
        self.yaw = yaw;
        self.pitch = pitch;
        self.yaw_vel = yaw_vel;
        self.pitch_vel = pitch_vel;
        self.zoom = zoom;
        self.zoom_vel = zoom_vel;
        Ok(())
    }
}

} // verus!
