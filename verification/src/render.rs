//! The render pass, per vertex and per pixel.
//!
//! One vertex is drawn per trail record.  Its normalized age
//! `u = (index mod trail_length) / trail_length` lies in `[0, 1)` with `0`
//! the oldest sample of the slice; the point size is `size_scale * u`, the
//! alpha is `u` itself, the clip position is the camera matrix applied to
//! the homogeneous position, and the auxiliary scalar is passed through to
//! the pixel stage.  The pixel stage maps the auxiliary scalar (the
//! squared speed, threshold `150 * 150`) to the green channel of an
//! otherwise white colour whose alpha is the vertex alpha.

use crate::rational::{Q, q_add, q_mul, qc_add, qc_mul, qs_le, qs_lt};
use crate::trail::{TrailBuffer, TrailRecord};
use crate::uniform::{Mat4Q, Uniform};
use crate::vec3::{Qv, V3, V3v, V4v, Vec4Q};
use vstd::arithmetic::div_mod::{
    lemma_fundamental_div_mod_converse_div, lemma_fundamental_div_mod_converse_mod,
};
use vstd::arithmetic::mul::{lemma_mul_nonnegative, lemma_mul_strict_inequality};
use vstd::prelude::*;

verus! {

/// What the vertex stage hands to the rasterizer for one trail record.
#[derive(Clone, Copy, PartialEq, Eq, Structural, Debug)]
pub struct VertexOutput {
    pub clip: Vec4Q,
    pub size: Q,
    pub alpha: Q,
    pub vel: Q,
}

impl VertexOutput {
    /// All components are well-formed rationals.
    pub open spec fn wf(self) -> bool {
        self.clip.wf() && self.size.wf() && self.alpha.wf() && self.vel.wf()
    }

    /// The output as unbounded rationals: clip position, size, alpha, and
    /// the auxiliary scalar.
    pub open spec fn v(self) -> (V4v, Qv, Qv, Qv) {
        (self.clip.v(), self.size.v(), self.alpha.v(), self.vel.v())
    }
}

/// The colour the pixel stage emits.
#[derive(Clone, Copy, PartialEq, Eq, Structural, Debug)]
pub struct ColorOutput {
    pub red: Q,
    pub green: Q,
    pub blue: Q,
    pub alpha: Q,
}

/// The normalized age of global record index `idx`: its offset within its
/// particle's slice over the trail length.
pub open spec fn age_of(idx: int, len: int) -> Qv {
    (idx % len, len)
}

/// One row of the matrix applied to the homogeneous position
/// `(p, 1)`: `r.x * p.x + r.y * p.y + r.z * p.z + r.w`.
pub open spec fn row_dot_s(row: Vec4Q, p: V3v) -> Option<Qv> {
    qc_add(
        qc_add(
            qc_add(qc_mul(Some(row.x.v()), Some(p.0)), qc_mul(Some(row.y.v()), Some(p.1))),
            qc_mul(Some(row.z.v()), Some(p.2)),
        ),
        Some(row.w.v()),
    )
}

/// The camera matrix applied to the homogeneous position `(p, 1)`.
pub open spec fn mat_vec_s(cam: Mat4Q, p: V3v) -> Option<V4v> {
    match (row_dot_s(cam.rx, p), row_dot_s(cam.ry, p), row_dot_s(cam.rz, p), row_dot_s(
        cam.rw,
        p,
    )) {
        (Some(a), Some(b), Some(c), Some(d)) => Some((a, b, c, d)),
        _ => None,
    }
}

/// The whole vertex-stage output for record `rec` at global index `idx`.
pub open spec fn vert_s(rec: TrailRecord, cam: Mat4Q, idx: int, len: int, size_scale: Qv) -> Option<
    (V4v, Qv, Qv, Qv),
> {
    let u = age_of(idx, len);
    match (mat_vec_s(cam, rec.pos.v()), qc_mul(Some(size_scale), Some(u))) {
        (Some(clip), Some(size)) => Some((clip, size, u, rec.aux.v())),
        _ => None,
    }
}

/// One row of the matrix-vector product, computed exactly.
fn row_dot(row: &Vec4Q, p: &V3) -> (r: Option<Q>)
    requires
        row.wf(),
        p.wf(),
    ensures
        r matches Some(q) ==> q.wf() && Some(q.v()) == row_dot_s(*row, p.v()),
        r is Some <==> row_dot_s(*row, p.v()) is Some,
{
    let xx = match q_mul(row.x, p.x) {
        Some(v) => v,
        None => {
            return None;
        },
    };
    let yy = match q_mul(row.y, p.y) {
        Some(v) => v,
        None => {
            return None;
        },
    };
    let zz = match q_mul(row.z, p.z) {
        Some(v) => v,
        None => {
            return None;
        },
    };
    let a = match q_add(xx, yy) {
        Some(v) => v,
        None => {
            return None;
        },
    };
    let b = match q_add(a, zz) {
        Some(v) => v,
        None => {
            return None;
        },
    };
    q_add(b, row.w)
}

/// The vertex stage for the record at global index `idx`: normalized age,
/// tapered point size, age alpha, clip position, and the auxiliary scalar
/// passed through.  `None` when an exact intermediate overflows.
pub fn vert(idx: usize, points: &TrailBuffer, uniform: &Uniform, size_scale: Q) -> (r: Option<
    VertexOutput,
>)
    requires
        points.wf(),
        uniform.wf(),
        size_scale.wf(),
        idx < points.records.len(),
    ensures
        r matches Some(v) ==> v.wf() && Some(v.v()) == vert_s(
            points.records@[idx as int],
            uniform.cam,
            idx as int,
            points.trail_length as int,
            size_scale.v(),
        ),
        r is Some <==> vert_s(
            points.records@[idx as int],
            uniform.cam,
            idx as int,
            points.trail_length as int,
            size_scale.v(),
        ) is Some,
{
    let len = points.trail_length;
    let off = idx % len;
    let u = Q { num: off as i64, den: len as i64 };
    let rec = points.records[idx];
    let rx = match row_dot(&uniform.cam.rx, &rec.pos) {
        Some(v) => v,
        None => {
            return None;
        },
    };
    let ry = match row_dot(&uniform.cam.ry, &rec.pos) {
        Some(v) => v,
        None => {
            return None;
        },
    };
    let rz = match row_dot(&uniform.cam.rz, &rec.pos) {
        Some(v) => v,
        None => {
            return None;
        },
    };
    let rw = match row_dot(&uniform.cam.rw, &rec.pos) {
        Some(v) => v,
        None => {
            return None;
        },
    };
    let size = match q_mul(size_scale, u) {
        Some(v) => v,
        None => {
            return None;
        },
    };
    Some(
        VertexOutput {
            clip: Vec4Q { x: rx, y: ry, z: rz, w: rw },
            size,
            alpha: u,
            vel: rec.aux,
        },
    )
}

/// The pixel stage: white with the auxiliary scalar tone-mapped onto the
/// green channel (divided by the squared-speed threshold `150 * 150`) and
/// the vertex alpha passed through; values outside `[0, 1]` are left to
/// the rasterizer to saturate.
pub fn frag(alpha: Q, vel: Q) -> (r: Option<ColorOutput>)
    requires
        alpha.wf(),
        vel.wf(),
    ensures
        r matches Some(c) ==> {
            &&& c.red.wf() && c.green.wf() && c.blue.wf() && c.alpha.wf()
            &&& c.red.v() == (1int, 1int)
            &&& Some(c.green.v()) == qc_mul(Some(vel.v()), Some((1int, 22500int)))
            &&& c.blue.v() == (1int, 1int)
            &&& c.alpha == alpha
        },
        r is Some <==> qc_mul(Some(vel.v()), Some((1int, 22500int))) is Some,
{
    let green = match q_mul(vel, Q { num: 1, den: 22500 }) {
        Some(v) => v,
        None => {
            return None;
        },
    };
    Some(ColorOutput { red: Q::from_int(1), green, blue: Q::from_int(1), alpha })
}

/// Law: within one particle's slice the normalized age is strictly
/// monotone in the buffer offset and always lies in `[0, 1)`.
pub proof fn lemma_age_monotone(len: int, p: int, o1: int, o2: int)
    requires
        1 <= len,
        0 <= p,
        0 <= o1 <= o2 < len,
    ensures
        qs_le((0int, 1int), age_of(p * len + o1, len)),
        qs_lt(age_of(p * len + o1, len), (1int, 1int)),
        o1 < o2 ==> qs_lt(age_of(p * len + o1, len), age_of(p * len + o2, len)),
{
    lemma_mul_nonnegative(p, len);
    lemma_fundamental_div_mod_converse_mod(p * len + o1, len, p, o1);
    lemma_fundamental_div_mod_converse_mod(p * len + o2, len, p, o2);
    if o1 < o2 {
        lemma_mul_strict_inequality(o1, o2, len);
    }
}

} // verus!
