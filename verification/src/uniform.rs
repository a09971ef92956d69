//! The per-frame uniform state and its device byte layout.
//!
//! `Uniform` is the read-only snapshot the orchestrator hands to both the
//! simulation pass and the render pass: the camera's view-projection
//! matrix (by rows) and the elapsed time since the previous frame, clamped
//! non-negative.  `UniformRaw` is the same block with every scalar already
//! encoded as a 32-bit word; `cast` lays it out exactly as the device
//! expects it: a 64-byte matrix, a 4-byte time delta, and zero padding up
//! to the 16-byte alignment boundary (80 bytes in all).

use crate::rational::{Q, qs_le};
use crate::vec3::Vec4Q;
use vstd::arithmetic::div_mod::{
    lemma_fundamental_div_mod_converse_div, lemma_fundamental_div_mod_converse_mod,
};
use vstd::prelude::*;

verus! {

/// A 4 x 4 rational matrix, stored by rows.
#[derive(Clone, Copy, PartialEq, Eq, Structural, Debug)]
pub struct Mat4Q {
    pub rx: Vec4Q,
    pub ry: Vec4Q,
    pub rz: Vec4Q,
    pub rw: Vec4Q,
}

impl Mat4Q {
    /// All sixteen entries are well-formed rationals.
    pub open spec fn wf(self) -> bool {
        self.rx.wf() && self.ry.wf() && self.rz.wf() && self.rw.wf()
    }
}

/// The uniform frame state: camera matrix and time delta, written once per
/// frame by the orchestrator and read-only for the rest of the frame.
#[derive(Clone, Copy, PartialEq, Eq, Structural, Debug)]
pub struct Uniform {
    pub cam: Mat4Q,
    pub delta_time: Q,
}

impl Uniform {
    /// Well-formedness: every scalar is a well-formed rational and the
    /// time delta is non-negative.
    pub open spec fn wf(self) -> bool {
        self.cam.wf() && self.delta_time.wf() && qs_le((0int, 1int), self.delta_time.v())
    }
}

/// The uniform block with every scalar encoded as a 32-bit word, ready for
/// the device: sixteen matrix words followed by the time-delta word.
pub struct UniformRaw {
    pub cam: Vec<u32>,
    pub delta_time: u32,
}

impl UniformRaw {
    /// The matrix holds exactly sixteen words.
    pub open spec fn wf(self) -> bool {
        self.cam.len() == 16
    }
}

/// The least significant byte of a word.
pub open spec fn byte0(w: u32) -> u8 {
    (w & 0xff) as u8
}

/// The second byte of a word.
pub open spec fn byte1(w: u32) -> u8 {
    ((w >> 8u32) & 0xff) as u8
}

/// The third byte of a word.
pub open spec fn byte2(w: u32) -> u8 {
    ((w >> 16u32) & 0xff) as u8
}

/// The most significant byte of a word.
pub open spec fn byte3(w: u32) -> u8 {
    ((w >> 24u32) & 0xff) as u8
}

/// A word as four little-endian bytes.
pub open spec fn le_bytes(w: u32) -> Seq<u8> {
    seq![byte0(w), byte1(w), byte2(w), byte3(w)]
}

/// The 80-byte device image of the uniform block: the sixteen matrix words
/// little-endian at offsets 0..64, the time-delta word at 64..68, zero
/// padding at 68..80.
pub open spec fn uniform_bytes(cam: Seq<u32>, delta: u32) -> Seq<u8> {
    Seq::new(
        80,
        |i: int|
            if i < 64 {
                le_bytes(cam[i / 4])[i % 4]
            } else if i < 68 {
                le_bytes(delta)[i - 64]
            } else {
                0u8
            },
    )
}

/// Appends the four little-endian bytes of `w` to `out`.
fn push_word(out: &mut Vec<u8>, w: u32)
    ensures
        final(out)@ == old(out)@ + le_bytes(w),
{
    proof {
        assert((w & 0xff) <= 0xff && ((w >> 8u32) & 0xff) <= 0xff && ((w >> 16u32) & 0xff) <= 0xff
            && ((w >> 24u32) & 0xff) <= 0xff) by (bit_vector);
    }
    out.push((w & 0xff) as u8);
    out.push(((w >> 8u32) & 0xff) as u8);
    out.push(((w >> 16u32) & 0xff) as u8);
    out.push(((w >> 24u32) & 0xff) as u8);
    proof {
        assert(final(out)@ =~= old(out)@ + le_bytes(w));
    }
}

/// Serializes the uniform block into its exact device byte layout.
pub fn cast(u: &UniformRaw) -> (r: Vec<u8>)
    requires
        u.wf(),
    ensures
        r@ == uniform_bytes(u.cam@, u.delta_time),
{
    let ghost target = uniform_bytes(u.cam@, u.delta_time);
    let mut out: Vec<u8> = Vec::new();
    let mut i: usize = 0;
    while i < 16
        invariant
            u.wf(),
            0 <= i <= 16,
            out.len() == 4 * i,
            target == uniform_bytes(u.cam@, u.delta_time),
            forall|t: int| 0 <= t < out.len() ==> out@[t] == target[t],
        decreases 16 - i,
    {
        let ghost base = out@.len() as int;
        let w = u.cam[i];
        push_word(&mut out, w);
        proof {
            assert forall|t: int| base <= t < base + 4 implies out@[t] == target[t] by {
                lemma_fundamental_div_mod_converse_div(t, 4, i as int, t - base);
                lemma_fundamental_div_mod_converse_mod(t, 4, i as int, t - base);
                assert(out@[t] == le_bytes(w)[t - base]);
            }
        }
        i += 1;
    }
    push_word(&mut out, u.delta_time);
    let mut k: usize = 0;
    while k < 12
        invariant
            0 <= k <= 12,
            out.len() == 68 + k,
            target == uniform_bytes(u.cam@, u.delta_time),
            forall|t: int| 0 <= t < out.len() ==> out@[t] == target[t],
        decreases 12 - k,
    {
        out.push(0u8);
        k += 1;
    }
    proof {
        assert(out@ =~= target);
    }
    out
}

} // verus!
