//! The frame orchestrator.
//!
//! The only component that knows the per-frame ordering: capture the time
//! delta and advance the camera, run the configured number of strictly
//! sequenced simulation sub-steps on the trail buffer, read the buffer
//! once to produce the vertex stream, then present.  The caller performs
//! the outside work of each phase (computing the trig part of the camera
//! matrix, submitting the recorded passes, presenting the image) and
//! drives the transitions in order; the contracts here pin down what every
//! transition does to the state and forbid taking them out of order.

use crate::camera::{Camera, cam_step_s};
use crate::rational::{Q, qs_le};
use crate::render::{VertexOutput, vert, vert_s};
use crate::trail::{
    Overflow, TrailBuffer, advance_ok_s, init_trail_buffer, iter_advance_s, run_sub_steps,
};
use crate::uniform::Uniform;
use vstd::prelude::*;

verus! {

/// Where a frame currently stands.
#[derive(Clone, Copy, PartialEq, Eq, Structural, Debug)]
pub enum Phase {
    Idle,
    Simulating,
    Rendering,
    Presenting,
}

/// The frame orchestrator: the simulation state plus the per-frame
/// sequencing state.
pub struct Orchestrator {
    pub phase: Phase,
    pub trail: TrailBuffer,
    pub camera: Camera,
    /// Time-rescale applied inside the integrator (`1/10` canonically).
    pub scale: Q,
    /// Point size factor of the render pass.
    pub size_scale: Q,
    /// Number of simulation sub-steps per rendered frame.
    pub sub_steps: usize,
    /// The time delta of the frame being produced.
    pub delta_time: Q,
}

impl Orchestrator {
    /// Well-formedness of all held state.
    pub open spec fn wf(self) -> bool {
        &&& self.trail.wf()
        &&& self.camera.wf()
        &&& self.scale.wf()
        &&& self.size_scale.wf()
        &&& 1 <= self.sub_steps
        &&& self.delta_time.wf()
        &&& qs_le((0int, 1int), self.delta_time.v())
    }

    /// Sets up a run: allocates the seeded trail buffer and starts idle.
    pub fn new(
        particles: usize,
        trail_length: usize,
        camera: Camera,
        scale: Q,
        size_scale: Q,
        sub_steps: usize,
    ) -> (r: Orchestrator)
        requires
            1 <= trail_length,
            trail_length as int <= i64::MAX as int,
            particles as int * trail_length as int <= usize::MAX as int,
            camera.wf(),
            scale.wf(),
            size_scale.wf(),
            1 <= sub_steps,
        ensures
            r.wf(),
            r.phase == Phase::Idle,
            r.trail.particles == particles,
            r.trail.trail_length == trail_length,
            r.camera == camera,
            r.scale == scale,
            r.size_scale == size_scale,
            r.sub_steps == sub_steps,
    {
        let trail = init_trail_buffer(particles, trail_length);
        Orchestrator {
            phase: Phase::Idle,
            trail,
            camera,
            scale,
            size_scale,
            sub_steps,
            delta_time: Q::zero(),
        }
    }

    /// Opens a frame: records the captured time delta, advances the
    /// camera state, and moves to `Simulating`.  The buffer is untouched.
    /// A camera overflow is fatal: the state is unchanged.
    pub fn begin_frame(&mut self, dt: Q) -> (r: Result<(), Overflow>)
        requires
            old(self).wf(),
            old(self).phase == Phase::Idle,
            dt.wf(),
            qs_le((0int, 1int), dt.v()),
        ensures
            final(self).wf(),
            r is Ok <==> cam_step_s(old(self).camera, dt.v()) is Some,
            r is Ok ==> {
                &&& final(self).phase == Phase::Simulating
                &&& Some(final(self).camera.v()) == cam_step_s(old(self).camera, dt.v())
                &&& final(self).delta_time == dt
                &&& final(self).trail == old(self).trail
                &&& final(self).scale == old(self).scale
                &&& final(self).size_scale == old(self).size_scale
                &&& final(self).sub_steps == old(self).sub_steps
            },
            r is Err ==> *final(self) == *old(self),
    {
        match self.camera.update(dt) {
            Ok(()) => {
                self.delta_time = dt;
                self.phase = Phase::Simulating;
                Ok(())
            },
            Err(e) => Err(e),
        }
    }

    /// Runs the configured sub-steps, each a complete dispatch over all
    /// particles with the frame's time delta, and moves to `Rendering`.
    /// An overflow is fatal: the phase stays `Simulating` and the buffer
    /// keeps the state reached by the completed sub-steps.
    pub fn simulate(&mut self) -> (r: Result<(), Overflow>)
        requires
            old(self).wf(),
            old(self).phase == Phase::Simulating,
        ensures
            final(self).wf(),
            final(self).camera == old(self).camera,
            final(self).delta_time == old(self).delta_time,
            final(self).scale == old(self).scale,
            final(self).size_scale == old(self).size_scale,
            final(self).sub_steps == old(self).sub_steps,
            final(self).trail.particles == old(self).trail.particles,
            final(self).trail.trail_length == old(self).trail.trail_length,
            r is Ok <==> iter_advance_s(
                old(self).trail.records@,
                old(self).trail.trail_length as int,
                old(self).trail.particles as int,
                old(self).delta_time.v(),
                old(self).scale.v(),
                old(self).sub_steps as nat,
            ) is Some,
            r is Ok ==> final(self).phase == Phase::Rendering && Some(final(self).trail.records@)
                == iter_advance_s(
                old(self).trail.records@,
                old(self).trail.trail_length as int,
                old(self).trail.particles as int,
                old(self).delta_time.v(),
                old(self).scale.v(),
                old(self).sub_steps as nat,
            ),
            r is Err ==> final(self).phase == Phase::Simulating,
    {
        let steps = self.sub_steps;
        let dt = self.delta_time;
        let scale = self.scale;
        match run_sub_steps(&mut self.trail, dt, scale, steps) {
            Ok(()) => {
                self.phase = Phase::Rendering;
                Ok(())
            },
            Err(e) => Err(e),
        }
    }

    /// Produces the vertex stream of the render pass: one output per trail
    /// record, in buffer order, leaving the buffer untouched, and moves to
    /// `Presenting`.  An overflow is fatal: the state is unchanged.
    pub fn render(&mut self, uniform: &Uniform) -> (r: Result<Vec<VertexOutput>, Overflow>)
        requires
            old(self).wf(),
            old(self).phase == Phase::Rendering,
            uniform.wf(),
        ensures
            final(self).wf(),
            final(self).trail == old(self).trail,
            final(self).camera == old(self).camera,
            r matches Ok(v) ==> {
                &&& final(self).phase == Phase::Presenting
                &&& v@.len() == old(self).trail.records.len()
                &&& forall|i: int|
                    0 <= i < v@.len() ==> Some((#[trigger] v@[i]).v()) == vert_s(
                        old(self).trail.records@[i],
                        uniform.cam,
                        i,
                        old(self).trail.trail_length as int,
                        old(self).size_scale.v(),
                    )
            },
            r is Ok <==> forall|i: int|
                0 <= i < old(self).trail.records.len() ==> (#[trigger] vert_s(
                    old(self).trail.records@[i],
                    uniform.cam,
                    i,
                    old(self).trail.trail_length as int,
                    old(self).size_scale.v(),
                )) is Some,
            r is Err ==> *final(self) == *old(self),
    {
        let total = self.trail.records.len();
        let mut out: Vec<VertexOutput> = Vec::new();
        let mut i: usize = 0;
        while i < total
            invariant
                self.wf(),
                *self == *old(self),
                uniform.wf(),
                total == self.trail.records.len(),
                0 <= i <= total,
                out.len() == i,
                forall|t: int|
                    0 <= t < i ==> Some((#[trigger] out@[t]).v()) == vert_s(
                        self.trail.records@[t],
                        uniform.cam,
                        t,
                        self.trail.trail_length as int,
                        self.size_scale.v(),
                    ),
            decreases total - i,
        {
            match vert(i, &self.trail, uniform, self.size_scale) {
                Some(v) => out.push(v),
                None => {
                    return Err(Overflow);
                },
            }
            i += 1;
        }
        proof {
            assert forall|t: int| 0 <= t < total implies (#[trigger] vert_s(
                self.trail.records@[t],
                uniform.cam,
                t,
                self.trail.trail_length as int,
                self.size_scale.v(),
            )) is Some by {
                assert(Some(out@[t].v()) == vert_s(
                    self.trail.records@[t],
                    uniform.cam,
                    t,
                    self.trail.trail_length as int,
                    self.size_scale.v(),
                ));
            }
        }
        self.phase = Phase::Presenting;
        Ok(out)
    }

    /// Closes the frame after the caller has submitted and presented the
    /// recorded work: back to `Idle`, everything else untouched.
    pub fn present(&mut self)
        requires
            old(self).wf(),
            old(self).phase == Phase::Presenting,
        ensures
            final(self).wf(),
            *final(self) == (Orchestrator { phase: Phase::Idle, ..*old(self) }),
    {
        self.phase = Phase::Idle;
    }
}

} // verus!
