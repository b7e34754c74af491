//! The physics clock: fixed sub-step length and the sub-step budget.

use vstd::prelude::*;
use crate::math::{FX_ONE, fx_mul_spec, fx_mul};

verus! {

/// Keeps track of the physics time: the fixed sub-step length (as a
/// fixed-point number of seconds) and the maximum number of sub-steps one
/// frame may run.  The bank caps how much frame time may be owed to the
/// physics, so a slow frame cannot start a spiral of ever more sub-steps.
#[derive(Copy, Clone, Debug, PartialEq, Eq, Structural)]
pub struct PhysicsTime {
    sub_step_seconds: i64,
    max_sub_steps: u32,
    max_bank_size: i64,
    time_bank: i64,
}

/// The fixed-point value of a small integer count.
pub open spec fn fx_of_u32(n: u32) -> i64 {
    (n * FX_ONE) as i64
}

impl PhysicsTime {
    pub closed spec fn sub_step_seconds_spec(self) -> i64 {
        self.sub_step_seconds
    }

    pub closed spec fn max_sub_steps_spec(self) -> u32 {
        self.max_sub_steps
    }

    /// The cap of the time bank: sub-step length times the sub-step budget.
    pub closed spec fn max_bank_size_spec(self) -> i64 {
        self.max_bank_size
    }

    pub closed spec fn time_bank_spec(self) -> i64 {
        self.time_bank
    }

    /// Sixty frames per second and at most eight sub-steps per frame.
    pub fn new() -> (t: PhysicsTime)
        ensures
            t.sub_step_seconds_spec() == FX_ONE / 60,
            t.max_sub_steps_spec() == 8,
            t.max_bank_size_spec() == fx_mul_spec((FX_ONE / 60) as i64, fx_of_u32(8)),
            t.time_bank_spec() == 0,
    {
        let t = PhysicsTime { sub_step_seconds: 0, max_sub_steps: 0, max_bank_size: 0, time_bank: 0 };
        t.with_frames_per_second(60).with_max_sub_steps(8)
    }

    /// Set the physics frames per second.
    pub fn with_frames_per_second(self, frames_per_seconds: u32) -> (t: PhysicsTime)
        requires
            frames_per_seconds >= 1,
        ensures
            t.sub_step_seconds_spec() == FX_ONE / frames_per_seconds as i64,
            t.max_sub_steps_spec() == self.max_sub_steps_spec(),
            t.max_bank_size_spec() == fx_mul_spec(
                (FX_ONE / frames_per_seconds as i64) as i64,
                fx_of_u32(self.max_sub_steps_spec()),
            ),
            t.time_bank_spec() == self.time_bank_spec(),
    {
        let mut t = self;
        t.set_frames_per_seconds(frames_per_seconds);
        t
    }

    /// Set the physics frames per second.
    pub fn set_frames_per_seconds(&mut self, frames_per_seconds: u32)
        requires
            frames_per_seconds >= 1,
        ensures
            final(self).sub_step_seconds_spec() == FX_ONE / frames_per_seconds as i64,
            final(self).max_sub_steps_spec() == old(self).max_sub_steps_spec(),
            final(self).max_bank_size_spec() == fx_mul_spec(
                (FX_ONE / frames_per_seconds as i64) as i64,
                fx_of_u32(old(self).max_sub_steps_spec()),
            ),
            final(self).time_bank_spec() == old(self).time_bank_spec(),
    {
        self.set_sub_step_seconds(FX_ONE / frames_per_seconds as i64);
    }

    fn set_sub_step_seconds(&mut self, sub_step_seconds: i64)
        ensures
            final(self).sub_step_seconds_spec() == sub_step_seconds,
            final(self).max_sub_steps_spec() == old(self).max_sub_steps_spec(),
            final(self).max_bank_size_spec() == fx_mul_spec(
                sub_step_seconds,
                fx_of_u32(old(self).max_sub_steps_spec()),
            ),
            final(self).time_bank_spec() == old(self).time_bank_spec(),
    {
        self.sub_step_seconds = sub_step_seconds;
        self.update_max_bank_size();
    }

    /// Set the maximum number of sub-steps one frame may run.  Too high a
    /// value makes the cap ineffective; too low a value makes the physics
    /// lag behind a slow frame.
    pub fn with_max_sub_steps(self, max_sub_steps: u32) -> (t: PhysicsTime)
        ensures
            t.sub_step_seconds_spec() == self.sub_step_seconds_spec(),
            t.max_sub_steps_spec() == max_sub_steps,
            t.max_bank_size_spec() == fx_mul_spec(
                self.sub_step_seconds_spec(),
                fx_of_u32(max_sub_steps),
            ),
            t.time_bank_spec() == self.time_bank_spec(),
    {
        let mut t = self;
        t.set_max_sub_steps(max_sub_steps);
        t
    }

    /// Set the maximum number of sub-steps one frame may run.
    pub fn set_max_sub_steps(&mut self, max_sub_steps: u32)
        ensures
            final(self).sub_step_seconds_spec() == old(self).sub_step_seconds_spec(),
            final(self).max_sub_steps_spec() == max_sub_steps,
            final(self).max_bank_size_spec() == fx_mul_spec(
                old(self).sub_step_seconds_spec(),
                fx_of_u32(max_sub_steps),
            ),
            final(self).time_bank_spec() == old(self).time_bank_spec(),
    {
        self.max_sub_steps = max_sub_steps;
        self.update_max_bank_size();
    }

    /// The maximum number of sub-steps.
    pub fn sub_max_sub_steps(&self) -> (n: u32)
        ensures
            n == self.max_sub_steps_spec(),
    {
        self.max_sub_steps
    }

    /// The fixed sub-step length, in fixed-point seconds.
    pub fn sub_step_seconds(&self) -> (s: i64)
        ensures
            s == self.sub_step_seconds_spec(),
    {
        self.sub_step_seconds
    }

    fn update_max_bank_size(&mut self)
        ensures
            final(self).sub_step_seconds_spec() == old(self).sub_step_seconds_spec(),
            final(self).max_sub_steps_spec() == old(self).max_sub_steps_spec(),
            final(self).max_bank_size_spec() == fx_mul_spec(
                old(self).sub_step_seconds_spec(),
                fx_of_u32(old(self).max_sub_steps_spec()),
            ),
            final(self).time_bank_spec() == old(self).time_bank_spec(),
    {
        proof {
            assert(self.max_sub_steps * FX_ONE <= 0xffff_ffffu32 * 65536i64) by (nonlinear_arith)
                requires
                    self.max_sub_steps <= 0xffff_ffffu32,
            ;
        }
        self.max_bank_size = fx_mul(self.sub_step_seconds, (self.max_sub_steps as i64) * FX_ONE);
    }
}

impl Default for PhysicsTime {
    fn default() -> (t: Self)
        ensures
            t.sub_step_seconds_spec() == FX_ONE / 60,
            t.max_sub_steps_spec() == 8,
            t.time_bank_spec() == 0,
    {
        PhysicsTime::new()
    }
}

} // verus!
