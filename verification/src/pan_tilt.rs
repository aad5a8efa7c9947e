//! The servo controller of the pan/tilt bracket.
//!
//! Each axis has a goal angle and a current angle. Commands only move the
//! goal; a periodic control tick moves the current angle one degree toward
//! the goal and yields the pulse widths to hand to the PWM driver.

use crate::format::PanTiltStatus;
use vstd::prelude::*;

verus! {

/// Upper end of the tilt axis' travel, in degrees.
pub const TILT_LIMIT_DEG: i32 = 90;

/// Pulse width that puts the tilt servo at 0 degrees.
pub const TILT_0_DEG: u16 = 760;

/// Pulse width that puts the tilt servo at 180 degrees.
pub const TILT_180_DEG: u16 = 2900;

/// The angle of the second calibration point of both servos, in degrees.
pub const CALIBRATED_DEG: i32 = 180;

/// Upper end of the pan axis' travel, in degrees.
pub const PAN_LIMIT_DEG: i32 = 180;

/// Pulse width that puts the pan servo at 0 degrees.
pub const PAN_0_DEG: u16 = 760;

/// Pulse width that puts the pan servo at 180 degrees, the far end of its
/// travel.
pub const PAN_360_DEG: u16 = 2930;

/// `degrees` held to the travel `0 ..= limit` of an axis.
pub open spec fn clamped(degrees: int, limit: int) -> int {
    if degrees < 0 {
        0
    } else if degrees > limit {
        limit
    } else {
        degrees
    }
}

/// The angle one control tick after `current` on the way to `goal`: one
/// degree closer, or `current` itself once the goal is reached.
pub open spec fn next_angle(current: int, goal: int) -> int {
    if current > goal {
        current - 1
    } else if current < goal {
        current + 1
    } else {
        current
    }
}

/// The angle `ticks` control ticks after `current` on the way to `goal`.
pub open spec fn angle_after(current: int, goal: int, ticks: nat) -> int
    decreases ticks,
{
    if ticks == 0 {
        current
    } else {
        angle_after(next_angle(current, goal), goal, (ticks - 1) as nat)
    }
}

/// Distance in degrees between two angles.
pub open spec fn distance(current: int, goal: int) -> nat {
    if current <= goal {
        (goal - current) as nat
    } else {
        (current - goal) as nat
    }
}

/// `degrees`, or 180 where `degrees` is more than that.
pub open spec fn capped(degrees: int) -> int {
    if degrees > CALIBRATED_DEG {
        CALIBRATED_DEG as int
    } else {
        degrees
    }
}

/// Pulse width of the tilt servo at `degrees`: the point on the line through
/// the two calibration points, rounded down; angles above 180 degrees are
/// held to 180 first.
pub open spec fn tilt_off_val(degrees: int) -> int {
    TILT_0_DEG + (TILT_180_DEG - TILT_0_DEG) * capped(degrees) / (CALIBRATED_DEG as int)
}

/// Pulse width of the pan servo at `degrees`: the point on the line through
/// the two calibration points, rounded down; angles above 180 degrees are
/// held to 180 first.
pub open spec fn pan_off_val(degrees: int) -> int {
    PAN_0_DEG + (PAN_360_DEG - PAN_0_DEG) * capped(degrees) / (CALIBRATED_DEG as int)
}

/// The lines pass through both calibration points, and stay at the second
/// one beyond it.
pub proof fn lemma_calibration_points(degrees: int)
    ensures
        tilt_off_val(0) == TILT_0_DEG,
        pan_off_val(0) == PAN_0_DEG,
        degrees >= CALIBRATED_DEG ==> tilt_off_val(degrees) == TILT_180_DEG,
        degrees >= CALIBRATED_DEG ==> pan_off_val(degrees) == PAN_360_DEG,
{
}

/// While the goal is not reached, every tick shortens the way by one degree.
pub proof fn lemma_step_approaches(current: int, goal: int)
    ensures
        current != goal ==> distance(next_angle(current, goal), goal) == distance(current, goal)
            - 1,
        current == goal ==> next_angle(current, goal) == goal,
{
}

/// After as many ticks as the goal is degrees away the goal is reached
/// exactly, and every further tick leaves the angle there.
pub proof fn lemma_steps_reach_goal(current: int, goal: int, ticks: nat)
    requires
        ticks >= distance(current, goal),
    ensures
        angle_after(current, goal, distance(current, goal)) == goal,
        angle_after(current, goal, ticks) == goal,
        next_angle(goal, goal) == goal,
    decreases ticks,
{
    lemma_exact_steps_reach_goal(current, goal);
    if ticks > 0 {
        lemma_step_approaches(current, goal);
        lemma_steps_reach_goal(next_angle(current, goal), goal, (ticks - 1) as nat);
    }
}

/// After exactly as many ticks as the goal is degrees away the goal is
/// reached.
pub proof fn lemma_exact_steps_reach_goal(current: int, goal: int)
    ensures
        angle_after(current, goal, distance(current, goal)) == goal,
    decreases distance(current, goal),
{
    if current != goal {
        lemma_step_approaches(current, goal);
        lemma_exact_steps_reach_goal(next_angle(current, goal), goal);
    }
}

/// Before the goal is reached the angle differs from it: fewer ticks than
/// the distance do not suffice.
pub proof fn lemma_fewer_steps_fall_short(current: int, goal: int, ticks: nat)
    requires
        ticks < distance(current, goal),
    ensures
        angle_after(current, goal, ticks) != goal,
        distance(angle_after(current, goal, ticks), goal) == distance(current, goal) - ticks,
    decreases ticks,
{
    if ticks > 0 {
        lemma_step_approaches(current, goal);
        lemma_fewer_steps_fall_short(next_angle(current, goal), goal, (ticks - 1) as nat);
    }
}

/// Pulse width that puts the tilt servo at `degrees`.
pub fn tilt_deg_to_off_val(degrees: i32) -> (val: u16)
    requires
        degrees >= 0,
    ensures
        val as int == tilt_off_val(degrees as int),
        TILT_0_DEG <= val <= TILT_180_DEG,
        degrees == 0 ==> val == TILT_0_DEG,
        degrees >= CALIBRATED_DEG ==> val == TILT_180_DEG,
{
    let held: u32 = if degrees > CALIBRATED_DEG {
        CALIBRATED_DEG as u32
    } else {
        degrees as u32
    };
    let span: u32 = (TILT_180_DEG - TILT_0_DEG) as u32;
    assert(span == 2140);
    let rise: u32 = span * held / (CALIBRATED_DEG as u32);
    (TILT_0_DEG as u32 + rise) as u16
}

/// Pulse width that puts the pan servo at `degrees`.
pub fn pan_deg_to_off_val(degrees: i32) -> (val: u16)
    requires
        degrees >= 0,
    ensures
        val as int == pan_off_val(degrees as int),
        PAN_0_DEG <= val <= PAN_360_DEG,
        degrees == 0 ==> val == PAN_0_DEG,
        degrees >= CALIBRATED_DEG ==> val == PAN_360_DEG,
{
    let held: u32 = if degrees > CALIBRATED_DEG {
        CALIBRATED_DEG as u32
    } else {
        degrees as u32
    };
    let span: u32 = (PAN_360_DEG - PAN_0_DEG) as u32;
    assert(span == 2170);
    let rise: u32 = span * held / (CALIBRATED_DEG as u32);
    (PAN_0_DEG as u32 + rise) as u16
}

/// What one control tick asks of the PWM driver: the pulse width of each
/// servo.
#[derive(Clone, Copy, Debug, PartialEq, Eq, Structural)]
pub struct ServoPulses {
    /// Pulse width for the tilt servo.
    pub tilt: u16,
    /// Pulse width for the pan servo.
    pub pan: u16,
}

/// Goal and current angle of both axes of the bracket.
pub struct PanTilt {
    pan_deg_goal: i32,
    tilt_deg_goal: i32,
    tilt_deg: i32,
    pan_deg: i32,
}

fn clamp_to(degrees: i64, limit: i32) -> (held: i32)
    requires
        limit >= 0,
    ensures
        held as int == clamped(degrees as int, limit as int),
        0 <= held <= limit,
{
    if degrees < 0 {
        0
    } else if degrees > limit as i64 {
        limit
    } else {
        degrees as i32
    }
}

fn step_toward(current: i32, goal: i32) -> (next: i32)
    requires
        i32::MIN < current < i32::MAX,
    ensures
        next as int == next_angle(current as int, goal as int),
{
    if current > goal {
        current - 1
    } else if current < goal {
        current + 1
    } else {
        current
    }
}

impl PanTilt {
    #[verifier::type_invariant]
    spec fn within_travel(&self) -> bool {
        &&& 0 <= self.pan_deg_goal <= PAN_LIMIT_DEG
        &&& 0 <= self.tilt_deg_goal <= TILT_LIMIT_DEG
        &&& 0 <= self.pan_deg <= PAN_LIMIT_DEG
        &&& 0 <= self.tilt_deg <= TILT_LIMIT_DEG
    }

    /// Goal angle of the pan axis.
    pub closed spec fn pan_goal(&self) -> int {
        self.pan_deg_goal as int
    }

    /// Goal angle of the tilt axis.
    pub closed spec fn tilt_goal(&self) -> int {
        self.tilt_deg_goal as int
    }

    /// Current angle of the pan axis.
    pub closed spec fn pan_angle(&self) -> int {
        self.pan_deg as int
    }

    /// Current angle of the tilt axis.
    pub closed spec fn tilt_angle(&self) -> int {
        self.tilt_deg as int
    }

    /// A bracket resting at 0 degrees on both axes and heading for the given
    /// angles, each held to the travel of its axis.
    pub fn new(pan_deg: i32, tilt_deg: i32) -> (pan_tilt: Self)
        ensures
            pan_tilt.pan_angle() == 0,
            pan_tilt.tilt_angle() == 0,
            pan_tilt.pan_goal() == clamped(pan_deg as int, PAN_LIMIT_DEG as int),
            pan_tilt.tilt_goal() == clamped(tilt_deg as int, TILT_LIMIT_DEG as int),
    {
        PanTilt {
            pan_deg_goal: clamp_to(pan_deg as i64, PAN_LIMIT_DEG),
            tilt_deg_goal: clamp_to(tilt_deg as i64, TILT_LIMIT_DEG),
            tilt_deg: 0,
            pan_deg: 0,
        }
    }

    /// The goals of both axes.
    pub fn status(&self) -> (status: PanTiltStatus)
        ensures
            status.pan_deg == self.pan_goal(),
            status.tilt_deg == self.tilt_goal(),
            0 <= status.pan_deg <= PAN_LIMIT_DEG,
            0 <= status.tilt_deg <= TILT_LIMIT_DEG,
    {
        proof {
            use_type_invariant(self);
        }
        PanTiltStatus { pan_deg: self.pan_deg_goal, tilt_deg: self.tilt_deg_goal }
    }

    /// The current angles of both axes, pan first.
    pub fn angles(&self) -> (angles: (i32, i32))
        ensures
            angles.0 == self.pan_angle(),
            angles.1 == self.tilt_angle(),
            0 <= angles.0 <= PAN_LIMIT_DEG,
            0 <= angles.1 <= TILT_LIMIT_DEG,
    {
        proof {
            use_type_invariant(self);
        }
        (self.pan_deg, self.tilt_deg)
    }

    /// Sets the tilt goal to `degrees`, held to the travel of the axis. The
    /// bracket does not move until the next control tick.
    pub fn tilt_to_deg(&mut self, degrees: i32)
        ensures
            final(self).tilt_goal() == clamped(degrees as int, TILT_LIMIT_DEG as int),
            final(self).pan_goal() == old(self).pan_goal(),
            final(self).pan_angle() == old(self).pan_angle(),
            final(self).tilt_angle() == old(self).tilt_angle(),
    {
        proof {
            use_type_invariant(&*self);
        }
        self.tilt_deg_goal = clamp_to(degrees as i64, TILT_LIMIT_DEG);
    }

    /// Sets the pan goal to `degrees`, held to the travel of the axis. The
    /// bracket does not move until the next control tick.
    pub fn pan_to_deg(&mut self, degrees: i32)
        ensures
            final(self).pan_goal() == clamped(degrees as int, PAN_LIMIT_DEG as int),
            final(self).tilt_goal() == old(self).tilt_goal(),
            final(self).pan_angle() == old(self).pan_angle(),
            final(self).tilt_angle() == old(self).tilt_angle(),
    {
        proof {
            use_type_invariant(&*self);
        }
        self.pan_deg_goal = clamp_to(degrees as i64, PAN_LIMIT_DEG);
    }

    /// Sets the tilt goal `degrees` away from the current tilt angle, held to
    /// the travel of the axis.
    pub fn tilt_with_deg(&mut self, degrees: i32)
        ensures
            final(self).tilt_goal() == clamped(
                degrees + old(self).tilt_angle(),
                TILT_LIMIT_DEG as int,
            ),
            final(self).pan_goal() == old(self).pan_goal(),
            final(self).pan_angle() == old(self).pan_angle(),
            final(self).tilt_angle() == old(self).tilt_angle(),
    {
        proof {
            use_type_invariant(&*self);
        }
        let target: i64 = degrees as i64 + self.tilt_deg as i64;
        self.tilt_deg_goal = clamp_to(target, TILT_LIMIT_DEG);
    }

    /// Sets the pan goal `degrees` away from the current pan angle, held to
    /// the travel of the axis.
    pub fn pan_with_deg(&mut self, degrees: i32)
        ensures
            final(self).pan_goal() == clamped(
                degrees + old(self).pan_angle(),
                PAN_LIMIT_DEG as int,
            ),
            final(self).tilt_goal() == old(self).tilt_goal(),
            final(self).pan_angle() == old(self).pan_angle(),
            final(self).tilt_angle() == old(self).tilt_angle(),
    {
        proof {
            use_type_invariant(&*self);
        }
        let target: i64 = degrees as i64 + self.pan_deg as i64;
        self.pan_deg_goal = clamp_to(target, PAN_LIMIT_DEG);
    }

    /// One control tick: moves each axis one degree toward its goal, or
    /// leaves it where it is once the goal is reached, and returns the pulse
    /// widths that put the servos at the new angles.
    pub fn step(&mut self) -> (pulses: ServoPulses)
        ensures
            final(self).pan_angle() == next_angle(old(self).pan_angle(), old(self).pan_goal()),
            final(self).tilt_angle() == next_angle(old(self).tilt_angle(), old(self).tilt_goal()),
            final(self).pan_goal() == old(self).pan_goal(),
            final(self).tilt_goal() == old(self).tilt_goal(),
            pulses.pan as int == pan_off_val(final(self).pan_angle()),
            pulses.tilt as int == tilt_off_val(final(self).tilt_angle()),
    {
        proof {
            use_type_invariant(&*self);
        }
        let tilt_deg: i32 = step_toward(self.tilt_deg, self.tilt_deg_goal);
        let pan_deg: i32 = step_toward(self.pan_deg, self.pan_deg_goal);
        let tilt_val: u16 = tilt_deg_to_off_val(tilt_deg);
        let pan_val: u16 = pan_deg_to_off_val(pan_deg);
        self.tilt_deg = tilt_deg;
        self.pan_deg = pan_deg;
        ServoPulses { tilt: tilt_val, pan: pan_val }
    }
}

} // verus!
