//! Aircraft and the state machine that moves them along on each tick.

use vstd::prelude::*;
use crate::flight_plan::FlightPlan;
use crate::random::random_between;

verus! {

#[derive(Debug, PartialEq, Eq, Clone, Copy, Structural)]
pub enum PlaneStatus {
    Boarding,
    ReadyForPushback,
    TaxiingToRunway,
    ReadyForTakeoff,
    InAir,
    ReadyToLand,
    TaxiingToGate,
    AtGate,
}

/// Ticks an aircraft spends boarding, or in the air when it arrives, at the least
/// and at the most.
pub const MIN_START_TIMER: i32 = 10;
pub const MAX_START_TIMER: i32 = 20;

#[derive(Debug)]
pub struct Plane {
    pub id: String,
    pub flight_plan: FlightPlan,
    pub status: PlaneStatus,
    /// Ticks left before the next automatic change of status.
    pub timer: i32,
}

/// The status that a finished timer moves an aircraft to; the statuses that
/// wait for a clearance, and `AtGate`, stay.
pub open spec fn auto_next(s: PlaneStatus) -> PlaneStatus {
    match s {
        PlaneStatus::Boarding => PlaneStatus::ReadyForPushback,
        PlaneStatus::TaxiingToRunway => PlaneStatus::ReadyForTakeoff,
        PlaneStatus::InAir => PlaneStatus::ReadyToLand,
        PlaneStatus::TaxiingToGate => PlaneStatus::AtGate,
        other => other,
    }
}

impl Plane {
    /// `after` is `before` one tick later: a running timer counts down,
    /// otherwise the status advances.
    pub open spec fn ticked(before: Plane, after: Plane) -> bool {
        &&& after.id == before.id
        &&& after.flight_plan == before.flight_plan
        &&& if before.timer > 0 {
            after.timer == before.timer - 1 && after.status == before.status
        } else {
            after.timer == before.timer && after.status == auto_next(before.status)
        }
    }

    /// An aircraft for `flight_plan` in `status`, with `timer` ticks to go.
    pub fn with_timer(flight_plan: FlightPlan, status: PlaneStatus, timer: i32) -> (r: Self)
        ensures
            r.id@ == flight_plan.flight_id@,
            r.flight_plan == flight_plan,
            r.status == status,
            r.timer == timer,
    {
        Plane { id: flight_plan.flight_id.clone(), flight_plan, status, timer }
    }

    /// A newly spawned aircraft for `flight_plan`: in the air when `arriving`,
    /// boarding otherwise, with `timer` ticks to go.
    pub fn start(flight_plan: FlightPlan, arriving: bool, timer: i32) -> (r: Self)
        ensures
            r.id@ == flight_plan.flight_id@,
            r.flight_plan == flight_plan,
            r.status == if arriving {
                PlaneStatus::InAir
            } else {
                PlaneStatus::Boarding
            },
            r.timer == timer,
    {
        let status = if arriving {
            PlaneStatus::InAir
        } else {
            PlaneStatus::Boarding
        };
        Plane::with_timer(flight_plan, status, timer)
    }

    /// A boarding aircraft for `flight_plan`, with a random boarding time.
    pub fn new(flight_plan: FlightPlan) -> (r: Self)
        ensures
            r.id@ == flight_plan.flight_id@,
            r.flight_plan == flight_plan,
            r.status == PlaneStatus::Boarding,
            MIN_START_TIMER <= r.timer <= MAX_START_TIMER,
    {
        let timer = random_between(MIN_START_TIMER as i64, MAX_START_TIMER as i64) as i32;
        Plane::with_timer(flight_plan, PlaneStatus::Boarding, timer)
    }

    /// One tick of the aircraft's state machine.
    pub fn update(&mut self)
        ensures
            Plane::ticked(*old(self), *final(self)),
    {
        if self.timer > 0 {
            self.timer = self.timer - 1;
            return;
        }
        self.status = match self.status {
            PlaneStatus::Boarding => PlaneStatus::ReadyForPushback,
            PlaneStatus::TaxiingToRunway => PlaneStatus::ReadyForTakeoff,
            PlaneStatus::InAir => PlaneStatus::ReadyToLand,
            PlaneStatus::TaxiingToGate => PlaneStatus::AtGate,
            other => other,
        };
    }
}

} // verus!
