//! The session: aircraft, airport and flight-plan registry, the command
//! interpreter with its scoring policy, and the per-turn tick.

use vstd::prelude::*;
use crate::airport::{Airport, Weather};
use crate::flight_plan::{
    lemma_filter_all, lemma_filter_filter, lemma_filter_same, lemma_filter_step, lemma_registered_ids, other_than,
    FlightPlan, FlightPlanManager,
};
use crate::plane::{Plane, PlaneStatus, MAX_START_TIMER, MIN_START_TIMER};
use crate::random::{chance, random_between};
use crate::text::{fold_text, eq_ignore_case, same_ignoring_case, split_words, words_of};

verus! {

/// Why a command was not carried out.
#[derive(Debug, PartialEq, Eq, Clone, Copy, Structural)]
pub enum Reason {
    /// The command line held no words.
    EmptyCommand,
    /// The session has already ended.
    GameOver,
    /// The keyword is none of the known ones.
    UnknownCommand,
    /// No active aircraft has the given identifier.
    PlaneNotFound,
    /// A takeoff or landing named no runway.
    MissingRunway,
    /// Pushback was asked of an aircraft that is still boarding.
    StillBoarding,
    /// The aircraft is not in the status that the command needs.
    NotReady,
    /// The named runway is closed by the weather.
    RunwayClosed,
    /// No runway has the given name.
    NoSuchRunway,
}

/// What became of one command.
#[derive(Debug, PartialEq, Eq, Clone, Copy, Structural)]
pub enum Outcome {
    Accepted { score_delta: i32 },
    Rejected { penalty: bool, reason: Reason },
}

/// Points for a successful pushback, and for a takeoff or landing.
pub const PUSHBACK_POINTS: i32 = 5;
pub const CLEARANCE_POINTS: i32 = 10;
/// Points taken for a penalty, and the number of strikes that ends the session.
pub const PENALTY_POINTS: i32 = 5;
pub const MAX_STRIKES: u32 = 3;
/// Timers set by the clearances.
pub const TAXI_TO_RUNWAY_TICKS: i32 = 15;
pub const FLIGHT_TICKS: i32 = 30;
pub const TAXI_TO_GATE_TICKS: i32 = 10;

/// What happened on a tick besides the aircraft's own progress.
#[derive(Debug, PartialEq, Eq, Clone, Copy, Structural)]
pub struct TickReport {
    /// A new aircraft joined, last in the list.
    pub spawned: bool,
    /// The weather was drawn again.
    pub weather_updated: bool,
}

/// The chance of a new aircraft on a tick, of it arriving by air rather than
/// boarding, and of a weather update, as numerator and denominator.
pub const SPAWN_CHANCE: (u32, u32) = (1, 10);
pub const ARRIVAL_CHANCE: (u32, u32) = (1, 2);
pub const WEATHER_CHANCE: (u32, u32) = (1, 20);

pub struct Game {
    pub score: i32,
    pub penalty_strikes: u32,
    pub airport: Airport,
    pub planes: Vec<Plane>,
    pub flight_plan_manager: FlightPlanManager,
    /// Set by a quit or by the last strike; never cleared.
    pub game_over: bool,
}

/// The words of a command line as character sequences.
pub open spec fn word_seqs(words: Seq<String>) -> Seq<Seq<char>> {
    words.map_values(|w: String| w@)
}

/// The `i`-th word, or the empty string where there is none.
pub open spec fn arg(words: Seq<Seq<char>>, i: int) -> Seq<char> {
    if 0 <= i < words.len() {
        words[i]
    } else {
        Seq::empty()
    }
}

/// The first word is the keyword `k`, up to ASCII case.
pub open spec fn is_keyword(words: Seq<Seq<char>>, k: Seq<char>) -> bool {
    words.len() > 0 && same_ignoring_case(words[0], k)
}

/// The index of the first aircraft in `planes[0..n]` whose identifier equals
/// `id` up to ASCII case.
pub open spec fn first_plane(planes: Seq<Plane>, id: Seq<char>, n: int) -> Option<int>
    decreases n,
{
    if n <= 0 {
        None
    } else {
        match first_plane(planes, id, n - 1) {
            Some(i) => Some(i),
            None => if same_ignoring_case(planes[n - 1].id@, id) {
                Some(n - 1)
            } else {
                None
            },
        }
    }
}

/// Aircraft whose status is not `AtGate`.
pub open spec fn in_service() -> spec_fn(Plane) -> bool {
    |p: Plane| p.status != PlaneStatus::AtGate
}

/// Some aircraft of `planes` in status `AtGate` has identifier `id`.
pub open spec fn released(planes: Seq<Plane>, id: Seq<char>) -> bool {
    exists|j: int|
        0 <= j < planes.len() && planes[j].status == PlaneStatus::AtGate && #[trigger] planes[j].id@
            == id
}

/// Holds of the plans whose flight number no aircraft of `planes` in status
/// `AtGate` carries.
pub open spec fn kept_for(planes: Seq<Plane>) -> spec_fn(FlightPlan) -> bool {
    |p: FlightPlan| !released(planes, p.flight_id@)
}

/// One more aircraft of `s` adds its identifier to those released when it is
/// in status `AtGate`.
proof fn lemma_released_step(s: Seq<Plane>, i: int, id: Seq<char>)
    requires
        0 <= i < s.len(),
    ensures
        released(s.subrange(0, i + 1), id) == (released(s.subrange(0, i), id) || (s[i].status
            == PlaneStatus::AtGate && s[i].id@ == id)),
{
    let pre = s.subrange(0, i);
    let post = s.subrange(0, i + 1);
    if released(post, id) {
        let j = choose|j: int|
            0 <= j < post.len() && post[j].status == PlaneStatus::AtGate && #[trigger] post[j].id@ == id;
        if j < i {
            assert(pre[j] == post[j]);
        }
    }
    if released(pre, id) {
        let j = choose|j: int|
            0 <= j < pre.len() && pre[j].status == PlaneStatus::AtGate && #[trigger] pre[j].id@ == id;
        assert(post[j] == pre[j]);
    }
    if s[i].status == PlaneStatus::AtGate && s[i].id@ == id {
        assert(post[i] == s[i]);
    }
}

/// Each aircraft of `after` is the one of `before` a tick later.
pub open spec fn planes_ticked(before: Seq<Plane>, after: Seq<Plane>) -> bool {
    &&& after.len() == before.len()
    &&& forall|j: int| 0 <= j < before.len() ==> Plane::ticked(before[j], #[trigger] after[j])
}

/// No two aircraft share an identifier.
pub open spec fn distinct_ids(planes: Seq<Plane>) -> bool {
    forall|i: int, j: int|
        0 <= i < planes.len() && 0 <= j < planes.len() && i != j ==> #[trigger] planes[i].id@
            != #[trigger] planes[j].id@
}

/// A newly spawned aircraft: boarding, or arriving in the air, with
/// a start timer, under a plan that the generator could have drawn.
pub open spec fn fresh_plane(p: Plane) -> bool {
    &&& p.status == PlaneStatus::Boarding || p.status == PlaneStatus::InAir
    &&& MIN_START_TIMER <= p.timer <= MAX_START_TIMER
    &&& p.id@ == p.flight_plan.flight_id@
    &&& p.flight_plan.valid()
}

/// `after` is what remains of `ticked` once the aircraft in status `AtGate`
/// are gone, with one fresh aircraft added last when `spawned`.
pub open spec fn swept(ticked: Seq<Plane>, after: Seq<Plane>, spawned: bool) -> bool {
    if spawned {
        &&& after.len() == ticked.filter(in_service()).len() + 1
        &&& after.drop_last() == ticked.filter(in_service())
        &&& fresh_plane(after.last())
    } else {
        after == ticked.filter(in_service())
    }
}

/// The registry of `after` holds the plans `kept`, followed, when `spawned`,
/// by the plan of the new aircraft, and nothing else.
pub open spec fn registry_swept(kept: Seq<FlightPlan>, after: Game, spawned: bool) -> bool {
    let plans = after.flight_plan_manager.active_plans@;
    if spawned {
        &&& plans.len() == kept.len() + 1
        &&& plans.drop_last() == kept
        &&& plans.last().same_as(after.planes@.last().flight_plan)
    } else {
        plans == kept
    }
}

/// The status and timer that a successful clearance gives, by keyword.
pub open spec fn cleared_state(words: Seq<Seq<char>>) -> (PlaneStatus, i32) {
    if is_keyword(words, "pushback"@) {
        (PlaneStatus::TaxiingToRunway, TAXI_TO_RUNWAY_TICKS)
    } else if is_keyword(words, "takeoff"@) {
        (PlaneStatus::InAir, FLIGHT_TICKS)
    } else {
        (PlaneStatus::TaxiingToGate, TAXI_TO_GATE_TICKS)
    }
}

impl Game {
    /// The session has ended, by a quit or by the last strike.
    pub open spec fn is_over(&self) -> bool {
        self.game_over
    }

    /// The first aircraft whose identifier matches `id` up to case.
    pub open spec fn plane_index(&self, id: Seq<char>) -> Option<int> {
        first_plane(self.planes@, id, self.planes@.len() as int)
    }

    /// The outcome of a takeoff or landing of an aircraft in status `status`,
    /// which needs status `ready` and an open runway.
    pub open spec fn clearance_outcome(
        &self,
        words: Seq<Seq<char>>,
        status: PlaneStatus,
        ready: PlaneStatus,
    ) -> Outcome {
        if words.len() < 3 {
            Outcome::Rejected { penalty: true, reason: Reason::MissingRunway }
        } else if status != ready {
            Outcome::Rejected { penalty: true, reason: Reason::NotReady }
        } else {
            match self.airport.runway_index(words[2]) {
                None => Outcome::Rejected { penalty: true, reason: Reason::NoSuchRunway },
                Some(r) => if self.airport.runways@[r].is_open {
                    Outcome::Accepted { score_delta: CLEARANCE_POINTS }
                } else {
                    Outcome::Rejected { penalty: true, reason: Reason::RunwayClosed }
                },
            }
        }
    }

    /// The outcome of the command made of `words`. The aircraft is looked up
    /// before the keyword is read, so an unknown keyword is a penalty when
    /// its aircraft is missing and no penalty otherwise.
    pub open spec fn outcome_of(&self, words: Seq<Seq<char>>) -> Outcome {
        if self.is_over() {
            Outcome::Rejected { penalty: false, reason: Reason::GameOver }
        } else if words.len() == 0 {
            Outcome::Rejected { penalty: false, reason: Reason::EmptyCommand }
        } else if is_keyword(words, "wait"@) || is_keyword(words, "quit"@) {
            Outcome::Accepted { score_delta: 0 }
        } else {
            match self.plane_index(arg(words, 1)) {
                None => Outcome::Rejected { penalty: true, reason: Reason::PlaneNotFound },
                Some(i) => {
                    let status = self.planes@[i].status;
                    if is_keyword(words, "pushback"@) {
                        if status == PlaneStatus::ReadyForPushback {
                            Outcome::Accepted { score_delta: PUSHBACK_POINTS }
                        } else if status == PlaneStatus::Boarding {
                            Outcome::Rejected { penalty: true, reason: Reason::StillBoarding }
                        } else {
                            Outcome::Rejected { penalty: true, reason: Reason::NotReady }
                        }
                    } else if is_keyword(words, "takeoff"@) {
                        self.clearance_outcome(words, status, PlaneStatus::ReadyForTakeoff)
                    } else if is_keyword(words, "land"@) {
                        self.clearance_outcome(words, status, PlaneStatus::ReadyToLand)
                    } else if is_keyword(words, "taxi"@) {
                        Outcome::Accepted { score_delta: 0 }
                    } else {
                        Outcome::Rejected { penalty: false, reason: Reason::UnknownCommand }
                    }
                },
            }
        }
    }

    /// `after` is `before` with `amount` points added and the strikes cleared.
    pub open spec fn scored(before: Game, after: Game, amount: int) -> bool {
        &&& after.score == before.score + amount
        &&& after.penalty_strikes == 0
        &&& after.is_over() == before.is_over()
        &&& after.planes == before.planes
        &&& after.airport == before.airport
        &&& after.flight_plan_manager == before.flight_plan_manager
    }

    /// `after` is `before` with one penalty: points taken, a strike added, and
    /// the session ended once the strikes reach the limit.
    pub open spec fn penalized(before: Game, after: Game) -> bool {
        &&& after.score == before.score - PENALTY_POINTS
        &&& after.penalty_strikes == before.penalty_strikes + 1
        &&& after.is_over() == (before.is_over() || after.penalty_strikes >= MAX_STRIKES)
        &&& after.planes == before.planes
        &&& after.airport == before.airport
        &&& after.flight_plan_manager == before.flight_plan_manager
    }

    /// `after` is `before` with nothing changed.
    pub open spec fn unchanged(before: Game, after: Game) -> bool {
        &&& after.score == before.score
        &&& after.penalty_strikes == before.penalty_strikes
        &&& after.is_over() == before.is_over()
        &&& after.planes == before.planes
        &&& after.airport == before.airport
        &&& after.flight_plan_manager == before.flight_plan_manager
    }

    /// The effect of the command made of `words` on `before`, with outcome `r`.
    pub open spec fn command_applied(
        before: Game,
        words: Seq<Seq<char>>,
        after: Game,
        r: Outcome,
    ) -> bool {
        &&& r == before.outcome_of(words)
        &&& match r {
            Outcome::Accepted { score_delta } => if score_delta > 0 {
                let i = before.plane_index(arg(words, 1)).unwrap();
                let (status, timer) = cleared_state(words);
                &&& after.score == before.score + score_delta
                &&& after.penalty_strikes == 0
                &&& after.is_over() == before.is_over()
                &&& after.airport == before.airport
                &&& after.flight_plan_manager == before.flight_plan_manager
                &&& after.planes@.len() == before.planes@.len()
                &&& forall|j: int|
                    0 <= j < before.planes@.len() && j != i ==> #[trigger] after.planes@[j]
                        == before.planes@[j]
                &&& after.planes@[i].id == before.planes@[i].id
                &&& after.planes@[i].flight_plan == before.planes@[i].flight_plan
                &&& after.planes@[i].status == status
                &&& after.planes@[i].timer == timer
            } else if is_keyword(words, "quit"@) {
                &&& after.is_over()
                &&& after.score == before.score
                &&& after.penalty_strikes == before.penalty_strikes
                &&& after.planes == before.planes
                &&& after.airport == before.airport
                &&& after.flight_plan_manager == before.flight_plan_manager
            } else {
                Game::unchanged(before, after)
            },
            Outcome::Rejected { penalty, reason } => if penalty {
                Game::penalized(before, after)
            } else {
                Game::unchanged(before, after)
            },
        }
    }

    /// The session's invariant: runways follow the weather, flight numbers are
    /// unique, every aircraft carries the identifier of its own plan, which is
    /// registered, and the strike limit has ended the session once reached.
    pub open spec fn wf(&self) -> bool {
        &&& self.airport.runways_follow_weather()
        &&& self.flight_plan_manager.wf()
        &&& distinct_ids(self.planes@)
        &&& forall|i: int|
            0 <= i < self.planes@.len() ==> (#[trigger] self.planes@[i]).id@
                == self.planes@[i].flight_plan.flight_id@ && self.flight_plan_manager.has_id(
                self.planes@[i].id@,
            )
        &&& self.penalty_strikes >= MAX_STRIKES ==> self.game_over
    }

    /// The score can take one more award or penalty, and the strikes one more.
    pub open spec fn counters_fit(&self) -> bool {
        &&& i32::MIN + PENALTY_POINTS <= self.score <= i32::MAX - CLEARANCE_POINTS
        &&& self.penalty_strikes < u32::MAX
    }

    pub fn is_game_over(&self) -> (r: bool)
        ensures
            r == self.is_over(),
    {
        self.game_over
    }

    /// Awards `amount` points and clears the strikes.
    pub fn add_score(&mut self, amount: i32)
        requires
            i32::MIN <= old(self).score + amount <= i32::MAX,
        ensures
            Game::scored(*old(self), *final(self), amount as int),
    {
        self.score = self.score + amount;
        self.penalty_strikes = 0;
    }

    /// Takes the penalty points and adds a strike; the third strike ends the
    /// session.
    pub fn add_penalty(&mut self)
        requires
            old(self).score >= i32::MIN + PENALTY_POINTS,
            old(self).penalty_strikes < u32::MAX,
        ensures
            Game::penalized(*old(self), *final(self)),
    {
        self.score = self.score - PENALTY_POINTS;
        self.penalty_strikes = self.penalty_strikes + 1;
        if self.penalty_strikes >= MAX_STRIKES {
            self.game_over = true;
        }
    }

    /// The index of the first aircraft whose identifier matches `id` up to case.
    pub fn find_plane(&self, id: &str) -> (r: Option<usize>)
        ensures
            match r {
                Some(i) => i < self.planes@.len() && self.plane_index(id@) == Some(i as int),
                None => self.plane_index(id@) is None,
            },
    {
        let mut found: Option<usize> = None;
        let mut i: usize = 0;
        while i < self.planes.len()
            invariant
                0 <= i <= self.planes@.len(),
                match found {
                    Some(k) => k < i && first_plane(self.planes@, id@, i as int) == Some(
                        k as int,
                    ),
                    None => first_plane(self.planes@, id@, i as int) is None,
                },
            decreases self.planes@.len() - i,
        {
            if found.is_none() && eq_ignore_case(self.planes[i].id.as_str(), id) {
                found = Some(i);
            }
            i += 1;
        }
        found
    }

    /// Moves aircraft `i` to `status` with `timer` ticks to go.
    fn set_plane_state(&mut self, i: usize, status: PlaneStatus, timer: i32)
        requires
            i < old(self).planes@.len(),
        ensures
            final(self).planes@.len() == old(self).planes@.len(),
            forall|j: int|
                0 <= j < old(self).planes@.len() && j != i ==> #[trigger] final(self).planes@[j]
                    == old(self).planes@[j],
            final(self).planes@[i as int].id == old(self).planes@[i as int].id,
            final(self).planes@[i as int].flight_plan == old(self).planes@[i as int].flight_plan,
            final(self).planes@[i as int].status == status,
            final(self).planes@[i as int].timer == timer,
            final(self).score == old(self).score,
            final(self).penalty_strikes == old(self).penalty_strikes,
            final(self).is_over() == old(self).is_over(),
            final(self).airport == old(self).airport,
            final(self).flight_plan_manager == old(self).flight_plan_manager,
    {
        self.planes[i].status = status;
        self.planes[i].timer = timer;
    }

    /// Carries out the command made of `words`: the keyword, then the
    /// aircraft identifier and the runway where the command takes them.
    pub fn process_words(&mut self, words: &Vec<String>) -> (r: Outcome)
        requires
            old(self).counters_fit(),
        ensures
            Game::command_applied(*old(self), word_seqs(words@), *final(self), r),
            old(self).wf() ==> final(self).wf(),
    {
        let ghost ws = word_seqs(words@);
        if self.game_over {
            return Outcome::Rejected { penalty: false, reason: Reason::GameOver };
        }
        if words.len() == 0 {
            return Outcome::Rejected { penalty: false, reason: Reason::EmptyCommand };
        }
        let keyword = words[0].as_str();
        assert(keyword@ == ws[0]);
        if eq_ignore_case(keyword, "wait") {
            proof {
                lemma_wait_is_not_quit();
            }
            return Outcome::Accepted { score_delta: 0 };
        }
        if eq_ignore_case(keyword, "quit") {
            self.game_over = true;
            return Outcome::Accepted { score_delta: 0 };
        }
        let plane_id: &str = if words.len() > 1 {
            words[1].as_str()
        } else {
            ""
        };
        proof {
            reveal_strlit("");
            assert(plane_id@ == arg(ws, 1));
        }
        let i = match self.find_plane(plane_id) {
            Some(i) => i,
            None => {
                self.add_penalty();
                return Outcome::Rejected { penalty: true, reason: Reason::PlaneNotFound };
            },
        };
        let status = self.planes[i].status;
        if eq_ignore_case(keyword, "pushback") {
            if status == PlaneStatus::ReadyForPushback {
                self.set_plane_state(i, PlaneStatus::TaxiingToRunway, TAXI_TO_RUNWAY_TICKS);
                self.add_score(PUSHBACK_POINTS);
                Outcome::Accepted { score_delta: PUSHBACK_POINTS }
            } else if status == PlaneStatus::Boarding {
                self.add_penalty();
                Outcome::Rejected { penalty: true, reason: Reason::StillBoarding }
            } else {
                self.add_penalty();
                Outcome::Rejected { penalty: true, reason: Reason::NotReady }
            }
        } else if eq_ignore_case(keyword, "takeoff") {
            self.clear_plane(words, i, PlaneStatus::ReadyForTakeoff, PlaneStatus::InAir, FLIGHT_TICKS)
        } else if eq_ignore_case(keyword, "land") {
            self.clear_plane(words, i, PlaneStatus::ReadyToLand, PlaneStatus::TaxiingToGate, TAXI_TO_GATE_TICKS)
        } else if eq_ignore_case(keyword, "taxi") {
            Outcome::Accepted { score_delta: 0 }
        } else {
            Outcome::Rejected { penalty: false, reason: Reason::UnknownCommand }
        }
    }

    /// A takeoff or landing of aircraft `i`: it needs a runway argument, the
    /// aircraft in status `ready`, and the runway to exist and be open.
    fn clear_plane(
        &mut self,
        words: &Vec<String>,
        i: usize,
        ready: PlaneStatus,
        next: PlaneStatus,
        timer: i32,
    ) -> (r: Outcome)
        requires
            i < old(self).planes@.len(),
            old(self).counters_fit(),
        ensures
            r == old(self).clearance_outcome(word_seqs(words@), old(self).planes@[i as int].status, ready),
            match r {
                Outcome::Accepted { score_delta } => {
                    &&& score_delta == CLEARANCE_POINTS
                    &&& final(self).score == old(self).score + CLEARANCE_POINTS
                    &&& final(self).penalty_strikes == 0
                    &&& final(self).is_over() == old(self).is_over()
                    &&& final(self).airport == old(self).airport
                    &&& final(self).flight_plan_manager == old(self).flight_plan_manager
                    &&& final(self).planes@.len() == old(self).planes@.len()
                    &&& forall|j: int|
                        0 <= j < old(self).planes@.len() && j != i ==> #[trigger] final(self).planes@[j]
                            == old(self).planes@[j]
                    &&& final(self).planes@[i as int].id == old(self).planes@[i as int].id
                    &&& final(self).planes@[i as int].flight_plan == old(self).planes@[i as int].flight_plan
                    &&& final(self).planes@[i as int].status == next
                    &&& final(self).planes@[i as int].timer == timer
                },
                Outcome::Rejected { penalty, reason } => penalty && Game::penalized(*old(self), *final(self)),
            },
    {
        if words.len() < 3 {
            self.add_penalty();
            return Outcome::Rejected { penalty: true, reason: Reason::MissingRunway };
        }
        if self.planes[i].status != ready {
            self.add_penalty();
            return Outcome::Rejected { penalty: true, reason: Reason::NotReady };
        }
        let open = match self.airport.get_runway(words[2].as_str()) {
            Some(runway) => Some(runway.is_open),
            None => None,
        };
        match open {
            Some(true) => {
                self.set_plane_state(i, next, timer);
                self.add_score(CLEARANCE_POINTS);
                Outcome::Accepted { score_delta: CLEARANCE_POINTS }
            },
            Some(false) => {
                self.add_penalty();
                Outcome::Rejected { penalty: true, reason: Reason::RunwayClosed }
            },
            None => {
                self.add_penalty();
                Outcome::Rejected { penalty: true, reason: Reason::NoSuchRunway }
            },
        }
    }

    /// Splits `command` into words and carries it out as `process_words` does.
    pub fn process_command(&mut self, command: String) -> (r: Outcome)
        requires
            old(self).counters_fit(),
        ensures
            Game::command_applied(*old(self), words_of(command@), *final(self), r),
            old(self).wf() ==> final(self).wf(),
    {
        let words = split_words(command.as_str());
        self.process_words(&words)
    }

    /// One turn: carries out `command`, then, unless the session has ended,
    /// runs one tick. Once the session has ended a turn changes nothing.
    pub fn submit_command(&mut self, command: String) -> (r: Outcome)
        requires
            old(self).counters_fit(),
        ensures
            exists|mid: Game, report: TickReport|
                Game::command_applied(*old(self), words_of(command@), mid, r) && Game::tick_applied(
                    mid,
                    *final(self),
                    report,
                ),
            old(self).game_over ==> Game::unchanged(*old(self), *final(self)),
            old(self).wf() ==> final(self).wf(),
    {
        let r = self.process_command(command);
        let ghost mid = *self;
        let report = self.update();
        assert(Game::command_applied(*old(self), words_of(command@), mid, r) && Game::tick_applied(
            mid,
            *self,
            report,
        ));
        r
    }

    /// A new session: clear weather with every runway open, and two boarding
    /// aircraft under freshly registered plans, which are all the registry
    /// holds. `None` when the registry finds no unused flight number for the
    /// second aircraft.
    pub fn new() -> (r: Option<Self>)
        ensures
            r matches Some(g) ==> {
                &&& g.wf()
                &&& g.score == 0
                &&& g.penalty_strikes == 0
                &&& !g.game_over
                &&& g.airport.weather == Weather::Clear
                &&& g.airport.runway_names() == seq!["24L"@, "24R"@, "18"@]
                &&& g.planes@.len() == 2
                &&& g.flight_plan_manager.ids() == g.planes@.map_values(|p: Plane| p.id@)
                &&& forall|i: int|
                    0 <= i < g.planes@.len() ==> (#[trigger] g.planes@[i]).status
                        == PlaneStatus::Boarding && MIN_START_TIMER <= g.planes@[i].timer
                        <= MAX_START_TIMER && g.planes@[i].flight_plan.valid()
            },
    {
        let mut flight_plan_manager = FlightPlanManager::new();
        let ghost reg0 = flight_plan_manager;
        let first = match flight_plan_manager.generate_new_plan() {
            Some(plan) => plan,
            None => return None,
        };
        let ghost reg1 = flight_plan_manager;
        let second = match flight_plan_manager.generate_new_plan() {
            Some(plan) => plan,
            None => return None,
        };
        proof {
            lemma_registered_ids(reg0, reg1, first);
            lemma_registered_ids(reg1, flight_plan_manager, second);
        }
        let mut planes: Vec<Plane> = Vec::new();
        planes.push(Plane::new(first));
        planes.push(Plane::new(second));
        let g = Game {
            score: 0,
            penalty_strikes: 0,
            airport: Airport::new(),
            planes,
            flight_plan_manager,
            game_over: false,
        };
        proof {
            assert(reg1.active_plans@.len() == 1);
            assert(reg1.active_plans@[0] == flight_plan_manager.active_plans@[0]);
            assert(g.flight_plan_manager.ids() =~= g.planes@.map_values(|p: Plane| p.id@));
        }
        Some(g)
    }

    /// Moves every aircraft on by one tick.
    pub fn advance_planes(&mut self)
        ensures
            planes_ticked(old(self).planes@, final(self).planes@),
            final(self).score == old(self).score,
            final(self).penalty_strikes == old(self).penalty_strikes,
            final(self).game_over == old(self).game_over,
            final(self).airport == old(self).airport,
            final(self).flight_plan_manager == old(self).flight_plan_manager,
    {
        let n = self.planes.len();
        let mut i: usize = 0;
        while i < n
            invariant
                n == self.planes@.len(),
                n == old(self).planes@.len(),
                i <= n,
                forall|j: int| 0 <= j < i ==> Plane::ticked(old(self).planes@[j], #[trigger] self.planes@[j]),
                forall|j: int| i <= j < n ==> #[trigger] self.planes@[j] == old(self).planes@[j],
                self.score == old(self).score,
                self.penalty_strikes == old(self).penalty_strikes,
                self.game_over == old(self).game_over,
                self.airport == old(self).airport,
                self.flight_plan_manager == old(self).flight_plan_manager,
            decreases n - i,
        {
            self.planes[i].update();
            i += 1;
        }
    }

    /// Removes the aircraft in status `AtGate` and releases their plans.
    pub fn remove_arrivals(&mut self)
        ensures
            final(self).planes@ == old(self).planes@.filter(in_service()),
            final(self).flight_plan_manager.active_plans@
                == old(self).flight_plan_manager.active_plans@.filter(kept_for(old(self).planes@)),
            forall|j: int|
                0 <= j < old(self).planes@.len() && (#[trigger] old(self).planes@[j]).status
                    == PlaneStatus::AtGate ==> !final(self).flight_plan_manager.has_id(
                    old(self).planes@[j].id@,
                ),
            forall|id: Seq<char>|
                (forall|j: int|
                    0 <= j < old(self).planes@.len() && (#[trigger] old(self).planes@[j]).status
                        == PlaneStatus::AtGate ==> old(self).planes@[j].id@ != id) ==> (
                #[trigger] final(self).flight_plan_manager.has_id(id)
                    == old(self).flight_plan_manager.has_id(id)),
            old(self).flight_plan_manager.wf() ==> final(self).flight_plan_manager.wf(),
            distinct_ids(old(self).planes@) ==> distinct_ids(final(self).planes@),
            forall|k: int|
                0 <= k < final(self).planes@.len() ==> old(self).planes@.contains(
                    #[trigger] final(self).planes@[k],
                ),
            final(self).score == old(self).score,
            final(self).penalty_strikes == old(self).penalty_strikes,
            final(self).game_over == old(self).game_over,
            final(self).airport == old(self).airport,
    {
        let ghost pred = in_service();
        let mut rest: Vec<Plane> = Vec::new();
        std::mem::swap(&mut rest, &mut self.planes);
        let ghost start = rest@;
        let ghost reg = self.flight_plan_manager;
        let ghost mut idx: Seq<int> = Seq::empty();
        proof {
            let none = start.subrange(0, 0);
            assert forall|x: FlightPlan| #[trigger] kept_for(none)(x) by {
                assert(!released(none, x.flight_id@));
            }
            lemma_filter_all(reg.active_plans@, kept_for(none));
        }
        let n = rest.len();
        let mut i: usize = 0;
        while i < n
            invariant
                n == start.len(),
                i <= n,
                start == old(self).planes@,
                pred == in_service(),
                reg == old(self).flight_plan_manager,
                rest@ == start.subrange(i as int, n as int),
                self.planes@ == start.subrange(0, i as int).filter(pred),
                self.flight_plan_manager.active_plans@ == reg.active_plans@.filter(
                    kept_for(start.subrange(0, i as int)),
                ),
                idx.len() == self.planes@.len(),
                forall|k: int|
                    0 <= k < idx.len() ==> 0 <= #[trigger] idx[k] < i && self.planes@[k]
                        == start[idx[k]],
                forall|a: int, b: int| 0 <= a < b < idx.len() ==> #[trigger] idx[a] < #[trigger] idx[b],
                forall|j: int|
                    0 <= j < i && (#[trigger] start[j]).status == PlaneStatus::AtGate
                        ==> !self.flight_plan_manager.has_id(start[j].id@),
                forall|id: Seq<char>|
                    (forall|j: int|
                        0 <= j < i && (#[trigger] start[j]).status == PlaneStatus::AtGate
                            ==> start[j].id@ != id) ==> (
                    #[trigger] self.flight_plan_manager.has_id(id) == reg.has_id(id)),
                reg.wf() ==> self.flight_plan_manager.wf(),
                self.score == old(self).score,
                self.penalty_strikes == old(self).penalty_strikes,
                self.game_over == old(self).game_over,
                self.airport == old(self).airport,
            decreases n - i,
        {
            let p = rest.remove(0);
            proof {
                lemma_filter_step(start, i as int, pred);
                assert(p == start[i as int]);
            }
            proof {
                assert forall|id: Seq<char>| true implies released(start.subrange(0, i + 1), id) == (
                released(start.subrange(0, i as int), id) || (start[i as int].status
                    == PlaneStatus::AtGate && start[i as int].id@ == id)) by {
                    lemma_released_step(start, i as int, id);
                }
            }
            if p.status == PlaneStatus::AtGate {
                let ghost before = self.flight_plan_manager;
                self.flight_plan_manager.remove_plan(p.id.as_str());
                proof {
                    lemma_filter_filter(
                        reg.active_plans@,
                        kept_for(start.subrange(0, i as int)),
                        other_than(p.id@),
                        kept_for(start.subrange(0, i + 1)),
                    );
                    assert forall|id: Seq<char>|
                        (forall|j: int|
                            0 <= j < i + 1 && (#[trigger] start[j]).status == PlaneStatus::AtGate
                                ==> start[j].id@ != id) implies (
                        #[trigger] self.flight_plan_manager.has_id(id) == reg.has_id(id)) by {
                        assert(start[i as int].id@ != id);
                        assert(before.has_id(id) == reg.has_id(id));
                    }
                }
            } else {
                self.planes.push(p);
                proof {
                    idx = idx.push(i as int);
                    lemma_filter_same(
                        reg.active_plans@,
                        kept_for(start.subrange(0, i as int)),
                        kept_for(start.subrange(0, i + 1)),
                    );
                }
            }
            i += 1;
            proof {
                assert(rest@ =~= start.subrange(i as int, n as int));
            }
        }
        proof {
            assert(start.subrange(0, n as int) =~= start);
            let kept = self.planes@;
            assert forall|k: int| 0 <= k < kept.len() implies start.contains(#[trigger] kept[k]) by {
                assert(kept[k] == start[idx[k]]);
            }
            if distinct_ids(start) {
                assert forall|a: int, b: int|
                    0 <= a < kept.len() && 0 <= b < kept.len() && a != b implies #[trigger] kept[a].id@
                    != #[trigger] kept[b].id@ by {
                    if a < b {
                        assert(idx[a] < idx[b]);
                    } else {
                        assert(idx[b] < idx[a]);
                    }
                    assert(kept[a] == start[idx[a]]);
                    assert(kept[b] == start[idx[b]]);
                }
            }
        }
    }

    /// Registers a fresh plan and adds its aircraft last: boarding, or, with
    /// even chance, arriving in the air. Adds nothing, and says so, when the
    /// registry finds no unused flight number.
    pub fn spawn_plane(&mut self) -> (r: bool)
        ensures
            r ==> {
                &&& final(self).planes@.len() == old(self).planes@.len() + 1
                &&& final(self).planes@.drop_last() == old(self).planes@
                &&& fresh_plane(final(self).planes@.last())
                &&& FlightPlanManager::registered(
                    old(self).flight_plan_manager,
                    final(self).flight_plan_manager,
                    final(self).planes@.last().flight_plan,
                )
            },
            !r ==> final(self).planes@ == old(self).planes@ && final(self).flight_plan_manager.active_plans@
                == old(self).flight_plan_manager.active_plans@,
            old(self).flight_plan_manager.active_plans@.len() == 0 ==> r,
            old(self).flight_plan_manager.wf() ==> final(self).flight_plan_manager.wf(),
            final(self).score == old(self).score,
            final(self).penalty_strikes == old(self).penalty_strikes,
            final(self).game_over == old(self).game_over,
            final(self).airport == old(self).airport,
    {
        let plan = match self.flight_plan_manager.generate_new_plan() {
            Some(plan) => plan,
            None => return false,
        };
        let arriving = chance(ARRIVAL_CHANCE.0, ARRIVAL_CHANCE.1);
        let timer = random_between(MIN_START_TIMER as i64, MAX_START_TIMER as i64) as i32;
        self.planes.push(Plane::start(plan, arriving, timer));
        assert(self.planes@.drop_last() =~= old(self).planes@);
        true
    }

    /// One tick of the session: every aircraft moves on, those in status
    /// `AtGate` leave and release their plans, a new aircraft may appear and the
    /// weather may change. Nothing happens once the session has ended.
    /// `after` is `before` one tick later, with report `r`.
    pub open spec fn tick_applied(before: Game, after: Game, r: TickReport) -> bool {
        &&& before.game_over ==> Game::unchanged(before, after) && !r.spawned && !r.weather_updated
        &&& !before.game_over ==> {
                &&& after.score == before.score
                &&& after.penalty_strikes == before.penalty_strikes
                &&& after.game_over == before.game_over
                &&& exists|ticked: Seq<Plane>|
                    {
                        &&& planes_ticked(before.planes@, ticked)
                        &&& swept(ticked, after.planes@, r.spawned)
                        &&& registry_swept(
                            before.flight_plan_manager.active_plans@.filter(kept_for(ticked)),
                            after,
                            r.spawned,
                        )
                        &&& forall|j: int|
                            0 <= j < ticked.len() && (#[trigger] ticked[j]).status
                                == PlaneStatus::AtGate && !(r.spawned
                                && after.planes@.last().id@ == ticked[j].id@)
                                ==> !after.flight_plan_manager.has_id(ticked[j].id@)
                    }
            }
        &&& after.airport.runway_names() == before.airport.runway_names()
        &&& !r.weather_updated ==> after.airport == before.airport
        &&& r.weather_updated ==> after.airport.runways_follow_weather()
    }

    pub fn update(&mut self) -> (r: TickReport)
        ensures
            Game::tick_applied(*old(self), *final(self), r),
            old(self).wf() ==> final(self).wf(),
    {
        if self.game_over {
            return TickReport { spawned: false, weather_updated: false };
        }
        self.advance_planes();
        let ghost ticked = self.planes@;
        let ghost reg_ticked = self.flight_plan_manager;
        proof {
            if old(self).wf() {
                assert forall|i: int| 0 <= i < ticked.len() implies (#[trigger] ticked[i]).id@
                    == ticked[i].flight_plan.flight_id@ && reg_ticked.has_id(ticked[i].id@) by {
                    assert(Plane::ticked(old(self).planes@[i], ticked[i]));
                }
                assert forall|i: int, j: int|
                    0 <= i < ticked.len() && 0 <= j < ticked.len() && i != j implies #[trigger] ticked[i].id@
                    != #[trigger] ticked[j].id@ by {
                    assert(Plane::ticked(old(self).planes@[i], ticked[i]));
                    assert(Plane::ticked(old(self).planes@[j], ticked[j]));
                }
            }
        }
        self.remove_arrivals();
        let ghost kept = self.planes@;
        let ghost reg_kept = self.flight_plan_manager;
        proof {
            if old(self).wf() {
                assert forall|k: int| 0 <= k < kept.len() implies (#[trigger] kept[k]).id@
                    == kept[k].flight_plan.flight_id@ && reg_kept.has_id(kept[k].id@) by {
                    assert(ticked.contains(kept[k]));
                    let m = choose|m: int| 0 <= m < ticked.len() && ticked[m] == kept[k];
                    ticked.lemma_filter_pred(in_service(), k);
                    assert(kept[k].status != PlaneStatus::AtGate);
                    assert forall|j: int|
                        0 <= j < ticked.len() && (#[trigger] ticked[j]).status == PlaneStatus::AtGate
                            implies ticked[j].id@ != kept[k].id@ by {
                        assert(j != m);
                    }
                }
            }
        }
        let mut spawned = false;
        if chance(SPAWN_CHANCE.0, SPAWN_CHANCE.1) {
            spawned = self.spawn_plane();
        }
        proof {
            if spawned {
                let last = self.planes@.last();
                lemma_registered_ids(reg_kept, self.flight_plan_manager, last.flight_plan);
                assert forall|j: int|
                    0 <= j < ticked.len() && (#[trigger] ticked[j]).status == PlaneStatus::AtGate
                        && last.id@ != ticked[j].id@ implies !self.flight_plan_manager.has_id(
                    ticked[j].id@,
                ) by {
                    assert(!reg_kept.has_id(ticked[j].id@));
                }
                if old(self).wf() {
                    let n = kept.len() as int;
                    assert forall|k: int| 0 <= k < self.planes@.len() implies (#[trigger] self.planes@[k]).id@
                        == self.planes@[k].flight_plan.flight_id@ && self.flight_plan_manager.has_id(
                        self.planes@[k].id@,
                    ) by {
                        if k < n {
                            assert(self.planes@[k] == self.planes@.drop_last()[k]);
                        }
                    }
                    assert forall|a: int, b: int|
                        0 <= a < self.planes@.len() && 0 <= b < self.planes@.len() && a != b implies #[trigger] self.planes@[a].id@
                        != #[trigger] self.planes@[b].id@ by {
                        if a < n {
                            assert(self.planes@[a] == self.planes@.drop_last()[a]);
                        }
                        if b < n {
                            assert(self.planes@[b] == self.planes@.drop_last()[b]);
                        }
                        if a == n {
                            assert(reg_kept.has_id(kept[b].id@));
                        }
                        if b == n {
                            assert(reg_kept.has_id(kept[a].id@));
                        }
                    }
                }
            }
        }
        let mut weather_updated = false;
        if chance(WEATHER_CHANCE.0, WEATHER_CHANCE.1) {
            self.airport.update_weather();
            weather_updated = true;
        }
        TickReport { spawned, weather_updated }
    }
}

/// A `wait` command leaves the score, the strikes and every aircraft as they
/// were.
pub proof fn lemma_wait_changes_nothing(
    before: Game,
    words: Seq<Seq<char>>,
    after: Game,
    r: Outcome,
)
    requires
        Game::command_applied(before, words, after, r),
        is_keyword(words, "wait"@),
    ensures
        after.score == before.score,
        after.penalty_strikes == before.penalty_strikes,
        after.planes == before.planes,
        after.game_over == before.game_over,
{
    lemma_wait_is_not_quit();
}

/// Any award clears the strikes.
pub proof fn lemma_award_clears_strikes(before: Game, after: Game, amount: int)
    requires
        Game::scored(before, after, amount),
    ensures
        after.penalty_strikes == 0,
{
}

/// Three penalties in a row, with no award between them, end the session.
pub proof fn lemma_three_penalties_end_game(g0: Game, g1: Game, g2: Game, g3: Game)
    requires
        Game::penalized(g0, g1),
        Game::penalized(g1, g2),
        Game::penalized(g2, g3),
    ensures
        g3.game_over,
{
}

/// The keywords `wait` and `quit` differ even up to case.
proof fn lemma_wait_is_not_quit()
    ensures
        fold_text("wait"@) != fold_text("quit"@),
{
    reveal_strlit("wait");
    reveal_strlit("quit");
    assert(fold_text("wait"@)[0] != fold_text("quit"@)[0]);
}

} // verus!
