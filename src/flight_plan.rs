//! Flight plans: randomly drawn itineraries, and the registry that keeps the
//! flight numbers of active plans unique.

use vstd::prelude::*;
use vstd::string::*;
use crate::random::{pick, random_between};
use crate::text::{decimal, decimal_text};

verus! {

#[derive(Debug, Clone, Copy, PartialEq, Eq, Structural)]
pub enum Airline {
    Southwest,
    Delta,
    American,
    United,
    JetBlue,
}

#[derive(Debug, Clone, Copy, PartialEq, Eq, Structural)]
pub enum FlightType {
    Domestic,
    International,
    Cargo,
}

/// A named point of a route. Coordinates are in millionths of a degree.
#[derive(Debug)]
pub struct Waypoint {
    pub name: String,
    pub latitude: i32,
    pub longitude: i32,
}

#[derive(Debug)]
pub struct FlightPlan {
    pub flight_id: String,
    pub airline: Airline,
    pub aircraft_type: String,
    pub origin: String,
    pub destination: String,
    pub flight_type: FlightType,
    pub route: Vec<Waypoint>,
}

/// Lowest and highest flight number drawn.
pub const MIN_FLIGHT_NUMBER: u32 = 100;
pub const MAX_FLIGHT_NUMBER: u32 = 1999;

/// Bounds of a waypoint's latitude and longitude, in millionths of a degree.
pub const MIN_LATITUDE: i32 = 30_000_000;
pub const MAX_LATITUDE: i32 = 50_000_000;
pub const MIN_LONGITUDE: i32 = -120_000_000;
pub const MAX_LONGITUDE: i32 = -75_000_000;

/// How many fresh plans the registry draws before it gives up on finding an
/// unused flight number.
pub const MAX_ATTEMPTS: u32 = 1000;

pub open spec fn aircraft_types() -> Seq<Seq<char>> {
    seq!["B737"@, "A320"@, "B787"@, "A330"@, "E175"@]
}

pub open spec fn destinations() -> Seq<Seq<char>> {
    seq!["KSFO"@, "KLAS"@, "KMIA"@, "KBOS"@, "KDEN"@]
}

pub open spec fn waypoint_names() -> Seq<Seq<char>> {
    seq!["ALPHA"@, "BRAVO"@, "CHARLIE"@, "DELTA"@, "ECHO"@]
}

pub open spec fn home_airport() -> Seq<char> {
    "KPDX"@
}

impl Airline {
    /// The ICAO code of the airline.
    pub open spec fn code(self) -> Seq<char> {
        match self {
            Airline::Southwest => "SWA"@,
            Airline::Delta => "DAL"@,
            Airline::American => "AAL"@,
            Airline::United => "UAL"@,
            Airline::JetBlue => "JBU"@,
        }
    }

    pub fn get_id(&self) -> (r: &'static str)
        ensures
            r@ == self.code(),
    {
        match self {
            Airline::Southwest => "SWA",
            Airline::Delta => "DAL",
            Airline::American => "AAL",
            Airline::United => "UAL",
            Airline::JetBlue => "JBU",
        }
    }

    /// One of the five airlines, drawn uniformly.
    pub fn random() -> (r: Self) {
        let choices = [
            Airline::Southwest,
            Airline::Delta,
            Airline::American,
            Airline::United,
            Airline::JetBlue,
        ];
        pick(choices.as_slice())
    }
}

impl FlightType {
    /// The category's name in capitals.
    pub open spec fn label(self) -> Seq<char> {
        match self {
            FlightType::Domestic => "DOMESTIC"@,
            FlightType::International => "INTERNATIONAL"@,
            FlightType::Cargo => "CARGO"@,
        }
    }

    pub fn name(&self) -> (r: &'static str)
        ensures
            r@ == self.label(),
    {
        match self {
            FlightType::Domestic => "DOMESTIC",
            FlightType::International => "INTERNATIONAL",
            FlightType::Cargo => "CARGO",
        }
    }

    /// A category drawn with domestic flights twice as likely as each other kind.
    pub fn random() -> (r: Self) {
        let choices = [
            FlightType::Domestic,
            FlightType::Domestic,
            FlightType::International,
            FlightType::Cargo,
        ];
        pick(choices.as_slice())
    }
}

impl Waypoint {
    pub open spec fn valid(self) -> bool {
        &&& waypoint_names().contains(self.name@)
        &&& MIN_LATITUDE <= self.latitude <= MAX_LATITUDE
        &&& MIN_LONGITUDE <= self.longitude <= MAX_LONGITUDE
    }

    pub fn copy(&self) -> (r: Self)
        ensures
            r == *self,
    {
        Waypoint { name: self.name.clone(), latitude: self.latitude, longitude: self.longitude }
    }
}

/// `s` padded on the right with spaces to at least `width` characters.
pub open spec fn pad_right(s: Seq<char>, width: nat) -> Seq<char> {
    if s.len() >= width {
        s
    } else {
        s + Seq::new((width - s.len()) as nat, |i: int| ' ')
    }
}

impl FlightPlan {
    /// The flight number is the airline's code followed by a number in range.
    pub open spec fn id_well_formed(self) -> bool {
        exists|n: nat|
            MIN_FLIGHT_NUMBER <= n <= MAX_FLIGHT_NUMBER && self.flight_id@ == #[trigger] (
            self.airline.code() + decimal(n))
    }

    /// Every field holds one of the values that the generator draws from.
    pub open spec fn valid(self) -> bool {
        &&& self.id_well_formed()
        &&& aircraft_types().contains(self.aircraft_type@)
        &&& self.origin@ == home_airport()
        &&& destinations().contains(self.destination@)
        &&& 2 <= self.route@.len() <= 5
        &&& forall|i: int| 0 <= i < self.route@.len() ==> (#[trigger] self.route@[i]).valid()
    }

    /// `self` and `other` hold the same values.
    pub open spec fn same_as(self, other: FlightPlan) -> bool {
        &&& self.flight_id == other.flight_id
        &&& self.airline == other.airline
        &&& self.aircraft_type == other.aircraft_type
        &&& self.origin == other.origin
        &&& self.destination == other.destination
        &&& self.flight_type == other.flight_type
        &&& self.route@ == other.route@
    }

    /// The one-line summary: the padded flight number, aircraft type, origin,
    /// destination and category.
    pub open spec fn summary_text(self) -> Seq<char> {
        pad_right(self.flight_id@, 8) + " ("@ + self.aircraft_type@ + ") "@ + self.origin@
            + " -> "@ + self.destination@ + " | "@ + self.flight_type.label()
    }

    /// Builds a plan from drawn parts; the flight number is the airline's
    /// code followed by `number` in decimal.
    pub fn from_parts(
        airline: Airline,
        number: u32,
        aircraft_type: &str,
        origin: &str,
        destination: &str,
        flight_type: FlightType,
        route: Vec<Waypoint>,
    ) -> (r: Self)
        ensures
            r.flight_id@ == airline.code() + decimal(number as nat),
            r.airline == airline,
            r.aircraft_type@ == aircraft_type@,
            r.origin@ == origin@,
            r.destination@ == destination@,
            r.flight_type == flight_type,
            r.route == route,
    {
        let flight_id = String::from_str(airline.get_id()).concat(decimal_text(number).as_str());
        FlightPlan {
            flight_id,
            airline,
            aircraft_type: String::from_str(aircraft_type),
            origin: String::from_str(origin),
            destination: String::from_str(destination),
            flight_type,
            route,
        }
    }

    /// A new plan with every field drawn at random.
    pub fn new() -> (r: Self)
        ensures
            r.valid(),
    {
        let airline = Airline::random();
        let number = random_between(MIN_FLIGHT_NUMBER as i64, MAX_FLIGHT_NUMBER as i64) as u32;
        let aircraft_choices = ["B737", "A320", "B787", "A330", "E175"];
        let aircraft_type = pick(aircraft_choices.as_slice());
        let dest_choices = ["KSFO", "KLAS", "KMIA", "KBOS", "KDEN"];
        let destination = pick(dest_choices.as_slice());
        proof {
            assert(aircraft_choices@.map_values(|s: &str| s@) =~= aircraft_types());
            assert(dest_choices@.map_values(|s: &str| s@) =~= destinations());
        }
        let flight_type = FlightType::random();
        let route = FlightPlan::generate_random_route();
        let r = FlightPlan::from_parts(
            airline,
            number,
            aircraft_type,
            "KPDX",
            destination,
            flight_type,
            route,
        );
        assert(r.flight_id@ == r.airline.code() + decimal(number as nat));
        r
    }

    /// A route of two to five waypoints, each drawn at random.
    pub fn generate_random_route() -> (r: Vec<Waypoint>)
        ensures
            2 <= r@.len() <= 5,
            forall|i: int| 0 <= i < r@.len() ==> (#[trigger] r@[i]).valid(),
    {
        let mut route: Vec<Waypoint> = Vec::new();
        let point_names = ["ALPHA", "BRAVO", "CHARLIE", "DELTA", "ECHO"];
        proof {
            assert(point_names@.map_values(|s: &str| s@) =~= waypoint_names());
        }
        let num_points = random_between(2, 5) as usize;
        let mut k: usize = 0;
        while k < num_points
            invariant
                2 <= num_points <= 5,
                k <= num_points,
                route@.len() == k,
                point_names@.map_values(|s: &str| s@) == waypoint_names(),
                forall|i: int| 0 <= i < route@.len() ==> (#[trigger] route@[i]).valid(),
            decreases num_points - k,
        {
            let name = pick(point_names.as_slice());
            let latitude = random_between(MIN_LATITUDE as i64, MAX_LATITUDE as i64) as i32;
            let longitude = random_between(MIN_LONGITUDE as i64, MAX_LONGITUDE as i64) as i32;
            let w = Waypoint { name: String::from_str(name), latitude, longitude };
            proof {
                let j = choose|j: int| 0 <= j < point_names@.len() && point_names@[j] == name;
                assert(waypoint_names()[j] == name@);
            }
            route.push(w);
            k += 1;
        }
        route
    }

    pub fn summary(&self) -> (r: String)
        ensures
            r@ == self.summary_text(),
    {
        let mut s = self.flight_id.clone();
        let id_len = self.flight_id.as_str().unicode_len();
        let mut len = id_len;
        while len < 8
            invariant
                id_len == self.flight_id@.len(),
                id_len <= len <= if id_len >= 8 { id_len } else { 8 },
                s@ == self.flight_id@ + Seq::new((len - id_len) as nat, |i: int| ' '),
            decreases 8 - len,
        {
            s.append(" ");
            len += 1;
            proof {
                reveal_strlit(" ");
            }
            assert(s@ =~= self.flight_id@ + Seq::new((len - id_len) as nat, |i: int| ' '));
        }
        assert(s@ =~= pad_right(self.flight_id@, 8));
        let s = s.concat(" (").concat(self.aircraft_type.as_str()).concat(") ").concat(
            self.origin.as_str(),
        ).concat(" -> ").concat(self.destination.as_str()).concat(" | ").concat(
            self.flight_type.name(),
        );
        s
    }

    /// A copy of the plan with the same values.
    pub fn copy(&self) -> (r: Self)
        ensures
            r.same_as(*self),
    {
        let mut route: Vec<Waypoint> = Vec::new();
        let mut i: usize = 0;
        while i < self.route.len()
            invariant
                i <= self.route@.len(),
                route@ == self.route@.subrange(0, i as int),
            decreases self.route@.len() - i,
        {
            route.push(self.route[i].copy());
            i += 1;
        }
        assert(route@ =~= self.route@);
        FlightPlan {
            flight_id: self.flight_id.clone(),
            airline: self.airline,
            aircraft_type: self.aircraft_type.clone(),
            origin: self.origin.clone(),
            destination: self.destination.clone(),
            flight_type: self.flight_type,
            route,
        }
    }
}

/// The registry of active flight plans, which keeps their flight numbers unique.
pub struct FlightPlanManager {
    pub active_plans: Vec<FlightPlan>,
}

impl FlightPlanManager {
    /// The flight numbers of the active plans, in registration order.
    pub open spec fn ids(&self) -> Seq<Seq<char>> {
        self.active_plans@.map_values(|p: FlightPlan| p.flight_id@)
    }

    pub open spec fn has_id(&self, id: Seq<char>) -> bool {
        exists|i: int| 0 <= i < self.active_plans@.len() && #[trigger] self.active_plans@[i].flight_id@ == id
    }

    /// No two active plans share a flight number.
    pub open spec fn wf(&self) -> bool {
        forall|i: int, j: int|
            0 <= i < self.active_plans@.len() && 0 <= j < self.active_plans@.len() && i != j
                ==> #[trigger] self.active_plans@[i].flight_id@ != #[trigger] self.active_plans@[j].flight_id@
    }

    /// `after` is `before` with `plan` registered: its flight number was not
    /// active, and a copy of it now stands last.
    pub open spec fn registered(before: Self, after: Self, plan: FlightPlan) -> bool {
        &&& !before.has_id(plan.flight_id@)
        &&& after.active_plans@.len() == before.active_plans@.len() + 1
        &&& after.active_plans@.drop_last() == before.active_plans@
        &&& after.active_plans@.last().same_as(plan)
    }

    pub fn new() -> (r: Self)
        ensures
            r.active_plans@.len() == 0,
            r.wf(),
    {
        FlightPlanManager { active_plans: Vec::new() }
    }

    /// Whether an active plan has flight number `id`.
    pub fn contains_id(&self, id: &String) -> (r: bool)
        ensures
            r == self.has_id(id@),
    {
        let mut i: usize = 0;
        while i < self.active_plans.len()
            invariant
                i <= self.active_plans@.len(),
                forall|j: int| 0 <= j < i ==> #[trigger] self.active_plans@[j].flight_id@ != id@,
            decreases self.active_plans@.len() - i,
        {
            if self.active_plans[i].flight_id == *id {
                return true;
            }
            i += 1;
        }
        false
    }

    /// Registers a copy of `plan` and hands `plan` back when its flight number
    /// is not active; otherwise leaves the registry as it was and returns `None`.
    pub fn try_register(&mut self, plan: FlightPlan) -> (r: Option<FlightPlan>)
        ensures
            r is Some <==> !old(self).has_id(plan.flight_id@),
            r is Some ==> r == Some(plan) && Self::registered(*old(self), *final(self), plan),
            r is None ==> final(self).active_plans@ == old(self).active_plans@,
            old(self).wf() ==> final(self).wf(),
    {
        if self.contains_id(&plan.flight_id) {
            return None;
        }
        let stored = plan.copy();
        self.active_plans.push(stored);
        assert(self.active_plans@.drop_last() =~= old(self).active_plans@);
        assert forall|i: int, j: int|
            0 <= i < self.active_plans@.len() && 0 <= j < self.active_plans@.len() && i != j
                && old(self).wf() implies #[trigger] self.active_plans@[i].flight_id@
            != #[trigger] self.active_plans@[j].flight_id@ by {
            let n = old(self).active_plans@.len() as int;
            if i < n {
                assert(self.active_plans@[i] == old(self).active_plans@[i]);
            }
            if j < n {
                assert(self.active_plans@[j] == old(self).active_plans@[j]);
            }
        }
        Some(plan)
    }

    /// Draws fresh plans and registers the first whose flight number is not
    /// active, as `try_register` does, returning it. Gives up with `None`,
    /// leaving the registry as it was, after `MAX_ATTEMPTS` draws that all
    /// collided.
    pub fn generate_new_plan(&mut self) -> (r: Option<FlightPlan>)
        ensures
            match r {
                Some(p) => p.valid() && Self::registered(*old(self), *final(self), p),
                None => final(self).active_plans@ == old(self).active_plans@,
            },
            old(self).active_plans@.len() == 0 ==> r is Some,
            old(self).wf() ==> final(self).wf(),
    {
        let mut attempts: u32 = 0;
        while attempts < MAX_ATTEMPTS
            invariant
                self.active_plans@ == old(self).active_plans@,
                old(self).active_plans@.len() == 0 ==> attempts == 0,
            decreases MAX_ATTEMPTS - attempts,
        {
            let plan = FlightPlan::new();
            match self.try_register(plan) {
                Some(kept) => {
                    assert(kept.valid());
                    return Some(kept);
                },
                None => {},
            }
            attempts += 1;
        }
        None
    }

    /// Releases every plan with flight number `flight_id`.
    pub fn remove_plan(&mut self, flight_id: &str)
        ensures
            final(self).active_plans@ == old(self).active_plans@.filter(other_than(flight_id@)),
            !final(self).has_id(flight_id@),
            forall|id: Seq<char>|
                id != flight_id@ ==> (#[trigger] final(self).has_id(id) == old(self).has_id(id)),
            old(self).wf() ==> final(self).wf(),
    {
        let target = String::from_str(flight_id);
        let ghost pred = other_than(flight_id@);
        let mut rest: Vec<FlightPlan> = Vec::new();
        std::mem::swap(&mut rest, &mut self.active_plans);
        let ghost start = rest@;
        let ghost mut idx: Seq<int> = Seq::empty();
        let n = rest.len();
        let mut i: usize = 0;
        while i < n
            invariant
                n == start.len(),
                i <= n,
                start == old(self).active_plans@,
                target@ == flight_id@,
                pred == other_than(flight_id@),
                rest@ == start.subrange(i as int, n as int),
                self.active_plans@ == start.subrange(0, i as int).filter(pred),
                idx.len() == self.active_plans@.len(),
                forall|k: int|
                    0 <= k < idx.len() ==> 0 <= #[trigger] idx[k] < i && self.active_plans@[k]
                        == start[idx[k]],
                forall|a: int, b: int| 0 <= a < b < idx.len() ==> #[trigger] idx[a] < #[trigger] idx[b],
            decreases n - i,
        {
            let p = rest.remove(0);
            proof {
                lemma_filter_step(start, i as int, pred);
                assert(p == start[i as int]);
                assert(pred(p) == (p.flight_id@ != target@));
            }
            if !(p.flight_id == target) {
                self.active_plans.push(p);
                proof {
                    idx = idx.push(i as int);
                }
            }
            i += 1;
            proof {
                assert(rest@ =~= start.subrange(i as int, n as int));
            }
        }
        proof {
            assert(start.subrange(0, n as int) =~= start);
            let kept = self.active_plans@;
            assert forall|k: int| 0 <= k < kept.len() implies #[trigger] kept[k].flight_id@ != flight_id@ by {
                start.lemma_filter_pred(pred, k);
            }
            assert forall|id: Seq<char>| id != flight_id@ implies (#[trigger] self.has_id(id)
                == old(self).has_id(id)) by {
                if self.has_id(id) {
                    let k = choose|k: int|
                        0 <= k < kept.len() && #[trigger] kept[k].flight_id@ == id;
                    assert(old(self).active_plans@[idx[k]].flight_id@ == id);
                }
                if old(self).has_id(id) {
                    let m = choose|m: int|
                        0 <= m < n && #[trigger] old(self).active_plans@[m].flight_id@ == id;
                    start.lemma_filter_contains(pred, m);
                    let k = choose|k: int| 0 <= k < kept.len() && kept[k] == start[m];
                    assert(kept[k].flight_id@ == id);
                }
            }
            if old(self).wf() {
                assert forall|a: int, b: int|
                    0 <= a < kept.len() && 0 <= b < kept.len() && a != b implies #[trigger] kept[a].flight_id@
                    != #[trigger] kept[b].flight_id@ by {
                    if a < b {
                        assert(idx[a] < idx[b]);
                    } else {
                        assert(idx[b] < idx[a]);
                    }
                    assert(kept[a] == old(self).active_plans@[idx[a]]);
                    assert(kept[b] == old(self).active_plans@[idx[b]]);
                }
            }
        }
    }
}

/// Registering a plan keeps every flight number that was active and adds the
/// plan's own.
pub proof fn lemma_registered_ids(before: FlightPlanManager, after: FlightPlanManager, plan: FlightPlan)
    requires
        FlightPlanManager::registered(before, after, plan),
    ensures
        after.has_id(plan.flight_id@),
        forall|id: Seq<char>| #[trigger] before.has_id(id) ==> after.has_id(id),
        forall|id: Seq<char>| #[trigger] after.has_id(id) ==> before.has_id(id) || id == plan.flight_id@,
{
    let n = before.active_plans@.len() as int;
    assert(after.active_plans@[n] == after.active_plans@.last());
    assert forall|id: Seq<char>| #[trigger] after.has_id(id) implies before.has_id(id) || id
        == plan.flight_id@ by {
        let i = choose|i: int| 0 <= i < n + 1 && #[trigger] after.active_plans@[i].flight_id@ == id;
        if i < n {
            assert(after.active_plans@.drop_last()[i] == after.active_plans@[i]);
        }
    }
    assert forall|id: Seq<char>| #[trigger] before.has_id(id) implies after.has_id(id) by {
        let i = choose|i: int| 0 <= i < n && #[trigger] before.active_plans@[i].flight_id@ == id;
        assert(after.active_plans@.drop_last()[i] == after.active_plans@[i]);
    }
}

/// After `k` registrations in a row, the registry holds the flight numbers of
/// all `k` plans.
proof fn lemma_registered_prefix(registries: Seq<FlightPlanManager>, plans: Seq<FlightPlan>, k: int)
    requires
        registries.len() == plans.len() + 1,
        0 <= k <= plans.len(),
        forall|j: int|
            0 <= j < plans.len() ==> FlightPlanManager::registered(
                registries[j],
                registries[j + 1],
                #[trigger] plans[j],
            ),
    ensures
        forall|a: int| 0 <= a < k ==> #[trigger] registries[k].has_id(plans[a].flight_id@),
    decreases k,
{
    if k > 0 {
        lemma_registered_prefix(registries, plans, k - 1);
        assert(FlightPlanManager::registered(registries[k - 1], registries[k], plans[k - 1]));
        lemma_registered_ids(registries[k - 1], registries[k], plans[k - 1]);
        assert forall|a: int| 0 <= a < k implies #[trigger] registries[k].has_id(
            plans[a].flight_id@,
        ) by {
            if a < k - 1 {
                assert(registries[k - 1].has_id(plans[a].flight_id@));
            }
        }
    }
}

/// Plans that one registry hands out one after another, with nothing released
/// in between, have pairwise different flight numbers.
pub proof fn lemma_generated_ids_distinct(registries: Seq<FlightPlanManager>, plans: Seq<FlightPlan>)
    requires
        registries.len() == plans.len() + 1,
        forall|j: int|
            0 <= j < plans.len() ==> FlightPlanManager::registered(
                registries[j],
                registries[j + 1],
                #[trigger] plans[j],
            ),
    ensures
        forall|a: int, b: int|
            0 <= a < b < plans.len() ==> #[trigger] plans[a].flight_id@ != #[trigger] plans[b].flight_id@,
{
    assert forall|a: int, b: int| 0 <= a < b < plans.len() implies #[trigger] plans[a].flight_id@
        != #[trigger] plans[b].flight_id@ by {
        lemma_registered_prefix(registries, plans, b);
        assert(FlightPlanManager::registered(registries[b], registries[b + 1], plans[b]));
    }
}

/// Holds of the plans whose flight number is not `id`.
pub open spec fn other_than(id: Seq<char>) -> spec_fn(FlightPlan) -> bool {
    |p: FlightPlan| p.flight_id@ != id
}

/// Filtering by `p1` and then by `p2` is filtering by their conjunction `p3`.
pub(crate) proof fn lemma_filter_filter<A>(
    s: Seq<A>,
    p1: spec_fn(A) -> bool,
    p2: spec_fn(A) -> bool,
    p3: spec_fn(A) -> bool,
)
    requires
        forall|x: A| #[trigger] p3(x) == (p1(x) && p2(x)),
    ensures
        s.filter(p1).filter(p2) == s.filter(p3),
    decreases s.len(),
{
    reveal(Seq::filter);
    if s.len() > 0 {
        lemma_filter_filter(s.drop_last(), p1, p2, p3);
        let x = s.last();
        let sub = s.drop_last().filter(p1);
        if p1(x) {
            assert(sub.push(x).drop_last() =~= sub);
        }
    }
}

/// A filter that every element passes keeps the sequence whole.
pub(crate) proof fn lemma_filter_all<A>(s: Seq<A>, p: spec_fn(A) -> bool)
    requires
        forall|x: A| #[trigger] p(x),
    ensures
        s.filter(p) == s,
    decreases s.len(),
{
    reveal(Seq::filter);
    if s.len() > 0 {
        lemma_filter_all(s.drop_last(), p);
        assert(s.drop_last().push(s.last()) =~= s);
    }
}

/// Filters by predicates that agree everywhere agree.
pub(crate) proof fn lemma_filter_same<A>(s: Seq<A>, p: spec_fn(A) -> bool, q: spec_fn(A) -> bool)
    requires
        forall|x: A| #[trigger] p(x) == q(x),
    ensures
        s.filter(p) == s.filter(q),
    decreases s.len(),
{
    reveal(Seq::filter);
    if s.len() > 0 {
        lemma_filter_same(s.drop_last(), p, q);
    }
}

/// Filtering a prefix one element longer adds that element when it passes.
pub(crate) proof fn lemma_filter_step<A>(s: Seq<A>, i: int, pred: spec_fn(A) -> bool)
    requires
        0 <= i < s.len(),
    ensures
        s.subrange(0, i + 1).filter(pred) == if pred(s[i]) {
            s.subrange(0, i).filter(pred).push(s[i])
        } else {
            s.subrange(0, i).filter(pred)
        },
{
    reveal(Seq::filter);
    assert(s.subrange(0, i + 1).drop_last() =~= s.subrange(0, i));
}

} // verus!
