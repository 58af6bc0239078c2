//! The airport: its weather and its runways, whose openness follows the weather.

use vstd::prelude::*;
use vstd::string::*;
use crate::random::pick;
use crate::text::{eq_ignore_case, contains_text, has_infix, same_ignoring_case};

verus! {

#[derive(Debug, PartialEq, Eq, Clone, Copy, Structural)]
pub enum Weather {
    Clear,
    Rainy,
    HighWinds,
}

#[derive(Debug)]
pub struct Runway {
    pub id: String,
    pub is_open: bool,
}

pub struct Airport {
    pub weather: Weather,
    pub runways: Vec<Runway>,
}

/// Whether a runway named `id` is open in weather `w`: rain closes runway 18,
/// high winds close the crosswind runways whose name holds 24.
pub open spec fn open_in(w: Weather, id: Seq<char>) -> bool {
    match w {
        Weather::Clear => true,
        Weather::Rainy => id != "18"@,
        Weather::HighWinds => !has_infix(id, "24"@),
    }
}

/// The index of the first runway in `rs[0..n]` whose name equals `id` up to
/// ASCII case.
pub open spec fn first_runway(rs: Seq<Runway>, id: Seq<char>, n: int) -> Option<int>
    decreases n,
{
    if n <= 0 {
        None
    } else {
        match first_runway(rs, id, n - 1) {
            Some(i) => Some(i),
            None => if same_ignoring_case(rs[n - 1].id@, id) {
                Some(n - 1)
            } else {
                None
            },
        }
    }
}

impl Airport {
    /// The names of the runways, fixed when the airport is built.
    pub open spec fn runway_names(&self) -> Seq<Seq<char>> {
        self.runways@.map_values(|r: Runway| r.id@)
    }

    /// Every runway is open exactly when the current weather allows it.
    pub open spec fn runways_follow_weather(&self) -> bool {
        forall|i: int|
            0 <= i < self.runways@.len() ==> #[trigger] self.runways@[i].is_open == open_in(
                self.weather,
                self.runways@[i].id@,
            )
    }

    /// The first runway whose name matches `id` up to case.
    pub open spec fn runway_index(&self, id: Seq<char>) -> Option<int> {
        first_runway(self.runways@, id, self.runways@.len() as int)
    }

    pub fn new() -> (r: Self)
        ensures
            r.weather == Weather::Clear,
            r.runway_names() == seq!["24L"@, "24R"@, "18"@],
            forall|i: int| 0 <= i < r.runways@.len() ==> #[trigger] r.runways@[i].is_open,
            r.runways_follow_weather(),
    {
        let runways = vec![
            Runway { id: String::from_str("24L"), is_open: true },
            Runway { id: String::from_str("24R"), is_open: true },
            Runway { id: String::from_str("18"), is_open: true },
        ];
        let r = Airport { weather: Weather::Clear, runways };
        assert(r.runway_names() =~= seq!["24L"@, "24R"@, "18"@]);
        r
    }

    /// Sets the weather to `w` and recomputes every runway's openness from it.
    pub fn apply_weather(&mut self, w: Weather)
        ensures
            final(self).weather == w,
            final(self).runway_names() == old(self).runway_names(),
            final(self).runways@.len() == old(self).runways@.len(),
            forall|i: int|
                0 <= i < final(self).runways@.len() ==> (#[trigger] final(self).runways@[i]).id
                    == old(self).runways@[i].id,
            final(self).runways_follow_weather(),
    {
        self.weather = w;
        let n = self.runways.len();
        let ghost start = self.runways@;
        let mut i: usize = 0;
        while i < n
            invariant
                self.weather == w,
                n == self.runways@.len(),
                start.len() == n,
                0 <= i <= n,
                forall|j: int| 0 <= j < n ==> (#[trigger] self.runways@[j]).id == start[j].id,
                forall|j: int|
                    0 <= j < i ==> (#[trigger] self.runways@[j]).is_open == open_in(
                        w,
                        self.runways@[j].id@,
                    ),
            decreases n - i,
        {
            let open = match w {
                Weather::Clear => true,
                Weather::Rainy => !(self.runways[i].id == String::from_str("18")),
                Weather::HighWinds => !contains_text(self.runways[i].id.as_str(), "24"),
            };
            self.runways[i].is_open = open;
            i += 1;
        }
        assert(self.runway_names() =~= old(self).runway_names());
    }

    /// Draws a new weather at random, possibly the current one, and recomputes
    /// every runway's openness from it.
    pub fn update_weather(&mut self)
        ensures
            final(self).runway_names() == old(self).runway_names(),
            final(self).runways_follow_weather(),
    {
        let patterns = [Weather::Clear, Weather::Rainy, Weather::HighWinds];
        let w = pick(patterns.as_slice());
        self.apply_weather(w);
    }

    pub fn get_runway(&self, id: &str) -> (r: Option<&Runway>)
        ensures
            match self.runway_index(id@) {
                Some(i) => 0 <= i < self.runways@.len() && r == Some(&self.runways@[i]),
                None => r is None,
            },
    {
        let mut found: Option<usize> = None;
        let mut i: usize = 0;
        while i < self.runways.len()
            invariant
                0 <= i <= self.runways@.len(),
                match found {
                    Some(k) => k < i && first_runway(self.runways@, id@, i as int) == Some(
                        k as int,
                    ),
                    None => first_runway(self.runways@, id@, i as int) is None,
                },
            decreases self.runways@.len() - i,
        {
            if found.is_none() && eq_ignore_case(self.runways[i].id.as_str(), id) {
                found = Some(i);
            }
            i += 1;
        }
        match found {
            Some(k) => Some(&self.runways[k]),
            None => None,
        }
    }
}

} // verus!
