use atc_sim::airport::{Airport, Weather};
use atc_sim::flight_plan::{Airline, FlightPlan, FlightPlanManager, FlightType, Waypoint};
use atc_sim::plane::{Plane, PlaneStatus};

fn open_flags(airport: &Airport) -> Vec<bool> {
    airport.runways.iter().map(|r| r.is_open).collect()
}

#[test]
fn weather_sets_runways() {
    let mut airport = Airport::new();
    airport.apply_weather(Weather::Rainy);
    assert_eq!(open_flags(&airport), vec![true, true, false]);
    airport.apply_weather(Weather::HighWinds);
    assert_eq!(open_flags(&airport), vec![false, false, true]);
    airport.apply_weather(Weather::Clear);
    assert_eq!(open_flags(&airport), vec![true, true, true]);
    assert_eq!(airport.weather, Weather::Clear);
}

#[test]
fn random_weather_keeps_runways_consistent() {
    let mut airport = Airport::new();
    for _ in 0..50 {
        airport.update_weather();
        let expected = match airport.weather {
            Weather::Clear => vec![true, true, true],
            Weather::Rainy => vec![true, true, false],
            Weather::HighWinds => vec![false, false, true],
        };
        assert_eq!(open_flags(&airport), expected);
    }
}

#[test]
fn runway_lookup_ignores_case() {
    let airport = Airport::new();
    assert_eq!(airport.get_runway("24l").map(|r| r.id.as_str()), Some("24L"));
    assert_eq!(airport.get_runway("18").map(|r| r.id.as_str()), Some("18"));
    assert!(airport.get_runway("09").is_none());
    assert!(airport.get_runway("").is_none());
}

#[test]
fn airline_codes() {
    assert_eq!(Airline::Southwest.get_id(), "SWA");
    assert_eq!(Airline::Delta.get_id(), "DAL");
    assert_eq!(Airline::American.get_id(), "AAL");
    assert_eq!(Airline::United.get_id(), "UAL");
    assert_eq!(Airline::JetBlue.get_id(), "JBU");
}

#[test]
fn flight_number_is_code_and_decimal() {
    let p = FlightPlan::from_parts(Airline::JetBlue, 1042, "A320", "KPDX", "KBOS", FlightType::Cargo, Vec::new());
    assert_eq!(p.flight_id, "JBU1042");
    assert_eq!(p.aircraft_type, "A320");
    assert_eq!(p.destination, "KBOS");
}

#[test]
fn summary_pads_the_flight_number() {
    let p = FlightPlan::from_parts(Airline::Southwest, 100, "B737", "KPDX", "KSFO", FlightType::Domestic, Vec::new());
    assert_eq!(p.summary(), "SWA100   (B737) KPDX -> KSFO | DOMESTIC");
    let q = FlightPlan::from_parts(Airline::Delta, 1999, "E175", "KPDX", "KDEN", FlightType::International, Vec::new());
    assert_eq!(q.summary(), "DAL1999  (E175) KPDX -> KDEN | INTERNATIONAL");
    let mut r = FlightPlan::from_parts(Airline::Delta, 150, "A330", "KPDX", "KMIA", FlightType::Cargo, Vec::new());
    r.flight_id = "LONGID123".to_string();
    assert_eq!(r.summary(), "LONGID123 (A330) KPDX -> KMIA | CARGO");
}

#[test]
fn drawn_plan_uses_the_fixed_choices() {
    for _ in 0..100 {
        let p = FlightPlan::new();
        let code = p.airline.get_id();
        assert!(p.flight_id.starts_with(code));
        let n: u32 = p.flight_id[3..].parse().unwrap();
        assert!((100..=1999).contains(&n));
        assert!(["B737", "A320", "B787", "A330", "E175"].contains(&p.aircraft_type.as_str()));
        assert_eq!(p.origin, "KPDX");
        assert!(["KSFO", "KLAS", "KMIA", "KBOS", "KDEN"].contains(&p.destination.as_str()));
        assert!(p.route.len() >= 2 && p.route.len() <= 5);
        for w in &p.route {
            assert!(["ALPHA", "BRAVO", "CHARLIE", "DELTA", "ECHO"].contains(&w.name.as_str()));
            assert!(w.latitude >= 30_000_000 && w.latitude <= 50_000_000);
            assert!(w.longitude >= -120_000_000 && w.longitude <= -75_000_000);
        }
    }
}

#[test]
fn registry_hands_out_distinct_numbers() {
    let mut manager = FlightPlanManager::new();
    let mut ids: Vec<String> = Vec::new();
    for _ in 0..60 {
        let p = manager.generate_new_plan().unwrap();
        assert!(!ids.contains(&p.flight_id));
        ids.push(p.flight_id.clone());
    }
    assert_eq!(manager.active_plans.len(), 60);
    for (i, p) in manager.active_plans.iter().enumerate() {
        assert_eq!(p.flight_id, ids[i]);
    }
}

#[test]
fn removing_a_plan_frees_its_number() {
    let mut manager = FlightPlanManager::new();
    let a = manager.generate_new_plan().unwrap();
    let b = manager.generate_new_plan().unwrap();
    assert!(manager.contains_id(&a.flight_id));
    manager.remove_plan(&a.flight_id);
    assert!(!manager.contains_id(&a.flight_id));
    assert!(manager.contains_id(&b.flight_id));
    assert_eq!(manager.active_plans.len(), 1);
    manager.remove_plan("NOPE1");
    assert_eq!(manager.active_plans.len(), 1);
}

#[test]
fn copies_keep_every_field() {
    let route = vec![Waypoint { name: "ECHO".to_string(), latitude: 31_000_000, longitude: -80_000_000 }];
    let p = FlightPlan::from_parts(Airline::United, 500, "B787", "KPDX", "KLAS", FlightType::Domestic, route);
    let c = p.copy();
    assert_eq!(c.flight_id, "UAL500");
    assert_eq!(c.route.len(), 1);
    assert_eq!(c.route[0].name, "ECHO");
    assert_eq!(c.route[0].latitude, 31_000_000);
    assert_eq!(c.route[0].longitude, -80_000_000);
}

fn plane(status: PlaneStatus, timer: i32) -> Plane {
    let p = FlightPlan::from_parts(Airline::Delta, 300, "A320", "KPDX", "KSFO", FlightType::Domestic, Vec::new());
    Plane::with_timer(p, status, timer)
}

#[test]
fn timer_counts_down_before_status_moves() {
    let mut p = plane(PlaneStatus::Boarding, 2);
    p.update();
    assert_eq!((p.status, p.timer), (PlaneStatus::Boarding, 1));
    p.update();
    assert_eq!((p.status, p.timer), (PlaneStatus::Boarding, 0));
    p.update();
    assert_eq!((p.status, p.timer), (PlaneStatus::ReadyForPushback, 0));
    p.update();
    assert_eq!(p.status, PlaneStatus::ReadyForPushback);
}

#[test]
fn automatic_transitions() {
    let cases = [
        (PlaneStatus::Boarding, PlaneStatus::ReadyForPushback),
        (PlaneStatus::ReadyForPushback, PlaneStatus::ReadyForPushback),
        (PlaneStatus::TaxiingToRunway, PlaneStatus::ReadyForTakeoff),
        (PlaneStatus::ReadyForTakeoff, PlaneStatus::ReadyForTakeoff),
        (PlaneStatus::InAir, PlaneStatus::ReadyToLand),
        (PlaneStatus::ReadyToLand, PlaneStatus::ReadyToLand),
        (PlaneStatus::TaxiingToGate, PlaneStatus::AtGate),
        (PlaneStatus::AtGate, PlaneStatus::AtGate),
    ];
    for (from, to) in cases {
        let mut p = plane(from, 0);
        p.update();
        assert_eq!(p.status, to);
        assert_eq!(p.id, "DAL300");
    }
}

#[test]
fn new_plane_boards_under_its_plan() {
    let p = FlightPlan::from_parts(Airline::Delta, 301, "A320", "KPDX", "KSFO", FlightType::Domestic, Vec::new());
    let plane = Plane::new(p);
    assert_eq!(plane.id, "DAL301");
    assert_eq!(plane.status, PlaneStatus::Boarding);
    assert!(plane.timer >= 10 && plane.timer <= 20);
}

#[test]
fn register_takes_only_unused_numbers() {
    let mut manager = FlightPlanManager::new();
    let a = FlightPlan::from_parts(Airline::Delta, 700, "A320", "KPDX", "KSFO", FlightType::Domestic, Vec::new());
    let kept = manager.try_register(a).unwrap();
    assert_eq!(kept.flight_id, "DAL700");
    let again = FlightPlan::from_parts(Airline::Delta, 700, "B737", "KPDX", "KLAS", FlightType::Cargo, Vec::new());
    assert!(manager.try_register(again).is_none());
    assert_eq!(manager.active_plans.len(), 1);
    assert_eq!(manager.active_plans[0].aircraft_type, "A320");
    manager.remove_plan("DAL700");
    let reused = FlightPlan::from_parts(Airline::Delta, 700, "B737", "KPDX", "KLAS", FlightType::Cargo, Vec::new());
    let kept = manager.try_register(reused).unwrap();
    assert_eq!(kept.aircraft_type, "B737");
    assert_eq!(manager.active_plans.len(), 1);
    assert_eq!(manager.active_plans[0].flight_id, "DAL700");
    assert_eq!(manager.active_plans[0].aircraft_type, "B737");
}

#[test]
fn started_plane_follows_the_arrival_draw() {
    let p = FlightPlan::from_parts(Airline::Delta, 302, "A320", "KPDX", "KSFO", FlightType::Domestic, Vec::new());
    let arriving = Plane::start(p, true, 12);
    assert_eq!((arriving.status, arriving.timer), (PlaneStatus::InAir, 12));
    let q = FlightPlan::from_parts(Airline::Delta, 303, "A320", "KPDX", "KSFO", FlightType::Domestic, Vec::new());
    let boarding = Plane::start(q, false, 17);
    assert_eq!((boarding.status, boarding.timer), (PlaneStatus::Boarding, 17));
    assert_eq!(boarding.id, "DAL303");
}
