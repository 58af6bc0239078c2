use atc_sim::airport::{Airport, Weather};
use atc_sim::flight_plan::{Airline, FlightPlan, FlightPlanManager, FlightType};
use atc_sim::game::{Game, Outcome, Reason};
use atc_sim::plane::{Plane, PlaneStatus};

fn plan(airline: Airline, number: u32) -> FlightPlan {
    FlightPlan::from_parts(airline, number, "B737", "KPDX", "KSFO", FlightType::Domestic, Vec::new())
}

/// A session holding exactly the given aircraft, each registered.
fn game_with(planes: Vec<(Airline, u32, PlaneStatus, i32)>) -> Game {
    let mut game = Game::new().unwrap();
    game.planes = Vec::new();
    game.flight_plan_manager = FlightPlanManager::new();
    for (airline, number, status, timer) in planes {
        let p = plan(airline, number);
        game.flight_plan_manager.active_plans.push(p.copy());
        game.planes.push(Plane::with_timer(p, status, timer));
    }
    game
}

fn status_of(game: &Game, id: &str) -> Option<PlaneStatus> {
    game.planes.iter().find(|p| p.id == id).map(|p| p.status)
}

#[test]
fn pushback_of_ready_plane_starts_taxi() {
    let mut game = game_with(vec![(Airline::Southwest, 100, PlaneStatus::ReadyForPushback, 0)]);
    game.penalty_strikes = 2;
    let r = game.process_command("pushback SWA100".to_string());
    assert_eq!(r, Outcome::Accepted { score_delta: 5 });
    assert_eq!(game.planes[0].status, PlaneStatus::TaxiingToRunway);
    assert_eq!(game.planes[0].timer, 15);
    assert_eq!(game.score, 5);
    assert_eq!(game.penalty_strikes, 0);
}

#[test]
fn takeoff_on_closed_runway_is_penalized() {
    let mut game = game_with(vec![(Airline::Southwest, 100, PlaneStatus::ReadyForTakeoff, 0)]);
    game.airport.apply_weather(Weather::HighWinds);
    let r = game.process_command("takeoff SWA100 24L".to_string());
    assert_eq!(r, Outcome::Rejected { penalty: true, reason: Reason::RunwayClosed });
    assert_eq!(game.score, -5);
    assert_eq!(game.penalty_strikes, 1);
    assert_eq!(game.planes[0].status, PlaneStatus::ReadyForTakeoff);
}

#[test]
fn landing_unknown_plane_is_penalized() {
    let mut game = game_with(vec![(Airline::Delta, 456, PlaneStatus::ReadyToLand, 0)]);
    let r = game.process_command("land ZZZ999 18".to_string());
    assert_eq!(r, Outcome::Rejected { penalty: true, reason: Reason::PlaneNotFound });
    assert_eq!(game.score, -5);
    assert_eq!(game.penalty_strikes, 1);
    assert_eq!(game.planes[0].status, PlaneStatus::ReadyToLand);
}

#[test]
fn three_penalties_end_the_session_and_freeze_it() {
    let mut game = game_with(vec![(Airline::Southwest, 100, PlaneStatus::ReadyForPushback, 5)]);
    for _ in 0..3 {
        assert!(!game.is_game_over());
        game.submit_command("pushback ZZZ999".to_string());
    }
    assert!(game.is_game_over());
    assert_eq!(game.score, -15);
    assert_eq!(game.penalty_strikes, 3);
    let timer = game.planes[0].timer;
    let count = game.planes.len();
    let r = game.submit_command("pushback SWA100".to_string());
    assert_eq!(r, Outcome::Rejected { penalty: false, reason: Reason::GameOver });
    assert_eq!(game.score, -15);
    assert_eq!(game.penalty_strikes, 3);
    assert_eq!(game.planes.len(), count);
    assert_eq!(game.planes[0].status, PlaneStatus::ReadyForPushback);
    assert_eq!(game.planes[0].timer, timer);
    assert_eq!(game.update(), atc_sim::game::TickReport { spawned: false, weather_updated: false });
}

#[test]
fn arrival_is_swept_and_its_number_released() {
    let mut game = game_with(vec![
        (Airline::United, 321, PlaneStatus::TaxiingToGate, 0),
        (Airline::Delta, 456, PlaneStatus::InAir, 5),
    ]);
    game.update();
    assert_eq!(status_of(&game, "UAL321"), None);
    assert_eq!(status_of(&game, "DAL456"), Some(PlaneStatus::InAir));
    assert!(!game.flight_plan_manager.contains_id(&"UAL321".to_string()));
    assert!(game.flight_plan_manager.contains_id(&"DAL456".to_string()));
}

#[test]
fn wait_changes_no_score_strikes_or_status() {
    let mut game = game_with(vec![
        (Airline::Southwest, 100, PlaneStatus::Boarding, 0),
        (Airline::Delta, 200, PlaneStatus::InAir, 3),
    ]);
    game.score = 20;
    game.penalty_strikes = 1;
    let r = game.process_command("wait".to_string());
    assert_eq!(r, Outcome::Accepted { score_delta: 0 });
    assert_eq!(game.score, 20);
    assert_eq!(game.penalty_strikes, 1);
    assert_eq!(game.planes[0].status, PlaneStatus::Boarding);
    assert_eq!(game.planes[0].timer, 0);
    assert_eq!(game.planes[1].status, PlaneStatus::InAir);
    assert_eq!(game.planes[1].timer, 3);
    assert!(!game.is_game_over());
}

#[test]
fn wait_in_capitals_is_still_wait() {
    let mut game = game_with(vec![]);
    assert_eq!(game.process_command("  WAIT ".to_string()), Outcome::Accepted { score_delta: 0 });
    assert_eq!(game.score, 0);
    assert_eq!(game.penalty_strikes, 0);
}

#[test]
fn award_clears_strikes_and_three_penalties_end_game() {
    let mut game = game_with(vec![]);
    game.add_penalty();
    game.add_penalty();
    assert_eq!(game.penalty_strikes, 2);
    game.add_score(10);
    assert_eq!(game.penalty_strikes, 0);
    assert_eq!(game.score, 0);
    game.add_penalty();
    game.add_penalty();
    assert!(!game.is_game_over());
    game.add_penalty();
    assert!(game.is_game_over());
    assert_eq!(game.score, -15);
}

#[test]
fn empty_command_is_ignored() {
    let mut game = game_with(vec![]);
    assert_eq!(
        game.process_command("   ".to_string()),
        Outcome::Rejected { penalty: false, reason: Reason::EmptyCommand }
    );
    assert_eq!(game.score, 0);
    assert_eq!(game.penalty_strikes, 0);
}

#[test]
fn quit_ends_the_session_without_scoring() {
    let mut game = game_with(vec![]);
    game.penalty_strikes = 1;
    assert_eq!(game.process_command("quit".to_string()), Outcome::Accepted { score_delta: 0 });
    assert!(game.is_game_over());
    assert_eq!(game.score, 0);
    assert_eq!(game.penalty_strikes, 1);
}

#[test]
fn unknown_keyword_penalized_only_when_plane_missing() {
    let mut game = game_with(vec![(Airline::JetBlue, 777, PlaneStatus::Boarding, 4)]);
    let r = game.process_command("hover JBU777".to_string());
    assert_eq!(r, Outcome::Rejected { penalty: false, reason: Reason::UnknownCommand });
    assert_eq!(game.score, 0);
    assert_eq!(game.penalty_strikes, 0);
    let r = game.process_command("hover".to_string());
    assert_eq!(r, Outcome::Rejected { penalty: true, reason: Reason::PlaneNotFound });
    assert_eq!(game.score, -5);
    assert_eq!(game.penalty_strikes, 1);
}

#[test]
fn taxi_is_informational() {
    let mut game = game_with(vec![(Airline::JetBlue, 777, PlaneStatus::ReadyForPushback, 0)]);
    assert_eq!(game.process_command("taxi jbu777".to_string()), Outcome::Accepted { score_delta: 0 });
    assert_eq!(game.planes[0].status, PlaneStatus::ReadyForPushback);
    assert_eq!(game.score, 0);
    let r = game.process_command("taxi XXX1".to_string());
    assert_eq!(r, Outcome::Rejected { penalty: true, reason: Reason::PlaneNotFound });
}

#[test]
fn pushback_while_boarding_or_elsewhere_is_penalized() {
    let mut game = game_with(vec![
        (Airline::Southwest, 100, PlaneStatus::Boarding, 3),
        (Airline::Delta, 200, PlaneStatus::InAir, 3),
    ]);
    let r = game.process_command("pushback SWA100".to_string());
    assert_eq!(r, Outcome::Rejected { penalty: true, reason: Reason::StillBoarding });
    let r = game.process_command("pushback DAL200".to_string());
    assert_eq!(r, Outcome::Rejected { penalty: true, reason: Reason::NotReady });
    assert_eq!(game.score, -10);
    assert_eq!(game.penalty_strikes, 2);
    assert_eq!(game.planes[0].status, PlaneStatus::Boarding);
}

#[test]
fn takeoff_needs_runway_readiness_and_an_existing_runway() {
    let mut game = game_with(vec![
        (Airline::Southwest, 100, PlaneStatus::ReadyForTakeoff, 0),
        (Airline::Delta, 200, PlaneStatus::Boarding, 3),
    ]);
    let r = game.process_command("takeoff SWA100".to_string());
    assert_eq!(r, Outcome::Rejected { penalty: true, reason: Reason::MissingRunway });
    let r = game.process_command("takeoff DAL200 24L".to_string());
    assert_eq!(r, Outcome::Rejected { penalty: true, reason: Reason::NotReady });
    game.penalty_strikes = 0;
    let r = game.process_command("takeoff SWA100 09".to_string());
    assert_eq!(r, Outcome::Rejected { penalty: true, reason: Reason::NoSuchRunway });
    assert_eq!(game.score, -15);
    assert_eq!(game.planes[0].status, PlaneStatus::ReadyForTakeoff);
}

#[test]
fn takeoff_on_open_runway_succeeds() {
    let mut game = game_with(vec![(Airline::Southwest, 100, PlaneStatus::ReadyForTakeoff, 0)]);
    game.airport.apply_weather(Weather::Rainy);
    let r = game.process_command("TAKEOFF swa100 24l".to_string());
    assert_eq!(r, Outcome::Accepted { score_delta: 10 });
    assert_eq!(game.planes[0].status, PlaneStatus::InAir);
    assert_eq!(game.planes[0].timer, 30);
    assert_eq!(game.score, 10);
}

#[test]
fn landing_cleared_and_rained_out() {
    let mut game = game_with(vec![(Airline::American, 1999, PlaneStatus::ReadyToLand, 0)]);
    game.airport.apply_weather(Weather::Rainy);
    let r = game.process_command("land AAL1999 18".to_string());
    assert_eq!(r, Outcome::Rejected { penalty: true, reason: Reason::RunwayClosed });
    let r = game.process_command("land AAL1999 24R".to_string());
    assert_eq!(r, Outcome::Accepted { score_delta: 10 });
    assert_eq!(game.planes[0].status, PlaneStatus::TaxiingToGate);
    assert_eq!(game.planes[0].timer, 10);
    assert_eq!(game.score, 5);
    assert_eq!(game.penalty_strikes, 0);
    let r = game.process_command("land AAL1999".to_string());
    assert_eq!(r, Outcome::Rejected { penalty: true, reason: Reason::MissingRunway });
}

#[test]
fn words_hand_to_the_interpreter_directly() {
    let mut game = game_with(vec![(Airline::Southwest, 100, PlaneStatus::ReadyForPushback, 0)]);
    let words = vec!["Pushback".to_string(), "swa100".to_string()];
    assert_eq!(game.process_words(&words), Outcome::Accepted { score_delta: 5 });
}

#[test]
fn new_session_has_two_boarding_aircraft() {
    let game = Game::new().unwrap();
    assert_eq!(game.planes.len(), 2);
    assert_eq!(game.score, 0);
    assert_eq!(game.penalty_strikes, 0);
    assert!(!game.is_game_over());
    assert_eq!(game.airport.weather, Weather::Clear);
    assert_ne!(game.planes[0].id, game.planes[1].id);
    for p in &game.planes {
        assert_eq!(p.status, PlaneStatus::Boarding);
        assert!(p.timer >= 10 && p.timer <= 20);
        assert_eq!(p.id, p.flight_plan.flight_id);
        assert!(game.flight_plan_manager.contains_id(&p.id));
    }
    assert_eq!(game.flight_plan_manager.active_plans.len(), 2);
}

#[test]
fn tick_keeps_registry_and_aircraft_in_step() {
    let mut game = Game::new().unwrap();
    for _ in 0..200 {
        game.update();
        for p in &game.planes {
            assert!(game.flight_plan_manager.contains_id(&p.id));
            assert_ne!(p.status, PlaneStatus::AtGate);
        }
        for r in &game.airport.runways {
            let expected = match game.airport.weather {
                Weather::Clear => true,
                Weather::Rainy => r.id != "18",
                Weather::HighWinds => !r.id.contains("24"),
            };
            assert_eq!(r.is_open, expected);
        }
    }
}

#[test]
fn airport_starts_clear_and_open() {
    let airport = Airport::new();
    assert_eq!(airport.weather, Weather::Clear);
    let ids: Vec<&str> = airport.runways.iter().map(|r| r.id.as_str()).collect();
    assert_eq!(ids, vec!["24L", "24R", "18"]);
    assert!(airport.runways.iter().all(|r| r.is_open));
}

#[test]
fn new_session_registry_matches_its_aircraft() {
    let game = Game::new().unwrap();
    let ids: Vec<&String> = game.flight_plan_manager.active_plans.iter().map(|p| &p.flight_id).collect();
    let plane_ids: Vec<&String> = game.planes.iter().map(|p| &p.id).collect();
    assert_eq!(ids, plane_ids);
}

#[test]
fn spawn_on_empty_registry_always_adds_an_aircraft() {
    for _ in 0..20 {
        let mut game = game_with(vec![]);
        assert!(game.spawn_plane());
        assert_eq!(game.planes.len(), 1);
        let p = &game.planes[0];
        assert!(p.status == PlaneStatus::Boarding || p.status == PlaneStatus::InAir);
        assert!(p.timer >= 10 && p.timer <= 20);
        assert_eq!(game.flight_plan_manager.active_plans.len(), 1);
        assert_eq!(game.flight_plan_manager.active_plans[0].flight_id, p.id);
    }
}

#[test]
fn tick_releases_exactly_the_arrived_plans() {
    let mut game = game_with(vec![
        (Airline::United, 321, PlaneStatus::TaxiingToGate, 0),
        (Airline::Delta, 456, PlaneStatus::InAir, 5),
        (Airline::JetBlue, 900, PlaneStatus::AtGate, 0),
    ]);
    let report = game.update();
    let ids: Vec<&str> = game.flight_plan_manager.active_plans.iter().map(|p| p.flight_id.as_str()).collect();
    if report.spawned {
        assert_eq!(ids.len(), 2);
        assert_eq!(ids[0], "DAL456");
        assert_eq!(ids[1], game.planes.last().unwrap().id.as_str());
    } else {
        assert_eq!(ids, vec!["DAL456"]);
    }
}
