use shift_planner::{
    assign_shift, rebalance_shift, ServiceError, ShiftInput, ShiftPlannerService, StringHashMap,
    Worker,
};

const MONDAY_8AM: &str = "2024-01-01T08:00:00Z";

fn table(entries: &[(&str, &str)]) -> StringHashMap<String> {
    let mut m = StringHashMap::new();
    for (k, v) in entries {
        m.insert(k.to_string(), v.to_string());
    }
    m
}

fn nurse(id: &str, prefs: Option<&[(&str, &str)]>) -> Worker {
    Worker {
        id: id.to_string(),
        role: "nurse".to_string(),
        skills: vec!["ICU".to_string()],
        availability: table(&[("Mon", "6-14")]),
        max_hours_per_week: 40,
        current_hours: 10,
        shift_preferences: prefs.map(table),
        fatigue_threshold: None,
    }
}

fn icu_shift(workers: Vec<Worker>) -> ShiftInput {
    ShiftInput {
        shift_id: "S1".to_string(),
        absent_worker_id: "W0".to_string(),
        start: MONDAY_8AM.to_string(),
        end: "2024-01-01T16:00:00Z".to_string(),
        role: "nurse".to_string(),
        required_skills: vec!["ICU".to_string()],
        workers,
    }
}

#[test]
fn rebalance_picks_the_worker_who_prefers_mornings() {
    let pool = vec![nurse("W1", Some(&[("pref", "mornings")])), nurse("W2", None)];
    let out = rebalance_shift(icu_shift(pool));
    assert_eq!(out.shift_id, "S1");
    assert_eq!(out.new_worker_id, "W1");
}

#[test]
fn rebalance_picks_the_morning_worker_from_any_place() {
    let pool = vec![nurse("W2", None), nurse("W1", Some(&[("pref", "mornings")]))];
    let out = rebalance_shift(icu_shift(pool));
    assert_eq!(out.new_worker_id, "W1");
}

#[test]
fn a_pool_of_the_wrong_role_gives_no_selection() {
    let doctor = || {
        let mut w = nurse("W3", None);
        w.role = "doctor".to_string();
        w
    };
    let greedy = assign_shift(icu_shift(vec![doctor()]));
    assert_eq!(greedy.shift_id, "S1");
    assert_eq!(greedy.new_worker_id, "");
    let rebalance = rebalance_shift(icu_shift(vec![doctor()]));
    assert_eq!(rebalance.shift_id, "S1");
    assert_eq!(rebalance.new_worker_id, "");
}

#[test]
fn a_fatigued_lone_candidate_is_still_selected() {
    let tired = || {
        let mut w = nurse("W4", None);
        w.current_hours = 12;
        let mut threshold = StringHashMap::new();
        threshold.insert("max_hrs".to_string(), 8);
        w.fatigue_threshold = Some(threshold);
        w
    };
    let rebalance = rebalance_shift(icu_shift(vec![tired()]));
    assert_eq!(rebalance.new_worker_id, "W4");
    let greedy = assign_shift(icu_shift(vec![tired()]));
    assert_eq!(greedy.new_worker_id, "W4");
}

#[test]
fn an_undecodable_request_is_an_invalid_argument() {
    let service = ShiftPlannerService::default();
    let reason = "expected value at line 1 column 1";
    match service.rebalance_shift(Err(reason.to_string())) {
        Err(ServiceError::InvalidArgument(text)) => assert_eq!(text, reason),
        Ok(_) => panic!("a request that was not decoded got a result"),
    }
    match service.assign_shift(Err(reason.to_string())) {
        Err(ServiceError::InvalidArgument(text)) => assert_eq!(text, reason),
        Ok(_) => panic!("a request that was not decoded got a result"),
    }
}

#[test]
fn the_reason_of_a_decode_failure_reaches_the_caller_unchanged() {
    let service = ShiftPlannerService::default();
    for payload in ["", "not json", "{\"shift_id\": ", "[1, 2"] {
        let failure = serde_json::from_str::<serde_json::Value>(payload);
        let reason = match failure {
            Err(e) => e.to_string(),
            Ok(_) => panic!("{:?} was decoded", payload),
        };
        match service.rebalance_shift(Err(reason.clone())) {
            Err(ServiceError::InvalidArgument(text)) => assert_eq!(text, reason),
            Ok(_) => panic!("a request that was not decoded got a result"),
        }
        match service.assign_shift(Err(reason.clone())) {
            Err(ServiceError::InvalidArgument(text)) => assert_eq!(text, reason),
            Ok(_) => panic!("a request that was not decoded got a result"),
        }
    }
}
