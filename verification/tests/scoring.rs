use shift_planner::{calculate_happiness, ShiftStart, StringHashMap, Worker};

fn at(hour: u32) -> ShiftStart {
    ShiftStart { day: "Mon".to_string(), hour }
}

fn prefs(entries: &[(&str, &str)]) -> Option<StringHashMap<String>> {
    let mut m = StringHashMap::new();
    for (k, v) in entries {
        m.insert(k.to_string(), v.to_string());
    }
    Some(m)
}

fn threshold(max_hrs: Option<i32>) -> Option<StringHashMap<i32>> {
    let mut m = StringHashMap::new();
    if let Some(n) = max_hrs {
        m.insert("max_hrs".to_string(), n);
    }
    Some(m)
}

fn worker(
    current_hours: i32,
    shift_preferences: Option<StringHashMap<String>>,
    fatigue_threshold: Option<StringHashMap<i32>>,
) -> Worker {
    Worker {
        id: "W".to_string(),
        role: "nurse".to_string(),
        skills: Vec::new(),
        availability: StringHashMap::new(),
        max_hours_per_week: 40,
        current_hours,
        shift_preferences,
        fatigue_threshold,
    }
}

#[test]
fn score_is_zero_without_preferences_or_threshold() {
    for hour in 0..24 {
        assert_eq!(calculate_happiness(&worker(10, None, None), &at(hour)), 0);
        assert_eq!(calculate_happiness(&worker(10, prefs(&[]), None), &at(hour)), 0);
    }
}

#[test]
fn score_adds_five_for_a_preferred_morning() {
    let w = worker(10, prefs(&[("pref", "mornings")]), None);
    assert_eq!(calculate_happiness(&w, &at(0)), 5);
    assert_eq!(calculate_happiness(&w, &at(8)), 5);
    assert_eq!(calculate_happiness(&w, &at(11)), 5);
    assert_eq!(calculate_happiness(&w, &at(12)), 0);
    assert_eq!(calculate_happiness(&w, &at(23)), 0);
}

#[test]
fn score_takes_five_for_an_avoided_night() {
    let w = worker(10, prefs(&[("avoid", "nights")]), None);
    assert_eq!(calculate_happiness(&w, &at(17)), 0);
    assert_eq!(calculate_happiness(&w, &at(18)), -5);
    assert_eq!(calculate_happiness(&w, &at(23)), -5);
    assert_eq!(calculate_happiness(&w, &at(3)), 0);
}

#[test]
fn score_takes_eight_for_fatigue() {
    assert_eq!(calculate_happiness(&worker(12, None, threshold(Some(8))), &at(8)), -8);
    assert_eq!(calculate_happiness(&worker(9, None, threshold(Some(8))), &at(8)), -8);
    assert_eq!(calculate_happiness(&worker(8, None, threshold(Some(8))), &at(8)), 0);
    assert_eq!(calculate_happiness(&worker(7, None, threshold(Some(8))), &at(8)), 0);
}

#[test]
fn score_reads_a_threshold_without_hours_as_zero() {
    assert_eq!(calculate_happiness(&worker(1, None, threshold(None)), &at(8)), -8);
    assert_eq!(calculate_happiness(&worker(0, None, threshold(None)), &at(8)), 0);
    assert_eq!(calculate_happiness(&worker(-1, None, threshold(None)), &at(8)), 0);
}

#[test]
fn score_sums_its_rules() {
    let both = [("pref", "mornings"), ("avoid", "nights")];
    assert_eq!(calculate_happiness(&worker(12, prefs(&both), threshold(Some(8))), &at(9)), -3);
    assert_eq!(calculate_happiness(&worker(12, prefs(&both), threshold(Some(8))), &at(20)), -13);
    assert_eq!(calculate_happiness(&worker(12, prefs(&both), threshold(Some(8))), &at(14)), -8);
    assert_eq!(calculate_happiness(&worker(2, prefs(&both), threshold(Some(8))), &at(9)), 5);
    assert_eq!(calculate_happiness(&worker(2, prefs(&both), threshold(Some(8))), &at(20)), -5);
}

#[test]
fn score_ignores_other_keys_and_other_tags() {
    let odd = [("pref", "nights"), ("avoid", "mornings"), ("like", "mornings"), ("Pref", "mornings")];
    for hour in 0..24 {
        assert_eq!(calculate_happiness(&worker(10, prefs(&odd), None), &at(hour)), 0);
    }
    let mut other = StringHashMap::new();
    other.insert("min_hrs".to_string(), 1);
    assert_eq!(calculate_happiness(&worker(10, None, Some(other)), &at(8)), -8);
}

#[test]
fn score_is_the_same_when_asked_twice() {
    let w = worker(12, prefs(&[("pref", "mornings"), ("avoid", "nights")]), threshold(Some(8)));
    for hour in 0..24 {
        assert_eq!(calculate_happiness(&w, &at(hour)), calculate_happiness(&w, &at(hour)));
    }
}

#[test]
fn score_does_not_look_at_the_day() {
    let w = worker(12, prefs(&[("pref", "mornings")]), None);
    let monday = ShiftStart { day: "Mon".to_string(), hour: 9 };
    let sunday = ShiftStart { day: "Sun".to_string(), hour: 9 };
    assert_eq!(calculate_happiness(&w, &monday), calculate_happiness(&w, &sunday));
}
