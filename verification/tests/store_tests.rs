use diwk::errors::DiwkError;
use diwk::store::{expiry_cutoff, Store, SESSION_LIFETIME_MS};

fn labels(names: &[&str]) -> Vec<String> {
    names.iter().map(|n| n.to_string()).collect()
}

fn pizza_store() -> (Store, i32) {
    let mut store = Store::new();
    let id = store
        .create_chart(
            "Dinner".to_string(),
            "What should we eat?".to_string(),
            labels(&["pizza", "sushi", "tacos"]),
        )
        .unwrap();
    (store, id)
}

#[test]
fn chart_ids_start_at_one() {
    let (store, id) = pizza_store();
    assert_eq!(id, 1);
    let chart = store.get_chart(1).unwrap();
    assert_eq!(chart.title, "Dinner");
    assert_eq!(chart.options, labels(&["pizza", "sushi", "tacos"]));
}

#[test]
fn chart_with_63_options_is_accepted() {
    let mut store = Store::new();
    let opts: Vec<String> = (0..63).map(|i| format!("option {}", i)).collect();
    assert!(store.create_chart("big".to_string(), "d".to_string(), opts).is_ok());
}

#[test]
fn chart_with_64_options_is_rejected() {
    let mut store = Store::new();
    let opts: Vec<String> = (0..64).map(|i| format!("option {}", i)).collect();
    assert_eq!(
        store.create_chart("big".to_string(), "d".to_string(), opts),
        Err(DiwkError::InvalidRequest)
    );
}

#[test]
fn option_of_127_chars_is_accepted_128_rejected() {
    let mut store = Store::new();
    let ok = "x".repeat(127);
    let too_long = "x".repeat(128);
    assert!(store
        .create_chart("t".to_string(), "d".to_string(), vec![ok])
        .is_ok());
    assert_eq!(
        store.create_chart("t".to_string(), "d".to_string(), vec![too_long]),
        Err(DiwkError::InvalidRequest)
    );
}

#[test]
fn unknown_chart_is_not_found() {
    let (store, _) = pizza_store();
    assert!(store.get_chart(2).is_err());
    assert!(store.get_chart(0).is_err());
    assert!(store.get_chart(-5).is_err());
}

#[test]
fn start_session_on_missing_chart_is_not_found() {
    let (mut store, _) = pizza_store();
    assert_eq!(store.start_session(9, 2, 0), Err(DiwkError::NotFound));
}

#[test]
fn start_session_with_bad_max_checks_is_invalid() {
    let (mut store, id) = pizza_store();
    assert_eq!(store.start_session(id, 4, 0), Err(DiwkError::InvalidRequest));
    assert_eq!(store.start_session(id, -1, 0), Err(DiwkError::InvalidRequest));
    assert!(store.start_session(id, 3, 0).is_ok());
}

#[test]
fn issued_passwords_are_non_negative_and_below_max() {
    let (mut store, id) = pizza_store();
    let (sid, write_pass) = store.start_session(id, 3, 0).unwrap();
    assert!(write_pass >= 0 && write_pass < i32::MAX);
    let read_pass = store
        .submit_write(sid, write_pass, &vec![true, false, false])
        .unwrap();
    assert!(read_pass >= 0 && read_pass < i32::MAX);
}

#[test]
fn two_party_match_reveals_common_options_only() {
    let (mut store, chart_id) = pizza_store();
    let (sid, write_pass) = store.start_session(chart_id, 3, 0).unwrap();
    let party_a = vec![true, false, true];
    let read_pass = store.submit_write(sid, write_pass, &party_a).unwrap();
    let party_b = vec![false, true, true];
    let matched = store.submit_read(sid, read_pass, &party_b).unwrap();
    assert_eq!(matched, labels(&["tacos"]));
}

#[test]
fn finished_session_is_gone() {
    let (mut store, chart_id) = pizza_store();
    let (sid, write_pass) = store.start_session(chart_id, 3, 0).unwrap();
    let read_pass = store.submit_write(sid, write_pass, &vec![true, true, false]).unwrap();
    store.submit_read(sid, read_pass, &vec![true, true, false]).unwrap();
    assert_eq!(
        store.submit_read(sid, read_pass, &vec![true, true, false]),
        Err(DiwkError::NotFound)
    );
    assert_eq!(
        store.submit_write(sid, write_pass, &vec![true, true, false]),
        Err(DiwkError::NotFound)
    );
}

#[test]
fn write_phase_is_consumed_at_most_once() {
    let (mut store, chart_id) = pizza_store();
    let (sid, write_pass) = store.start_session(chart_id, 3, 0).unwrap();
    store.submit_write(sid, write_pass, &vec![true, false, false]).unwrap();
    assert_eq!(
        store.submit_write(sid, write_pass, &vec![false, true, false]),
        Err(DiwkError::AlreadyFinished)
    );
}

#[test]
fn read_before_write_is_not_yet_finished() {
    let (mut store, chart_id) = pizza_store();
    let (sid, _write_pass) = store.start_session(chart_id, 3, 0).unwrap();
    assert_eq!(
        store.submit_read(sid, 0, &vec![true, false, false]),
        Err(DiwkError::NotYetFinished)
    );
}

#[test]
fn wrong_password_never_mutates_the_session() {
    let (mut store, chart_id) = pizza_store();
    let (sid, write_pass) = store.start_session(chart_id, 3, 0).unwrap();
    let wrong = if write_pass == 0 { 1 } else { write_pass - 1 };
    assert_eq!(
        store.submit_write(sid, wrong, &vec![true, false, false]),
        Err(DiwkError::IncorrectPassword)
    );
    let read_pass = store
        .submit_write(sid, write_pass, &vec![true, false, false])
        .unwrap();
    let wrong_read = if read_pass == 0 { 1 } else { read_pass - 1 };
    assert_eq!(
        store.submit_read(sid, wrong_read, &vec![true, false, false]),
        Err(DiwkError::IncorrectPassword)
    );
    let matched = store.submit_read(sid, read_pass, &vec![true, false, false]).unwrap();
    assert_eq!(matched, labels(&["pizza"]));
}

#[test]
fn oversized_selection_is_invalid_and_session_survives() {
    let (mut store, chart_id) = pizza_store();
    let (sid, write_pass) = store.start_session(chart_id, 1, 0).unwrap();
    assert_eq!(
        store.submit_write(sid, write_pass, &vec![true, true, false]),
        Err(DiwkError::InvalidRequest)
    );
    assert!(store.submit_write(sid, write_pass, &vec![true, false, false]).is_ok());
}

#[test]
fn unknown_session_is_not_found() {
    let (mut store, _) = pizza_store();
    assert_eq!(
        store.submit_write(42, 0, &vec![true, false, false]),
        Err(DiwkError::NotFound)
    );
}

#[test]
fn view_write_phase_checks_password_and_phase() {
    let (mut store, chart_id) = pizza_store();
    let (sid, write_pass) = store.start_session(chart_id, 2, 0).unwrap();
    let wrong = if write_pass == 0 { 1 } else { write_pass - 1 };
    assert!(store.view_write_phase(99, write_pass).is_err());
    assert_eq!(
        store.view_write_phase(sid, wrong).map(|_| ()),
        Err(DiwkError::IncorrectPassword)
    );
    {
        let (chart, max_checks) = store.view_write_phase(sid, write_pass).unwrap();
        assert_eq!(chart.title, "Dinner");
        assert_eq!(max_checks, 2);
    }
    store.submit_write(sid, write_pass, &vec![true, false, false]).unwrap();
    assert_eq!(
        store.view_write_phase(sid, write_pass).map(|_| ()),
        Err(DiwkError::AlreadyFinished)
    );
}

#[test]
fn sweep_removes_old_sessions_only() {
    let (mut store, chart_id) = pizza_store();
    let day: i64 = SESSION_LIFETIME_MS;
    let now: i64 = 10 * day;
    let (old_sid, old_pass) = store.start_session(chart_id, 3, now - day - 1).unwrap();
    let (new_sid, new_pass) = store.start_session(chart_id, 3, now - day + 1).unwrap();
    let removed = store.sweep_expired(expiry_cutoff(now));
    assert_eq!(removed, 1);
    assert_eq!(
        store.submit_write(old_sid, old_pass, &vec![true, false, false]),
        Err(DiwkError::NotFound)
    );
    assert!(store.submit_write(new_sid, new_pass, &vec![true, false, false]).is_ok());
}

#[test]
fn search_is_case_insensitive_substring() {
    let mut store = Store::new();
    store
        .create_chart("Dinner plans".to_string(), "d".to_string(), labels(&["a"]))
        .unwrap();
    store
        .create_chart("Movie night".to_string(), "d".to_string(), labels(&["a"]))
        .unwrap();
    store
        .create_chart("WINNER takes all".to_string(), "d".to_string(), labels(&["a"]))
        .unwrap();
    assert_eq!(store.search_titles("nner"), vec![1, 3]);
    assert_eq!(store.search_titles("NIGHT"), vec![2]);
    assert_eq!(store.search_titles(""), vec![1, 2, 3]);
    assert_eq!(store.search_titles("zzz"), Vec::<i32>::new());
}

#[test]
fn error_status_codes_match_the_taxonomy() {
    assert_eq!(DiwkError::NotFound.status_code(), 404);
    assert_eq!(DiwkError::IncorrectPassword.status_code(), 401);
    assert_eq!(DiwkError::AlreadyFinished.status_code(), 400);
    assert_eq!(DiwkError::NotYetFinished.status_code(), 400);
    assert_eq!(DiwkError::InvalidRequest.status_code(), 400);
    assert_eq!(DiwkError::StorageUnavailable.status_code(), 503);
    assert_eq!(DiwkError::StorageError.status_code(), 500);
    assert_eq!(DiwkError::IncorrectPassword.message(), "Wrong password");
}
