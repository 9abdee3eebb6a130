use legal_consult::model::{is_blank, is_white, Error, RecordKind};
use legal_consult::store::{AdvisorPayload, ConsultationPayload, ConsultationUpdate, Store};

fn owner() -> Vec<u8> {
    vec![1, 2, 3]
}

fn stranger() -> Vec<u8> {
    vec![9, 9]
}

fn fresh() -> Store {
    Store::open().expect("an empty store opens")
}

fn advisor(name: &str, credentials: &str) -> AdvisorPayload {
    AdvisorPayload { name: name.to_string(), credentials: credentials.to_string(), rating: 0 }
}

fn consultation(advisor_id: u64) -> ConsultationPayload {
    ConsultationPayload {
        advisor_id,
        user_id: 7,
        client_name: "Bo".to_string(),
        client_email: "bo@x.com".to_string(),
        details: "Need help".to_string(),
    }
}

fn no_change() -> ConsultationUpdate {
    ConsultationUpdate {
        advisor_id: None,
        client_name: None,
        client_email: None,
        details: None,
        is_completed: None,
    }
}

#[test]
fn fresh_store_is_empty() {
    let s = fresh();
    assert_eq!(s.last_id(), 0);
    assert!(s.list_advisors().is_empty());
    assert!(s.list_consultations().is_empty());
}

#[test]
fn end_to_end_scenario() {
    let mut s = fresh();
    let a = s.add_advisor(&owner(), advisor("Amy", "Bar#123")).unwrap();
    assert_eq!(a.id, 1);
    assert_eq!(a.name, "Amy");
    assert_eq!(a.credentials, "Bar#123");
    assert_eq!(a.owner, owner());
    assert!(a.is_available);
    let c = s.initiate_consultation(&owner(), consultation(1), 500).unwrap();
    // One counter mints every identifier, so the consultation gets the next one.
    assert_eq!(c.id, 2);
    assert_eq!(c.advisor_id, 1);
    assert!(!c.is_completed);
    assert_eq!(c.closed_at, None);
    assert_eq!(c.created_at, 500);
    s.close_consultation(&owner(), c.id, 1000).unwrap();
    let got = s.get_consultation(c.id).unwrap();
    assert_eq!(got.closed_at, Some(1000));
    assert!(!got.is_completed);
}

#[test]
fn ids_strictly_increase_and_never_repeat() {
    let mut s = fresh();
    let a1 = s.add_advisor(&owner(), advisor("Amy", "B1")).unwrap().id;
    let c1 = s.initiate_consultation(&owner(), consultation(a1), 1).unwrap().id;
    let a2 = s.add_advisor(&owner(), advisor("Ann", "B2")).unwrap().id;
    s.delete_consultation(&owner(), c1).unwrap();
    let c2 = s.initiate_consultation(&owner(), consultation(a2), 2).unwrap().id;
    assert_eq!(vec![a1, c1, a2, c2], vec![1, 2, 3, 4]);
    assert_eq!(s.last_id(), 4);
}

#[test]
fn failed_creation_mints_nothing() {
    let mut s = fresh();
    assert!(s.add_advisor(&owner(), advisor("", "x")).is_err());
    assert_eq!(s.last_id(), 0);
    assert_eq!(s.add_advisor(&owner(), advisor("Amy", "x")).unwrap().id, 1);
}

#[test]
fn empty_name_gives_one_violation() {
    let mut s = fresh();
    match s.add_advisor(&owner(), advisor("", "x")) {
        Err(Error::InvalidPayload { violations }) => {
            assert!(violations.name);
            assert!(!violations.credentials);
            let messages = violations.messages();
            assert_eq!(messages.len(), 1);
            assert!(messages[0].contains("name"));
        },
        _ => panic!("expected InvalidPayload"),
    }
    assert!(s.list_advisors().is_empty());
}

#[test]
fn blank_fields_are_all_reported() {
    let mut s = fresh();
    match s.add_advisor(&owner(), advisor(" \t", "\n ")) {
        Err(Error::InvalidPayload { violations }) => {
            assert!(violations.name && violations.credentials);
            assert_eq!(violations.messages().len(), 2);
        },
        _ => panic!("expected InvalidPayload"),
    }
    s.add_advisor(&owner(), advisor("Amy", "x")).unwrap();
    let payload = ConsultationPayload {
        advisor_id: 1,
        user_id: 0,
        client_name: "".to_string(),
        client_email: " ".to_string(),
        details: "\u{3000}".to_string(),
    };
    match s.initiate_consultation(&owner(), payload, 0) {
        Err(Error::InvalidPayload { violations }) => {
            assert!(violations.client_name && violations.client_email && violations.details);
            assert_eq!(violations.messages().len(), 3);
        },
        _ => panic!("expected InvalidPayload"),
    }
}

#[test]
fn text_with_inner_spaces_is_not_blank() {
    let mut s = fresh();
    assert!(s.add_advisor(&owner(), advisor(" Amy Lee ", " x ")).is_ok());
}

#[test]
fn consultation_needs_a_live_advisor() {
    let mut s = fresh();
    assert_eq!(
        s.initiate_consultation(&owner(), consultation(42), 0).err(),
        Some(Error::NotFound { kind: RecordKind::Advisor, id: 42 })
    );
    assert_eq!(s.last_id(), 0);
}

#[test]
fn foreign_caller_is_refused_everywhere() {
    let mut s = fresh();
    let a = s.add_advisor(&owner(), advisor("Amy", "x")).unwrap().id;
    let c = s.initiate_consultation(&owner(), consultation(a), 5).unwrap().id;
    let refused = Some(Error::NotAuthorized { advisor_id: a });
    assert_eq!(s.initiate_consultation(&stranger(), consultation(a), 6).err(), refused);
    assert_eq!(s.mark_consultation_completed(&stranger(), c).err(), refused);
    assert_eq!(s.close_consultation(&stranger(), c, 9).err(), refused);
    assert_eq!(s.delete_consultation(&stranger(), c).err(), refused);
    let update = ConsultationUpdate { details: Some("changed".to_string()), ..no_change() };
    assert_eq!(s.update_consultation(&stranger(), c, update).err(), refused);
    let got = s.get_consultation(c).unwrap();
    assert_eq!(got.details, "Need help");
    assert!(!got.is_completed);
    assert_eq!(got.closed_at, None);
    assert_eq!(s.last_id(), 2);
}

#[test]
fn moving_to_a_foreign_advisor_is_refused() {
    let mut s = fresh();
    let mine = s.add_advisor(&owner(), advisor("Amy", "x")).unwrap().id;
    let theirs = s.add_advisor(&stranger(), advisor("Zed", "y")).unwrap().id;
    let c = s.initiate_consultation(&owner(), consultation(mine), 5).unwrap().id;
    let update = ConsultationUpdate { advisor_id: Some(theirs), ..no_change() };
    assert_eq!(
        s.update_consultation(&owner(), c, update).err(),
        Some(Error::NotAuthorized { advisor_id: theirs })
    );
    assert_eq!(s.get_consultation(c).unwrap().advisor_id, mine);
}

#[test]
fn marking_completed_twice_is_idempotent() {
    let mut s = fresh();
    let a = s.add_advisor(&owner(), advisor("Amy", "x")).unwrap().id;
    let c = s.initiate_consultation(&owner(), consultation(a), 5).unwrap().id;
    let once = s.mark_consultation_completed(&owner(), c).unwrap();
    let twice = s.mark_consultation_completed(&owner(), c).unwrap();
    assert!(once.is_completed && twice.is_completed);
    assert_eq!(once.details, twice.details);
    assert_eq!(once.closed_at, twice.closed_at);
    assert!(s.get_consultation(c).unwrap().is_completed);
    assert_eq!(s.list_consultations().len(), 1);
}

#[test]
fn update_with_only_details_changes_only_details() {
    let mut s = fresh();
    let a = s.add_advisor(&owner(), advisor("Amy", "x")).unwrap().id;
    let c = s.initiate_consultation(&owner(), consultation(a), 77).unwrap().id;
    s.mark_consultation_completed(&owner(), c).unwrap();
    let update = ConsultationUpdate { details: Some("new text".to_string()), ..no_change() };
    let got = s.update_consultation(&owner(), c, update).unwrap();
    assert_eq!(got.details, "new text");
    assert_eq!(got.advisor_id, a);
    assert_eq!(got.created_at, 77);
    assert!(got.is_completed);
    assert_eq!(got.client_name, "Bo");
    assert_eq!(s.get_consultation(c).unwrap().details, "new text");
}

#[test]
fn update_rejects_blank_supplied_fields() {
    let mut s = fresh();
    let a = s.add_advisor(&owner(), advisor("Amy", "x")).unwrap().id;
    let c = s.initiate_consultation(&owner(), consultation(a), 1).unwrap().id;
    let update = ConsultationUpdate { details: Some("  ".to_string()), ..no_change() };
    match s.update_consultation(&owner(), c, update) {
        Err(Error::InvalidPayload { violations }) => {
            assert!(violations.details);
            assert!(!violations.client_name);
        },
        _ => panic!("expected InvalidPayload"),
    }
    assert_eq!(
        s.update_consultation(&owner(), 99, no_change()).err(),
        Some(Error::NotFound { kind: RecordKind::Consultation, id: 99 })
    );
}

#[test]
fn deleted_consultation_is_not_found() {
    let mut s = fresh();
    let a = s.add_advisor(&owner(), advisor("Amy", "x")).unwrap().id;
    let c = s.initiate_consultation(&owner(), consultation(a), 1).unwrap().id;
    s.delete_consultation(&owner(), c).unwrap();
    let missing = Some(Error::NotFound { kind: RecordKind::Consultation, id: c });
    assert_eq!(s.get_consultation(c).err(), missing);
    assert_eq!(s.delete_consultation(&owner(), c).err(), missing);
}

#[test]
fn advisor_updates_need_the_owner() {
    let mut s = fresh();
    let a = s.add_advisor(&owner(), advisor("Amy", "x")).unwrap().id;
    assert_eq!(
        s.update_advisor(&stranger(), a, advisor("Eve", "y")).err(),
        Some(Error::NotAuthorized { advisor_id: a })
    );
    let updated = s.update_advisor(&owner(), a, AdvisorPayload { rating: 0x4080_0000, ..advisor("Amy B", "y") }).unwrap();
    assert_eq!(updated.id, a);
    assert_eq!(updated.name, "Amy B");
    assert_eq!(updated.rating, 0x4080_0000);
    assert_eq!(updated.owner, owner());
    assert_eq!(s.get_advisor(a).unwrap().credentials, "y");
    assert_eq!(
        s.update_advisor(&owner(), 50, advisor("A", "B")).err(),
        Some(Error::NotFound { kind: RecordKind::Advisor, id: 50 })
    );
}

#[test]
fn availability_is_toggled_by_anyone() {
    let mut s = fresh();
    let a = s.add_advisor(&owner(), advisor("Amy", "x")).unwrap().id;
    let off = s.update_advisor_availability(a, false).unwrap();
    assert!(!off.is_available);
    assert!(!s.get_advisor(a).unwrap().is_available);
    assert!(s.update_advisor_availability(a, true).unwrap().is_available);
    assert_eq!(
        s.get_advisor(8).err(),
        Some(Error::NotFound { kind: RecordKind::Advisor, id: 8 })
    );
}

#[test]
fn search_by_user_keeps_identifier_order() {
    let mut s = fresh();
    let a = s.add_advisor(&owner(), advisor("Amy", "x")).unwrap().id;
    let c1 = s.initiate_consultation(&owner(), consultation(a), 1).unwrap().id;
    let other = ConsultationPayload { user_id: 8, ..consultation(a) };
    s.initiate_consultation(&owner(), other, 2).unwrap();
    let c3 = s.initiate_consultation(&owner(), consultation(a), 3).unwrap().id;
    let found: Vec<u64> = s.search_consultations_by_user(7).iter().map(|c| c.id).collect();
    assert_eq!(found, vec![c1, c3]);
    assert!(s.search_consultations_by_user(1234).is_empty());
    let all: Vec<u64> = s.list_consultations().iter().map(|c| c.id).collect();
    assert_eq!(all, vec![2, 3, 4]);
}

#[test]
fn timeline_is_not_found_until_an_event_is_recorded() {
    let mut s = fresh();
    let a = s.add_advisor(&owner(), advisor("Amy", "x")).unwrap().id;
    let c = s.initiate_consultation(&owner(), consultation(a), 1).unwrap().id;
    let none = Some(Error::NotFound { kind: RecordKind::Timeline, id: c });
    assert_eq!(s.track_consultation_timeline(c).err(), none);
    let e1 = s.record_timeline_event(c, "opened".to_string(), 10).unwrap();
    let e2 = s.record_timeline_event(c, "called".to_string(), 20).unwrap();
    let events = s.track_consultation_timeline(c).unwrap();
    assert_eq!(events.len(), 2);
    assert_eq!(events[0].event_id, e1.event_id);
    assert_eq!(events[1].event_id, e2.event_id);
    assert_eq!(events[1].description, "called");
    assert_eq!(
        s.record_timeline_event(99, "x".to_string(), 0).err(),
        Some(Error::NotFound { kind: RecordKind::Consultation, id: 99 })
    );
}

#[test]
fn feedback_gets_distinct_identifiers() {
    let mut s = fresh();
    let a = s.add_advisor(&owner(), advisor("Amy", "x")).unwrap().id;
    let c = s.initiate_consultation(&owner(), consultation(a), 1).unwrap().id;
    let f1 = s.collect_feedback(c, "good".to_string(), 100).unwrap();
    let f2 = s.collect_feedback(c, "great".to_string(), 100).unwrap();
    assert_ne!(f1.id, f2.id);
    assert_eq!(f1.timestamp, f2.timestamp);
    assert_eq!(f2.text, "great");
    assert_eq!(
        s.collect_feedback(55, "x".to_string(), 0).err(),
        Some(Error::NotFound { kind: RecordKind::Consultation, id: 55 })
    );
}

#[test]
fn oversized_records_are_refused() {
    let mut s = fresh();
    let long = "a".repeat(2000);
    match s.add_advisor(&owner(), advisor(&long, "x")) {
        Err(Error::InvalidPayload { violations }) => {
            assert!(violations.too_large);
            assert_eq!(violations.messages().len(), 1);
        },
        _ => panic!("expected InvalidPayload"),
    }
    assert_eq!(s.last_id(), 0);
    let a = s.add_advisor(&owner(), advisor("Amy", "x")).unwrap().id;
    let c = s.initiate_consultation(&owner(), consultation(a), 1).unwrap().id;
    let update = ConsultationUpdate { details: Some(long), ..no_change() };
    assert!(matches!(
        s.update_consultation(&owner(), c, update),
        Err(Error::InvalidPayload { violations }) if violations.too_large
    ));
    assert_eq!(s.get_consultation(c).unwrap().details, "Need help");
}

#[test]
fn white_space_is_the_unicode_set() {
    for c in ['\t', '\n', '\r', ' ', '\u{85}', '\u{a0}', '\u{1680}', '\u{2000}', '\u{200a}', '\u{2028}', '\u{205f}', '\u{3000}'] {
        assert!(is_white(c), "{:?}", c);
    }
    for c in ['a', '\u{8}', '\u{200b}', '\u{feff}', '_'] {
        assert!(!is_white(c), "{:?}", c);
    }
    assert!(is_blank(&"".to_string()));
    assert!(is_blank(&" \u{2029}\t".to_string()));
    assert!(!is_blank(&" new text ".to_string()));
}
