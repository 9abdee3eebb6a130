use legal_consult::codec::MAX_RECORD_SIZE;
use legal_consult::records::{Advisor, Consultation, Feedback, TimelineEvent};

fn sample_advisor(name: String) -> Advisor {
    Advisor {
        id: 3,
        name,
        credentials: "Bar#123".to_string(),
        rating: 0x3f80_0000,
        owner: vec![0, 255, 7],
        is_available: false,
    }
}

#[test]
fn feedback_encoding_is_exact() {
    let f = Feedback { id: 1, consultation_id: 2, text: "hé".to_string(), timestamp: 258 };
    let bytes = f.encode().unwrap();
    let mut expected = vec![1, 0, 0, 0, 0, 0, 0, 0, 2, 0, 0, 0, 0, 0, 0, 0, 3, 0, 0, 0];
    expected.extend_from_slice(&[b'h', 0xC3, 0xA9]);
    expected.extend_from_slice(&[2, 1, 0, 0, 0, 0, 0, 0]);
    assert_eq!(bytes, expected);
    let back = Feedback::decode(&bytes).unwrap();
    assert_eq!(back.text, "hé");
    assert_eq!(back.timestamp, 258);
}

#[test]
fn advisor_round_trip() {
    let a = sample_advisor("Amy ✓".to_string());
    let back = Advisor::decode(&a.encode().unwrap()).unwrap();
    assert_eq!(back.id, a.id);
    assert_eq!(back.name, a.name);
    assert_eq!(back.credentials, a.credentials);
    assert_eq!(back.rating, a.rating);
    assert_eq!(back.owner, a.owner);
    assert_eq!(back.is_available, a.is_available);
}

#[test]
fn consultation_round_trip_with_and_without_close() {
    for closed_at in [None, Some(u64::MAX)] {
        let c = Consultation {
            id: u64::MAX,
            advisor_id: 0,
            user_id: 12,
            client_name: String::new(),
            client_email: "bo@x.com".to_string(),
            details: "Need help".to_string(),
            created_at: 99,
            closed_at,
            is_completed: true,
        };
        let back = Consultation::decode(&c.encode().unwrap()).unwrap();
        assert_eq!(back.id, c.id);
        assert_eq!(back.advisor_id, c.advisor_id);
        assert_eq!(back.user_id, c.user_id);
        assert_eq!(back.client_name, c.client_name);
        assert_eq!(back.client_email, c.client_email);
        assert_eq!(back.details, c.details);
        assert_eq!(back.created_at, c.created_at);
        assert_eq!(back.closed_at, c.closed_at);
        assert_eq!(back.is_completed, c.is_completed);
    }
}

#[test]
fn timeline_event_round_trip() {
    let e = TimelineEvent { event_id: 4, consultation_id: 2, description: "called".to_string(), timestamp: 7 };
    let back = TimelineEvent::decode(&e.encode().unwrap()).unwrap();
    assert_eq!(back.event_id, 4);
    assert_eq!(back.consultation_id, 2);
    assert_eq!(back.description, "called");
    assert_eq!(back.timestamp, 7);
}

#[test]
fn largest_record_fits_and_one_more_byte_does_not() {
    // Fixed part of an advisor: id 8, two length prefixes 8, rating 4,
    // owner prefix 4 plus 3 bytes, flag 1; the rest is the name.
    let fixed = 8 + 4 + 4 + 7 + 4 + 4 + 3 + 1;
    let a = sample_advisor("n".repeat(MAX_RECORD_SIZE - fixed));
    let bytes = a.encode().unwrap();
    assert_eq!(bytes.len(), MAX_RECORD_SIZE);
    assert_eq!(Advisor::decode(&bytes).unwrap().name, a.name);
    let b = sample_advisor("n".repeat(MAX_RECORD_SIZE - fixed + 1));
    assert!(b.encode().is_none());
}

#[test]
fn malformed_bytes_do_not_decode() {
    let a = sample_advisor("Amy".to_string());
    let mut bytes = a.encode().unwrap();
    // The first byte of the name, turned into a lone continuation byte.
    bytes[12] = 0x80;
    assert!(Advisor::decode(&bytes).is_none());
    let good = a.encode().unwrap();
    assert!(Advisor::decode(&good[..good.len() - 1].to_vec()).is_none());
    let mut longer = good.clone();
    longer.push(0);
    assert!(Advisor::decode(&longer).is_none());
    let mut bad_flag = good.clone();
    let last = bad_flag.len() - 1;
    bad_flag[last] = 2;
    assert!(Advisor::decode(&bad_flag).is_none());
    assert!(Consultation::decode(&vec![]).is_none());
}
