//! The stored record types, their abstract views, and their encodings.

use crate::codec::{
    bool_field, bytes_field, lemma_parse_bool, lemma_bytes_field_len, lemma_fixed_widths, lemma_parse_bytes, lemma_parse_opt_u64,
    lemma_parse_str, lemma_parse_u32, lemma_parse_u64, opt_u64_field, parse_bool, parse_bytes,
    parse_opt_u64, parse_str, parse_u32, parse_u64, put_bool, put_bytes, put_opt_u64, put_u32,
    put_u64, read_bool, read_bytes, read_opt_u64, read_str, read_u32, read_u64, str_field,
    u32_field, u64_field, utf8_bytes, MAX_RECORD_SIZE,
};
use vstd::prelude::*;
use vstd::utf8::*;

verus! {

broadcast use {encode_utf8_valid_utf8, encode_utf8_decode_utf8};

/// A legal advisor.
pub struct Advisor {
    pub id: u64,
    pub name: String,
    pub credentials: String,
    /// The rating, as the bit pattern of a single-precision float.
    pub rating: u32,
    /// The identity permitted to change the advisor and its consultations.
    pub owner: Vec<u8>,
    pub is_available: bool,
}

pub struct AdvisorView {
    pub id: u64,
    pub name: Seq<char>,
    pub credentials: Seq<char>,
    pub rating: u32,
    pub owner: Seq<u8>,
    pub is_available: bool,
}

impl View for Advisor {
    type V = AdvisorView;

    open spec fn view(&self) -> AdvisorView {
        AdvisorView {
            id: self.id,
            name: self.name@,
            credentials: self.credentials@,
            rating: self.rating,
            owner: self.owner@,
            is_available: self.is_available,
        }
    }
}

pub open spec fn advisor_bytes(a: AdvisorView) -> Seq<u8> {
    u64_field(a.id) + str_field(a.name) + str_field(a.credentials) + u32_field(a.rating)
        + bytes_field(a.owner) + bool_field(a.is_available)
}

pub open spec fn parse_advisor(b: Seq<u8>) -> Option<AdvisorView> {
    match parse_u64(b, 0) {
        None => None,
        Some((id, p1)) => match parse_str(b, p1) {
            None => None,
            Some((name, p2)) => match parse_str(b, p2) {
                None => None,
                Some((credentials, p3)) => match parse_u32(b, p3) {
                    None => None,
                    Some((rating, p4)) => match parse_bytes(b, p4) {
                        None => None,
                        Some((owner, p5)) => match parse_bool(b, p5) {
                            None => None,
                            Some((is_available, p6)) => if p6 == b.len() {
                                Some(
                                    AdvisorView {
                                        id,
                                        name,
                                        credentials,
                                        rating,
                                        owner,
                                        is_available,
                                    },
                                )
                            } else {
                                None
                            },
                        },
                    },
                },
            },
        },
    }
}

/// Decoding an advisor's encoding gives the advisor back.
pub proof fn lemma_advisor_round_trip(a: AdvisorView)
    requires
        advisor_bytes(a).len() <= MAX_RECORD_SIZE,
    ensures
        parse_advisor(advisor_bytes(a)) == Some(a),
{
    let b = advisor_bytes(a);
    let f1 = u64_field(a.id);
    let f2 = str_field(a.name);
    let f3 = str_field(a.credentials);
    let f4 = u32_field(a.rating);
    let f5 = bytes_field(a.owner);
    let f6 = bool_field(a.is_available);
    vstd::bytes::lemma_auto_spec_u64_to_from_le_bytes();
    vstd::bytes::lemma_auto_spec_u32_to_from_le_bytes();
    assert(f1.len() == 8);
    assert(f4.len() == 4);
    let p1 = f1.len() as int;
    let p2 = p1 + f2.len();
    let p3 = p2 + f3.len();
    let p4 = p3 + f4.len();
    let p5 = p4 + f5.len();
    assert(b.subrange(0, p1) =~= f1);
    assert(b.subrange(p1, p2) =~= f2);
    assert(b.subrange(p2, p3) =~= f3);
    assert(b.subrange(p3, p4) =~= f4);
    assert(b.subrange(p4, p5) =~= f5);
    assert(b.subrange(p5, b.len() as int) =~= f6);
    lemma_parse_u64(b, 0, a.id);
    lemma_parse_str(b, p1, a.name);
    lemma_parse_str(b, p2, a.credentials);
    lemma_parse_u32(b, p3, a.rating);
    lemma_parse_bytes(b, p4, a.owner);
    lemma_parse_bool(b, p5, a.is_available);
}

impl Advisor {
    /// The advisor's encoding, or `None` where it would exceed the record bound.
    pub fn encode(&self) -> (r: Option<Vec<u8>>)
        ensures
            r is Some <==> advisor_bytes(self@).len() <= MAX_RECORD_SIZE,
            r matches Some(b) ==> b@ == advisor_bytes(self@),
    {
        proof {
            lemma_fixed_widths(self.id, self.rating);
        }
        let name = utf8_bytes(&self.name);
        let credentials = utf8_bytes(&self.credentials);
        proof {
            lemma_bytes_field_len(name@);
            lemma_bytes_field_len(credentials@);
            lemma_bytes_field_len(self.owner@);
        }
        if name.len() > MAX_RECORD_SIZE || credentials.len() > MAX_RECORD_SIZE
            || self.owner.len() > MAX_RECORD_SIZE {
            return None;
        }
        let size = 8 + (4 + name.len()) + (4 + credentials.len()) + 4 + (4 + self.owner.len()) + 1;
        if size > MAX_RECORD_SIZE {
            return None;
        }
        let mut out: Vec<u8> = Vec::new();
        put_u64(&mut out, self.id);
        put_bytes(&mut out, &name);
        put_bytes(&mut out, &credentials);
        put_u32(&mut out, self.rating);
        put_bytes(&mut out, &self.owner);
        put_bool(&mut out, self.is_available);
        Some(out)
    }

    /// Reads an advisor back from its encoding.
    pub fn decode(b: &Vec<u8>) -> (r: Option<Advisor>)
        ensures
            r is Some <==> parse_advisor(b@) is Some,
            r matches Some(a) ==> parse_advisor(b@) == Some(a@),
    {
        let (id, p1) = match read_u64(b, 0) {
            Some(x) => x,
            None => return None,
        };
        let (name, p2) = match read_str(b, p1) {
            Some(x) => x,
            None => return None,
        };
        let (credentials, p3) = match read_str(b, p2) {
            Some(x) => x,
            None => return None,
        };
        let (rating, p4) = match read_u32(b, p3) {
            Some(x) => x,
            None => return None,
        };
        let (owner, p5) = match read_bytes(b, p4) {
            Some(x) => x,
            None => return None,
        };
        let (is_available, p6) = match read_bool(b, p5) {
            Some(x) => x,
            None => return None,
        };
        if p6 != b.len() {
            return None;
        }
        Some(Advisor { id, name, credentials, rating, owner, is_available })
    }
}

/// A consultation between a client and an advisor.
pub struct Consultation {
    pub id: u64,
    pub advisor_id: u64,
    /// The requester's own identifier; it plays no part in authorization.
    pub user_id: u64,
    pub client_name: String,
    pub client_email: String,
    pub details: String,
    pub created_at: u64,
    pub closed_at: Option<u64>,
    pub is_completed: bool,
}

pub struct ConsultationView {
    pub id: u64,
    pub advisor_id: u64,
    pub user_id: u64,
    pub client_name: Seq<char>,
    pub client_email: Seq<char>,
    pub details: Seq<char>,
    pub created_at: u64,
    pub closed_at: Option<u64>,
    pub is_completed: bool,
}

impl View for Consultation {
    type V = ConsultationView;

    open spec fn view(&self) -> ConsultationView {
        ConsultationView {
            id: self.id,
            advisor_id: self.advisor_id,
            user_id: self.user_id,
            client_name: self.client_name@,
            client_email: self.client_email@,
            details: self.details@,
            created_at: self.created_at,
            closed_at: self.closed_at,
            is_completed: self.is_completed,
        }
    }
}

pub open spec fn consultation_bytes(c: ConsultationView) -> Seq<u8> {
    u64_field(c.id) + u64_field(c.advisor_id) + u64_field(c.user_id) + str_field(c.client_name)
        + str_field(c.client_email) + str_field(c.details) + u64_field(c.created_at)
        + opt_u64_field(c.closed_at) + bool_field(c.is_completed)
}

pub open spec fn parse_consultation(b: Seq<u8>) -> Option<ConsultationView> {
    match parse_u64(b, 0) {
        None => None,
        Some((id, p1)) => match parse_u64(b, p1) {
            None => None,
            Some((advisor_id, p2)) => match parse_u64(b, p2) {
                None => None,
                Some((user_id, p3)) => match parse_str(b, p3) {
                    None => None,
                    Some((client_name, p4)) => match parse_str(b, p4) {
                        None => None,
                        Some((client_email, p5)) => match parse_str(b, p5) {
                            None => None,
                            Some((details, p6)) => match parse_u64(b, p6) {
                                None => None,
                                Some((created_at, p7)) => match parse_opt_u64(b, p7) {
                                    None => None,
                                    Some((closed_at, p8)) => match parse_bool(b, p8) {
                                        None => None,
                                        Some((is_completed, p9)) => if p9 == b.len() {
                                            Some(
                                                ConsultationView {
                                                    id,
                                                    advisor_id,
                                                    user_id,
                                                    client_name,
                                                    client_email,
                                                    details,
                                                    created_at,
                                                    closed_at,
                                                    is_completed,
                                                },
                                            )
                                        } else {
                                            None
                                        },
                                    },
                                },
                            },
                        },
                    },
                },
            },
        },
    }
}

/// Decoding a consultation's encoding gives the consultation back.
pub proof fn lemma_consultation_round_trip(c: ConsultationView)
    requires
        consultation_bytes(c).len() <= MAX_RECORD_SIZE,
    ensures
        parse_consultation(consultation_bytes(c)) == Some(c),
{
    let b = consultation_bytes(c);
    let f1 = u64_field(c.id);
    let f2 = u64_field(c.advisor_id);
    let f3 = u64_field(c.user_id);
    let f4 = str_field(c.client_name);
    let f5 = str_field(c.client_email);
    let f6 = str_field(c.details);
    let f7 = u64_field(c.created_at);
    let f8 = opt_u64_field(c.closed_at);
    let f9 = bool_field(c.is_completed);
    lemma_fixed_widths(c.id, 0);
    lemma_fixed_widths(c.advisor_id, 0);
    lemma_fixed_widths(c.user_id, 0);
    lemma_fixed_widths(c.created_at, 0);
    let p1 = 8int;
    let p2 = 16int;
    let p3 = 24int;
    let p4 = p3 + f4.len();
    let p5 = p4 + f5.len();
    let p6 = p5 + f6.len();
    let p7 = p6 + 8;
    let p8 = p7 + f8.len();
    assert(b.subrange(0, p1) =~= f1);
    assert(b.subrange(p1, p2) =~= f2);
    assert(b.subrange(p2, p3) =~= f3);
    assert(b.subrange(p3, p4) =~= f4);
    assert(b.subrange(p4, p5) =~= f5);
    assert(b.subrange(p5, p6) =~= f6);
    assert(b.subrange(p6, p7) =~= f7);
    assert(b.subrange(p7, p8) =~= f8);
    assert(b.subrange(p8, b.len() as int) =~= f9);
    lemma_parse_u64(b, 0, c.id);
    lemma_parse_u64(b, p1, c.advisor_id);
    lemma_parse_u64(b, p2, c.user_id);
    lemma_parse_str(b, p3, c.client_name);
    lemma_parse_str(b, p4, c.client_email);
    lemma_parse_str(b, p5, c.details);
    lemma_parse_u64(b, p6, c.created_at);
    lemma_parse_opt_u64(b, p7, c.closed_at);
    lemma_parse_bool(b, p8, c.is_completed);
}

impl Consultation {
    /// The consultation's encoding, or `None` where it would exceed the record bound.
    pub fn encode(&self) -> (r: Option<Vec<u8>>)
        ensures
            r is Some <==> consultation_bytes(self@).len() <= MAX_RECORD_SIZE,
            r matches Some(b) ==> b@ == consultation_bytes(self@),
    {
        proof {
            lemma_fixed_widths(self.id, 0);
            lemma_fixed_widths(self.advisor_id, 0);
            lemma_fixed_widths(self.user_id, 0);
            lemma_fixed_widths(self.created_at, 0);
            if let Some(t) = self.closed_at {
                lemma_fixed_widths(t, 0);
            }
        }
        let client_name = utf8_bytes(&self.client_name);
        let client_email = utf8_bytes(&self.client_email);
        let details = utf8_bytes(&self.details);
        proof {
            lemma_bytes_field_len(client_name@);
            lemma_bytes_field_len(client_email@);
            lemma_bytes_field_len(details@);
        }
        if client_name.len() > MAX_RECORD_SIZE || client_email.len() > MAX_RECORD_SIZE
            || details.len() > MAX_RECORD_SIZE {
            return None;
        }
        let closed_size: usize = if self.closed_at.is_some() { 9 } else { 1 };
        let size = 24 + (4 + client_name.len()) + (4 + client_email.len()) + (4 + details.len())
            + 8 + closed_size + 1;
        if size > MAX_RECORD_SIZE {
            return None;
        }
        let mut out: Vec<u8> = Vec::new();
        put_u64(&mut out, self.id);
        put_u64(&mut out, self.advisor_id);
        put_u64(&mut out, self.user_id);
        put_bytes(&mut out, &client_name);
        put_bytes(&mut out, &client_email);
        put_bytes(&mut out, &details);
        put_u64(&mut out, self.created_at);
        put_opt_u64(&mut out, self.closed_at);
        put_bool(&mut out, self.is_completed);
        Some(out)
    }

    /// Reads a consultation back from its encoding.
    pub fn decode(b: &Vec<u8>) -> (r: Option<Consultation>)
        ensures
            r is Some <==> parse_consultation(b@) is Some,
            r matches Some(c) ==> parse_consultation(b@) == Some(c@),
    {
        let (id, p1) = match read_u64(b, 0) {
            Some(x) => x,
            None => return None,
        };
        let (advisor_id, p2) = match read_u64(b, p1) {
            Some(x) => x,
            None => return None,
        };
        let (user_id, p3) = match read_u64(b, p2) {
            Some(x) => x,
            None => return None,
        };
        let (client_name, p4) = match read_str(b, p3) {
            Some(x) => x,
            None => return None,
        };
        let (client_email, p5) = match read_str(b, p4) {
            Some(x) => x,
            None => return None,
        };
        let (details, p6) = match read_str(b, p5) {
            Some(x) => x,
            None => return None,
        };
        let (created_at, p7) = match read_u64(b, p6) {
            Some(x) => x,
            None => return None,
        };
        let (closed_at, p8) = match read_opt_u64(b, p7) {
            Some(x) => x,
            None => return None,
        };
        let (is_completed, p9) = match read_bool(b, p8) {
            Some(x) => x,
            None => return None,
        };
        if p9 != b.len() {
            return None;
        }
        Some(
            Consultation {
                id,
                advisor_id,
                user_id,
                client_name,
                client_email,
                details,
                created_at,
                closed_at,
                is_completed,
            },
        )
    }
}

/// Feedback left on a consultation; never changed once recorded.
pub struct Feedback {
    pub id: u64,
    pub consultation_id: u64,
    pub text: String,
    pub timestamp: u64,
}

pub struct FeedbackView {
    pub id: u64,
    pub consultation_id: u64,
    pub text: Seq<char>,
    pub timestamp: u64,
}

impl View for Feedback {
    type V = FeedbackView;

    open spec fn view(&self) -> FeedbackView {
        FeedbackView {
            id: self.id,
            consultation_id: self.consultation_id,
            text: self.text@,
            timestamp: self.timestamp,
        }
    }
}

pub open spec fn feedback_bytes(e: FeedbackView) -> Seq<u8> {
    u64_field(e.id) + u64_field(e.consultation_id) + str_field(e.text) + u64_field(e.timestamp)
}

pub open spec fn parse_feedback(b: Seq<u8>) -> Option<FeedbackView> {
    match parse_u64(b, 0) {
        None => None,
        Some((id, p1)) => match parse_u64(b, p1) {
            None => None,
            Some((consultation_id, p2)) => match parse_str(b, p2) {
                None => None,
                Some((text, p3)) => match parse_u64(b, p3) {
                    None => None,
                    Some((timestamp, p4)) => if p4 == b.len() {
                        Some(FeedbackView { id, consultation_id, text, timestamp })
                    } else {
                        None
                    },
                },
            },
        },
    }
}

/// Decoding the encoding of a feedback record gives it back.
pub proof fn lemma_feedback_round_trip(e: FeedbackView)
    requires
        feedback_bytes(e).len() <= MAX_RECORD_SIZE,
    ensures
        parse_feedback(feedback_bytes(e)) == Some(e),
{
    let b = feedback_bytes(e);
    lemma_fixed_widths(e.id, 0);
    lemma_fixed_widths(e.consultation_id, 0);
    lemma_fixed_widths(e.timestamp, 0);
    let p3 = 16int + str_field(e.text).len();
    assert(b.subrange(0, 8) =~= u64_field(e.id));
    assert(b.subrange(8, 16) =~= u64_field(e.consultation_id));
    assert(b.subrange(16, p3) =~= str_field(e.text));
    assert(b.subrange(p3, p3 + 8) =~= u64_field(e.timestamp));
    lemma_parse_u64(b, 0, e.id);
    lemma_parse_u64(b, 8, e.consultation_id);
    lemma_parse_str(b, 16, e.text);
    lemma_parse_u64(b, p3, e.timestamp);
}

impl Feedback {
    /// The encoding of a feedback record, or `None` where it would exceed the record bound.
    pub fn encode(&self) -> (r: Option<Vec<u8>>)
        ensures
            r is Some <==> feedback_bytes(self@).len() <= MAX_RECORD_SIZE,
            r matches Some(b) ==> b@ == feedback_bytes(self@),
    {
        proof {
            lemma_fixed_widths(self.id, 0);
            lemma_fixed_widths(self.consultation_id, 0);
            lemma_fixed_widths(self.timestamp, 0);
        }
        let text = utf8_bytes(&self.text);
        proof {
            lemma_bytes_field_len(text@);
        }
        if text.len() > MAX_RECORD_SIZE - 28 {
            return None;
        }
        let mut out: Vec<u8> = Vec::new();
        put_u64(&mut out, self.id);
        put_u64(&mut out, self.consultation_id);
        put_bytes(&mut out, &text);
        put_u64(&mut out, self.timestamp);
        Some(out)
    }

    /// Reads a feedback record back from its encoding.
    pub fn decode(b: &Vec<u8>) -> (r: Option<Feedback>)
        ensures
            r is Some <==> parse_feedback(b@) is Some,
            r matches Some(e) ==> parse_feedback(b@) == Some(e@),
    {
        let (id, p1) = match read_u64(b, 0) {
            Some(x) => x,
            None => return None,
        };
        let (consultation_id, p2) = match read_u64(b, p1) {
            Some(x) => x,
            None => return None,
        };
        let (text, p3) = match read_str(b, p2) {
            Some(x) => x,
            None => return None,
        };
        let (timestamp, p4) = match read_u64(b, p3) {
            Some(x) => x,
            None => return None,
        };
        if p4 != b.len() {
            return None;
        }
        Some(Feedback { id, consultation_id, text, timestamp })
    }
}

/// An event in the history of a consultation; never changed once recorded.
pub struct TimelineEvent {
    pub event_id: u64,
    pub consultation_id: u64,
    pub description: String,
    pub timestamp: u64,
}

pub struct TimelineEventView {
    pub event_id: u64,
    pub consultation_id: u64,
    pub description: Seq<char>,
    pub timestamp: u64,
}

impl View for TimelineEvent {
    type V = TimelineEventView;

    open spec fn view(&self) -> TimelineEventView {
        TimelineEventView {
            event_id: self.event_id,
            consultation_id: self.consultation_id,
            description: self.description@,
            timestamp: self.timestamp,
        }
    }
}

pub open spec fn timeline_event_bytes(e: TimelineEventView) -> Seq<u8> {
    u64_field(e.event_id) + u64_field(e.consultation_id) + str_field(e.description) + u64_field(e.timestamp)
}

pub open spec fn parse_timeline_event(b: Seq<u8>) -> Option<TimelineEventView> {
    match parse_u64(b, 0) {
        None => None,
        Some((event_id, p1)) => match parse_u64(b, p1) {
            None => None,
            Some((consultation_id, p2)) => match parse_str(b, p2) {
                None => None,
                Some((description, p3)) => match parse_u64(b, p3) {
                    None => None,
                    Some((timestamp, p4)) => if p4 == b.len() {
                        Some(TimelineEventView { event_id, consultation_id, description, timestamp })
                    } else {
                        None
                    },
                },
            },
        },
    }
}

/// Decoding the encoding of a timeline event gives it back.
pub proof fn lemma_timeline_event_round_trip(e: TimelineEventView)
    requires
        timeline_event_bytes(e).len() <= MAX_RECORD_SIZE,
    ensures
        parse_timeline_event(timeline_event_bytes(e)) == Some(e),
{
    let b = timeline_event_bytes(e);
    lemma_fixed_widths(e.event_id, 0);
    lemma_fixed_widths(e.consultation_id, 0);
    lemma_fixed_widths(e.timestamp, 0);
    let p3 = 16int + str_field(e.description).len();
    assert(b.subrange(0, 8) =~= u64_field(e.event_id));
    assert(b.subrange(8, 16) =~= u64_field(e.consultation_id));
    assert(b.subrange(16, p3) =~= str_field(e.description));
    assert(b.subrange(p3, p3 + 8) =~= u64_field(e.timestamp));
    lemma_parse_u64(b, 0, e.event_id);
    lemma_parse_u64(b, 8, e.consultation_id);
    lemma_parse_str(b, 16, e.description);
    lemma_parse_u64(b, p3, e.timestamp);
}

impl TimelineEvent {
    /// The encoding of a timeline event, or `None` where it would exceed the record bound.
    pub fn encode(&self) -> (r: Option<Vec<u8>>)
        ensures
            r is Some <==> timeline_event_bytes(self@).len() <= MAX_RECORD_SIZE,
            r matches Some(b) ==> b@ == timeline_event_bytes(self@),
    {
        proof {
            lemma_fixed_widths(self.event_id, 0);
            lemma_fixed_widths(self.consultation_id, 0);
            lemma_fixed_widths(self.timestamp, 0);
        }
        let text = utf8_bytes(&self.description);
        proof {
            lemma_bytes_field_len(text@);
        }
        if text.len() > MAX_RECORD_SIZE - 28 {
            return None;
        }
        let mut out: Vec<u8> = Vec::new();
        put_u64(&mut out, self.event_id);
        put_u64(&mut out, self.consultation_id);
        put_bytes(&mut out, &text);
        put_u64(&mut out, self.timestamp);
        Some(out)
    }

    /// Reads a timeline event back from its encoding.
    pub fn decode(b: &Vec<u8>) -> (r: Option<TimelineEvent>)
        ensures
            r is Some <==> parse_timeline_event(b@) is Some,
            r matches Some(e) ==> parse_timeline_event(b@) == Some(e@),
    {
        let (event_id, p1) = match read_u64(b, 0) {
            Some(x) => x,
            None => return None,
        };
        let (consultation_id, p2) = match read_u64(b, p1) {
            Some(x) => x,
            None => return None,
        };
        let (description, p3) = match read_str(b, p2) {
            Some(x) => x,
            None => return None,
        };
        let (timestamp, p4) = match read_u64(b, p3) {
            Some(x) => x,
            None => return None,
        };
        if p4 != b.len() {
            return None;
        }
        Some(TimelineEvent { event_id, consultation_id, description, timestamp })
    }
}

} // verus!
