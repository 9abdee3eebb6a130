//! The abstract state of the store, the validation rules, and what each
//! operation does to the state, as spec functions.

use crate::codec::MAX_RECORD_SIZE;
use crate::records::{
    advisor_bytes, consultation_bytes, feedback_bytes, timeline_event_bytes, AdvisorView,
    ConsultationView, FeedbackView, TimelineEventView,
};
use vstd::prelude::*;
use vstd::string::*;

verus! {

// ---------------------------------------------------------------------------
// Blank text
// ---------------------------------------------------------------------------

/// Whether a code point has the Unicode White_Space property, which is what
/// `char::is_whitespace` tests.
pub open spec fn white_code(u: u32) -> bool {
    (0x9 <= u <= 0xD) || u == 0x20 || u == 0x85 || u == 0xA0 || u == 0x1680 || (0x2000 <= u
        <= 0x200A) || u == 0x2028 || u == 0x2029 || u == 0x202F || u == 0x205F || u == 0x3000
}

pub open spec fn white(c: char) -> bool {
    white_code(c as u32)
}

/// A text that is empty once white space is trimmed from both ends.
pub open spec fn blank(s: Seq<char>) -> bool {
    forall|i: int| 0 <= i < s.len() ==> white(#[trigger] s[i])
}

/// Whether a character is white space.
pub fn is_white(c: char) -> (r: bool)
    ensures
        r == white(c),
{
    let u = c as u32;
    (0x9 <= u && u <= 0xD) || u == 0x20 || u == 0x85 || u == 0xA0 || u == 0x1680 || (0x2000 <= u
        && u <= 0x200A) || u == 0x2028 || u == 0x2029 || u == 0x202F || u == 0x205F || u == 0x3000
}

/// Whether the text is blank.
pub fn is_blank(s: &String) -> (r: bool)
    ensures
        r == blank(s@),
{
    let t = s.as_str();
    let n = t.unicode_len();
    let mut i: usize = 0;
    while i < n
        invariant
            n == s@.len(),
            t@ == s@,
            i <= n,
            forall|j: int| 0 <= j < i ==> white(#[trigger] s@[j]),
        decreases n - i,
    {
        if !is_white(t.get_char(i)) {
            return false;
        }
        i = i + 1;
    }
    true
}

// ---------------------------------------------------------------------------
// Errors
// ---------------------------------------------------------------------------

/// The rules a payload broke; every broken rule is reported.
#[derive(Clone, Copy, Debug, PartialEq, Eq, Structural)]
pub struct Violations {
    pub name: bool,
    pub credentials: bool,
    pub client_name: bool,
    pub client_email: bool,
    pub details: bool,
    /// The record would not fit in `MAX_RECORD_SIZE` bytes once encoded.
    pub too_large: bool,
}

impl Violations {
    pub open spec fn any(self) -> bool {
        self.name || self.credentials || self.client_name || self.client_email || self.details
            || self.too_large
    }

    pub open spec fn count(self) -> nat {
        (if self.name { 1nat } else { 0 }) + (if self.credentials { 1nat } else { 0 }) + (
        if self.client_name { 1nat } else { 0 }) + (if self.client_email { 1nat } else { 0 }) + (
        if self.details { 1nat } else { 0 }) + (if self.too_large { 1nat } else { 0 })
    }

    pub fn too_large_only() -> (r: Violations)
        ensures
            r == too_large(),
    {
        Violations {
            name: false,
            credentials: false,
            client_name: false,
            client_email: false,
            details: false,
            too_large: true,
        }
    }

    pub fn is_any(&self) -> (r: bool)
        ensures
            r == self.any(),
    {
        self.name || self.credentials || self.client_name || self.client_email || self.details
            || self.too_large
    }

    /// The messages of the broken rules, in field order.
    pub open spec fn message_list(self) -> Seq<Seq<char>> {
        (if self.name { seq!["name must not be empty"@] } else { Seq::empty() }) + (if self.credentials { seq!["credentials must not be empty"@] } else { Seq::empty() }) + (if self.client_name { seq!["client_name must not be empty"@] } else { Seq::empty() }) + (if self.client_email { seq!["client_email must not be empty"@] } else { Seq::empty() }) + (if self.details { seq!["details must not be empty"@] } else { Seq::empty() }) + (if self.too_large { seq!["record exceeds the maximum encoded size"@] } else { Seq::empty() })
    }

    /// One message for each broken rule, in field order.
    pub fn messages(&self) -> (r: Vec<String>)
        ensures
            r@.map_values(|m: String| m@) == self.message_list(),
            r@.len() == self.count(),
    {
        let mut r: Vec<String> = Vec::new();
        if self.name {
            r.push(String::from_str("name must not be empty"));
            proof {
                reveal_strlit("name must not be empty");
            }
        }
        if self.credentials {
            r.push(String::from_str("credentials must not be empty"));
            proof {
                reveal_strlit("credentials must not be empty");
            }
        }
        if self.client_name {
            r.push(String::from_str("client_name must not be empty"));
            proof {
                reveal_strlit("client_name must not be empty");
            }
        }
        if self.client_email {
            r.push(String::from_str("client_email must not be empty"));
            proof {
                reveal_strlit("client_email must not be empty");
            }
        }
        if self.details {
            r.push(String::from_str("details must not be empty"));
            proof {
                reveal_strlit("details must not be empty");
            }
        }
        if self.too_large {
            r.push(String::from_str("record exceeds the maximum encoded size"));
            proof {
                reveal_strlit("record exceeds the maximum encoded size");
            }
        }
        assert(r@.map_values(|m: String| m@) =~= self.message_list());
        r
    }
}

pub open spec fn no_violations() -> Violations {
    Violations {
        name: false,
        credentials: false,
        client_name: false,
        client_email: false,
        details: false,
        too_large: false,
    }
}

pub open spec fn too_large() -> Violations {
    Violations { too_large: true, ..no_violations() }
}

/// The collection a missing record was looked up in.
#[derive(Clone, Copy, Debug, PartialEq, Eq, Structural)]
pub enum RecordKind {
    Advisor,
    Consultation,
    Timeline,
}

#[derive(Clone, Copy, Debug, PartialEq, Eq, Structural)]
pub enum Error {
    /// No record of the kind has the identifier.
    NotFound { kind: RecordKind, id: u64 },
    /// The caller does not own the advisor.
    NotAuthorized { advisor_id: u64 },
    InvalidPayload { violations: Violations },
}

// ---------------------------------------------------------------------------
// The state of the store
// ---------------------------------------------------------------------------

pub struct StoreView {
    /// The last identifier handed out; the next one is one more.
    pub last_id: u64,
    pub advisors: Map<u64, AdvisorView>,
    pub consultations: Map<u64, ConsultationView>,
    pub feedback: Map<u64, FeedbackView>,
    pub timeline: Map<u64, TimelineEventView>,
}

/// No identifier in use is above the counter.
pub open spec fn ids_bounded(s: StoreView) -> bool {
    &&& forall|k: u64| #[trigger] s.advisors.contains_key(k) ==> k <= s.last_id
    &&& forall|k: u64| #[trigger] s.consultations.contains_key(k) ==> k <= s.last_id
    &&& forall|k: u64| #[trigger] s.feedback.contains_key(k) ==> k <= s.last_id
    &&& forall|k: u64| #[trigger] s.timeline.contains_key(k) ==> k <= s.last_id
}

/// Every record sits under its own identifier.
pub open spec fn keyed_by_id(s: StoreView) -> bool {
    &&& forall|k: u64| #[trigger] s.advisors.contains_key(k) ==> s.advisors[k].id == k
    &&& forall|k: u64| #[trigger] s.consultations.contains_key(k) ==> s.consultations[k].id == k
    &&& forall|k: u64| #[trigger] s.feedback.contains_key(k) ==> s.feedback[k].id == k
    &&& forall|k: u64| #[trigger] s.timeline.contains_key(k) ==> s.timeline[k].event_id == k
}

/// Every record's encoding fits in `MAX_RECORD_SIZE` bytes.
pub open spec fn records_fit(s: StoreView) -> bool {
    &&& forall|k: u64| #[trigger] s.advisors.contains_key(k) ==> advisor_bytes(s.advisors[k]).len() <= MAX_RECORD_SIZE
    &&& forall|k: u64| #[trigger] s.consultations.contains_key(k) ==> consultation_bytes(s.consultations[k]).len() <= MAX_RECORD_SIZE
    &&& forall|k: u64| #[trigger] s.feedback.contains_key(k) ==> feedback_bytes(s.feedback[k]).len() <= MAX_RECORD_SIZE
    &&& forall|k: u64| #[trigger] s.timeline.contains_key(k) ==> timeline_event_bytes(s.timeline[k]).len() <= MAX_RECORD_SIZE
}

/// The changes that a consultation update asks for; an absent field stays.
pub struct UpdateView {
    pub advisor_id: Option<u64>,
    pub client_name: Option<Seq<char>>,
    pub client_email: Option<Seq<char>>,
    pub details: Option<Seq<char>>,
    pub is_completed: Option<bool>,
}

pub open spec fn supplied_blank(o: Option<Seq<char>>) -> bool {
    o matches Some(s) && blank(s)
}

pub open spec fn advisor_violations(name: Seq<char>, credentials: Seq<char>) -> Violations {
    Violations { name: blank(name), credentials: blank(credentials), ..no_violations() }
}

pub open spec fn consultation_violations(
    client_name: Seq<char>,
    client_email: Seq<char>,
    details: Seq<char>,
) -> Violations {
    Violations {
        client_name: blank(client_name),
        client_email: blank(client_email),
        details: blank(details),
        ..no_violations()
    }
}

pub open spec fn update_violations(u: UpdateView) -> Violations {
    Violations {
        client_name: supplied_blank(u.client_name),
        client_email: supplied_blank(u.client_email),
        details: supplied_blank(u.details),
        ..no_violations()
    }
}

/// Whether the caller may change consultations of the advisor: the advisor
/// exists and the caller owns it.
pub open spec fn authorize(s: StoreView, caller: Seq<u8>, advisor_id: u64) -> Result<(), Error> {
    if !s.advisors.contains_key(advisor_id) {
        Err(Error::NotFound { kind: RecordKind::Advisor, id: advisor_id })
    } else if s.advisors[advisor_id].owner != caller {
        Err(Error::NotAuthorized { advisor_id })
    } else {
        Ok(())
    }
}

/// Writes a consultation under its identifier, unless it is too large.
pub open spec fn put_consultation(s: StoreView, c: ConsultationView) -> (StoreView, Result<ConsultationView, Error>) {
    if consultation_bytes(c).len() > MAX_RECORD_SIZE {
        (s, Err(Error::InvalidPayload { violations: too_large() }))
    } else {
        (StoreView { consultations: s.consultations.insert(c.id, c), ..s }, Ok(c))
    }
}

/// Writes an advisor under its identifier, unless it is too large.
pub open spec fn put_advisor(s: StoreView, a: AdvisorView) -> (StoreView, Result<AdvisorView, Error>) {
    if advisor_bytes(a).len() > MAX_RECORD_SIZE {
        (s, Err(Error::InvalidPayload { violations: too_large() }))
    } else {
        (StoreView { advisors: s.advisors.insert(a.id, a), ..s }, Ok(a))
    }
}

pub open spec fn add_advisor_step(
    s: StoreView,
    caller: Seq<u8>,
    name: Seq<char>,
    credentials: Seq<char>,
    rating: u32,
) -> (StoreView, Result<AdvisorView, Error>) {
    let v = advisor_violations(name, credentials);
    if v.any() {
        (s, Err(Error::InvalidPayload { violations: v }))
    } else {
        let a = AdvisorView {
            id: (s.last_id + 1) as u64,
            name,
            credentials,
            rating,
            owner: caller,
            is_available: true,
        };
        if advisor_bytes(a).len() > MAX_RECORD_SIZE {
            (s, Err(Error::InvalidPayload { violations: too_large() }))
        } else {
            put_advisor(StoreView { last_id: a.id, ..s }, a)
        }
    }
}

pub open spec fn update_advisor_step(
    s: StoreView,
    caller: Seq<u8>,
    id: u64,
    name: Seq<char>,
    credentials: Seq<char>,
    rating: u32,
) -> (StoreView, Result<AdvisorView, Error>) {
    if !s.advisors.contains_key(id) {
        (s, Err(Error::NotFound { kind: RecordKind::Advisor, id }))
    } else if s.advisors[id].owner != caller {
        (s, Err(Error::NotAuthorized { advisor_id: id }))
    } else if advisor_violations(name, credentials).any() {
        (s, Err(Error::InvalidPayload { violations: advisor_violations(name, credentials) }))
    } else {
        put_advisor(s, AdvisorView { name, credentials, rating, ..s.advisors[id] })
    }
}

pub open spec fn set_availability_step(s: StoreView, id: u64, available: bool) -> (StoreView, Result<AdvisorView, Error>) {
    if !s.advisors.contains_key(id) {
        (s, Err(Error::NotFound { kind: RecordKind::Advisor, id }))
    } else {
        put_advisor(s, AdvisorView { is_available: available, ..s.advisors[id] })
    }
}

pub open spec fn initiate_step(
    s: StoreView,
    caller: Seq<u8>,
    advisor_id: u64,
    user_id: u64,
    client_name: Seq<char>,
    client_email: Seq<char>,
    details: Seq<char>,
    now: u64,
) -> (StoreView, Result<ConsultationView, Error>) {
    let v = consultation_violations(client_name, client_email, details);
    if v.any() {
        (s, Err(Error::InvalidPayload { violations: v }))
    } else if authorize(s, caller, advisor_id) is Err {
        (s, Err(authorize(s, caller, advisor_id)->Err_0))
    } else {
        let c = ConsultationView {
            id: (s.last_id + 1) as u64,
            advisor_id,
            user_id,
            client_name,
            client_email,
            details,
            created_at: now,
            closed_at: None,
            is_completed: false,
        };
        if consultation_bytes(c).len() > MAX_RECORD_SIZE {
            (s, Err(Error::InvalidPayload { violations: too_large() }))
        } else {
            put_consultation(StoreView { last_id: c.id, ..s }, c)
        }
    }
}

/// The consultation with the supplied fields of the update applied.
pub open spec fn apply_update(c: ConsultationView, u: UpdateView) -> ConsultationView {
    ConsultationView {
        advisor_id: match u.advisor_id {
            Some(a) => a,
            None => c.advisor_id,
        },
        client_name: match u.client_name {
            Some(x) => x,
            None => c.client_name,
        },
        client_email: match u.client_email {
            Some(x) => x,
            None => c.client_email,
        },
        details: match u.details {
            Some(x) => x,
            None => c.details,
        },
        is_completed: match u.is_completed {
            Some(x) => x,
            None => c.is_completed,
        },
        ..c
    }
}

/// Looks up the consultation and checks that the caller owns its advisor.
pub open spec fn gate(s: StoreView, caller: Seq<u8>, id: u64) -> Result<ConsultationView, Error> {
    if !s.consultations.contains_key(id) {
        Err(Error::NotFound { kind: RecordKind::Consultation, id })
    } else if authorize(s, caller, s.consultations[id].advisor_id) is Err {
        Err(authorize(s, caller, s.consultations[id].advisor_id)->Err_0)
    } else {
        Ok(s.consultations[id])
    }
}

pub open spec fn update_consultation_step(s: StoreView, caller: Seq<u8>, id: u64, u: UpdateView) -> (StoreView, Result<ConsultationView, Error>) {
    if !s.consultations.contains_key(id) {
        (s, Err(Error::NotFound { kind: RecordKind::Consultation, id }))
    } else if update_violations(u).any() {
        (s, Err(Error::InvalidPayload { violations: update_violations(u) }))
    } else if gate(s, caller, id) is Err {
        (s, Err(gate(s, caller, id)->Err_0))
    } else if u.advisor_id matches Some(a) && authorize(s, caller, a) is Err {
        (s, Err(authorize(s, caller, u.advisor_id->Some_0)->Err_0))
    } else {
        put_consultation(s, apply_update(s.consultations[id], u))
    }
}

pub open spec fn mark_completed_step(s: StoreView, caller: Seq<u8>, id: u64) -> (StoreView, Result<ConsultationView, Error>) {
    match gate(s, caller, id) {
        Err(e) => (s, Err(e)),
        Ok(c) => put_consultation(s, ConsultationView { is_completed: true, ..c }),
    }
}

pub open spec fn close_step(s: StoreView, caller: Seq<u8>, id: u64, closed_at: u64) -> (StoreView, Result<ConsultationView, Error>) {
    match gate(s, caller, id) {
        Err(e) => (s, Err(e)),
        Ok(c) => put_consultation(s, ConsultationView { closed_at: Some(closed_at), ..c }),
    }
}

pub open spec fn delete_step(s: StoreView, caller: Seq<u8>, id: u64) -> (StoreView, Result<(), Error>) {
    match gate(s, caller, id) {
        Err(e) => (s, Err(e)),
        Ok(c) => (StoreView { consultations: s.consultations.remove(id), ..s }, Ok(())),
    }
}

pub open spec fn collect_feedback_step(s: StoreView, consultation_id: u64, text: Seq<char>, now: u64) -> (StoreView, Result<FeedbackView, Error>) {
    if !s.consultations.contains_key(consultation_id) {
        (s, Err(Error::NotFound { kind: RecordKind::Consultation, id: consultation_id }))
    } else {
        let f = FeedbackView { id: (s.last_id + 1) as u64, consultation_id, text, timestamp: now };
        if feedback_bytes(f).len() > MAX_RECORD_SIZE {
            (s, Err(Error::InvalidPayload { violations: too_large() }))
        } else {
            (StoreView { last_id: f.id, feedback: s.feedback.insert(f.id, f), ..s }, Ok(f))
        }
    }
}

pub open spec fn record_event_step(s: StoreView, consultation_id: u64, description: Seq<char>, now: u64) -> (StoreView, Result<TimelineEventView, Error>) {
    if !s.consultations.contains_key(consultation_id) {
        (s, Err(Error::NotFound { kind: RecordKind::Consultation, id: consultation_id }))
    } else {
        let e = TimelineEventView {
            event_id: (s.last_id + 1) as u64,
            consultation_id,
            description,
            timestamp: now,
        };
        if timeline_event_bytes(e).len() > MAX_RECORD_SIZE {
            (s, Err(Error::InvalidPayload { violations: too_large() }))
        } else {
            (StoreView { last_id: e.event_id, timeline: s.timeline.insert(e.event_id, e), ..s }, Ok(e))
        }
    }
}

} // verus!
