//! The store: the identifier counter and the four collections, each in its own
//! partition, with the operations of the domain.

use crate::model::{
    add_advisor_step, authorize, close_step, collect_feedback_step, delete_step, gate,
    ids_bounded, initiate_step, records_fit, is_blank, keyed_by_id, mark_completed_step, put_advisor,
    put_consultation, record_event_step, set_availability_step, update_advisor_step,
    update_consultation_step, Error, RecordKind, StoreView, UpdateView, Violations,
};
use crate::codec::MAX_RECORD_SIZE;
use crate::records::{
    advisor_bytes, consultation_bytes, feedback_bytes, timeline_event_bytes,
    lemma_advisor_round_trip, lemma_consultation_round_trip, lemma_feedback_round_trip,
    lemma_timeline_event_round_trip, parse_advisor, parse_consultation, parse_feedback,
    parse_timeline_event, Advisor, Consultation, Feedback, TimelineEvent,
};
use crate::storage::{cell_partition, cell_value, map_entries, map_partition, DurableCell, MemoryRegion, RecordMap};
use vstd::prelude::*;

verus! {

/// The partition of the identifier counter.
pub const COUNTER_PARTITION: u8 = 0;
/// The partition of the consultations.
pub const CONSULTATION_PARTITION: u8 = 1;
/// The partition of the advisors.
pub const ADVISOR_PARTITION: u8 = 2;
/// The partition of the feedback records.
pub const FEEDBACK_PARTITION: u8 = 3;
/// The partition of the timeline events.
pub const TIMELINE_PARTITION: u8 = 4;

/// A record type kept in a `RecordMap` under its own identifier.
pub trait StoredRecord: Sized + View {
    /// The record that the bytes encode, if they encode one.
    spec fn parse(b: Seq<u8>) -> Option<Self::V>;

    /// The identifier the record is stored under.
    spec fn key(v: Self::V) -> u64;

    fn from_stored(b: &Vec<u8>) -> (r: Option<Self>)
        ensures
            r is Some <==> Self::parse(b@) is Some,
            r matches Some(x) ==> Self::parse(b@) == Some(x@),
    ;

    fn stored_key(&self) -> (r: u64)
        ensures
            r == Self::key(self@),
    ;

    /// Whether the record's encoding fits in `MAX_RECORD_SIZE` bytes.
    spec fn fits(v: Self::V) -> bool;

    fn fits_bound(&self) -> (r: bool)
        ensures
            r == Self::fits(self@),
    ;

    /// The value the collection is searched by.
    spec fn tag(v: Self::V) -> u64;

    fn stored_tag(&self) -> (r: u64)
        ensures
            r == Self::tag(self@),
    ;
}

impl StoredRecord for Advisor {
    open spec fn parse(b: Seq<u8>) -> Option<Self::V> {
        parse_advisor(b)
    }

    open spec fn key(v: Self::V) -> u64 {
        v.id
    }

    fn from_stored(b: &Vec<u8>) -> (r: Option<Self>) {
        Advisor::decode(b)
    }

    open spec fn fits(v: Self::V) -> bool {
        advisor_bytes(v).len() <= MAX_RECORD_SIZE
    }

    fn fits_bound(&self) -> (r: bool) {
        self.encode().is_some()
    }

    fn stored_key(&self) -> (r: u64) {
        self.id
    }

    open spec fn tag(v: Self::V) -> u64 {
        v.id
    }

    fn stored_tag(&self) -> (r: u64) {
        self.id
    }
}

impl StoredRecord for Consultation {
    open spec fn parse(b: Seq<u8>) -> Option<Self::V> {
        parse_consultation(b)
    }

    open spec fn key(v: Self::V) -> u64 {
        v.id
    }

    fn from_stored(b: &Vec<u8>) -> (r: Option<Self>) {
        Consultation::decode(b)
    }

    open spec fn fits(v: Self::V) -> bool {
        consultation_bytes(v).len() <= MAX_RECORD_SIZE
    }

    fn fits_bound(&self) -> (r: bool) {
        self.encode().is_some()
    }

    fn stored_key(&self) -> (r: u64) {
        self.id
    }

    open spec fn tag(v: Self::V) -> u64 {
        v.user_id
    }

    fn stored_tag(&self) -> (r: u64) {
        self.user_id
    }
}

impl StoredRecord for Feedback {
    open spec fn parse(b: Seq<u8>) -> Option<Self::V> {
        parse_feedback(b)
    }

    open spec fn key(v: Self::V) -> u64 {
        v.id
    }

    fn from_stored(b: &Vec<u8>) -> (r: Option<Self>) {
        Feedback::decode(b)
    }

    open spec fn fits(v: Self::V) -> bool {
        feedback_bytes(v).len() <= MAX_RECORD_SIZE
    }

    fn fits_bound(&self) -> (r: bool) {
        self.encode().is_some()
    }

    fn stored_key(&self) -> (r: u64) {
        self.id
    }

    open spec fn tag(v: Self::V) -> u64 {
        v.consultation_id
    }

    fn stored_tag(&self) -> (r: u64) {
        self.consultation_id
    }
}

impl StoredRecord for TimelineEvent {
    open spec fn parse(b: Seq<u8>) -> Option<Self::V> {
        parse_timeline_event(b)
    }

    open spec fn key(v: Self::V) -> u64 {
        v.event_id
    }

    fn from_stored(b: &Vec<u8>) -> (r: Option<Self>) {
        TimelineEvent::decode(b)
    }

    open spec fn fits(v: Self::V) -> bool {
        timeline_event_bytes(v).len() <= MAX_RECORD_SIZE
    }

    fn fits_bound(&self) -> (r: bool) {
        self.encode().is_some()
    }

    fn stored_key(&self) -> (r: u64) {
        self.event_id
    }

    open spec fn tag(v: Self::V) -> u64 {
        v.consultation_id
    }

    fn stored_tag(&self) -> (r: u64) {
        self.consultation_id
    }
}

/// The records that the stored bytes encode.
pub open spec fn decoded<R: StoredRecord>(m: Map<u64, Seq<u8>>) -> Map<u64, R::V> {
    Map::new(|k: u64| m.contains_key(k), |k: u64| R::parse(m[k])->Some_0)
}

/// Every stored entry decodes to a record whose identifier is its key, and no
/// key is above `last`.
pub open spec fn all_decode<R: StoredRecord>(m: Map<u64, Seq<u8>>, last: u64) -> bool {
    forall|k: u64|
        #[trigger] m.contains_key(k) ==> {
            &&& R::parse(m[k]) is Some
            &&& R::key(R::parse(m[k])->Some_0) == k
            &&& R::fits(R::parse(m[k])->Some_0)
            &&& k <= last
        }
}

proof fn lemma_store_entry<R: StoredRecord>(m: Map<u64, Seq<u8>>, last: u64, k: u64, b: Seq<u8>, v: R::V)
    requires
        all_decode::<R>(m, last),
        R::parse(b) == Some(v),
        R::key(v) == k,
        R::fits(v),
        k <= last,
    ensures
        all_decode::<R>(m.insert(k, b), last),
        decoded::<R>(m.insert(k, b)) == decoded::<R>(m).insert(k, v),
{
    assert(decoded::<R>(m.insert(k, b)) =~= decoded::<R>(m).insert(k, v));
}

proof fn lemma_drop_entry<R: StoredRecord>(m: Map<u64, Seq<u8>>, last: u64, k: u64)
    requires
        all_decode::<R>(m, last),
    ensures
        all_decode::<R>(m.remove(k), last),
        decoded::<R>(m.remove(k)) == decoded::<R>(m).remove(k),
{
    assert(decoded::<R>(m.remove(k)) =~= decoded::<R>(m).remove(k));
}

proof fn lemma_raise_last<R: StoredRecord>(m: Map<u64, Seq<u8>>, last: u64, next: u64)
    requires
        all_decode::<R>(m, last),
        last <= next,
    ensures
        all_decode::<R>(m, next),
{
}

/// Whether every entry of the map decodes to a record stored under its own
/// identifier, with no identifier above `last`.
fn check_map<R: StoredRecord>(m: &RecordMap, last: u64) -> (r: bool)
    ensures
        r == all_decode::<R>(map_entries(*m), last),
{
    let entries = m.entries();
    let ghost em = map_entries(*m);
    let mut i: usize = 0;
    while i < entries.len()
        invariant
            em == map_entries(*m),
            i <= entries@.len(),
            forall|j: int|
                0 <= j < entries@.len() ==> {
                    &&& em.contains_key(#[trigger] entries@[j].0)
                    &&& em[entries@[j].0] == entries@[j].1@
                },
            forall|k: u64| em.contains_key(k) ==> exists|j: int| 0 <= j < entries@.len() && #[trigger] entries@[j].0 == k,
            forall|j: int|
                0 <= j < i ==> {
                    let k = #[trigger] entries@[j].0;
                    &&& R::parse(em[k]) is Some
                    &&& R::key(R::parse(em[k])->Some_0) == k
                    &&& R::fits(R::parse(em[k])->Some_0)
                    &&& k <= last
                },
        decreases entries.len() - i,
    {
        let k = entries[i].0;
        match R::from_stored(&entries[i].1) {
            None => {
                assert(em.contains_key(k));
                return false;
            },
            Some(rec) => {
                if rec.stored_key() != k || !rec.fits_bound() || k > last {
                    assert(em.contains_key(k));
                    return false;
                }
            },
        }
        i = i + 1;
    }
    assert forall|k: u64| em.contains_key(k) implies {
        &&& R::parse(em[k]) is Some
        &&& R::key(R::parse(em[k])->Some_0) == k
        &&& R::fits(R::parse(em[k])->Some_0)
        &&& k <= last
    } by {
        let j = choose|j: int| 0 <= j < entries@.len() && #[trigger] entries@[j].0 == k;
        assert(entries@[j].0 == k);
    }
    true
}

/// The records of the map in the order of their identifiers, all of them or
/// those with the given tag.
fn collect<R: StoredRecord>(m: &RecordMap, last: Ghost<u64>, tag: Option<u64>) -> (r: Vec<R>)
    requires
        all_decode::<R>(map_entries(*m), last@),
    ensures
        forall|i: int, j: int| 0 <= i < j < r@.len() ==> R::key(r@[i]@) < R::key(r@[j]@),
        forall|i: int|
            0 <= i < r@.len() ==> {
                &&& decoded::<R>(map_entries(*m)).contains_key(R::key(#[trigger] r@[i]@))
                &&& decoded::<R>(map_entries(*m))[R::key(r@[i]@)] == r@[i]@
                &&& (tag matches Some(t) ==> R::tag(r@[i]@) == t)
            },
        forall|k: u64|
            decoded::<R>(map_entries(*m)).contains_key(k) && (tag matches Some(t) ==> R::tag(
                decoded::<R>(map_entries(*m))[k],
            ) == t) ==> exists|i: int| 0 <= i < r@.len() && R::key(#[trigger] r@[i]@) == k,
{
    let entries = m.entries();
    let ghost em = map_entries(*m);
    let ghost dm = decoded::<R>(em);
    let ghost es = entries@;
    let mut out: Vec<R> = Vec::new();
    let mut i: usize = 0;
    while i < entries.len()
        invariant
            es == entries@,
            em == map_entries(*m),
            dm == decoded::<R>(em),
            all_decode::<R>(em, last@),
            i <= es.len(),
            forall|a: int, b: int| 0 <= a < b < es.len() ==> es[a].0 < es[b].0,
            forall|j: int|
                0 <= j < es.len() ==> {
                    &&& em.contains_key(#[trigger] es[j].0)
                    &&& em[es[j].0] == es[j].1@
                },
            forall|a: int, b: int| 0 <= a < b < out@.len() ==> R::key(out@[a]@) < R::key(out@[b]@),
            forall|a: int, j: int|
                0 <= a < out@.len() && i <= j < es.len() ==> R::key(#[trigger] out@[a]@) < #[trigger] es[j].0,
            forall|a: int|
                0 <= a < out@.len() ==> {
                    &&& dm.contains_key(R::key(#[trigger] out@[a]@))
                    &&& dm[R::key(out@[a]@)] == out@[a]@
                    &&& (tag matches Some(t) ==> R::tag(out@[a]@) == t)
                },
            forall|j: int|
                0 <= j < i && (tag matches Some(t) ==> R::tag(dm[#[trigger] es[j].0]) == t) ==> exists|a: int|
                    0 <= a < out@.len() && R::key(#[trigger] out@[a]@) == es[j].0,
        decreases es.len() - i,
    {
        let k = entries[i].0;
        assert(em.contains_key(k));
        if let Some(rec) = R::from_stored(&entries[i].1) {
            let keep = match tag {
                Some(t) => rec.stored_tag() == t,
                None => true,
            };
            if keep {
                let ghost before = out@;
                out.push(rec);
                proof {
                    let n = before.len() as int;
                    assert(out@[n] == rec);
                    assert forall|j: int|
                        0 <= j < i + 1 && (tag matches Some(t) ==> R::tag(dm[#[trigger] es[j].0]) == t) implies exists|a: int|
                            0 <= a < out@.len() && R::key(#[trigger] out@[a]@) == es[j].0 by {
                        if j < i {
                            let a = choose|a: int| 0 <= a < before.len() && R::key(#[trigger] before[a]@) == es[j].0;
                            assert(out@[a] == before[a]);
                        } else {
                            assert(R::key(out@[n]@) == es[j].0);
                        }
                    }
                }
            }
        }
        i = i + 1;
    }
    proof {
        assert forall|k: u64|
            dm.contains_key(k) && (tag matches Some(t) ==> R::tag(dm[k]) == t) implies exists|a: int|
                0 <= a < out@.len() && R::key(#[trigger] out@[a]@) == k by {
            assert(em.contains_key(k));
            let j = choose|j: int| 0 <= j < es.len() && #[trigger] es[j].0 == k;
            assert(es[j].0 == k);
        }
    }
    out
}

/// The fields of a new or changed advisor.
pub struct AdvisorPayload {
    pub name: String,
    pub credentials: String,
    /// The rating, as the bit pattern of a single-precision float.
    pub rating: u32,
}

/// The fields of a new consultation.
pub struct ConsultationPayload {
    pub advisor_id: u64,
    pub user_id: u64,
    pub client_name: String,
    pub client_email: String,
    pub details: String,
}

/// The changes to a consultation; an absent field stays as it is.
pub struct ConsultationUpdate {
    pub advisor_id: Option<u64>,
    pub client_name: Option<String>,
    pub client_email: Option<String>,
    pub details: Option<String>,
    pub is_completed: Option<bool>,
}

pub open spec fn text_view(o: Option<String>) -> Option<Seq<char>> {
    match o {
        Some(s) => Some(s@),
        None => None,
    }
}

impl View for ConsultationUpdate {
    type V = UpdateView;

    open spec fn view(&self) -> UpdateView {
        UpdateView {
            advisor_id: self.advisor_id,
            client_name: text_view(self.client_name),
            client_email: text_view(self.client_email),
            details: text_view(self.details),
            is_completed: self.is_completed,
        }
    }
}

/// The result of an operation agrees with the result of its step.
pub open spec fn agrees<T: View>(r: Result<T, Error>, s: Result<T::V, Error>) -> bool {
    match r {
        Ok(x) => s == Ok::<T::V, Error>(x@),
        Err(e) => s == Err::<T::V, Error>(e),
    }
}

/// Whether two byte strings are equal.
pub fn same_bytes(a: &Vec<u8>, b: &Vec<u8>) -> (r: bool)
    ensures
        r == (a@ == b@),
{
    if a.len() != b.len() {
        return false;
    }
    let mut i: usize = 0;
    while i < a.len()
        invariant
            a@.len() == b@.len(),
            i <= a@.len(),
            forall|j: int| 0 <= j < i ==> a@[j] == b@[j],
        decreases a.len() - i,
    {
        if a[i] != b[i] {
            return false;
        }
        i = i + 1;
    }
    assert(a@ =~= b@);
    true
}

/// Whether a text is blank, where one is supplied.
fn is_supplied_blank(o: &Option<String>) -> (r: bool)
    ensures
        r == crate::model::supplied_blank(text_view(*o)),
{
    match o {
        Some(s) => is_blank(s),
        None => false,
    }
}

/// The persistent store of advisors, consultations, feedback and timeline
/// events.
pub struct Store {
    ids: DurableCell,
    consultations: RecordMap,
    advisors: RecordMap,
    feedback: RecordMap,
    timeline: RecordMap,
}

impl View for Store {
    type V = StoreView;

    closed spec fn view(&self) -> StoreView {
        StoreView {
            last_id: cell_value(self.ids),
            advisors: decoded::<Advisor>(map_entries(self.advisors)),
            consultations: decoded::<Consultation>(map_entries(self.consultations)),
            feedback: decoded::<Feedback>(map_entries(self.feedback)),
            timeline: decoded::<TimelineEvent>(map_entries(self.timeline)),
        }
    }
}

/// Puts `Ok(())` in the place of the value that a step hands back.
pub open spec fn unit_of<T>(r: Result<T, Error>) -> Result<(), Error> {
    match r {
        Ok(_) => Ok(()),
        Err(e) => Err(e),
    }
}

impl Store {
    /// Every stored record decodes and sits under its own identifier, and the
    /// counter is at or above every identifier in use.
    pub closed spec fn wf(&self) -> bool {
        let last = cell_value(self.ids);
        &&& all_decode::<Advisor>(map_entries(self.advisors), last)
        &&& all_decode::<Consultation>(map_entries(self.consultations), last)
        &&& all_decode::<Feedback>(map_entries(self.feedback), last)
        &&& all_decode::<TimelineEvent>(map_entries(self.timeline), last)
        &&& self.laid_out()
    }

    /// Each collection lives in the partition given to it.
    pub closed spec fn laid_out(&self) -> bool {
        &&& cell_partition(self.ids) == COUNTER_PARTITION
        &&& map_partition(self.consultations) == CONSULTATION_PARTITION
        &&& map_partition(self.advisors) == ADVISOR_PARTITION
        &&& map_partition(self.feedback) == FEEDBACK_PARTITION
        &&& map_partition(self.timeline) == TIMELINE_PARTITION
    }

    /// Opens the store kept in the platform's durable memory, starting with
    /// an empty store and a counter at zero where nothing is kept yet. Gives
    /// `None` where a stored record does not decode, sits under another
    /// identifier, is above the counter, or does not fit the record bound:
    /// the stored data is then corrupt.
    ///
    /// Open the store once per process: two stores opened on the same durable
    /// memory share their partitions, which their contracts do not account
    /// for.
    pub fn open() -> (r: Option<Store>)
        ensures
            r matches Some(s) ==> s.wf() && s.laid_out(),
    {
        let region = MemoryRegion::open();
        let ids = DurableCell::open(region.partition(COUNTER_PARTITION), 0);
        let consultations = RecordMap::open(region.partition(CONSULTATION_PARTITION));
        let advisors = RecordMap::open(region.partition(ADVISOR_PARTITION));
        let feedback = RecordMap::open(region.partition(FEEDBACK_PARTITION));
        let timeline = RecordMap::open(region.partition(TIMELINE_PARTITION));
        let last = ids.get();
        if check_map::<Advisor>(&advisors, last) && check_map::<Consultation>(&consultations, last)
            && check_map::<Feedback>(&feedback, last) && check_map::<TimelineEvent>(
            &timeline,
            last,
        ) {
            Some(Store { ids, consultations, advisors, feedback, timeline })
        } else {
            None
        }
    }

    /// In a well-formed store every record sits under its own identifier, no
    /// identifier is above the counter, and every record fits the bound.
    pub proof fn lemma_valid_view(&self)
        requires
            self.wf(),
        ensures
            ids_bounded(self@),
            keyed_by_id(self@),
            records_fit(self@),
    {
    }

    /// The last identifier handed out.
    pub fn last_id(&self) -> (r: u64)
        ensures
            r == self@.last_id,
    {
        self.ids.get()
    }

    /// Hands out the next identifier: one more than the last.
    fn mint_id(&mut self) -> (r: u64)
        requires
            old(self).wf(),
            old(self)@.last_id < u64::MAX,
        ensures
            final(self).wf(),
            r == old(self)@.last_id + 1,
            final(self)@ == (StoreView { last_id: r, ..old(self)@ }),
    {
        let next = self.ids.get() + 1;
        self.ids.set(next);
        proof {
            let last = cell_value(old(self).ids);
            lemma_raise_last::<Advisor>(map_entries(self.advisors), last, next);
            lemma_raise_last::<Consultation>(map_entries(self.consultations), last, next);
            lemma_raise_last::<Feedback>(map_entries(self.feedback), last, next);
            lemma_raise_last::<TimelineEvent>(map_entries(self.timeline), last, next);
        }
        next
    }

    /// The consultation stored under the identifier, if any.
    pub fn _get_legal_consultation(&self, id: u64) -> (r: Option<Consultation>)
        requires
            self.wf(),
        ensures
            r is Some <==> self@.consultations.contains_key(id),
            r matches Some(c) ==> c@ == self@.consultations[id],
    {
        match self.consultations.get(id) {
            None => None,
            Some(b) => Consultation::decode(&b),
        }
    }

    fn load_advisor(&self, id: u64) -> (r: Option<Advisor>)
        requires
            self.wf(),
        ensures
            r is Some <==> self@.advisors.contains_key(id),
            r matches Some(a) ==> a@ == self@.advisors[id],
    {
        match self.advisors.get(id) {
            None => None,
            Some(b) => Advisor::decode(&b),
        }
    }

    /// Whether the caller may change consultations of the advisor.
    fn authorize(&self, caller: &Vec<u8>, advisor_id: u64) -> (r: Result<(), Error>)
        requires
            self.wf(),
        ensures
            r == authorize(self@, caller@, advisor_id),
    {
        match self.load_advisor(advisor_id) {
            None => Err(Error::NotFound { kind: RecordKind::Advisor, id: advisor_id }),
            Some(a) => if same_bytes(&a.owner, caller) {
                Ok(())
            } else {
                Err(Error::NotAuthorized { advisor_id })
            },
        }
    }

    /// The consultation, where it exists and the caller owns its advisor.
    fn gate(&self, caller: &Vec<u8>, id: u64) -> (r: Result<Consultation, Error>)
        requires
            self.wf(),
        ensures
            agrees(r, gate(self@, caller@, id)),
    {
        match self._get_legal_consultation(id) {
            None => Err(Error::NotFound { kind: RecordKind::Consultation, id }),
            Some(c) => match self.authorize(caller, c.advisor_id) {
                Err(e) => Err(e),
                Ok(()) => Ok(c),
            },
        }
    }

    /// Writes the consultation and hands it back, unless it is too large.
    fn put_consultation(&mut self, c: Consultation) -> (r: Result<Consultation, Error>)
        requires
            old(self).wf(),
            c.id <= old(self)@.last_id,
        ensures
            final(self).wf(),
            final(self)@ == put_consultation(old(self)@, c@).0,
            agrees(r, put_consultation(old(self)@, c@).1),
    {
        match self.do_insert_legal_consultation(&c) {
            Ok(()) => Ok(c),
            Err(e) => Err(e),
        }
    }

    /// Writes the advisor and hands it back, unless it is too large.
    fn put_advisor(&mut self, a: Advisor) -> (r: Result<Advisor, Error>)
        requires
            old(self).wf(),
            a.id <= old(self)@.last_id,
        ensures
            final(self).wf(),
            final(self)@ == put_advisor(old(self)@, a@).0,
            agrees(r, put_advisor(old(self)@, a@).1),
    {
        match self.save_advisor(&a) {
            Ok(()) => Ok(a),
            Err(e) => Err(e),
        }
    }

    // -----------------------------------------------------------------------
    // Advisors
    // -----------------------------------------------------------------------

    /// Adds an advisor owned by the caller, under a fresh identifier, and
    /// available. Both name and credentials must be non-blank.
    pub fn add_advisor(&mut self, caller: &Vec<u8>, payload: AdvisorPayload) -> (r: Result<Advisor, Error>)
        requires
            old(self).wf(),
            old(self)@.last_id < u64::MAX,
        ensures
            final(self).wf(),
            final(self)@ == add_advisor_step(old(self)@, caller@, payload.name@, payload.credentials@, payload.rating).0,
            agrees(r, add_advisor_step(old(self)@, caller@, payload.name@, payload.credentials@, payload.rating).1),
    {
        let v = Violations {
            name: is_blank(&payload.name),
            credentials: is_blank(&payload.credentials),
            client_name: false,
            client_email: false,
            details: false,
            too_large: false,
        };
        if v.is_any() {
            return Err(Error::InvalidPayload { violations: v });
        }
        let a = Advisor {
            id: self.ids.get() + 1,
            name: payload.name,
            credentials: payload.credentials,
            rating: payload.rating,
            owner: vstd::slice::slice_to_vec(caller.as_slice()),
            is_available: true,
        };
        match a.encode() {
            None => Err(Error::InvalidPayload { violations: Violations::too_large_only() }),
            Some(b) => {
                let id = self.mint_id();
                proof {
                    lemma_advisor_round_trip(a@);
                    lemma_store_entry::<Advisor>(map_entries(self.advisors), id, id, b@, a@);
                }
                self.advisors.insert(id, b);
                Ok(a)
            },
        }
    }

    /// Changes the name, credentials and rating of an advisor that the caller
    /// owns; its identifier, owner and availability stay.
    pub fn update_advisor(&mut self, caller: &Vec<u8>, id: u64, payload: AdvisorPayload) -> (r: Result<Advisor, Error>)
        requires
            old(self).wf(),
        ensures
            final(self).wf(),
            final(self)@ == update_advisor_step(old(self)@, caller@, id, payload.name@, payload.credentials@, payload.rating).0,
            agrees(r, update_advisor_step(old(self)@, caller@, id, payload.name@, payload.credentials@, payload.rating).1),
    {
        let current = match self.load_advisor(id) {
            None => return Err(Error::NotFound { kind: RecordKind::Advisor, id }),
            Some(a) => a,
        };
        if !same_bytes(&current.owner, caller) {
            return Err(Error::NotAuthorized { advisor_id: id });
        }
        let v = Violations {
            name: is_blank(&payload.name),
            credentials: is_blank(&payload.credentials),
            client_name: false,
            client_email: false,
            details: false,
            too_large: false,
        };
        if v.is_any() {
            return Err(Error::InvalidPayload { violations: v });
        }
        self.put_advisor(
            Advisor {
                id: current.id,
                name: payload.name,
                credentials: payload.credentials,
                rating: payload.rating,
                owner: current.owner,
                is_available: current.is_available,
            },
        )
    }

    /// Sets whether an advisor is available; anyone may do so.
    pub fn update_advisor_availability(&mut self, id: u64, available: bool) -> (r: Result<Advisor, Error>)
        requires
            old(self).wf(),
        ensures
            final(self).wf(),
            final(self)@ == set_availability_step(old(self)@, id, available).0,
            agrees(r, set_availability_step(old(self)@, id, available).1),
    {
        match self.load_advisor(id) {
            None => Err(Error::NotFound { kind: RecordKind::Advisor, id }),
            Some(a) => self.put_advisor(Advisor { is_available: available, ..a }),
        }
    }

    /// The advisor with the identifier.
    pub fn get_advisor(&self, id: u64) -> (r: Result<Advisor, Error>)
        requires
            self.wf(),
        ensures
            self@.advisors.contains_key(id) ==> (r matches Ok(a) && a@ == self@.advisors[id]),
            !self@.advisors.contains_key(id) ==> r == Err::<Advisor, Error>(
                Error::NotFound { kind: RecordKind::Advisor, id },
            ),
    {
        match self.load_advisor(id) {
            None => Err(Error::NotFound { kind: RecordKind::Advisor, id }),
            Some(a) => Ok(a),
        }
    }

    // -----------------------------------------------------------------------
    // Consultations
    // -----------------------------------------------------------------------

    /// The consultation with the identifier.
    pub fn get_consultation(&self, id: u64) -> (r: Result<Consultation, Error>)
        requires
            self.wf(),
        ensures
            self@.consultations.contains_key(id) ==> (r matches Ok(c) && c@ == self@.consultations[id]),
            !self@.consultations.contains_key(id) ==> r == Err::<Consultation, Error>(
                Error::NotFound { kind: RecordKind::Consultation, id },
            ),
    {
        match self._get_legal_consultation(id) {
            None => Err(Error::NotFound { kind: RecordKind::Consultation, id }),
            Some(c) => Ok(c),
        }
    }

    /// Opens a consultation with an advisor that the caller owns, under a
    /// fresh identifier, created at `now`, neither closed nor completed.
    pub fn initiate_consultation(&mut self, caller: &Vec<u8>, payload: ConsultationPayload, now: u64) -> (r: Result<Consultation, Error>)
        requires
            old(self).wf(),
            old(self)@.last_id < u64::MAX,
        ensures
            final(self).wf(),
            final(self)@ == initiate_step(old(self)@, caller@, payload.advisor_id, payload.user_id, payload.client_name@, payload.client_email@, payload.details@, now).0,
            agrees(r, initiate_step(old(self)@, caller@, payload.advisor_id, payload.user_id, payload.client_name@, payload.client_email@, payload.details@, now).1),
    {
        let v = Violations {
            name: false,
            credentials: false,
            client_name: is_blank(&payload.client_name),
            client_email: is_blank(&payload.client_email),
            details: is_blank(&payload.details),
            too_large: false,
        };
        if v.is_any() {
            return Err(Error::InvalidPayload { violations: v });
        }
        if let Err(e) = self.authorize(caller, payload.advisor_id) {
            return Err(e);
        }
        let c = Consultation {
            id: self.ids.get() + 1,
            advisor_id: payload.advisor_id,
            user_id: payload.user_id,
            client_name: payload.client_name,
            client_email: payload.client_email,
            details: payload.details,
            created_at: now,
            closed_at: None,
            is_completed: false,
        };
        match c.encode() {
            None => Err(Error::InvalidPayload { violations: Violations::too_large_only() }),
            Some(b) => {
                let id = self.mint_id();
                proof {
                    lemma_consultation_round_trip(c@);
                    lemma_store_entry::<Consultation>(map_entries(self.consultations), id, id, b@, c@);
                }
                self.consultations.insert(id, b);
                Ok(c)
            },
        }
    }

    /// Applies the supplied fields of the update to a consultation whose
    /// advisor the caller owns; where the advisor changes, the caller must own
    /// the new one too.
    pub fn update_consultation(&mut self, caller: &Vec<u8>, id: u64, update: ConsultationUpdate) -> (r: Result<Consultation, Error>)
        requires
            old(self).wf(),
        ensures
            final(self).wf(),
            final(self)@ == update_consultation_step(old(self)@, caller@, id, update@).0,
            agrees(r, update_consultation_step(old(self)@, caller@, id, update@).1),
    {
        if self._get_legal_consultation(id).is_none() {
            return Err(Error::NotFound { kind: RecordKind::Consultation, id });
        }
        let v = Violations {
            name: false,
            credentials: false,
            client_name: is_supplied_blank(&update.client_name),
            client_email: is_supplied_blank(&update.client_email),
            details: is_supplied_blank(&update.details),
            too_large: false,
        };
        if v.is_any() {
            return Err(Error::InvalidPayload { violations: v });
        }
        let c = match self.gate(caller, id) {
            Err(e) => return Err(e),
            Ok(c) => c,
        };
        if let Some(a) = update.advisor_id {
            if let Err(e) = self.authorize(caller, a) {
                return Err(e);
            }
        }
        let next = Consultation {
            id: c.id,
            advisor_id: match update.advisor_id {
                Some(a) => a,
                None => c.advisor_id,
            },
            user_id: c.user_id,
            client_name: match update.client_name {
                Some(x) => x,
                None => c.client_name,
            },
            client_email: match update.client_email {
                Some(x) => x,
                None => c.client_email,
            },
            details: match update.details {
                Some(x) => x,
                None => c.details,
            },
            created_at: c.created_at,
            closed_at: c.closed_at,
            is_completed: match update.is_completed {
                Some(x) => x,
                None => c.is_completed,
            },
        };
        self.put_consultation(next)
    }

    /// Marks a consultation, whose advisor the caller owns, as completed.
    pub fn mark_consultation_completed(&mut self, caller: &Vec<u8>, id: u64) -> (r: Result<Consultation, Error>)
        requires
            old(self).wf(),
        ensures
            final(self).wf(),
            final(self)@ == mark_completed_step(old(self)@, caller@, id).0,
            agrees(r, mark_completed_step(old(self)@, caller@, id).1),
    {
        match self.gate(caller, id) {
            Err(e) => Err(e),
            Ok(c) => self.put_consultation(Consultation { is_completed: true, ..c }),
        }
    }

    /// Closes a consultation, whose advisor the caller owns, at the time the
    /// caller gives. The time is taken as given: it is not checked against the
    /// creation time, and closing again replaces it.
    pub fn close_consultation(&mut self, caller: &Vec<u8>, id: u64, closed_at: u64) -> (r: Result<Consultation, Error>)
        requires
            old(self).wf(),
        ensures
            final(self).wf(),
            final(self)@ == close_step(old(self)@, caller@, id, closed_at).0,
            agrees(r, close_step(old(self)@, caller@, id, closed_at).1),
    {
        match self.gate(caller, id) {
            Err(e) => Err(e),
            Ok(c) => self.put_consultation(Consultation { closed_at: Some(closed_at), ..c }),
        }
    }

    /// Removes a consultation whose advisor the caller owns.
    pub fn delete_consultation(&mut self, caller: &Vec<u8>, id: u64) -> (r: Result<(), Error>)
        requires
            old(self).wf(),
        ensures
            final(self).wf(),
            (final(self)@, r) == delete_step(old(self)@, caller@, id),
    {
        match self.gate(caller, id) {
            Err(e) => Err(e),
            Ok(_) => {
                proof {
                    lemma_drop_entry::<Consultation>(map_entries(self.consultations), cell_value(self.ids), id);
                }
                self.consultations.remove(id);
                Ok(())
            },
        }
    }

    /// Writes the consultation under its identifier, unless its encoding is
    /// too large.
    pub fn do_insert_legal_consultation(&mut self, c: &Consultation) -> (r: Result<(), Error>)
        requires
            old(self).wf(),
            c.id <= old(self)@.last_id,
        ensures
            final(self).wf(),
            (final(self)@, r) == (put_consultation(old(self)@, c@).0, unit_of(put_consultation(old(self)@, c@).1)),
    {
        match c.encode() {
            None => Err(Error::InvalidPayload { violations: Violations::too_large_only() }),
            Some(b) => {
                proof {
                    lemma_consultation_round_trip(c@);
                    lemma_store_entry::<Consultation>(
                        map_entries(self.consultations),
                        cell_value(self.ids),
                        c.id,
                        b@,
                        c@,
                    );
                }
                self.consultations.insert(c.id, b);
                Ok(())
            },
        }
    }

    /// Writes the advisor under its identifier, unless its encoding is too
    /// large.
    fn save_advisor(&mut self, a: &Advisor) -> (r: Result<(), Error>)
        requires
            old(self).wf(),
            a.id <= old(self)@.last_id,
        ensures
            final(self).wf(),
            (final(self)@, r) == (put_advisor(old(self)@, a@).0, unit_of(put_advisor(old(self)@, a@).1)),
    {
        match a.encode() {
            None => Err(Error::InvalidPayload { violations: Violations::too_large_only() }),
            Some(b) => {
                proof {
                    lemma_advisor_round_trip(a@);
                    lemma_store_entry::<Advisor>(
                        map_entries(self.advisors),
                        cell_value(self.ids),
                        a.id,
                        b@,
                        a@,
                    );
                }
                self.advisors.insert(a.id, b);
                Ok(())
            },
        }
    }

    /// Every advisor, in the order of their identifiers.
    pub fn list_advisors(&self) -> (r: Vec<Advisor>)
        requires
            self.wf(),
        ensures
            forall|i: int, j: int| 0 <= i < j < r@.len() ==> r@[i].id < r@[j].id,
            forall|i: int|
                0 <= i < r@.len() ==> self@.advisors.contains_key(#[trigger] r@[i].id)
                    && self@.advisors[r@[i].id] == r@[i]@,
            forall|k: u64|
                self@.advisors.contains_key(k) ==> exists|i: int| 0 <= i < r@.len() && #[trigger] r@[i].id == k,
    {
        let r = collect::<Advisor>(&self.advisors, Ghost(cell_value(self.ids)), None);
        assert forall|i: int| 0 <= i < r@.len() implies self@.advisors.contains_key(#[trigger] r@[i].id)
            && self@.advisors[r@[i].id] == r@[i]@ by {
            assert(Advisor::key(r@[i]@) == r@[i].id);
        }
        assert forall|k: u64| self@.advisors.contains_key(k) implies exists|i: int| 0 <= i < r@.len() && #[trigger] r@[i].id == k by {
            let i = choose|i: int| 0 <= i < r@.len() && Advisor::key(#[trigger] r@[i]@) == k;
            assert(r@[i].id == k);
        }
        r
    }

    /// Every consultation, in the order of their identifiers.
    pub fn list_consultations(&self) -> (r: Vec<Consultation>)
        requires
            self.wf(),
        ensures
            forall|i: int, j: int| 0 <= i < j < r@.len() ==> r@[i].id < r@[j].id,
            forall|i: int|
                0 <= i < r@.len() ==> self@.consultations.contains_key(#[trigger] r@[i].id)
                    && self@.consultations[r@[i].id] == r@[i]@,
            forall|k: u64|
                self@.consultations.contains_key(k) ==> exists|i: int| 0 <= i < r@.len() && #[trigger] r@[i].id == k,
    {
        let r = collect::<Consultation>(&self.consultations, Ghost(cell_value(self.ids)), None);
        assert forall|i: int| 0 <= i < r@.len() implies self@.consultations.contains_key(#[trigger] r@[i].id)
            && self@.consultations[r@[i].id] == r@[i]@ by {
            assert(Consultation::key(r@[i]@) == r@[i].id);
        }
        assert forall|k: u64| self@.consultations.contains_key(k) implies exists|i: int| 0 <= i < r@.len() && #[trigger] r@[i].id == k by {
            let i = choose|i: int| 0 <= i < r@.len() && Consultation::key(#[trigger] r@[i]@) == k;
            assert(r@[i].id == k);
        }
        r
    }

    /// The consultations of the requester, in the order of their identifiers.
    pub fn search_consultations_by_user(&self, user_id: u64) -> (r: Vec<Consultation>)
        requires
            self.wf(),
        ensures
            forall|i: int, j: int| 0 <= i < j < r@.len() ==> r@[i].id < r@[j].id,
            forall|i: int|
                0 <= i < r@.len() ==> self@.consultations.contains_key(#[trigger] r@[i].id)
                    && self@.consultations[r@[i].id] == r@[i]@ && r@[i].user_id == user_id,
            forall|k: u64|
                self@.consultations.contains_key(k) && self@.consultations[k].user_id == user_id
                    ==> exists|i: int| 0 <= i < r@.len() && #[trigger] r@[i].id == k,
    {
        let r = collect::<Consultation>(&self.consultations, Ghost(cell_value(self.ids)), Some(user_id));
        assert forall|i: int| 0 <= i < r@.len() implies self@.consultations.contains_key(#[trigger] r@[i].id)
            && self@.consultations[r@[i].id] == r@[i]@ && r@[i].user_id == user_id by {
            assert(Consultation::key(r@[i]@) == r@[i].id);
        }
        assert forall|k: u64| self@.consultations.contains_key(k) && self@.consultations[k].user_id == user_id
            implies exists|i: int| 0 <= i < r@.len() && #[trigger] r@[i].id == k by {
            let i = choose|i: int| 0 <= i < r@.len() && Consultation::key(#[trigger] r@[i]@) == k;
            assert(r@[i].id == k);
        }
        r
    }

    // -----------------------------------------------------------------------
    // Feedback and timeline
    // -----------------------------------------------------------------------

    /// Records feedback on an existing consultation, under a fresh identifier
    /// from the shared counter; anyone may leave feedback.
    pub fn collect_feedback(&mut self, consultation_id: u64, text: String, now: u64) -> (r: Result<Feedback, Error>)
        requires
            old(self).wf(),
            old(self)@.last_id < u64::MAX,
        ensures
            final(self).wf(),
            final(self)@ == collect_feedback_step(old(self)@, consultation_id, text@, now).0,
            agrees(r, collect_feedback_step(old(self)@, consultation_id, text@, now).1),
    {
        if self._get_legal_consultation(consultation_id).is_none() {
            return Err(Error::NotFound { kind: RecordKind::Consultation, id: consultation_id });
        }
        let f = Feedback { id: self.ids.get() + 1, consultation_id, text, timestamp: now };
        match f.encode() {
            None => Err(Error::InvalidPayload { violations: Violations::too_large_only() }),
            Some(b) => {
                let id = self.mint_id();
                proof {
                    lemma_feedback_round_trip(f@);
                    lemma_store_entry::<Feedback>(map_entries(self.feedback), id, id, b@, f@);
                }
                self.feedback.insert(id, b);
                Ok(f)
            },
        }
    }

    /// Records an event in the history of an existing consultation, under a
    /// fresh identifier.
    pub fn record_timeline_event(&mut self, consultation_id: u64, description: String, now: u64) -> (r: Result<TimelineEvent, Error>)
        requires
            old(self).wf(),
            old(self)@.last_id < u64::MAX,
        ensures
            final(self).wf(),
            final(self)@ == record_event_step(old(self)@, consultation_id, description@, now).0,
            agrees(r, record_event_step(old(self)@, consultation_id, description@, now).1),
    {
        if self._get_legal_consultation(consultation_id).is_none() {
            return Err(Error::NotFound { kind: RecordKind::Consultation, id: consultation_id });
        }
        let e = TimelineEvent { event_id: self.ids.get() + 1, consultation_id, description, timestamp: now };
        match e.encode() {
            None => Err(Error::InvalidPayload { violations: Violations::too_large_only() }),
            Some(b) => {
                let id = self.mint_id();
                proof {
                    lemma_timeline_event_round_trip(e@);
                    lemma_store_entry::<TimelineEvent>(map_entries(self.timeline), id, id, b@, e@);
                }
                self.timeline.insert(id, b);
                Ok(e)
            },
        }
    }

    /// The events recorded for the consultation, in the order of their
    /// identifiers; `NotFound` where there are none, whether or not the
    /// consultation exists.
    pub fn track_consultation_timeline(&self, consultation_id: u64) -> (r: Result<Vec<TimelineEvent>, Error>)
        requires
            self.wf(),
        ensures
            (exists|k: u64| self@.timeline.contains_key(k) && #[trigger] self@.timeline[k].consultation_id == consultation_id)
                <==> r is Ok,
            r is Err ==> r == Err::<Vec<TimelineEvent>, Error>(Error::NotFound { kind: RecordKind::Timeline, id: consultation_id }),
            r matches Ok(v) ==> forall|i: int, j: int|
                0 <= i < j < v@.len() ==> v@[i].event_id < v@[j].event_id,
            r matches Ok(v) ==> forall|i: int|
                0 <= i < v@.len() ==> self@.timeline.contains_key(#[trigger] v@[i].event_id)
                    && self@.timeline[v@[i].event_id] == v@[i]@ && v@[i].consultation_id
                    == consultation_id,
            r matches Ok(v) ==> forall|k: u64|
                self@.timeline.contains_key(k) && self@.timeline[k].consultation_id == consultation_id
                    ==> exists|i: int| 0 <= i < v@.len() && #[trigger] v@[i].event_id == k,
    {
        let v = collect::<TimelineEvent>(&self.timeline, Ghost(cell_value(self.ids)), Some(consultation_id));
        assert forall|i: int, j: int| 0 <= i < j < v@.len() implies v@[i].event_id < v@[j].event_id by {
            assert(TimelineEvent::key(v@[i]@) < TimelineEvent::key(v@[j]@));
        }
        assert forall|i: int| 0 <= i < v@.len() implies self@.timeline.contains_key(#[trigger] v@[i].event_id)
            && self@.timeline[v@[i].event_id] == v@[i]@ && v@[i].consultation_id == consultation_id by {
            assert(TimelineEvent::key(v@[i]@) == v@[i].event_id);
        }
        if v.len() == 0 {
            proof {
                if exists|k: u64| self@.timeline.contains_key(k) && #[trigger] self@.timeline[k].consultation_id == consultation_id {
                    let k = choose|k: u64| self@.timeline.contains_key(k) && #[trigger] self@.timeline[k].consultation_id == consultation_id;
                    let i = choose|i: int| 0 <= i < v@.len() && #[trigger] v@[i].event_id == k;
                }
            }
            Err(Error::NotFound { kind: RecordKind::Timeline, id: consultation_id })
        } else {
            assert(self@.timeline[v@[0].event_id].consultation_id == consultation_id);
            let r: Result<Vec<TimelineEvent>, Error> = Ok(v);
            assert(r matches Ok(w) ==> forall|k: u64|
                self@.timeline.contains_key(k) && self@.timeline[k].consultation_id == consultation_id
                    ==> exists|i: int| 0 <= i < w@.len() && #[trigger] w@[i].event_id == k) by {
                assert forall|k: u64|
                    self@.timeline.contains_key(k) && self@.timeline[k].consultation_id == consultation_id
                        implies exists|i: int| 0 <= i < r->Ok_0@.len() && #[trigger] r->Ok_0@[i].event_id == k by {
                    let i = choose|i: int| 0 <= i < r->Ok_0@.len() && TimelineEvent::key(#[trigger] r->Ok_0@[i]@) == k;
                    assert(r->Ok_0@[i].event_id == k);
                }
            }
            r
        }
    }
}

} // verus!