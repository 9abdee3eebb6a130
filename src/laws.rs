//! Properties of the operations, stated over the steps of `model` and
//! proved.

use crate::codec::MAX_RECORD_SIZE;
use crate::model::{
    blank, gate, ids_bounded, keyed_by_id, records_fit, set_availability_step, add_advisor_step, close_step, consultation_violations, delete_step, initiate_step,
    mark_completed_step, update_consultation_step, update_violations, Error, RecordKind,
    StoreView, UpdateView,
};
use crate::records::{advisor_bytes, consultation_bytes, AdvisorView, ConsultationView};
use vstd::prelude::*;

verus! {

/// An operation that creates a record under a fresh identifier.
pub enum Creation {
    AddAdvisor { caller: Seq<u8>, name: Seq<char>, credentials: Seq<char>, rating: u32 },
    InitiateConsultation {
        caller: Seq<u8>,
        advisor_id: u64,
        user_id: u64,
        client_name: Seq<char>,
        client_email: Seq<char>,
        details: Seq<char>,
        now: u64,
    },
}

/// The state after the operation, and the identifier it handed out, if any.
pub open spec fn create(s: StoreView, op: Creation) -> (StoreView, Option<u64>) {
    match op {
        Creation::AddAdvisor { caller, name, credentials, rating } => {
            let (t, r) = add_advisor_step(s, caller, name, credentials, rating);
            (
                t,
                match r {
                    Ok(a) => Some(a.id),
                    Err(_) => None,
                },
            )
        },
        Creation::InitiateConsultation {
            caller,
            advisor_id,
            user_id,
            client_name,
            client_email,
            details,
            now,
        } => {
            let (t, r) = initiate_step(
                s,
                caller,
                advisor_id,
                user_id,
                client_name,
                client_email,
                details,
                now,
            );
            (
                t,
                match r {
                    Ok(c) => Some(c.id),
                    Err(_) => None,
                },
            )
        },
    }
}

/// The state after the operations in order, and the identifiers they handed
/// out, in order.
pub open spec fn create_all(s: StoreView, ops: Seq<Creation>) -> (StoreView, Seq<u64>)
    decreases ops.len(),
{
    if ops.len() == 0 {
        (s, Seq::empty())
    } else {
        let (t, ids) = create_all(s, ops.drop_last());
        let (u, id) = create(t, ops.last());
        (
            u,
            match id {
                Some(i) => ids.push(i),
                None => ids,
            },
        )
    }
}

/// One creation: the identifier it hands out is one above the counter, used
/// by no record yet, and becomes the counter.
pub proof fn lemma_creation_is_fresh(s: StoreView, op: Creation)
    requires
        ids_bounded(s),
        s.last_id < u64::MAX,
    ensures
        ids_bounded(create(s, op).0),
        create(s, op).0.last_id >= s.last_id,
        create(s, op).0.last_id <= s.last_id + 1,
        create(s, op).1 matches Some(id) ==> {
            &&& id == s.last_id + 1
            &&& create(s, op).0.last_id == id
            &&& !s.advisors.contains_key(id)
            &&& !s.consultations.contains_key(id)
            &&& !s.feedback.contains_key(id)
            &&& !s.timeline.contains_key(id)
        },
{
}

/// Over any sequence of advisor and consultation creations, the identifiers
/// handed out are strictly increasing, so no two are equal, and none was in
/// use before.
pub proof fn lemma_ids_strictly_increase(s: StoreView, ops: Seq<Creation>)
    requires
        ids_bounded(s),
        s.last_id + ops.len() < u64::MAX,
    ensures
        ids_bounded(create_all(s, ops).0),
        forall|i: int, j: int|
            0 <= i < j < create_all(s, ops).1.len() ==> create_all(s, ops).1[i] < create_all(
                s,
                ops,
            ).1[j],
        forall|i: int|
            0 <= i < create_all(s, ops).1.len() ==> s.last_id < #[trigger] create_all(s, ops).1[i]
                <= create_all(s, ops).0.last_id,
        create_all(s, ops).0.last_id <= s.last_id + ops.len(),
        create_all(s, ops).0.last_id >= s.last_id,
    decreases ops.len(),
{
    if ops.len() > 0 {
        lemma_ids_strictly_increase(s, ops.drop_last());
        let (t, ids) = create_all(s, ops.drop_last());
        lemma_creation_is_fresh(t, ops.last());
    }
}

/// A caller that does not own the advisor of a consultation can neither
/// mark, close, change nor delete it, nor open one with that advisor: each
/// attempt is refused as not authorized and leaves the store as it was.
pub proof fn lemma_foreign_caller_is_refused(
    s: StoreView,
    caller: Seq<u8>,
    id: u64,
    closed_at: u64,
    u: UpdateView,
    user_id: u64,
    client_name: Seq<char>,
    client_email: Seq<char>,
    details: Seq<char>,
    now: u64,
)
    requires
        s.consultations.contains_key(id),
        s.advisors.contains_key(s.consultations[id].advisor_id),
        s.advisors[s.consultations[id].advisor_id].owner != caller,
    ensures
        ({
            let refused = Err::<ConsultationView, Error>(
                Error::NotAuthorized { advisor_id: s.consultations[id].advisor_id },
            );
            &&& mark_completed_step(s, caller, id) == (s, refused)
            &&& close_step(s, caller, id, closed_at) == (s, refused)
            &&& delete_step(s, caller, id) == (s, Err::<(), Error>(
                Error::NotAuthorized { advisor_id: s.consultations[id].advisor_id },
            ))
            &&& !update_violations(u).any() ==> update_consultation_step(s, caller, id, u) == (
            s, refused)
            &&& !consultation_violations(client_name, client_email, details).any() ==> initiate_step(
                s,
                caller,
                s.consultations[id].advisor_id,
                user_id,
                client_name,
                client_email,
                details,
                now,
            ) == (s, refused)
        }),
{
}

/// Moving a consultation to an advisor that the caller does not own is
/// refused and leaves the store as it was.
pub proof fn lemma_foreign_target_is_refused(s: StoreView, caller: Seq<u8>, id: u64, u: UpdateView)
    requires
        (u.advisor_id matches Some(b) && s.advisors.contains_key(b) && s.advisors[b].owner
            != caller),
        !update_violations(u).any(),
    ensures
        update_consultation_step(s, caller, id, u).0 == s,
        (update_consultation_step(s, caller, id, u).1 is Err),
{
}

/// Marking a consultation completed twice leaves the store as marking it once.
pub proof fn lemma_mark_completed_idempotent(s: StoreView, caller: Seq<u8>, id: u64)
    requires
        keyed_by_id(s),
    ensures
        mark_completed_step(mark_completed_step(s, caller, id).0, caller, id).0
            == mark_completed_step(s, caller, id).0,
{
    let t = mark_completed_step(s, caller, id).0;
    if mark_completed_step(s, caller, id).1 is Ok {
        let c = ConsultationView { is_completed: true, ..s.consultations[id] };
        assert(t.consultations[id] == c);
        assert(ConsultationView { is_completed: true, ..c } == c);
        assert(t.consultations.insert(id, c) =~= t.consultations);
    }
}

/// Marking completed a consultation whose advisor the caller owns succeeds:
/// the flag does not change the size of the record.
pub proof fn lemma_mark_completed_succeeds(s: StoreView, caller: Seq<u8>, id: u64)
    requires
        records_fit(s),
        gate(s, caller, id) is Ok,
    ensures
        mark_completed_step(s, caller, id).1 == Ok::<ConsultationView, Error>(
            ConsultationView { is_completed: true, ..s.consultations[id] },
        ),
{
    let c = s.consultations[id];
    assert(consultation_bytes(ConsultationView { is_completed: true, ..c }).len()
        == consultation_bytes(c).len());
}

/// Setting the availability of an existing advisor succeeds: the flag does
/// not change the size of the record.
pub proof fn lemma_availability_succeeds(s: StoreView, id: u64, available: bool)
    requires
        records_fit(s),
        s.advisors.contains_key(id),
    ensures
        set_availability_step(s, id, available).1 == Ok::<AdvisorView, Error>(
            AdvisorView { is_available: available, ..s.advisors[id] },
        ),
{
    let a = s.advisors[id];
    assert(advisor_bytes(AdvisorView { is_available: available, ..a }).len()
        == advisor_bytes(a).len());
}

/// An update that supplies only the details changes the details of that
/// consultation and nothing else; where it fails, nothing changes. It
/// succeeds where the caller owns the consultation's advisor, the new details
/// are not blank, and the changed record fits the bound.
pub proof fn lemma_details_only_update(s: StoreView, caller: Seq<u8>, id: u64, details: Seq<char>)
    requires
        keyed_by_id(s),
    ensures
        ({
            let u = UpdateView {
                advisor_id: None,
                client_name: None,
                client_email: None,
                details: Some(details),
                is_completed: None,
            };
            let (t, r) = update_consultation_step(s, caller, id, u);
            let changed = ConsultationView { details, ..s.consultations[id] };
            &&& (gate(s, caller, id) is Ok && !blank(details) && consultation_bytes(changed).len()
                <= MAX_RECORD_SIZE) ==> r == Ok::<ConsultationView, Error>(changed)
            &&& r is Err ==> t == s
            &&& r is Ok ==> t == (StoreView {
                consultations: s.consultations.insert(
                    id,
                    ConsultationView { details, ..s.consultations[id] },
                ),
                ..s
            })
        }),
{
}

/// A deleted consultation is gone, and deleting it again finds nothing.
pub proof fn lemma_deleted_is_gone(s: StoreView, caller: Seq<u8>, id: u64)
    ensures
        delete_step(s, caller, id).1 is Ok ==> {
            &&& !delete_step(s, caller, id).0.consultations.contains_key(id)
            &&& delete_step(delete_step(s, caller, id).0, caller, id).1 == Err::<(), Error>(
                Error::NotFound { kind: RecordKind::Consultation, id },
            )
        },
{
}

} // verus!
