//! Absence requests: the request / approve / deny lifecycle that feeds the
//! attendance workflow's excusal state.

use vstd::prelude::*;
use vstd::string::StringExecFns;

use crate::auth::{authorized, check};
use crate::error::{forbids, Error};
use crate::event::{event_at, has_event};
use crate::store::Store;
use crate::util::{lemma_filter_push, lemma_take_step};

verus! {

/// Where a request stands. `Approved` and `Denied` are terminal.
#[derive(Clone, Copy, PartialEq, Eq, Structural, Debug)]
pub enum AbsenceRequestStatus {
    Pending,
    Approved,
    Denied,
}

/// One member's request to be excused from one event. At most one request
/// exists per (member, event) pair.
#[derive(Debug, PartialEq, Eq, Clone)]
pub struct AbsenceRequest {
    pub member: String,
    pub event: i32,
    pub reason: String,
    pub status: AbsenceRequestStatus,
}

impl AbsenceRequest {
    /// An equal request value.
    pub fn cloned(&self) -> (r: AbsenceRequest)
        ensures
            r == *self,
    {
        AbsenceRequest {
            member: self.member.clone(),
            event: self.event,
            reason: self.reason.clone(),
            status: self.status,
        }
    }
}

/// The request with its status decided.
pub open spec fn with_status(r: AbsenceRequest, status: AbsenceRequestStatus) -> AbsenceRequest {
    AbsenceRequest { member: r.member, event: r.event, reason: r.reason, status }
}

/// The request at index `i` is keyed by this (member, event) pair.
pub open spec fn req_key_at(
    reqs: Seq<AbsenceRequest>,
    i: int,
    member: Seq<char>,
    event: i32,
) -> bool {
    &&& 0 <= i < reqs.len()
    &&& reqs[i].member@ == member
    &&& reqs[i].event == event
}

/// Some request carries this (member, event) key.
pub open spec fn has_req(reqs: Seq<AbsenceRequest>, member: Seq<char>, event: i32) -> bool {
    exists|i: int| #[trigger] req_key_at(reqs, i, member, event)
}

/// The index of the request with this key (meaningful when keys are unique
/// and the key is present).
pub open spec fn req_index(reqs: Seq<AbsenceRequest>, member: Seq<char>, event: i32) -> int {
    choose|i: int| #[trigger] req_key_at(reqs, i, member, event)
}

/// The request with this key.
pub open spec fn req_at(reqs: Seq<AbsenceRequest>, member: Seq<char>, event: i32) -> AbsenceRequest {
    reqs[req_index(reqs, member, event)]
}

/// At most one request per (member, event) pair.
pub open spec fn unique_req_keys(reqs: Seq<AbsenceRequest>) -> bool {
    forall|i: int, j: int|
        0 <= i < j < reqs.len() ==> !((#[trigger] reqs[i]).member@ == (#[trigger] reqs[j]).member@
            && reqs[i].event == reqs[j].event)
}

/// The member is excused from the event by an approved request.
pub open spec fn has_approved_req(reqs: Seq<AbsenceRequest>, member: Seq<char>, event: i32) -> bool {
    exists|i: int|
        #[trigger] req_key_at(reqs, i, member, event) && reqs[i].status
            == AbsenceRequestStatus::Approved
}

/// With unique keys, any index whose request carries the key is the canonical
/// one.
pub proof fn lemma_req_index_is(reqs: Seq<AbsenceRequest>, member: Seq<char>, event: i32, k: int)
    requires
        unique_req_keys(reqs),
        req_key_at(reqs, k, member, event),
    ensures
        req_index(reqs, member, event) == k,
        has_req(reqs, member, event),
{
    assert(has_req(reqs, member, event));
    let j = req_index(reqs, member, event);
    assert(req_key_at(reqs, j, member, event));
    if j != k {
        assert(!(reqs[j].member@ == reqs[k].member@ && reqs[j].event == reqs[k].event));
    }
}

/// Replacing a request by one with the same key keeps the keys unique.
pub proof fn lemma_req_unique_after_update(reqs: Seq<AbsenceRequest>, k: int, q2: AbsenceRequest)
    requires
        unique_req_keys(reqs),
        0 <= k < reqs.len(),
        q2.member@ == reqs[k].member@,
        q2.event == reqs[k].event,
    ensures
        unique_req_keys(reqs.update(k, q2)),
{
}

/// Appending a request under a fresh key keeps the keys unique.
pub proof fn lemma_req_unique_after_push(reqs: Seq<AbsenceRequest>, q2: AbsenceRequest)
    requires
        unique_req_keys(reqs),
        !has_req(reqs, q2.member@, q2.event),
    ensures
        unique_req_keys(reqs.push(q2)),
{
    let reqs2 = reqs.push(q2);
    assert forall|i: int, j: int| 0 <= i < j < reqs2.len() implies !((#[trigger] reqs2[i]).member@
        == (#[trigger] reqs2[j]).member@ && reqs2[i].event == reqs2[j].event) by {
        if j == reqs.len() {
            assert(!req_key_at(reqs, i, q2.member@, q2.event));
        }
    }
}

/// Deciding a request is permitted exactly when the principal holds the
/// general `process-absence-requests` permission and the request exists and
/// is still pending.
pub open spec fn decide_req_allowed(
    s: Store,
    principal: Seq<char>,
    member: Seq<char>,
    event: i32,
) -> bool {
    &&& authorized(s.catalog, principal, "process-absence-requests"@, None)
    &&& has_req(s.absence_requests@, member, event)
    &&& req_at(s.absence_requests@, member, event).status == AbsenceRequestStatus::Pending
}

/// The request table after a decision.
pub open spec fn decide_req_next(
    reqs: Seq<AbsenceRequest>,
    member: Seq<char>,
    event: i32,
    status: AbsenceRequestStatus,
) -> Seq<AbsenceRequest> {
    reqs.update(req_index(reqs, member, event), with_status(req_at(reqs, member, event), status))
}

impl Store {
    /// Submit an absence request for an event. Fails with `BadRequest` when
    /// a request for this (member, event) already exists — at most one
    /// request ever exists per pair. On failure the store is untouched.
    pub fn submit_absence_request(&mut self, event_id: i32, member: &String, reason: &String) -> (r:
        Result<(), Error>)
        requires
            old(self).wf(),
        ensures
            final(self).wf(),
            final(self).only_requests_changed(*old(self)),
            r is Ok <==> !has_req(old(self).absence_requests@, member@, event_id),
            r is Ok ==> final(self).absence_requests@ == old(self).absence_requests@.push(
                (AbsenceRequest {
                    member: *member,
                    event: event_id,
                    reason: *reason,
                    status: AbsenceRequestStatus::Pending,
                }),
            ),
            r is Err ==> *final(self) == *old(self),
            r matches Err(e) ==> e is BadRequest,
    {
        match self.find_request(member, event_id) {
            Some(_) => Err(
                Error::BadRequest(
                    String::from_str("An absence request already exists for that member and event."),
                ),
            ),
            None => {
                let q2 = AbsenceRequest {
                    member: member.clone(),
                    event: event_id,
                    reason: reason.clone(),
                    status: AbsenceRequestStatus::Pending,
                };
                proof {
                    lemma_req_unique_after_push(self.absence_requests@, q2);
                }
                self.absence_requests.push(q2);
                Ok(())
            },
        }
    }

    /// The index of the absence request for this (member, event), when one
    /// exists.
    #[verifier::loop_isolation(false)]
    fn find_request(&self, member: &String, event: i32) -> (r: Option<usize>)
        requires
            unique_req_keys(self.absence_requests@),
        ensures
            match r {
                Some(k) => has_req(self.absence_requests@, member@, event) && k as int == req_index(
                    self.absence_requests@,
                    member@,
                    event,
                ),
                None => !has_req(self.absence_requests@, member@, event),
            },
    {
        let n = self.absence_requests.len();
        for i in 0..n
            invariant
                forall|k: int| 0 <= k < i ==> !req_key_at(self.absence_requests@, k, member@, event),
        {
            let q = &self.absence_requests[i];
            if q.event == event && q.member == *member {
                proof {
                    lemma_req_index_is(self.absence_requests@, member@, event, i as int);
                }
                return Some(i);
            }
        }
        proof {
            assert(!has_req(self.absence_requests@, member@, event)) by {
                if has_req(self.absence_requests@, member@, event) {
                    let j = req_index(self.absence_requests@, member@, event);
                    assert(req_key_at(self.absence_requests@, j, member@, event));
                }
            }
        }
        None
    }

    /// Decide a pending request. Shared by `approve` and `deny`.
    fn decide_absence_request(&mut self, event_id: i32, member: &String, principal: &String, approve: bool) -> (r:
        Result<(), Error>)
        requires
            old(self).wf(),
        ensures
            final(self).wf(),
            final(self).only_requests_changed(*old(self)),
            r is Ok <==> decide_req_allowed(*old(self), principal@, member@, event_id),
            r is Ok ==> final(self).absence_requests@ == decide_req_next(
                old(self).absence_requests@,
                member@,
                event_id,
                if approve {
                    AbsenceRequestStatus::Approved
                } else {
                    AbsenceRequestStatus::Denied
                },
            ),
            r is Err ==> *final(self) == *old(self),
            r matches Err(e) ==> if !authorized(
                old(self).catalog,
                principal@,
                "process-absence-requests"@,
                None,
            ) {
                forbids(e, "process-absence-requests"@)
            } else if !has_req(old(self).absence_requests@, member@, event_id) {
                e is NotFound
            } else {
                e is BadRequest
            },
    {
        let perm = String::from_str("process-absence-requests");
        if !check(&self.catalog, principal, &perm, None) {
            return Err(Error::Forbidden(perm));
        }
        let k = match self.find_request(member, event_id) {
            Some(k) => k,
            None => {
                return Err(
                    Error::NotFound(
                        String::from_str("No absence request for that member and event."),
                    ),
                );
            },
        };
        if !(self.absence_requests[k].status == AbsenceRequestStatus::Pending) {
            return Err(
                Error::BadRequest(String::from_str("That absence request was already decided.")),
            );
        }
        let status = if approve {
            AbsenceRequestStatus::Approved
        } else {
            AbsenceRequestStatus::Denied
        };
        proof {
            lemma_req_unique_after_update(
                self.absence_requests@,
                k as int,
                with_status(self.absence_requests@[k as int], status),
            );
        }
        self.absence_requests[k].status = status;
        Ok(())
    }

    /// Approve a pending absence request; the member is then excused.
    /// Requires general `process-absence-requests`; deciding an
    /// already-decided request fails with `BadRequest`. On failure the store
    /// is untouched.
    pub fn approve_absence_request(&mut self, event_id: i32, member: &String, principal: &String) -> (r:
        Result<(), Error>)
        requires
            old(self).wf(),
        ensures
            final(self).wf(),
            final(self).only_requests_changed(*old(self)),
            r is Ok <==> decide_req_allowed(*old(self), principal@, member@, event_id),
            r is Ok ==> final(self).absence_requests@ == decide_req_next(
                old(self).absence_requests@,
                member@,
                event_id,
                AbsenceRequestStatus::Approved,
            ),
            r is Err ==> *final(self) == *old(self),
            r matches Err(e) ==> if !authorized(
                old(self).catalog,
                principal@,
                "process-absence-requests"@,
                None,
            ) {
                forbids(e, "process-absence-requests"@)
            } else if !has_req(old(self).absence_requests@, member@, event_id) {
                e is NotFound
            } else {
                e is BadRequest
            },
    {
        self.decide_absence_request(event_id, member, principal, true)
    }

    /// Deny a pending absence request. Requires general
    /// `process-absence-requests`; deciding an already-decided request fails
    /// with `BadRequest`. On failure the store is untouched.
    pub fn deny_absence_request(&mut self, event_id: i32, member: &String, principal: &String) -> (r:
        Result<(), Error>)
        requires
            old(self).wf(),
        ensures
            final(self).wf(),
            final(self).only_requests_changed(*old(self)),
            r is Ok <==> decide_req_allowed(*old(self), principal@, member@, event_id),
            r is Ok ==> final(self).absence_requests@ == decide_req_next(
                old(self).absence_requests@,
                member@,
                event_id,
                AbsenceRequestStatus::Denied,
            ),
            r is Err ==> *final(self) == *old(self),
            r matches Err(e) ==> if !authorized(
                old(self).catalog,
                principal@,
                "process-absence-requests"@,
                None,
            ) {
                forbids(e, "process-absence-requests"@)
            } else if !has_req(old(self).absence_requests@, member@, event_id) {
                e is NotFound
            } else {
                e is BadRequest
            },
    {
        self.decide_absence_request(event_id, member, principal, false)
    }

    /// Whether the member is excused from the event: true exactly when an
    /// approved request exists for the pair.
    pub fn member_is_excused(&self, event_id: i32, member: &String) -> (r: bool)
        ensures
            r == has_approved_req(self.absence_requests@, member@, event_id),
    {
        self.has_approved_request(member, event_id)
    }

    /// The member's own absence request for an event, when one exists.
    pub fn get_absence_request(&self, event_id: i32, member: &String) -> (r: Result<
        AbsenceRequest,
        Error,
    >)
        requires
            self.wf(),
        ensures
            r is Ok <==> has_req(self.absence_requests@, member@, event_id),
            r matches Ok(q) ==> q == req_at(self.absence_requests@, member@, event_id),
            r matches Err(e) ==> e is NotFound,
    {
        match self.find_request(member, event_id) {
            Some(k) => Ok(self.absence_requests[k].cloned()),
            None => Err(
                Error::NotFound(String::from_str("No absence request for that member and event.")),
            ),
        }
    }

    /// All absence requests whose event belongs to the current semester, in
    /// stored order. Requires general `process-absence-requests`.
    #[verifier::loop_isolation(false)]
    pub fn get_absence_requests(&self, principal: &String) -> (r: Result<Vec<AbsenceRequest>, Error>)
        requires
            self.wf(),
        ensures
            r is Ok <==> authorized(self.catalog, principal@, "process-absence-requests"@, None),
            r matches Ok(v) ==> v@ == self.absence_requests@.filter(
                |q: AbsenceRequest|
                    has_event(self.events@, q.event) && event_at(self.events@, q.event).semester@
                        == self.current_semester@,
            ),
            r matches Err(e) ==> forbids(e, "process-absence-requests"@),
    {
        let perm = String::from_str("process-absence-requests");
        if !check(&self.catalog, principal, &perm, None) {
            return Err(Error::Forbidden(perm));
        }
        let ghost pred = |q: AbsenceRequest|
            has_event(self.events@, q.event) && event_at(self.events@, q.event).semester@
                == self.current_semester@;
        let mut rows: Vec<AbsenceRequest> = Vec::new();
        let n = self.absence_requests.len();
        for i in 0..n
            invariant
                rows@ == self.absence_requests@.take(i as int).filter(pred),
        {
            proof {
                lemma_take_step(self.absence_requests@, i as int);
                lemma_filter_push(
                    self.absence_requests@.take(i as int),
                    self.absence_requests@[i as int],
                    pred,
                );
            }
            let q = &self.absence_requests[i];
            match self.find_event(q.event) {
                Some(eidx) => {
                    if self.events[eidx].semester == self.current_semester {
                        rows.push(q.cloned());
                    }
                },
                None => {},
            }
        }
        proof {
            assert(self.absence_requests@.take(n as int) =~= self.absence_requests@);
        }
        Ok(rows)
    }
}

} // verus!
