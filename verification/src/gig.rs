//! Gig requests: the pending / dismissed / converted lifecycle of inbound
//! performance requests.

use vstd::prelude::*;
use vstd::string::StringExecFns;

use crate::auth::{authorized, check};
use crate::error::{forbids, Error};
use crate::event::{has_event, lemma_unique_event_after_push, NewEvent};
use crate::store::Store;
use crate::util::{lemma_filter_push, lemma_take_step};

verus! {

/// Where a request stands. `Pending` and `Dismissed` convert into each other;
/// `Converted` is terminal and reached only by creating an event.
#[derive(Clone, Copy, PartialEq, Eq, Structural, Debug)]
pub enum GigRequestStatus {
    Pending,
    Dismissed,
    Converted,
}

/// An inbound request for a performance. Once converted it records the id of
/// the first event created from it.
#[derive(Debug, PartialEq, Eq, Clone)]
pub struct GigRequest {
    pub id: i32,
    /// Submission time, seconds since the epoch.
    pub time: i64,
    /// The semester that was current when the request came in.
    pub semester: String,
    pub name: String,
    pub description: String,
    pub status: GigRequestStatus,
    pub event: Option<i32>,
}

/// The descriptive payload a submitter hands in.
#[derive(Debug, PartialEq, Eq, Clone)]
pub struct NewGigRequest {
    pub name: String,
    pub description: String,
}

impl GigRequest {
    /// An equal request value.
    pub fn cloned(&self) -> (r: GigRequest)
        ensures
            r == *self,
    {
        GigRequest {
            id: self.id,
            time: self.time,
            semester: self.semester.clone(),
            name: self.name.clone(),
            description: self.description.clone(),
            status: self.status,
            event: self.event,
        }
    }
}

/// The request with its status replaced.
pub open spec fn gig_with_status(g: GigRequest, status: GigRequestStatus) -> GigRequest {
    GigRequest {
        id: g.id,
        time: g.time,
        semester: g.semester,
        name: g.name,
        description: g.description,
        status,
        event: g.event,
    }
}

/// The request marked converted, recording the first created event.
pub open spec fn gig_converted(g: GigRequest, event_id: i32) -> GigRequest {
    GigRequest {
        id: g.id,
        time: g.time,
        semester: g.semester,
        name: g.name,
        description: g.description,
        status: GigRequestStatus::Converted,
        event: Some(event_id),
    }
}

/// Some request in the sequence carries this id.
pub open spec fn has_gig(gigs: Seq<GigRequest>, id: i32) -> bool {
    exists|i: int| 0 <= i < gigs.len() && (#[trigger] gigs[i]).id == id
}

/// The index of the request with this id (meaningful when ids are unique and
/// the id is present).
pub open spec fn gig_index(gigs: Seq<GigRequest>, id: i32) -> int {
    choose|i: int| 0 <= i < gigs.len() && (#[trigger] gigs[i]).id == id
}

/// The request with this id.
pub open spec fn gig_at(gigs: Seq<GigRequest>, id: i32) -> GigRequest {
    gigs[gig_index(gigs, id)]
}

/// No two requests share an id.
pub open spec fn unique_gig_ids(gigs: Seq<GigRequest>) -> bool {
    forall|i: int, j: int|
        0 <= i < j < gigs.len() ==> (#[trigger] gigs[i]).id != (#[trigger] gigs[j]).id
}

/// With unique ids, any index whose request carries the id is the canonical
/// one.
pub proof fn lemma_gig_index_is(gigs: Seq<GigRequest>, id: i32, k: int)
    requires
        unique_gig_ids(gigs),
        0 <= k < gigs.len(),
        gigs[k].id == id,
    ensures
        gig_index(gigs, id) == k,
        has_gig(gigs, id),
{
    assert(has_gig(gigs, id));
    let j = gig_index(gigs, id);
    if j != k {
        assert(gigs[j].id != gigs[k].id);
    }
}

/// Replacing a request by one with the same id keeps the ids unique.
pub proof fn lemma_unique_gig_after_update(gigs: Seq<GigRequest>, k: int, g2: GigRequest)
    requires
        unique_gig_ids(gigs),
        0 <= k < gigs.len(),
        g2.id == gigs[k].id,
    ensures
        unique_gig_ids(gigs.update(k, g2)),
{
}

/// Appending a request under a fresh id keeps the ids unique.
pub proof fn lemma_unique_gig_after_push(gigs: Seq<GigRequest>, g2: GigRequest)
    requires
        unique_gig_ids(gigs),
        !has_gig(gigs, g2.id),
    ensures
        unique_gig_ids(gigs.push(g2)),
{
    let gigs2 = gigs.push(g2);
    assert forall|i: int, j: int| 0 <= i < j < gigs2.len() implies (#[trigger] gigs2[i]).id != (
    #[trigger] gigs2[j]).id by {
        if j == gigs.len() && gigs2[i].id == g2.id {
            assert(0 <= i < gigs.len() && gigs[i].id == g2.id);
        }
    }
}

/// The requests come in ascending submission time.
pub open spec fn sorted_by_time(gigs: Seq<GigRequest>) -> bool {
    forall|i: int, j: int|
        0 <= i < j < gigs.len() ==> (#[trigger] gigs[i]).time <= (#[trigger] gigs[j]).time
}

/// Changing a request's status is permitted exactly when the principal
/// holds general `process-gig-requests`, the request exists, and it was not
/// converted: `Converted` is terminal.
pub open spec fn set_gig_status_allowed(s: Store, principal: Seq<char>, id: i32) -> bool {
    &&& authorized(s.catalog, principal, "process-gig-requests"@, None)
    &&& has_gig(s.gig_requests@, id)
    &&& gig_at(s.gig_requests@, id).status != GigRequestStatus::Converted
}

/// The request table after a status change.
pub open spec fn set_gig_status_next(
    gigs: Seq<GigRequest>,
    id: i32,
    status: GigRequestStatus,
) -> Seq<GigRequest> {
    gigs.update(gig_index(gigs, id), gig_with_status(gig_at(gigs, id), status))
}

/// Converting is permitted exactly when the principal holds general
/// `process-gig-requests` and the request exists and is still pending.
pub open spec fn convert_gig_allowed(s: Store, principal: Seq<char>, id: i32) -> bool {
    &&& authorized(s.catalog, principal, "process-gig-requests"@, None)
    &&& has_gig(s.gig_requests@, id)
    &&& gig_at(s.gig_requests@, id).status == GigRequestStatus::Pending
}

/// The request table after a conversion that created `event_id`.
pub open spec fn convert_gig_next(gigs: Seq<GigRequest>, id: i32, event_id: i32) -> Seq<
    GigRequest,
> {
    gigs.update(gig_index(gigs, id), gig_converted(gig_at(gigs, id), event_id))
}

/// A conversion succeeds at most once: afterwards the request stands
/// `Converted`, which is terminal, so neither another conversion nor a
/// dismissal or reopening is accepted for it.
pub proof fn lemma_convert_only_once(gigs: Seq<GigRequest>, id: i32, event_id: i32)
    requires
        unique_gig_ids(gigs),
        has_gig(gigs, id),
    ensures
        unique_gig_ids(convert_gig_next(gigs, id, event_id)),
        has_gig(convert_gig_next(gigs, id, event_id), id),
        gig_at(convert_gig_next(gigs, id, event_id), id).status == GigRequestStatus::Converted,
{
    let k = gig_index(gigs, id);
    assert(0 <= k < gigs.len() && gigs[k].id == id);
    let next = convert_gig_next(gigs, id, event_id);
    lemma_unique_gig_after_update(gigs, k, gig_converted(gigs[k], event_id));
    lemma_gig_index_is(next, id, k);
}

impl Store {
    /// The index of the gig request with this id, when one exists.
    #[verifier::loop_isolation(false)]
    fn find_gig(&self, id: i32) -> (r: Option<usize>)
        requires
            unique_gig_ids(self.gig_requests@),
        ensures
            match r {
                Some(k) => has_gig(self.gig_requests@, id) && k as int == gig_index(
                    self.gig_requests@,
                    id,
                ),
                None => !has_gig(self.gig_requests@, id),
            },
    {
        let n = self.gig_requests.len();
        for i in 0..n
            invariant
                forall|k: int| 0 <= k < i ==> (#[trigger] self.gig_requests@[k]).id != id,
        {
            if self.gig_requests[i].id == id {
                proof {
                    lemma_gig_index_is(self.gig_requests@, id, i as int);
                }
                return Some(i);
            }
        }
        proof {
            assert(!has_gig(self.gig_requests@, id)) by {
                if has_gig(self.gig_requests@, id) {
                    let j = choose|j: int|
                        0 <= j < self.gig_requests@.len() && (#[trigger] self.gig_requests@[j]).id
                            == id;
                    assert(self.gig_requests@[j].id != id);
                }
            }
        }
        None
    }

    /// Submit a new gig request, recorded pending under the current
    /// semester at the given submission time; returns the new id. Open to
    /// anyone. On failure the store is untouched.
    pub fn new_gig_request(&mut self, form: &NewGigRequest, time: i64) -> (r: Result<i32, Error>)
        requires
            old(self).wf(),
        ensures
            final(self).wf(),
            final(self).only_gigs_changed(*old(self)),
            r is Ok <==> old(self).next_id < i32::MAX,
            r matches Ok(id) ==> id == old(self).next_id && final(self).gig_requests@ == old(
                self,
            ).gig_requests@.push(
                (GigRequest {
                    id,
                    time,
                    semester: old(self).current_semester,
                    name: form.name,
                    description: form.description,
                    status: GigRequestStatus::Pending,
                    event: None,
                }),
            ) && final(self).next_id == old(self).next_id + 1,
            r is Err ==> *final(self) == *old(self),
            r matches Err(e) ==> e is ServerError,
    {
        if self.next_id == i32::MAX {
            return Err(Error::ServerError(String::from_str("The id space is exhausted.")));
        }
        let id = self.next_id;
        let g2 = GigRequest {
            id,
            time,
            semester: self.current_semester.clone(),
            name: form.name.clone(),
            description: form.description.clone(),
            status: GigRequestStatus::Pending,
            event: None,
        };
        proof {
            assert(!has_gig(self.gig_requests@, id)) by {
                if has_gig(self.gig_requests@, id) {
                    let k = choose|k: int|
                        0 <= k < self.gig_requests@.len() && (#[trigger] self.gig_requests@[k]).id
                            == id;
                    assert(self.gig_requests@[k].id < self.next_id);
                }
            }
            lemma_unique_gig_after_push(self.gig_requests@, g2);
        }
        self.gig_requests.push(g2);
        self.next_id = id + 1;
        Ok(id)
    }

    /// One gig request, for an officer holding general
    /// `process-gig-requests`.
    pub fn get_gig_request(&self, request_id: i32, principal: &String) -> (r: Result<
        GigRequest,
        Error,
    >)
        requires
            self.wf(),
        ensures
            r is Ok <==> (authorized(self.catalog, principal@, "process-gig-requests"@, None)
                && has_gig(self.gig_requests@, request_id)),
            r matches Ok(g) ==> g == gig_at(self.gig_requests@, request_id),
            r matches Err(e) ==> if !authorized(
                self.catalog,
                principal@,
                "process-gig-requests"@,
                None,
            ) {
                forbids(e, "process-gig-requests"@)
            } else {
                e is NotFound
            },
    {
        let perm = String::from_str("process-gig-requests");
        if !check(&self.catalog, principal, &perm, None) {
            return Err(Error::Forbidden(perm));
        }
        match self.find_gig(request_id) {
            Some(k) => Ok(self.gig_requests[k].cloned()),
            None => Err(Error::NotFound(String::from_str("No gig request with that id."))),
        }
    }

    /// The gig requests an officer reviews: all of them ever, in stored
    /// order, when `all` is set; otherwise those of the current semester
    /// together with the still pending ones of other semesters, ordered by
    /// submission time. Requires general `process-gig-requests`.
    #[verifier::loop_isolation(false)]
    pub fn get_gig_requests(&self, all: bool, principal: &String) -> (r: Result<
        Vec<GigRequest>,
        Error,
    >)
        requires
            self.wf(),
        ensures
            r is Ok <==> authorized(self.catalog, principal@, "process-gig-requests"@, None),
            r matches Ok(v) ==> if all {
                v@ == self.gig_requests@
            } else {
                sorted_by_time(v@) && v@.to_multiset() == self.gig_requests@.filter(
                    |g: GigRequest|
                        g.semester@ == self.current_semester@ || g.status
                            == GigRequestStatus::Pending,
                ).to_multiset()
            },
            r matches Err(e) ==> forbids(e, "process-gig-requests"@),
    {
        broadcast use vstd::seq_lib::group_to_multiset_ensures;

        let perm = String::from_str("process-gig-requests");
        if !check(&self.catalog, principal, &perm, None) {
            return Err(Error::Forbidden(perm));
        }
        let ghost pred = |g: GigRequest|
            g.semester@ == self.current_semester@ || g.status == GigRequestStatus::Pending;
        let mut rest: Vec<GigRequest> = Vec::new();
        let n = self.gig_requests.len();
        for i in 0..n
            invariant
                if all {
                    rest@ == self.gig_requests@.take(i as int)
                } else {
                    rest@ == self.gig_requests@.take(i as int).filter(pred)
                },
        {
            proof {
                lemma_take_step(self.gig_requests@, i as int);
                lemma_filter_push(self.gig_requests@.take(i as int), self.gig_requests@[i as int], pred);
            }
            let g = &self.gig_requests[i];
            if all || g.semester == self.current_semester || g.status == GigRequestStatus::Pending {
                rest.push(g.cloned());
            }
        }
        proof {
            assert(self.gig_requests@.take(n as int) =~= self.gig_requests@);
        }
        if all {
            return Ok(rest);
        }
        let ghost whole = rest@.to_multiset();
        let mut out: Vec<GigRequest> = Vec::new();
        while rest.len() > 0
            invariant
                sorted_by_time(out@),
                out@.to_multiset().add(rest@.to_multiset()) =~= whole,
                forall|a: int, b: int|
                    0 <= a < out@.len() && 0 <= b < rest@.len() ==> (#[trigger] out@[a]).time <= (
                    #[trigger] rest@[b]).time,
            decreases rest@.len(),
        {
            let mut mi: usize = 0;
            let m = rest.len();
            for k in 1..m
                invariant
                    0 <= mi < m,
                    m == rest@.len(),
                    forall|b: int|
                        0 <= b < k ==> rest@[mi as int].time <= (#[trigger] rest@[b]).time,
            {
                if rest[k].time < rest[mi].time {
                    mi = k;
                }
            }
            let x = rest.remove(mi);
            proof {
                assert(out@.push(x).to_multiset().add(rest@.to_multiset()) =~= whole);
            }
            out.push(x);
        }
        Ok(out)
    }

    /// Change the status of an unconverted request. Shared by `dismiss` and
    /// `reopen`.
    fn set_gig_status(&mut self, request_id: i32, status: GigRequestStatus, principal: &String) -> (r:
        Result<(), Error>)
        requires
            old(self).wf(),
            status != GigRequestStatus::Converted,
        ensures
            final(self).wf(),
            final(self).only_gigs_changed(*old(self)),
            final(self).next_id == old(self).next_id,
            r is Ok <==> set_gig_status_allowed(*old(self), principal@, request_id),
            r is Ok ==> final(self).gig_requests@ == set_gig_status_next(
                old(self).gig_requests@,
                request_id,
                status,
            ),
            r is Err ==> *final(self) == *old(self),
            r matches Err(e) ==> if !authorized(
                old(self).catalog,
                principal@,
                "process-gig-requests"@,
                None,
            ) {
                forbids(e, "process-gig-requests"@)
            } else if !has_gig(old(self).gig_requests@, request_id) {
                e is NotFound
            } else {
                e is BadRequest
            },
    {
        let perm = String::from_str("process-gig-requests");
        if !check(&self.catalog, principal, &perm, None) {
            return Err(Error::Forbidden(perm));
        }
        let k = match self.find_gig(request_id) {
            Some(k) => k,
            None => {
                return Err(Error::NotFound(String::from_str("No gig request with that id.")));
            },
        };
        if self.gig_requests[k].status == GigRequestStatus::Converted {
            return Err(
                Error::BadRequest(
                    String::from_str("A converted gig request cannot change status."),
                ),
            );
        }
        proof {
            lemma_unique_gig_after_update(
                self.gig_requests@,
                k as int,
                gig_with_status(self.gig_requests@[k as int], status),
            );
        }
        self.gig_requests[k].status = status;
        Ok(())
    }

    /// Dismiss a pending gig request. Requires general
    /// `process-gig-requests`; a converted request is rejected. On failure
    /// the store is untouched.
    pub fn dismiss_gig_request(&mut self, request_id: i32, principal: &String) -> (r: Result<
        (),
        Error,
    >)
        requires
            old(self).wf(),
        ensures
            final(self).wf(),
            final(self).only_gigs_changed(*old(self)),
            final(self).next_id == old(self).next_id,
            r is Ok <==> set_gig_status_allowed(*old(self), principal@, request_id),
            r is Ok ==> final(self).gig_requests@ == set_gig_status_next(
                old(self).gig_requests@,
                request_id,
                GigRequestStatus::Dismissed,
            ),
            r is Err ==> *final(self) == *old(self),
            r matches Err(e) ==> if !authorized(
                old(self).catalog,
                principal@,
                "process-gig-requests"@,
                None,
            ) {
                forbids(e, "process-gig-requests"@)
            } else if !has_gig(old(self).gig_requests@, request_id) {
                e is NotFound
            } else {
                e is BadRequest
            },
    {
        self.set_gig_status(request_id, GigRequestStatus::Dismissed, principal)
    }

    /// Reopen a dismissed gig request. Requires general
    /// `process-gig-requests`; a converted request is rejected. On failure
    /// the store is untouched.
    pub fn reopen_gig_request(&mut self, request_id: i32, principal: &String) -> (r: Result<
        (),
        Error,
    >)
        requires
            old(self).wf(),
        ensures
            final(self).wf(),
            final(self).only_gigs_changed(*old(self)),
            final(self).next_id == old(self).next_id,
            r is Ok <==> set_gig_status_allowed(*old(self), principal@, request_id),
            r is Ok ==> final(self).gig_requests@ == set_gig_status_next(
                old(self).gig_requests@,
                request_id,
                GigRequestStatus::Pending,
            ),
            r is Err ==> *final(self) == *old(self),
            r matches Err(e) ==> if !authorized(
                old(self).catalog,
                principal@,
                "process-gig-requests"@,
                None,
            ) {
                forbids(e, "process-gig-requests"@)
            } else if !has_gig(old(self).gig_requests@, request_id) {
                e is NotFound
            } else {
                e is BadRequest
            },
    {
        self.set_gig_status(request_id, GigRequestStatus::Pending, principal)
    }

    /// Create an event from a pending gig request: the event is created
    /// from the form and the request is marked converted, recording the new
    /// event's id — one atomic step. Requires general
    /// `process-gig-requests`; a dismissed or already-converted request
    /// fails with `BadRequest`. On failure the store is untouched.
    pub fn create_event_from_gig_request(
        &mut self,
        request_id: i32,
        form: &NewEvent,
        principal: &String,
    ) -> (r: Result<i32, Error>)
        requires
            old(self).wf(),
        ensures
            final(self).wf(),
            final(self).only_events_and_gigs_changed(*old(self)),
            r is Ok <==> (convert_gig_allowed(*old(self), principal@, request_id) && old(
                self,
            ).next_id < i32::MAX),
            r matches Ok(id) ==> id == old(self).next_id && final(self).events@ == old(
                self,
            ).events@.push(form.to_event_spec(id)) && final(self).gig_requests@ == convert_gig_next(
                old(self).gig_requests@,
                request_id,
                id,
            ) && final(self).next_id == old(self).next_id + 1,
            r is Err ==> *final(self) == *old(self),
            r matches Err(e) ==> if !authorized(
                old(self).catalog,
                principal@,
                "process-gig-requests"@,
                None,
            ) {
                forbids(e, "process-gig-requests"@)
            } else if !has_gig(old(self).gig_requests@, request_id) {
                e is NotFound
            } else if gig_at(old(self).gig_requests@, request_id).status
                != GigRequestStatus::Pending {
                e is BadRequest
            } else {
                e is ServerError
            },
    {
        let perm = String::from_str("process-gig-requests");
        if !check(&self.catalog, principal, &perm, None) {
            return Err(Error::Forbidden(perm));
        }
        let k = match self.find_gig(request_id) {
            Some(k) => k,
            None => {
                return Err(Error::NotFound(String::from_str("No gig request with that id.")));
            },
        };
        if !(self.gig_requests[k].status == GigRequestStatus::Pending) {
            return Err(
                Error::BadRequest(
                    String::from_str("The gig request must be pending to create an event for it."),
                ),
            );
        }
        if self.next_id == i32::MAX {
            return Err(Error::ServerError(String::from_str("The id space is exhausted.")));
        }
        let id = self.next_id;
        let e2 = form.to_event(id);
        proof {
            assert(!has_event(self.events@, id)) by {
                if has_event(self.events@, id) {
                    let j = choose|j: int|
                        0 <= j < self.events@.len() && (#[trigger] self.events@[j]).id == id;
                    assert(self.events@[j].id < self.next_id);
                }
            }
            lemma_unique_event_after_push(self.events@, e2);
            lemma_unique_gig_after_update(
                self.gig_requests@,
                k as int,
                gig_converted(self.gig_requests@[k as int], id),
            );
        }
        self.events.push(e2);
        self.gig_requests[k].status = GigRequestStatus::Converted;
        self.gig_requests[k].event = Some(id);
        self.next_id = id + 1;
        Ok(id)
    }
}

} // verus!
