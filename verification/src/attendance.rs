//! Attendance records: the per-(member, event) RSVP / confirmation / excusal
//! state machine.

use vstd::prelude::*;
use vstd::string::StringExecFns;

use crate::auth::{authorized, check, check_own_section, own_section_authorized};
use crate::error::{forbids, Error};
use crate::event::{event_at, has_event, Event};
use crate::store::{is_active, section_of, ActiveSemester, Store};
use crate::util::{lemma_filter_push, lemma_take_step};

verus! {

/// The attendance state of one member at one event. A record is created
/// lazily on the member's first interaction with the event.
#[derive(Debug, PartialEq, Eq, Clone)]
pub struct Attendance {
    pub member: String,
    pub event: i32,
    /// The member's stated intent to attend, if they have responded.
    pub rsvp: Option<bool>,
    /// Whether the member affirmed attendance after a positive RSVP.
    pub confirmed: bool,
    /// Whether an absence was sanctioned, by approval or by a sweep.
    pub excused: bool,
    /// Whether the member was present.
    pub did_attend: bool,
}

/// An officer's mutation of the decided fields of a record.
#[derive(Debug, PartialEq, Eq, Clone)]
pub struct AttendanceForm {
    pub confirmed: bool,
    pub excused: bool,
    pub did_attend: bool,
}

impl Attendance {
    /// An equal attendance record.
    pub fn cloned(&self) -> (r: Attendance)
        ensures
            r == *self,
    {
        Attendance {
            member: self.member.clone(),
            event: self.event,
            rsvp: self.rsvp,
            confirmed: self.confirmed,
            excused: self.excused,
            did_attend: self.did_attend,
        }
    }
}

/// The record a member starts from: no response, nothing decided.
pub open spec fn default_attendance(member: String, event: i32) -> Attendance {
    Attendance { member, event, rsvp: None, confirmed: false, excused: false, did_attend: false }
}

/// The record with its RSVP overwritten.
pub open spec fn with_rsvp(a: Attendance, rsvp: Option<bool>) -> Attendance {
    Attendance {
        member: a.member,
        event: a.event,
        rsvp,
        confirmed: a.confirmed,
        excused: a.excused,
        did_attend: a.did_attend,
    }
}

/// The record once the member confirmed.
pub open spec fn with_confirmed(a: Attendance) -> Attendance {
    Attendance {
        member: a.member,
        event: a.event,
        rsvp: a.rsvp,
        confirmed: true,
        excused: a.excused,
        did_attend: a.did_attend,
    }
}

/// The record marked as an excused absence.
pub open spec fn with_excused(a: Attendance) -> Attendance {
    Attendance {
        member: a.member,
        event: a.event,
        rsvp: a.rsvp,
        confirmed: a.confirmed,
        excused: true,
        did_attend: a.did_attend,
    }
}

/// The record with the officer form applied to its decided fields.
pub open spec fn with_form(a: Attendance, form: AttendanceForm) -> Attendance {
    Attendance {
        member: a.member,
        event: a.event,
        rsvp: a.rsvp,
        confirmed: form.confirmed,
        excused: form.excused,
        did_attend: form.did_attend,
    }
}

/// The record at index `i` is keyed by this (member, event) pair.
pub open spec fn att_key_at(atts: Seq<Attendance>, i: int, member: Seq<char>, event: i32) -> bool {
    &&& 0 <= i < atts.len()
    &&& atts[i].member@ == member
    &&& atts[i].event == event
}

/// Some record carries this (member, event) key.
pub open spec fn has_att(atts: Seq<Attendance>, member: Seq<char>, event: i32) -> bool {
    exists|i: int| #[trigger] att_key_at(atts, i, member, event)
}

/// The index of the record with this key (meaningful when keys are unique and
/// the key is present).
pub open spec fn att_index(atts: Seq<Attendance>, member: Seq<char>, event: i32) -> int {
    choose|i: int| #[trigger] att_key_at(atts, i, member, event)
}

/// The record with this key.
pub open spec fn att_at(atts: Seq<Attendance>, member: Seq<char>, event: i32) -> Attendance {
    atts[att_index(atts, member, event)]
}

/// At most one record per (member, event) pair.
pub open spec fn unique_att_keys(atts: Seq<Attendance>) -> bool {
    forall|i: int, j: int|
        0 <= i < j < atts.len() ==> !((#[trigger] atts[i]).member@ == (#[trigger] atts[j]).member@
            && atts[i].event == atts[j].event)
}

/// Replacing a record by one with the same key keeps the keys unique, and
/// every key keeps its canonical index.
pub proof fn lemma_unique_after_update(atts: Seq<Attendance>, k: int, a2: Attendance)
    requires
        unique_att_keys(atts),
        0 <= k < atts.len(),
        a2.member@ == atts[k].member@,
        a2.event == atts[k].event,
    ensures
        unique_att_keys(atts.update(k, a2)),
        forall|m: Seq<char>, e: i32|
            #[trigger] has_att(atts.update(k, a2), m, e) == has_att(atts, m, e),
        forall|m: Seq<char>, e: i32|
            has_att(atts, m, e) ==> #[trigger] att_index(atts.update(k, a2), m, e) == att_index(
                atts,
                m,
                e,
            ),
{
    let atts2 = atts.update(k, a2);
    assert forall|m: Seq<char>, e: i32| #[trigger] has_att(atts2, m, e) == has_att(atts, m, e) by {
        if has_att(atts, m, e) {
            let i = att_index(atts, m, e);
            assert(att_key_at(atts, i, m, e));
            assert(att_key_at(atts2, i, m, e));
        }
        if has_att(atts2, m, e) {
            let i = att_index(atts2, m, e);
            assert(att_key_at(atts2, i, m, e));
            assert(att_key_at(atts, i, m, e));
        }
    }
    assert forall|m: Seq<char>, e: i32| has_att(atts, m, e) implies #[trigger] att_index(
        atts2,
        m,
        e,
    ) == att_index(atts, m, e) by {
        let i = att_index(atts, m, e);
        assert(att_key_at(atts, i, m, e));
        assert(att_key_at(atts2, i, m, e));
        lemma_att_index_is(atts2, m, e, i);
    }
}

/// Appending a record under a fresh key keeps the keys unique.
pub proof fn lemma_unique_after_push(atts: Seq<Attendance>, a2: Attendance)
    requires
        unique_att_keys(atts),
        !has_att(atts, a2.member@, a2.event),
    ensures
        unique_att_keys(atts.push(a2)),
{
    let atts2 = atts.push(a2);
    assert forall|i: int, j: int| 0 <= i < j < atts2.len() implies !((#[trigger] atts2[i]).member@
        == (#[trigger] atts2[j]).member@ && atts2[i].event == atts2[j].event) by {
        if j == atts.len() {
            assert(!att_key_at(atts, i, a2.member@, a2.event));
        }
    }
}

/// With unique keys, any index whose record carries the key is the canonical
/// one.
pub proof fn lemma_att_index_is(atts: Seq<Attendance>, member: Seq<char>, event: i32, k: int)
    requires
        unique_att_keys(atts),
        att_key_at(atts, k, member, event),
    ensures
        att_index(atts, member, event) == k,
        has_att(atts, member, event),
{
    assert(has_att(atts, member, event));
    let j = att_index(atts, member, event);
    assert(att_key_at(atts, j, member, event));
    if j != k {
        assert(!(atts[j].member@ == atts[k].member@ && atts[j].event == atts[k].event));
    }
}

/// An RSVP is accepted exactly when the event exists and the member is
/// active for its semester.
pub open spec fn rsvp_allowed(
    events: Seq<Event>,
    actives: Seq<ActiveSemester>,
    member: Seq<char>,
    event: i32,
) -> bool {
    &&& has_event(events, event)
    &&& is_active(actives, member, event_at(events, event).semester@)
}

/// The attendance table after an accepted RSVP: the member's record for the
/// event — created now if this is their first interaction — has its RSVP
/// overwritten with the stated intent.
pub open spec fn rsvp_next(
    atts: Seq<Attendance>,
    member: String,
    event: i32,
    attending: bool,
) -> Seq<Attendance> {
    if has_att(atts, member@, event) {
        atts.update(
            att_index(atts, member@, event),
            with_rsvp(atts[att_index(atts, member@, event)], Some(attending)),
        )
    } else {
        atts.push(with_rsvp(default_attendance(member, event), Some(attending)))
    }
}

/// RSVPing is idempotent: stating the same intent twice yields the same
/// attendance table as stating it once.
pub proof fn lemma_rsvp_idempotent(
    atts: Seq<Attendance>,
    member: String,
    event: i32,
    attending: bool,
)
    requires
        unique_att_keys(atts),
    ensures
        rsvp_next(rsvp_next(atts, member, event, attending), member, event, attending)
            == rsvp_next(atts, member, event, attending),
{
    let once = rsvp_next(atts, member, event, attending);
    if has_att(atts, member@, event) {
        let i = att_index(atts, member@, event);
        assert(att_key_at(atts, i, member@, event));
        lemma_unique_after_update(atts, i, with_rsvp(atts[i], Some(attending)));
        assert(att_index(once, member@, event) == i);
        assert(once.update(i, with_rsvp(once[i], Some(attending))) =~= once);
    } else {
        let a2 = with_rsvp(default_attendance(member, event), Some(attending));
        lemma_unique_after_push(atts, a2);
        let i = atts.len() as int;
        assert(att_key_at(once, i, member@, event));
        lemma_att_index_is(once, member@, event, i);
        assert(once.update(i, with_rsvp(once[i], Some(attending))) =~= once);
    }
}

/// A confirmation is accepted exactly when the event exists, the member is
/// active for its semester, and the member's record holds a positive RSVP.
pub open spec fn confirm_allowed(
    events: Seq<Event>,
    actives: Seq<ActiveSemester>,
    atts: Seq<Attendance>,
    member: Seq<char>,
    event: i32,
) -> bool {
    &&& has_event(events, event)
    &&& is_active(actives, member, event_at(events, event).semester@)
    &&& has_att(atts, member, event)
    &&& att_at(atts, member, event).rsvp == Some(true)
}

/// The attendance table after an accepted confirmation.
pub open spec fn confirm_next(atts: Seq<Attendance>, member: Seq<char>, event: i32) -> Seq<
    Attendance,
> {
    atts.update(att_index(atts, member, event), with_confirmed(atts[att_index(atts, member, event)]))
}

/// A positive RSVP enables confirmation: after `rsvp(member, event, true)`
/// the member's confirmation is accepted.
pub proof fn lemma_confirm_after_positive_rsvp(
    events: Seq<Event>,
    actives: Seq<ActiveSemester>,
    atts: Seq<Attendance>,
    member: String,
    event: i32,
)
    requires
        unique_att_keys(atts),
        rsvp_allowed(events, actives, member@, event),
    ensures
        confirm_allowed(events, actives, rsvp_next(atts, member, event, true), member@, event),
{
    let once = rsvp_next(atts, member, event, true);
    if has_att(atts, member@, event) {
        let i = att_index(atts, member@, event);
        assert(att_key_at(atts, i, member@, event));
        lemma_unique_after_update(atts, i, with_rsvp(atts[i], Some(true)));
        assert(att_index(once, member@, event) == i);
    } else {
        let i = atts.len() as int;
        assert(att_key_at(once, i, member@, event));
        lemma_unique_after_push(atts, with_rsvp(default_attendance(member, event), Some(true)));
        lemma_att_index_is(once, member@, event, i);
    }
}

/// Confirming is idempotent: a second accepted confirmation is accepted again
/// and leaves the attendance table as the first one did.
pub proof fn lemma_confirm_idempotent(
    events: Seq<Event>,
    actives: Seq<ActiveSemester>,
    atts: Seq<Attendance>,
    member: Seq<char>,
    event: i32,
)
    requires
        unique_att_keys(atts),
        confirm_allowed(events, actives, atts, member, event),
    ensures
        confirm_allowed(events, actives, confirm_next(atts, member, event), member, event),
        confirm_next(confirm_next(atts, member, event), member, event)
            == confirm_next(atts, member, event),
{
    let once = confirm_next(atts, member, event);
    let i = att_index(atts, member, event);
    assert(att_key_at(atts, i, member, event));
    lemma_unique_after_update(atts, i, with_confirmed(atts[i]));
    assert(att_index(once, member, event) == i);
    assert(once.update(i, with_confirmed(once[i])) =~= once);
}

impl Store {
    /// RSVP for an event: requires the member to be active for the event's
    /// semester; sets or overwrites the member's stated intent, creating
    /// their record on first interaction. Re-stating the same intent is
    /// observationally a no-op. On failure the store is untouched.
    pub fn rsvp_for_event(&mut self, event_id: i32, member: &String, attending: bool) -> (r: Result<
        (),
        Error,
    >)
        requires
            old(self).wf(),
        ensures
            final(self).wf(),
            final(self).only_attendance_changed(*old(self)),
            r is Ok <==> rsvp_allowed(
                old(self).events@,
                old(self).active_semesters@,
                member@,
                event_id,
            ),
            r is Ok ==> final(self).attendance@ == rsvp_next(
                old(self).attendance@,
                *member,
                event_id,
                attending,
            ),
            r is Err ==> *final(self) == *old(self),
            r matches Err(e) ==> if !has_event(old(self).events@, event_id) {
                e is NotFound
            } else {
                e is BadRequest
            },
    {
        let eidx = match self.find_event(event_id) {
            Some(i) => i,
            None => {
                return Err(Error::NotFound(String::from_str("No event with that id.")));
            },
        };
        if !self.member_is_active(member, &self.events[eidx].semester) {
            return Err(
                Error::BadRequest(
                    String::from_str("Member is not active for the event's semester."),
                ),
            );
        }
        match self.find_attendance(member, event_id) {
            Some(k) => {
                proof {
                    lemma_unique_after_update(
                        self.attendance@,
                        k as int,
                        with_rsvp(self.attendance@[k as int], Some(attending)),
                    );
                }
                self.attendance[k].rsvp = Some(attending);
            },
            None => {
                let a2 = Attendance {
                    member: member.clone(),
                    event: event_id,
                    rsvp: Some(attending),
                    confirmed: false,
                    excused: false,
                    did_attend: false,
                };
                proof {
                    lemma_unique_after_push(self.attendance@, a2);
                }
                self.attendance.push(a2);
            },
        }
        Ok(())
    }

    /// Confirm attendance at an event: accepted exactly from a positive
    /// RSVP, and idempotent once confirmed. Confirming without a prior
    /// positive RSVP fails with `BadRequest`. On failure the store is
    /// untouched.
    pub fn confirm_for_event(&mut self, event_id: i32, member: &String) -> (r: Result<(), Error>)
        requires
            old(self).wf(),
        ensures
            final(self).wf(),
            final(self).only_attendance_changed(*old(self)),
            r is Ok <==> confirm_allowed(
                old(self).events@,
                old(self).active_semesters@,
                old(self).attendance@,
                member@,
                event_id,
            ),
            r is Ok ==> final(self).attendance@ == confirm_next(
                old(self).attendance@,
                member@,
                event_id,
            ),
            r is Err ==> *final(self) == *old(self),
            r matches Err(e) ==> if !has_event(old(self).events@, event_id) {
                e is NotFound
            } else {
                e is BadRequest
            },
    {
        let eidx = match self.find_event(event_id) {
            Some(i) => i,
            None => {
                return Err(Error::NotFound(String::from_str("No event with that id.")));
            },
        };
        if !self.member_is_active(member, &self.events[eidx].semester) {
            return Err(
                Error::BadRequest(
                    String::from_str("Member is not active for the event's semester."),
                ),
            );
        }
        let k = match self.find_attendance(member, event_id) {
            Some(k) => k,
            None => {
                return Err(
                    Error::BadRequest(
                        String::from_str("Confirming requires a positive RSVP first."),
                    ),
                );
            },
        };
        let positive = match self.attendance[k].rsvp {
            Some(v) => v,
            None => false,
        };
        if !positive {
            return Err(
                Error::BadRequest(String::from_str("Confirming requires a positive RSVP first.")),
            );
        }
        proof {
            lemma_unique_after_update(
                self.attendance@,
                k as int,
                with_confirmed(self.attendance@[k as int]),
            );
        }
        self.attendance[k].confirmed = true;
        Ok(())
    }
}

/// An officer may edit the target member's attendance at the event: either
/// `edit-attendance` is granted for the event's type, or the own-section
/// carve-out applies — `edit-attendance-own-section` is granted for that
/// type and the principal's section for the event's semester equals the
/// target's.
pub open spec fn update_att_authorized(
    s: Store,
    principal: Seq<char>,
    target: Seq<char>,
    event: i32,
) -> bool {
    let ty = Some(event_at(s.events@, event).type_@);
    let sem = event_at(s.events@, event).semester@;
    ||| authorized(s.catalog, principal, "edit-attendance"@, ty)
    ||| own_section_authorized(
        s.catalog,
        principal,
        "edit-attendance-own-section"@,
        ty,
        section_of(s.active_semesters@, principal, sem),
        section_of(s.active_semesters@, target, sem),
    )
}

/// The principal may see the member's record: their own always, another
/// member's under `view-attendance` for the event's type.
pub open spec fn view_member_att_allowed(
    s: Store,
    principal: Seq<char>,
    member: Seq<char>,
    event: i32,
) -> bool {
    ||| member == principal
    ||| (has_event(s.events@, event) && authorized(
        s.catalog,
        principal,
        "view-attendance"@,
        Some(event_at(s.events@, event).type_@),
    ))
}

/// The full roster of the event: every attendance record for it, in stored
/// order.
pub open spec fn roster_of(s: Store, event: i32) -> Seq<Attendance> {
    s.attendance@.filter(|a: Attendance| a.event == event)
}

/// The roster of the event restricted to members whose section for the
/// event's semester is `sec`.
pub open spec fn roster_of_section(s: Store, event: i32, sec: Option<Seq<char>>) -> Seq<
    Attendance,
> {
    s.attendance@.filter(
        |a: Attendance|
            a.event == event && section_of(
                s.active_semesters@,
                a.member@,
                event_at(s.events@, event).semester@,
            ) == sec,
    )
}

impl Store {
    /// Officer mutation of the decided fields of a member's record.
    /// Authorized under `edit-attendance` for the event's type, or under the
    /// own-section carve-out when the principal's and the target's sections
    /// for the event's semester are equal. On failure the store is
    /// untouched.
    pub fn update_attendance(
        &mut self,
        event_id: i32,
        member: &String,
        form: &AttendanceForm,
        principal: &String,
    ) -> (r: Result<(), Error>)
        requires
            old(self).wf(),
        ensures
            final(self).wf(),
            final(self).only_attendance_changed(*old(self)),
            r is Ok <==> (has_event(old(self).events@, event_id) && update_att_authorized(
                *old(self),
                principal@,
                member@,
                event_id,
            ) && has_att(old(self).attendance@, member@, event_id)),
            r is Ok ==> final(self).attendance@ == old(self).attendance@.update(
                att_index(old(self).attendance@, member@, event_id),
                with_form(att_at(old(self).attendance@, member@, event_id), *form),
            ),
            r is Err ==> *final(self) == *old(self),
            r matches Err(e) ==> if !has_event(old(self).events@, event_id) {
                e is NotFound
            } else if !update_att_authorized(*old(self), principal@, member@, event_id) {
                forbids(e, "edit-attendance"@)
            } else {
                e is NotFound
            },
    {
        let eidx = match self.find_event(event_id) {
            Some(i) => i,
            None => {
                return Err(Error::NotFound(String::from_str("No event with that id.")));
            },
        };
        let perm = String::from_str("edit-attendance");
        let mut allowed = check(&self.catalog, principal, &perm, Some(&self.events[eidx].type_));
        if !allowed {
            let own = String::from_str("edit-attendance-own-section");
            let psec = self.member_section(principal, &self.events[eidx].semester);
            let tsec = self.member_section(member, &self.events[eidx].semester);
            allowed = check_own_section(
                &self.catalog,
                principal,
                &own,
                Some(&self.events[eidx].type_),
                psec.as_ref(),
                tsec.as_ref(),
            );
        }
        if !allowed {
            return Err(Error::Forbidden(perm));
        }
        let k = match self.find_attendance(member, event_id) {
            Some(k) => k,
            None => {
                return Err(
                    Error::NotFound(String::from_str("No attendance for that member and event.")),
                );
            },
        };
        proof {
            lemma_unique_after_update(
                self.attendance@,
                k as int,
                with_form(self.attendance@[k as int], *form),
            );
        }
        self.attendance[k].confirmed = form.confirmed;
        self.attendance[k].excused = form.excused;
        self.attendance[k].did_attend = form.did_attend;
        Ok(())
    }

    /// One member's record at an event. Viewing one's own record never
    /// requires a permission; another member's requires `view-attendance`
    /// for the event's type.
    pub fn get_member_attendance(&self, event_id: i32, member: &String, principal: &String) -> (r:
        Result<Attendance, Error>)
        requires
            self.wf(),
        ensures
            r is Ok <==> (view_member_att_allowed(*self, principal@, member@, event_id) && has_att(
                self.attendance@,
                member@,
                event_id,
            )),
            r matches Ok(a) ==> a == att_at(self.attendance@, member@, event_id),
            r matches Err(e) ==> if !view_member_att_allowed(*self, principal@, member@, event_id) {
                if !has_event(self.events@, event_id) {
                    e is NotFound
                } else {
                    forbids(e, "view-attendance"@)
                }
            } else {
                e is NotFound
            },
    {
        if !(*member == *principal) {
            let eidx = match self.find_event(event_id) {
                Some(i) => i,
                None => {
                    return Err(Error::NotFound(String::from_str("No event with that id.")));
                },
            };
            let perm = String::from_str("view-attendance");
            if !check(&self.catalog, principal, &perm, Some(&self.events[eidx].type_)) {
                return Err(Error::Forbidden(perm));
            }
        }
        match self.find_attendance(member, event_id) {
            Some(k) => Ok(self.attendance[k].cloned()),
            None => Err(
                Error::NotFound(String::from_str("No attendance for that member and event.")),
            ),
        }
    }

    /// Every attendance record of the event, in stored order.
    #[verifier::loop_isolation(false)]
    pub fn see_whos_attending(&self, event_id: i32) -> (r: Vec<Attendance>)
        ensures
            r@ == roster_of(*self, event_id),
    {
        let ghost pred = |a: Attendance| a.event == event_id;
        let mut rows: Vec<Attendance> = Vec::new();
        let n = self.attendance.len();
        for i in 0..n
            invariant
                rows@ == self.attendance@.take(i as int).filter(pred),
        {
            proof {
                lemma_take_step(self.attendance@, i as int);
                lemma_filter_push(self.attendance@.take(i as int), self.attendance@[i as int], pred);
            }
            if self.attendance[i].event == event_id {
                rows.push(self.attendance[i].cloned());
            }
        }
        proof {
            assert(self.attendance@.take(n as int) =~= self.attendance@);
        }
        rows
    }

    /// The roster of an event: all records under general `view-attendance`;
    /// only the principal's own section's records under
    /// `view-attendance-own-section` for the event's type, for a sorted
    /// principal; otherwise denied as `Forbidden("view-attendance")`.
    #[verifier::loop_isolation(false)]
    pub fn get_attendance(&self, event_id: i32, principal: &String) -> (r: Result<
        Vec<Attendance>,
        Error,
    >)
        requires
            self.wf(),
        ensures
            r is Ok <==> (has_event(self.events@, event_id) && (authorized(
                self.catalog,
                principal@,
                "view-attendance"@,
                None,
            ) || (section_of(
                self.active_semesters@,
                principal@,
                event_at(self.events@, event_id).semester@,
            ) is Some && authorized(
                self.catalog,
                principal@,
                "view-attendance-own-section"@,
                Some(event_at(self.events@, event_id).type_@),
            )))),
            r matches Ok(v) ==> if authorized(self.catalog, principal@, "view-attendance"@, None) {
                v@ == roster_of(*self, event_id)
            } else {
                v@ == roster_of_section(
                    *self,
                    event_id,
                    section_of(
                        self.active_semesters@,
                        principal@,
                        event_at(self.events@, event_id).semester@,
                    ),
                )
            },
            r matches Err(e) ==> if !has_event(self.events@, event_id) {
                e is NotFound
            } else {
                forbids(e, "view-attendance"@)
            },
    {
        let eidx = match self.find_event(event_id) {
            Some(i) => i,
            None => {
                return Err(Error::NotFound(String::from_str("No event with that id.")));
            },
        };
        let perm = String::from_str("view-attendance");
        if check(&self.catalog, principal, &perm, None) {
            return Ok(self.see_whos_attending(event_id));
        }
        let psec = self.member_section(principal, &self.events[eidx].semester);
        let own = String::from_str("view-attendance-own-section");
        if psec.is_some() && check(&self.catalog, principal, &own, Some(&self.events[eidx].type_)) {
            let ghost sec = crate::util::opt_str_view(psec);
            let ghost sem = event_at(self.events@, event_id).semester@;
            let ghost pred = |a: Attendance|
                a.event == event_id && section_of(self.active_semesters@, a.member@, sem) == sec;
            let mut rows: Vec<Attendance> = Vec::new();
            let n = self.attendance.len();
            for i in 0..n
                invariant
                    rows@ == self.attendance@.take(i as int).filter(pred),
            {
                proof {
                    lemma_take_step(self.attendance@, i as int);
                    lemma_filter_push(
                        self.attendance@.take(i as int),
                        self.attendance@[i as int],
                        pred,
                    );
                }
                let a = &self.attendance[i];
                if a.event == event_id {
                    let asec = self.member_section(&a.member, &self.events[eidx].semester);
                    if crate::util::opt_string_eq(asec.as_ref(), psec.as_ref()) {
                        rows.push(a.cloned());
                    }
                }
            }
            proof {
                assert(self.attendance@.take(n as int) =~= self.attendance@);
            }
            Ok(rows)
        } else {
            Err(Error::Forbidden(perm))
        }
    }
}

/// The excusal sweep is permitted exactly when the event exists and the
/// principal holds `edit-attendance` for its type.
pub open spec fn excuse_allowed(s: Store, principal: Seq<char>, event: i32) -> bool {
    &&& has_event(s.events@, event)
    &&& authorized(
        s.catalog,
        principal,
        "edit-attendance"@,
        Some(event_at(s.events@, event).type_@),
    )
}

/// The members active for the event's semester who have no record for the
/// event yet.
pub open spec fn eligible_missing(s: Store, event: i32) -> Seq<ActiveSemester> {
    s.active_semesters@.filter(
        |a: ActiveSemester|
            a.semester@ == event_at(s.events@, event).semester@ && !has_att(
                s.attendance@,
                a.member@,
                event,
            ),
    )
}

/// The attendance table with a fresh record for every eligible member who
/// had none.
pub open spec fn ensured_atts(s: Store, event: i32) -> Seq<Attendance> {
    s.attendance@ + eligible_missing(s, event).map_values(
        |a: ActiveSemester| default_attendance(a.member, event),
    )
}

/// The sweep excuses this record: it is the event's, unconfirmed, its member
/// is eligible, and no approved absence request already covers the absence.
pub open spec fn sweep_condition(s: Store, a: Attendance, event: i32) -> bool {
    &&& a.event == event
    &&& !a.confirmed
    &&& is_active(s.active_semesters@, a.member@, event_at(s.events@, event).semester@)
    &&& !crate::absence::has_approved_req(s.absence_requests@, a.member@, event)
}

/// The attendance table after the sweep: exactly the records the sweep
/// condition selects are marked excused; all others are untouched.
pub open spec fn swept_atts(s: Store, atts: Seq<Attendance>, event: i32) -> Seq<Attendance> {
    Seq::new(
        atts.len(),
        |i: int|
            if sweep_condition(s, atts[i], event) {
                with_excused(atts[i])
            } else {
                atts[i]
            },
    )
}

impl Store {
    /// Whether the first `upto` attendance records hold one for this
    /// (member, event) pair.
    #[verifier::loop_isolation(false)]
    fn attendance_prefix_has(&self, member: &String, event: i32, upto: usize) -> (r: bool)
        requires
            upto <= self.attendance@.len(),
        ensures
            r == has_att(self.attendance@.take(upto as int), member@, event),
    {
        let ghost prefix = self.attendance@.take(upto as int);
        for i in 0..upto
            invariant
                forall|k: int| 0 <= k < i ==> !att_key_at(prefix, k, member@, event),
        {
            let a = &self.attendance[i];
            if a.event == event && a.member == *member {
                proof {
                    assert(att_key_at(prefix, i as int, member@, event));
                }
                return true;
            }
        }
        proof {
            assert(!has_att(prefix, member@, event)) by {
                if has_att(prefix, member@, event) {
                    let j = att_index(prefix, member@, event);
                    assert(att_key_at(prefix, j, member@, event));
                }
            }
        }
        false
    }

    /// Excuse the absence of everyone who did not confirm: for every member
    /// eligible for the event who is not confirmed and holds no approved
    /// absence request, mark the absence excused — creating the record
    /// first if the member never interacted with the event. Members already
    /// confirmed, ineligible, or covered by an approved request are left
    /// untouched. Runs as one atomic batch: on failure the store is
    /// untouched.
    #[verifier::loop_isolation(false)]
    pub fn excuse_unconfirmed_for_event(&mut self, event_id: i32, principal: &String) -> (r: Result<
        (),
        Error,
    >)
        requires
            old(self).wf(),
        ensures
            final(self).wf(),
            final(self).only_attendance_changed(*old(self)),
            r is Ok <==> excuse_allowed(*old(self), principal@, event_id),
            r is Ok ==> final(self).attendance@ == swept_atts(
                *old(self),
                ensured_atts(*old(self), event_id),
                event_id,
            ),
            r is Err ==> *final(self) == *old(self),
            r matches Err(e) ==> if !has_event(old(self).events@, event_id) {
                e is NotFound
            } else {
                forbids(e, "edit-attendance"@)
            },
    {
        let eidx = match self.find_event(event_id) {
            Some(i) => i,
            None => {
                return Err(Error::NotFound(String::from_str("No event with that id.")));
            },
        };
        let perm = String::from_str("edit-attendance");
        if !check(&self.catalog, principal, &perm, Some(&self.events[eidx].type_)) {
            return Err(Error::Forbidden(perm));
        }
        let ghost sem = event_at(old(self).events@, event_id).semester@;
        let ghost mpred = |a: ActiveSemester|
            a.semester@ == sem && !has_att(old(self).attendance@, a.member@, event_id);
        let ghost dfl = |a: ActiveSemester| default_attendance(a.member, event_id);
        let orig_len = self.attendance.len();
        let na = self.active_semesters.len();
        for j in 0..na
            invariant
                self.only_attendance_changed(*old(self)),
                unique_att_keys(self.attendance@),
                orig_len <= self.attendance@.len(),
                self.attendance@ == old(self).attendance@ + old(self).active_semesters@.take(
                    j as int,
                ).filter(mpred).map_values(dfl),
                forall|i: int|
                    orig_len <= i < self.attendance@.len() ==> exists|k: int|
                        0 <= k < j && crate::store::active_key_at(
                            self.active_semesters@,
                            k,
                            (#[trigger] self.attendance@[i]).member@,
                            sem,
                        ),
        {
            proof {
                lemma_take_step(self.active_semesters@, j as int);
                lemma_filter_push(
                    self.active_semesters@.take(j as int),
                    self.active_semesters@[j as int],
                    mpred,
                );
            }
            let act = &self.active_semesters[j];
            if act.semester == self.events[eidx].semester {
                proof {
                    assert(self.attendance@.take(orig_len as int) =~= old(self).attendance@);
                }
                if !self.attendance_prefix_has(&act.member, event_id, orig_len) {
                    let a2 = Attendance {
                        member: act.member.clone(),
                        event: event_id,
                        rsvp: None,
                        confirmed: false,
                        excused: false,
                        did_attend: false,
                    };
                    proof {
                        assert(mpred(self.active_semesters@[j as int]));
                        assert(!has_att(self.attendance@, a2.member@, event_id)) by {
                            if has_att(self.attendance@, a2.member@, event_id) {
                                let i = att_index(self.attendance@, a2.member@, event_id);
                                assert(att_key_at(self.attendance@, i, a2.member@, event_id));
                                if i < orig_len {
                                    assert(att_key_at(
                                        old(self).attendance@,
                                        i,
                                        a2.member@,
                                        event_id,
                                    ));
                                } else {
                                    let k = choose|k: int|
                                        0 <= k < j && crate::store::active_key_at(
                                            self.active_semesters@,
                                            k,
                                            self.attendance@[i].member@,
                                            sem,
                                        );
                                    assert(crate::store::active_key_at(
                                        self.active_semesters@,
                                        j as int,
                                        a2.member@,
                                        sem,
                                    ));
                                }
                            }
                        }
                        lemma_unique_after_push(self.attendance@, a2);
                        assert(old(self).active_semesters@.take(j as int + 1).filter(
                            mpred,
                        ).map_values(dfl) =~= old(self).active_semesters@.take(j as int).filter(
                            mpred,
                        ).map_values(dfl).push(default_attendance(a2.member, event_id)));
                        assert(self.attendance@.push(a2) =~= old(self).attendance@ + old(
                            self,
                        ).active_semesters@.take(j as int + 1).filter(mpred).map_values(dfl));
                    }
                    self.attendance.push(a2);
                    proof {
                        assert(crate::store::active_key_at(
                            self.active_semesters@,
                            j as int,
                            self.attendance@[self.attendance@.len() - 1].member@,
                            sem,
                        ));
                    }
                } else {
                    proof {
                        assert(!mpred(self.active_semesters@[j as int]));
                    }
                }
            } else {
                proof {
                    assert(!mpred(self.active_semesters@[j as int]));
                }
            }
        }
        proof {
            assert(old(self).active_semesters@.take(na as int) =~= old(self).active_semesters@);
            assert(mpred =~= (|a: ActiveSemester|
                a.semester@ == event_at(old(self).events@, event_id).semester@ && !has_att(
                    old(self).attendance@,
                    a.member@,
                    event_id,
                )));
            assert(self.attendance@ == ensured_atts(*old(self), event_id));
        }
        let ghost base = self.attendance@;
        let nb = self.attendance.len();
        for i in 0..nb
            invariant
                self.only_attendance_changed(*old(self)),
                nb == self.attendance@.len(),
                base.len() == nb as int,
                forall|k: int|
                    0 <= k < i ==> #[trigger] self.attendance@[k] == (if sweep_condition(
                        *old(self),
                        base[k],
                        event_id,
                    ) {
                        with_excused(base[k])
                    } else {
                        base[k]
                    }),
                forall|k: int| i <= k < nb as int ==> #[trigger] self.attendance@[k] == base[k],
        {
            let a = &self.attendance[i];
            if a.event == event_id && !a.confirmed {
                let eligible = self.member_is_active(&a.member, &self.events[eidx].semester);
                if eligible && !self.has_approved_request(&a.member, event_id) {
                    self.attendance[i].excused = true;
                }
            }
        }
        proof {
            assert(self.attendance@ =~= swept_atts(*old(self), base, event_id));
            assert(unique_att_keys(self.attendance@)) by {
                assert forall|i: int, j2: int| 0 <= i < j2 < self.attendance@.len() implies !((
                #[trigger] self.attendance@[i]).member@ == (#[trigger] self.attendance@[j2]).member@
                    && self.attendance@[i].event == self.attendance@[j2].event) by {
                    assert(self.attendance@[i].member@ == base[i].member@ && self.attendance@[i].event
                        == base[i].event);
                    assert(self.attendance@[j2].member@ == base[j2].member@
                        && self.attendance@[j2].event == base[j2].event);
                }
            }
        }
        Ok(())
    }
}

} // verus!
