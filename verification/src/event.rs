//! Events: the records that attendance, absence and gig workflows hang off.

use vstd::prelude::*;
use vstd::string::StringExecFns;

use crate::attendance::{att_at, has_att, Attendance};
use crate::auth::{authorized, check};
use crate::error::{forbids, Error};
use crate::store::Store;
use crate::util::{lemma_filter_push, lemma_take_step};

verus! {

/// An event of the semester: its type is the scope that grants are checked
/// against, its semester decides which members are eligible for it.
#[derive(Debug, PartialEq, Eq, Clone)]
pub struct Event {
    pub id: i32,
    pub name: String,
    pub semester: String,
    pub type_: String,
    pub call_time: i64,
}

/// The form a caller submits to create or update an event.
#[derive(Debug, PartialEq, Eq, Clone)]
pub struct NewEvent {
    pub name: String,
    pub semester: String,
    pub type_: String,
    pub call_time: i64,
}

impl Event {
    /// An equal event value.
    pub fn cloned(&self) -> (r: Event)
        ensures
            r == *self,
    {
        Event {
            id: self.id,
            name: self.name.clone(),
            semester: self.semester.clone(),
            type_: self.type_.clone(),
            call_time: self.call_time,
        }
    }
}

impl NewEvent {
    /// The event record this form describes, under the given id.
    pub open spec fn to_event_spec(self, id: i32) -> Event {
        Event {
            id,
            name: self.name,
            semester: self.semester,
            type_: self.type_,
            call_time: self.call_time,
        }
    }

    /// Build the event record this form describes, under the given id.
    pub fn to_event(&self, id: i32) -> (r: Event)
        ensures
            r == self.to_event_spec(id),
    {
        Event {
            id,
            name: self.name.clone(),
            semester: self.semester.clone(),
            type_: self.type_.clone(),
            call_time: self.call_time,
        }
    }
}

/// Some event in the sequence carries this id.
pub open spec fn has_event(events: Seq<Event>, id: i32) -> bool {
    exists|i: int| 0 <= i < events.len() && (#[trigger] events[i]).id == id
}

/// The index of the event with this id (meaningful when ids are unique and
/// the id is present).
pub open spec fn event_index(events: Seq<Event>, id: i32) -> int {
    choose|i: int| 0 <= i < events.len() && (#[trigger] events[i]).id == id
}

/// The event with this id.
pub open spec fn event_at(events: Seq<Event>, id: i32) -> Event {
    events[event_index(events, id)]
}

/// No two events share an id.
pub open spec fn unique_event_ids(events: Seq<Event>) -> bool {
    forall|i: int, j: int|
        0 <= i < j < events.len() ==> (#[trigger] events[i]).id != (#[trigger] events[j]).id
}

/// With unique ids, any index whose event carries the id is the canonical one.
pub proof fn lemma_event_index_is(events: Seq<Event>, id: i32, k: int)
    requires
        unique_event_ids(events),
        0 <= k < events.len(),
        events[k].id == id,
    ensures
        event_index(events, id) == k,
        has_event(events, id),
{
    assert(has_event(events, id));
    let j = event_index(events, id);
    if j != k {
        assert(events[j].id != events[k].id);
    }
}

/// Replacing an event by one with the same id keeps the ids unique.
pub proof fn lemma_unique_event_after_update(events: Seq<Event>, k: int, e2: Event)
    requires
        unique_event_ids(events),
        0 <= k < events.len(),
        e2.id == events[k].id,
    ensures
        unique_event_ids(events.update(k, e2)),
{
}

/// Appending an event under a fresh id keeps the ids unique.
pub proof fn lemma_unique_event_after_push(events: Seq<Event>, e2: Event)
    requires
        unique_event_ids(events),
        !has_event(events, e2.id),
    ensures
        unique_event_ids(events.push(e2)),
{
    let events2 = events.push(e2);
    assert forall|i: int, j: int| 0 <= i < j < events2.len() implies (#[trigger] events2[i]).id != (
    #[trigger] events2[j]).id by {
        if j == events.len() && events2[i].id == e2.id {
            assert(0 <= i < events.len() && events[i].id == e2.id);
        }
    }
}

/// Removing an event keeps the remaining ids unique.
pub proof fn lemma_unique_event_after_remove(events: Seq<Event>, k: int)
    requires
        unique_event_ids(events),
        0 <= k < events.len(),
    ensures
        unique_event_ids(events.remove(k)),
{
    let events2 = events.remove(k);
    assert forall|i: int, j: int| 0 <= i < j < events2.len() implies (#[trigger] events2[i]).id != (
    #[trigger] events2[j]).id by {
        let i0: int = if i < k {
            i
        } else {
            i + 1
        };
        let j0: int = if j < k {
            j
        } else {
            j + 1
        };
        assert(events2[i] == events[i0]);
        assert(events2[j] == events[j0]);
    }
}

/// The events of the store's current semester, in stored order.
pub open spec fn events_of_semester(s: Store) -> Seq<Event> {
    s.events@.filter(|e: Event| e.semester@ == s.current_semester@)
}

/// The member's attendance record for the event, if they ever interacted
/// with it.
pub open spec fn att_option(
    atts: Seq<Attendance>,
    member: Seq<char>,
    event: i32,
) -> Option<Attendance> {
    if has_att(atts, member, event) {
        Some(att_at(atts, member, event))
    } else {
        None
    }
}

/// What the member sees of the current semester: each of its events paired
/// with their own attendance record for it, in stored order.
pub open spec fn member_listing(s: Store, member: Seq<char>) -> Seq<(Event, Option<Attendance>)> {
    events_of_semester(s).map_values(|e: Event| (e, att_option(s.attendance@, member, e.id)))
}

/// The pairs are ordered by their event's call time, earliest first.
pub open spec fn pairs_sorted_by_call_time(pairs: Seq<(Event, Option<Attendance>)>) -> bool {
    forall|i: int, j: int|
        0 <= i < j < pairs.len() ==> (#[trigger] pairs[i]).0.call_time <= (
        #[trigger] pairs[j]).0.call_time
}

/// The epoch second starting the week (Monday 00:00 UTC) that `now` falls
/// in.
pub open spec fn week_window_start(now: int) -> int {
    let days = now / 86400;
    (days - ((days + 3) % 7)) * 86400
}

/// The current semester's events whose call time falls strictly inside the
/// week that `now` belongs to.
pub open spec fn week_events(s: Store, now: int) -> Seq<Event> {
    s.events@.filter(
        |e: Event|
            e.semester@ == s.current_semester@ && week_window_start(now) < e.call_time
                && e.call_time < week_window_start(now) + 604800,
    )
}

/// Reads the wall clock, seconds since the epoch, negative for a clock set
/// before it and saturating at the ends of the range.
///
/// Relies on std::time::SystemTime::now: the result depends on the clock,
/// so nothing is promised of it. Both branches of `duration_since` are
/// handled and the casts are guarded, so the read cannot abort.
#[verifier::external_body]
fn now_timestamp() -> i64 {
    match std::time::SystemTime::now().duration_since(std::time::UNIX_EPOCH) {
        Ok(since) => i64::try_from(since.as_secs()).unwrap_or(i64::MAX),
        Err(before) => match i64::try_from(before.duration().as_secs()) {
            Ok(seconds) => -seconds,
            Err(_) => i64::MIN,
        },
    }
}

/// The bounds of the week `now` falls in: Monday 00:00 UTC to the next.
pub fn week_bounds(now: i64) -> (r: (i64, i64))
    requires
        0 <= now <= i64::MAX - 604800,
    ensures
        r.0 as int == week_window_start(now as int),
        r.1 as int == week_window_start(now as int) + 604800,
{
    proof {
        vstd::arithmetic::div_mod::lemma_fundamental_div_mod(now as int, 86400);
    }
    let days = now / 86400;
    let dsm = (days + 3) % 7;
    let start = (days - dsm) * 86400;
    proof {
        assert((days - dsm) * 86400 <= days * 86400 && days * 86400 <= now && (days - dsm) * 86400
            >= -6 * 86400) by (nonlinear_arith)
            requires
                0 <= now,
                days == now as int / 86400,
                dsm == (days + 3) % 7,
        ;
    }
    (start, start + 604800)
}

impl Store {
    /// The event with this id.
    pub fn get_event(&self, event_id: i32) -> (r: Result<Event, Error>)
        requires
            self.wf(),
        ensures
            r is Ok <==> has_event(self.events@, event_id),
            r matches Ok(e) ==> e == event_at(self.events@, event_id),
            r matches Err(e) ==> e is NotFound,
    {
        match self.find_event(event_id) {
            Some(k) => Ok(self.events[k].cloned()),
            None => Err(Error::NotFound(String::from_str("No event with that id."))),
        }
    }

    /// All events of the current semester, each paired with the member's
    /// attendance record for it — `None` where the member never interacted
    /// — ordered by call time.
    #[verifier::loop_isolation(false)]
    pub fn get_events(&self, member: &String) -> (r: Vec<(Event, Option<Attendance>)>)
        requires
            self.wf(),
        ensures
            pairs_sorted_by_call_time(r@),
            r@.to_multiset() == member_listing(*self, member@).to_multiset(),
    {
        broadcast use vstd::seq_lib::group_to_multiset_ensures;

        let ghost pred = |e: Event| e.semester@ == self.current_semester@;
        let ghost pairf = |e: Event| (e, att_option(self.attendance@, member@, e.id));
        let mut rest: Vec<(Event, Option<Attendance>)> = Vec::new();
        let n = self.events.len();
        for i in 0..n
            invariant
                rest@ == self.events@.take(i as int).filter(pred).map_values(pairf),
        {
            proof {
                lemma_take_step(self.events@, i as int);
                lemma_filter_push(self.events@.take(i as int), self.events@[i as int], pred);
            }
            let e = &self.events[i];
            if e.semester == self.current_semester {
                let looked_up = match self.find_attendance(member, e.id) {
                    Some(k) => Some(self.attendance[k].cloned()),
                    None => None,
                };
                proof {
                    assert(self.events@.take(i as int).filter(pred).push(
                        self.events@[i as int],
                    ).map_values(pairf) =~= self.events@.take(i as int).filter(pred).map_values(
                        pairf,
                    ).push(pairf(self.events@[i as int])));
                }
                rest.push((e.cloned(), looked_up));
            }
        }
        proof {
            assert(self.events@.take(n as int) =~= self.events@);
            assert(pred =~= (|e: Event| e.semester@ == self.current_semester@));
            assert(pairf =~= (|e: Event| (e, att_option(self.attendance@, member@, e.id))));
            assert(rest@ == member_listing(*self, member@));
        }
        let ghost whole = rest@.to_multiset();
        let mut out: Vec<(Event, Option<Attendance>)> = Vec::new();
        while rest.len() > 0
            invariant
                pairs_sorted_by_call_time(out@),
                out@.to_multiset().add(rest@.to_multiset()) =~= whole,
                forall|a: int, b: int|
                    0 <= a < out@.len() && 0 <= b < rest@.len() ==> (#[trigger] out@[a]).0.call_time
                        <= (#[trigger] rest@[b]).0.call_time,
            decreases rest@.len(),
        {
            let mut mi: usize = 0;
            let m = rest.len();
            for k in 1..m
                invariant
                    0 <= mi < m,
                    m == rest@.len(),
                    forall|b: int|
                        0 <= b < k ==> rest@[mi as int].0.call_time <= (
                        #[trigger] rest@[b]).0.call_time,
            {
                if rest[k].0.call_time < rest[mi].0.call_time {
                    mi = k;
                }
            }
            let x = rest.remove(mi);
            proof {
                assert(out@.push(x).to_multiset().add(rest@.to_multiset()) =~= whole);
            }
            out.push(x);
        }
        out
    }

    /// The current semester's events whose call time falls strictly inside
    /// the given window, in stored order.
    #[verifier::loop_isolation(false)]
    pub fn events_between(&self, start: i64, end: i64) -> (r: Vec<Event>)
        ensures
            r@ == self.events@.filter(
                |e: Event|
                    e.semester@ == self.current_semester@ && start < e.call_time && e.call_time
                        < end,
            ),
    {
        let ghost pred = |e: Event|
            e.semester@ == self.current_semester@ && start < e.call_time && e.call_time < end;
        let mut rows: Vec<Event> = Vec::new();
        let n = self.events.len();
        for i in 0..n
            invariant
                rows@ == self.events@.take(i as int).filter(pred),
        {
            proof {
                lemma_take_step(self.events@, i as int);
                lemma_filter_push(self.events@.take(i as int), self.events@[i as int], pred);
            }
            let e = &self.events[i];
            if e.semester == self.current_semester && start < e.call_time && e.call_time < end {
                rows.push(e.cloned());
            }
        }
        proof {
            assert(self.events@.take(n as int) =~= self.events@);
        }
        rows
    }

    /// The current semester's events of the running week, Monday to Monday
    /// around the clock's present moment.
    pub fn get_weeks_events(&self) -> (r: Vec<Event>)
        ensures
            exists|now: int| 0 <= now && r@ == week_events(*self, now),
    {
        let raw = now_timestamp();
        let now: i64 = if raw < 0 {
            0
        } else if raw > i64::MAX - 604800 {
            i64::MAX - 604800
        } else {
            raw
        };
        let bounds = week_bounds(now);
        let r = self.events_between(bounds.0, bounds.1);
        proof {
            assert(r@ == week_events(*self, now as int));
        }
        r
    }

    /// Create an event from the submitted form. Requires `create-event` for
    /// the form's event type; returns the new event's id. On failure the
    /// store is untouched.
    pub fn new_event(&mut self, form: &NewEvent, principal: &String) -> (r: Result<i32, Error>)
        requires
            old(self).wf(),
        ensures
            final(self).wf(),
            final(self).only_events_changed(*old(self)),
            r is Ok <==> (authorized(
                old(self).catalog,
                principal@,
                "create-event"@,
                Some(form.type_@),
            ) && old(self).next_id < i32::MAX),
            r matches Ok(id) ==> id == old(self).next_id && final(self).events@ == old(
                self,
            ).events@.push(form.to_event_spec(id)) && final(self).next_id == old(self).next_id + 1,
            r is Err ==> *final(self) == *old(self),
            r matches Err(e) ==> if !authorized(
                old(self).catalog,
                principal@,
                "create-event"@,
                Some(form.type_@),
            ) {
                forbids(e, "create-event"@)
            } else {
                e is ServerError
            },
    {
        let perm = String::from_str("create-event");
        if !check(&self.catalog, principal, &perm, Some(&form.type_)) {
            return Err(Error::Forbidden(perm));
        }
        if self.next_id == i32::MAX {
            return Err(Error::ServerError(String::from_str("The id space is exhausted.")));
        }
        let id = self.next_id;
        let e2 = form.to_event(id);
        proof {
            assert(!has_event(self.events@, id)) by {
                if has_event(self.events@, id) {
                    let k = choose|k: int|
                        0 <= k < self.events@.len() && (#[trigger] self.events@[k]).id == id;
                    assert(self.events@[k].id < self.next_id);
                }
            }
            lemma_unique_event_after_push(self.events@, e2);
        }
        self.events.push(e2);
        self.next_id = id + 1;
        Ok(id)
    }

    /// Update an event from the submitted form. Requires general
    /// `edit-all-events`, or `modify-event` for the event's current type. On
    /// failure the store is untouched.
    pub fn update_event(&mut self, event_id: i32, form: &NewEvent, principal: &String) -> (r:
        Result<(), Error>)
        requires
            old(self).wf(),
        ensures
            final(self).wf(),
            final(self).only_events_changed(*old(self)),
            final(self).next_id == old(self).next_id,
            r is Ok <==> (has_event(old(self).events@, event_id) && (authorized(
                old(self).catalog,
                principal@,
                "edit-all-events"@,
                None,
            ) || authorized(
                old(self).catalog,
                principal@,
                "modify-event"@,
                Some(event_at(old(self).events@, event_id).type_@),
            ))),
            r is Ok ==> final(self).events@ == old(self).events@.update(
                event_index(old(self).events@, event_id),
                form.to_event_spec(event_id),
            ),
            r is Err ==> *final(self) == *old(self),
            r matches Err(e) ==> if !has_event(old(self).events@, event_id) {
                e is NotFound
            } else {
                forbids(e, "modify-event"@)
            },
    {
        let all = String::from_str("edit-all-events");
        let edit_all = check(&self.catalog, principal, &all, None);
        let k = match self.find_event(event_id) {
            Some(k) => k,
            None => {
                return Err(Error::NotFound(String::from_str("No event with that id.")));
            },
        };
        if !edit_all {
            let perm = String::from_str("modify-event");
            if !check(&self.catalog, principal, &perm, Some(&self.events[k].type_)) {
                return Err(Error::Forbidden(perm));
            }
        }
        let e2 = form.to_event(event_id);
        proof {
            lemma_unique_event_after_update(self.events@, k as int, e2);
        }
        self.events[k] = e2;
        Ok(())
    }

    /// Delete an event. Requires `delete-event` for the event's type. On
    /// failure the store is untouched.
    pub fn delete_event(&mut self, event_id: i32, principal: &String) -> (r: Result<(), Error>)
        requires
            old(self).wf(),
        ensures
            final(self).wf(),
            final(self).only_events_changed(*old(self)),
            final(self).next_id == old(self).next_id,
            r is Ok <==> (has_event(old(self).events@, event_id) && authorized(
                old(self).catalog,
                principal@,
                "delete-event"@,
                Some(event_at(old(self).events@, event_id).type_@),
            )),
            r is Ok ==> final(self).events@ == old(self).events@.remove(
                event_index(old(self).events@, event_id),
            ),
            r is Err ==> *final(self) == *old(self),
            r matches Err(e) ==> if !has_event(old(self).events@, event_id) {
                e is NotFound
            } else {
                forbids(e, "delete-event"@)
            },
    {
        let k = match self.find_event(event_id) {
            Some(k) => k,
            None => {
                return Err(Error::NotFound(String::from_str("No event with that id.")));
            },
        };
        let perm = String::from_str("delete-event");
        if !check(&self.catalog, principal, &perm, Some(&self.events[k].type_)) {
            return Err(Error::Forbidden(perm));
        }
        proof {
            lemma_unique_event_after_remove(self.events@, k as int);
        }
        self.events.remove(k);
        Ok(())
    }
}

} // verus!
