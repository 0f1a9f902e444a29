//! The in-memory storage model that the workflows run against. Every
//! mutating operation validates all its preconditions before touching any
//! table, so a failed operation always leaves the store exactly as it was:
//! multi-row writes are all-or-nothing.

use vstd::prelude::*;

use crate::absence::{unique_req_keys, AbsenceRequest};
use crate::attendance::{att_index, att_key_at, has_att, unique_att_keys, Attendance};
use crate::catalog::Catalog;
use crate::event::{event_index, has_event, lemma_event_index_is, unique_event_ids, Event};
use crate::gig::{unique_gig_ids, GigRequest};
use crate::setlist::GigSong;
use crate::todo::{unique_todo_ids, Todo};
use crate::util::opt_str_view;
use crate::variable::{unique_var_keys, Variable};

verus! {

/// How a member is enrolled for a semester.
#[derive(Clone, Copy, PartialEq, Eq, Structural, Debug)]
pub enum Enrollment {
    Class,
    Club,
}

/// A member's standing for one semester: present exactly when the member
/// counts for that semester, carrying the section they sing in, if sorted.
#[derive(Debug, PartialEq, Eq, Clone)]
pub struct ActiveSemester {
    pub member: String,
    pub semester: String,
    pub section: Option<String>,
    pub enrollment: Enrollment,
}

/// The storage the workflows read and mutate.
pub struct Store {
    pub catalog: Catalog,
    pub current_semester: String,
    pub active_semesters: Vec<ActiveSemester>,
    pub events: Vec<Event>,
    pub attendance: Vec<Attendance>,
    pub absence_requests: Vec<AbsenceRequest>,
    pub gig_requests: Vec<GigRequest>,
    pub gig_songs: Vec<GigSong>,
    pub todos: Vec<Todo>,
    pub variables: Vec<Variable>,
    /// The next id handed to a created event, gig request or todo.
    pub next_id: i32,
}

/// The row at index `i` marks this member active for this semester.
pub open spec fn active_key_at(
    actives: Seq<ActiveSemester>,
    i: int,
    member: Seq<char>,
    semester: Seq<char>,
) -> bool {
    &&& 0 <= i < actives.len()
    &&& actives[i].member@ == member
    &&& actives[i].semester@ == semester
}

/// The member has an active-semester row for this semester: they count for
/// attendance at its events.
pub open spec fn is_active(
    actives: Seq<ActiveSemester>,
    member: Seq<char>,
    semester: Seq<char>,
) -> bool {
    exists|i: int| #[trigger] active_key_at(actives, i, member, semester)
}

/// The index of the member's row for this semester (meaningful when keys are
/// unique and the row is present).
pub open spec fn active_index(
    actives: Seq<ActiveSemester>,
    member: Seq<char>,
    semester: Seq<char>,
) -> int {
    choose|i: int| #[trigger] active_key_at(actives, i, member, semester)
}

/// At most one row per (member, semester) pair.
pub open spec fn unique_active_keys(actives: Seq<ActiveSemester>) -> bool {
    forall|i: int, j: int|
        0 <= i < j < actives.len() ==> !((#[trigger] actives[i]).member@
            == (#[trigger] actives[j]).member@ && actives[i].semester@ == actives[j].semester@)
}

/// The section the member sings in for this semester: `None` when unsorted or
/// not active.
pub open spec fn section_of(
    actives: Seq<ActiveSemester>,
    member: Seq<char>,
    semester: Seq<char>,
) -> Option<Seq<char>> {
    if is_active(actives, member, semester) {
        opt_str_view(actives[active_index(actives, member, semester)].section)
    } else {
        None
    }
}

/// With unique keys, any index whose row carries the key is the canonical
/// one.
pub proof fn lemma_active_index_is(
    actives: Seq<ActiveSemester>,
    member: Seq<char>,
    semester: Seq<char>,
    k: int,
)
    requires
        unique_active_keys(actives),
        active_key_at(actives, k, member, semester),
    ensures
        active_index(actives, member, semester) == k,
        is_active(actives, member, semester),
{
    assert(is_active(actives, member, semester));
    let j = active_index(actives, member, semester);
    assert(active_key_at(actives, j, member, semester));
    if j != k {
        assert(!(actives[j].member@ == actives[k].member@ && actives[j].semester@
            == actives[k].semester@));
    }
}

impl Store {
    /// Every key and id invariant the tables live under: at most one
    /// attendance record and one absence request per (member, event), unique
    /// event / gig-request / todo ids all below `next_id`, and unique
    /// active-semester and variable keys.
    pub open spec fn wf(&self) -> bool {
        &&& 0 <= self.next_id
        &&& unique_event_ids(self.events@)
        &&& unique_att_keys(self.attendance@)
        &&& unique_req_keys(self.absence_requests@)
        &&& unique_gig_ids(self.gig_requests@)
        &&& unique_todo_ids(self.todos@)
        &&& unique_active_keys(self.active_semesters@)
        &&& unique_var_keys(self.variables@)
        &&& forall|i: int|
            0 <= i < self.events@.len() ==> (#[trigger] self.events@[i]).id < self.next_id
        &&& forall|i: int|
            0 <= i < self.gig_requests@.len() ==> (#[trigger] self.gig_requests@[i]).id
                < self.next_id
        &&& forall|i: int|
            0 <= i < self.todos@.len() ==> (#[trigger] self.todos@[i]).id < self.next_id
    }

    /// The directory data no workflow writes: catalog, semesters, sections.
    pub open spec fn directory_unchanged(self, pre: Store) -> bool {
        &&& self.catalog == pre.catalog
        &&& self.current_semester == pre.current_semester
        &&& self.active_semesters == pre.active_semesters
    }

    /// Everything but the attendance table is as in `pre`.
    pub open spec fn only_attendance_changed(self, pre: Store) -> bool {
        &&& self.directory_unchanged(pre)
        &&& self.events == pre.events
        &&& self.absence_requests == pre.absence_requests
        &&& self.gig_requests == pre.gig_requests
        &&& self.gig_songs == pre.gig_songs
        &&& self.todos == pre.todos
        &&& self.variables == pre.variables
        &&& self.next_id == pre.next_id
    }

    /// Everything but the absence-request table is as in `pre`.
    pub open spec fn only_requests_changed(self, pre: Store) -> bool {
        &&& self.directory_unchanged(pre)
        &&& self.events == pre.events
        &&& self.attendance == pre.attendance
        &&& self.gig_requests == pre.gig_requests
        &&& self.gig_songs == pre.gig_songs
        &&& self.todos == pre.todos
        &&& self.variables == pre.variables
        &&& self.next_id == pre.next_id
    }

    /// Everything but the gig-request table and the id counter is as in
    /// `pre`.
    pub open spec fn only_gigs_changed(self, pre: Store) -> bool {
        &&& self.directory_unchanged(pre)
        &&& self.events == pre.events
        &&& self.attendance == pre.attendance
        &&& self.absence_requests == pre.absence_requests
        &&& self.gig_songs == pre.gig_songs
        &&& self.todos == pre.todos
        &&& self.variables == pre.variables
    }

    /// Everything but the event table and the id counter is as in `pre`.
    pub open spec fn only_events_changed(self, pre: Store) -> bool {
        &&& self.directory_unchanged(pre)
        &&& self.attendance == pre.attendance
        &&& self.absence_requests == pre.absence_requests
        &&& self.gig_requests == pre.gig_requests
        &&& self.gig_songs == pre.gig_songs
        &&& self.todos == pre.todos
        &&& self.variables == pre.variables
    }

    /// Everything but the events and gig requests (and the id counter) is as
    /// in `pre`: the frame of converting a gig request into an event.
    pub open spec fn only_events_and_gigs_changed(self, pre: Store) -> bool {
        &&& self.directory_unchanged(pre)
        &&& self.attendance == pre.attendance
        &&& self.absence_requests == pre.absence_requests
        &&& self.gig_songs == pre.gig_songs
        &&& self.todos == pre.todos
        &&& self.variables == pre.variables
    }

    /// Everything but the setlist table is as in `pre`.
    pub open spec fn only_songs_changed(self, pre: Store) -> bool {
        &&& self.directory_unchanged(pre)
        &&& self.events == pre.events
        &&& self.attendance == pre.attendance
        &&& self.absence_requests == pre.absence_requests
        &&& self.gig_requests == pre.gig_requests
        &&& self.todos == pre.todos
        &&& self.variables == pre.variables
        &&& self.next_id == pre.next_id
    }

    /// Everything but the todo table and the id counter is as in `pre`.
    pub open spec fn only_todos_changed(self, pre: Store) -> bool {
        &&& self.directory_unchanged(pre)
        &&& self.events == pre.events
        &&& self.attendance == pre.attendance
        &&& self.absence_requests == pre.absence_requests
        &&& self.gig_requests == pre.gig_requests
        &&& self.gig_songs == pre.gig_songs
        &&& self.variables == pre.variables
    }

    /// Everything but the variable table is as in `pre`.
    pub open spec fn only_vars_changed(self, pre: Store) -> bool {
        &&& self.directory_unchanged(pre)
        &&& self.events == pre.events
        &&& self.attendance == pre.attendance
        &&& self.absence_requests == pre.absence_requests
        &&& self.gig_requests == pre.gig_requests
        &&& self.gig_songs == pre.gig_songs
        &&& self.todos == pre.todos
        &&& self.next_id == pre.next_id
    }

    /// An empty, well-formed store for the given current semester. A loader
    /// fills the directory tables; the workflow operations keep `wf`.
    pub fn new(current_semester: String) -> (r: Store)
        ensures
            r.wf(),
            r.catalog.role_permissions@ == Seq::<crate::catalog::RolePermission>::empty(),
            r.current_semester == current_semester,
            r.events@ == Seq::<Event>::empty(),
            r.attendance@ == Seq::<Attendance>::empty(),
            r.absence_requests@ == Seq::<AbsenceRequest>::empty(),
            r.gig_requests@ == Seq::<GigRequest>::empty(),
            r.gig_songs@ == Seq::<GigSong>::empty(),
            r.todos@ == Seq::<Todo>::empty(),
            r.variables@ == Seq::<Variable>::empty(),
    {
        Store {
            catalog: Catalog::new(),
            current_semester,
            active_semesters: Vec::new(),
            events: Vec::new(),
            attendance: Vec::new(),
            absence_requests: Vec::new(),
            gig_requests: Vec::new(),
            gig_songs: Vec::new(),
            todos: Vec::new(),
            variables: Vec::new(),
            next_id: 1,
        }
    }

    /// The index of the event with this id, when one exists.
    #[verifier::loop_isolation(false)]
    pub fn find_event(&self, id: i32) -> (r: Option<usize>)
        requires
            unique_event_ids(self.events@),
        ensures
            match r {
                Some(k) => has_event(self.events@, id) && k as int == event_index(
                    self.events@,
                    id,
                ),
                None => !has_event(self.events@, id),
            },
    {
        let n = self.events.len();
        for i in 0..n
            invariant
                forall|k: int| 0 <= k < i ==> (#[trigger] self.events@[k]).id != id,
        {
            if self.events[i].id == id {
                proof {
                    lemma_event_index_is(self.events@, id, i as int);
                }
                return Some(i);
            }
        }
        proof {
            assert(!has_event(self.events@, id)) by {
                if has_event(self.events@, id) {
                    let j = choose|j: int|
                        0 <= j < self.events@.len() && (#[trigger] self.events@[j]).id == id;
                    assert(self.events@[j].id != id);
                }
            }
        }
        None
    }

    /// The index of the attendance record for this (member, event), when one
    /// exists.
    #[verifier::loop_isolation(false)]
    pub fn find_attendance(&self, member: &String, event: i32) -> (r: Option<usize>)
        requires
            unique_att_keys(self.attendance@),
        ensures
            match r {
                Some(k) => has_att(self.attendance@, member@, event) && k as int == att_index(
                    self.attendance@,
                    member@,
                    event,
                ),
                None => !has_att(self.attendance@, member@, event),
            },
    {
        let n = self.attendance.len();
        for i in 0..n
            invariant
                forall|k: int| 0 <= k < i ==> !att_key_at(self.attendance@, k, member@, event),
        {
            let a = &self.attendance[i];
            if a.event == event && a.member == *member {
                proof {
                    crate::attendance::lemma_att_index_is(
                        self.attendance@,
                        member@,
                        event,
                        i as int,
                    );
                }
                return Some(i);
            }
        }
        proof {
            assert(!has_att(self.attendance@, member@, event)) by {
                if has_att(self.attendance@, member@, event) {
                    let j = att_index(self.attendance@, member@, event);
                    assert(att_key_at(self.attendance@, j, member@, event));
                }
            }
        }
        None
    }

    /// Whether the member is active for the semester.
    #[verifier::loop_isolation(false)]
    pub fn member_is_active(&self, member: &String, semester: &String) -> (r: bool)
        ensures
            r == is_active(self.active_semesters@, member@, semester@),
    {
        let n = self.active_semesters.len();
        for i in 0..n
            invariant
                forall|k: int|
                    0 <= k < i ==> !active_key_at(self.active_semesters@, k, member@, semester@),
        {
            let a = &self.active_semesters[i];
            if a.member == *member && a.semester == *semester {
                proof {
                    assert(active_key_at(self.active_semesters@, i as int, member@, semester@));
                }
                return true;
            }
        }
        proof {
            assert(!is_active(self.active_semesters@, member@, semester@)) by {
                if is_active(self.active_semesters@, member@, semester@) {
                    let j = choose|j: int|
                        #[trigger] active_key_at(self.active_semesters@, j, member@, semester@);
                    assert(active_key_at(self.active_semesters@, j, member@, semester@));
                }
            }
        }
        false
    }

    /// The section the member sings in for the semester, if they are active
    /// and sorted.
    #[verifier::loop_isolation(false)]
    pub fn member_section(&self, member: &String, semester: &String) -> (r: Option<String>)
        requires
            unique_active_keys(self.active_semesters@),
        ensures
            opt_str_view(r) == section_of(self.active_semesters@, member@, semester@),
    {
        let n = self.active_semesters.len();
        for i in 0..n
            invariant
                forall|k: int|
                    0 <= k < i ==> !active_key_at(self.active_semesters@, k, member@, semester@),
        {
            let a = &self.active_semesters[i];
            if a.member == *member && a.semester == *semester {
                proof {
                    lemma_active_index_is(self.active_semesters@, member@, semester@, i as int);
                }
                return match &a.section {
                    Some(s) => Some(s.clone()),
                    None => None,
                };
            }
        }
        proof {
            assert(!is_active(self.active_semesters@, member@, semester@)) by {
                if is_active(self.active_semesters@, member@, semester@) {
                    let j = choose|j: int|
                        #[trigger] active_key_at(self.active_semesters@, j, member@, semester@);
                    assert(active_key_at(self.active_semesters@, j, member@, semester@));
                }
            }
        }
        None
    }

    /// No two events share an id, decided at run time.
    #[verifier::loop_isolation(false)]
    fn event_ids_unique(&self) -> (r: bool)
        ensures
            r == unique_event_ids(self.events@),
    {
        let n = self.events.len();
        for i in 0..n
            invariant
                forall|a: int, b: int|
                    0 <= a < b < n as int && a < i ==> (#[trigger] self.events@[a]).id != (
                    #[trigger] self.events@[b]).id,
        {
            for j in (i + 1)..n
                invariant
                    forall|b: int|
                        i < b < j ==> self.events@[i as int].id != (#[trigger] self.events@[b]).id,
            {
                if self.events[i].id == self.events[j].id {
                    return false;
                }
            }
        }
        true
    }

    /// No two attendance records share a (member, event) key, decided at
    /// run time.
    #[verifier::loop_isolation(false)]
    fn attendance_keys_unique(&self) -> (r: bool)
        ensures
            r == unique_att_keys(self.attendance@),
    {
        let n = self.attendance.len();
        for i in 0..n
            invariant
                forall|a: int, b: int|
                    0 <= a < b < n as int && a < i ==> !((#[trigger] self.attendance@[a]).member@
                        == (#[trigger] self.attendance@[b]).member@ && self.attendance@[a].event
                        == self.attendance@[b].event),
        {
            for j in (i + 1)..n
                invariant
                    forall|b: int|
                        i < b < j ==> !(self.attendance@[i as int].member@ == (
                        #[trigger] self.attendance@[b]).member@ && self.attendance@[i as int].event
                            == self.attendance@[b].event),
            {
                if self.attendance[i].event == self.attendance[j].event && self.attendance[i].member
                    == self.attendance[j].member {
                    return false;
                }
            }
        }
        true
    }

    /// No two absence requests share a (member, event) key, decided at run
    /// time.
    #[verifier::loop_isolation(false)]
    fn request_keys_unique(&self) -> (r: bool)
        ensures
            r == unique_req_keys(self.absence_requests@),
    {
        let n = self.absence_requests.len();
        for i in 0..n
            invariant
                forall|a: int, b: int|
                    0 <= a < b < n as int && a < i ==> !((
                    #[trigger] self.absence_requests@[a]).member@ == (
                    #[trigger] self.absence_requests@[b]).member@ && self.absence_requests@[a].event
                        == self.absence_requests@[b].event),
        {
            for j in (i + 1)..n
                invariant
                    forall|b: int|
                        i < b < j ==> !(self.absence_requests@[i as int].member@ == (
                        #[trigger] self.absence_requests@[b]).member@
                            && self.absence_requests@[i as int].event
                            == self.absence_requests@[b].event),
            {
                if self.absence_requests[i].event == self.absence_requests[j].event
                    && self.absence_requests[i].member == self.absence_requests[j].member {
                    return false;
                }
            }
        }
        true
    }

    /// No two gig requests share an id, decided at run time.
    #[verifier::loop_isolation(false)]
    fn gig_ids_unique(&self) -> (r: bool)
        ensures
            r == unique_gig_ids(self.gig_requests@),
    {
        let n = self.gig_requests.len();
        for i in 0..n
            invariant
                forall|a: int, b: int|
                    0 <= a < b < n as int && a < i ==> (#[trigger] self.gig_requests@[a]).id != (
                    #[trigger] self.gig_requests@[b]).id,
        {
            for j in (i + 1)..n
                invariant
                    forall|b: int|
                        i < b < j ==> self.gig_requests@[i as int].id != (
                        #[trigger] self.gig_requests@[b]).id,
            {
                if self.gig_requests[i].id == self.gig_requests[j].id {
                    return false;
                }
            }
        }
        true
    }

    /// No two todos share an id, decided at run time.
    #[verifier::loop_isolation(false)]
    fn todo_ids_unique(&self) -> (r: bool)
        ensures
            r == unique_todo_ids(self.todos@),
    {
        let n = self.todos.len();
        for i in 0..n
            invariant
                forall|a: int, b: int|
                    0 <= a < b < n as int && a < i ==> (#[trigger] self.todos@[a]).id != (
                    #[trigger] self.todos@[b]).id,
        {
            for j in (i + 1)..n
                invariant
                    forall|b: int|
                        i < b < j ==> self.todos@[i as int].id != (#[trigger] self.todos@[b]).id,
            {
                if self.todos[i].id == self.todos[j].id {
                    return false;
                }
            }
        }
        true
    }

    /// No two active-semester rows share a (member, semester) key, decided
    /// at run time.
    #[verifier::loop_isolation(false)]
    fn active_keys_unique(&self) -> (r: bool)
        ensures
            r == unique_active_keys(self.active_semesters@),
    {
        let n = self.active_semesters.len();
        for i in 0..n
            invariant
                forall|a: int, b: int|
                    0 <= a < b < n as int && a < i ==> !((
                    #[trigger] self.active_semesters@[a]).member@ == (
                    #[trigger] self.active_semesters@[b]).member@
                        && self.active_semesters@[a].semester@
                        == self.active_semesters@[b].semester@),
        {
            for j in (i + 1)..n
                invariant
                    forall|b: int|
                        i < b < j ==> !(self.active_semesters@[i as int].member@ == (
                        #[trigger] self.active_semesters@[b]).member@
                            && self.active_semesters@[i as int].semester@
                            == self.active_semesters@[b].semester@),
            {
                if self.active_semesters[i].member == self.active_semesters[j].member
                    && self.active_semesters[i].semester == self.active_semesters[j].semester {
                    return false;
                }
            }
        }
        true
    }

    /// No two variables share a key, decided at run time.
    #[verifier::loop_isolation(false)]
    fn var_keys_unique(&self) -> (r: bool)
        ensures
            r == unique_var_keys(self.variables@),
    {
        let n = self.variables.len();
        for i in 0..n
            invariant
                forall|a: int, b: int|
                    0 <= a < b < n as int && a < i ==> (#[trigger] self.variables@[a]).key@ != (
                    #[trigger] self.variables@[b]).key@,
        {
            for j in (i + 1)..n
                invariant
                    forall|b: int|
                        i < b < j ==> self.variables@[i as int].key@ != (
                        #[trigger] self.variables@[b]).key@,
            {
                if self.variables[i].key == self.variables[j].key {
                    return false;
                }
            }
        }
        true
    }

    /// Every event, gig-request and todo id lies below the counter, decided
    /// at run time.
    #[verifier::loop_isolation(false)]
    fn ids_below_counter(&self) -> (r: bool)
        ensures
            r == ((forall|i: int|
                0 <= i < self.events@.len() ==> (#[trigger] self.events@[i]).id < self.next_id) && (
            forall|i: int|
                0 <= i < self.gig_requests@.len() ==> (#[trigger] self.gig_requests@[i]).id
                    < self.next_id) && (forall|i: int|
                0 <= i < self.todos@.len() ==> (#[trigger] self.todos@[i]).id < self.next_id)),
    {
        let n = self.events.len();
        for i in 0..n
            invariant
                forall|k: int| 0 <= k < i ==> (#[trigger] self.events@[k]).id < self.next_id,
        {
            if self.events[i].id >= self.next_id {
                return false;
            }
        }
        let m = self.gig_requests.len();
        for i in 0..m
            invariant
                forall|k: int| 0 <= k < i ==> (#[trigger] self.gig_requests@[k]).id < self.next_id,
        {
            if self.gig_requests[i].id >= self.next_id {
                return false;
            }
        }
        let t = self.todos.len();
        for i in 0..t
            invariant
                forall|k: int| 0 <= k < i ==> (#[trigger] self.todos@[k]).id < self.next_id,
        {
            if self.todos[i].id >= self.next_id {
                return false;
            }
        }
        true
    }

    /// Decide `wf` at run time, for callers that assemble a store from raw
    /// tables rather than through `new` and the operations.
    pub fn is_well_formed(&self) -> (r: bool)
        ensures
            r == self.wf(),
    {
        self.next_id >= 0 && self.event_ids_unique() && self.attendance_keys_unique()
            && self.request_keys_unique() && self.gig_ids_unique() && self.todo_ids_unique()
            && self.active_keys_unique() && self.var_keys_unique() && self.ids_below_counter()
    }

    /// Whether an approved absence request excuses the member from the
    /// event.
    #[verifier::loop_isolation(false)]
    pub fn has_approved_request(&self, member: &String, event: i32) -> (r: bool)
        ensures
            r == crate::absence::has_approved_req(self.absence_requests@, member@, event),
    {
        let n = self.absence_requests.len();
        for i in 0..n
            invariant
                forall|k: int|
                    0 <= k < i ==> !(#[trigger] crate::absence::req_key_at(
                        self.absence_requests@,
                        k,
                        member@,
                        event,
                    ) && self.absence_requests@[k].status
                        == crate::absence::AbsenceRequestStatus::Approved),
        {
            let q = &self.absence_requests[i];
            if q.event == event && q.member == *member && q.status
                == crate::absence::AbsenceRequestStatus::Approved {
                proof {
                    assert(crate::absence::req_key_at(
                        self.absence_requests@,
                        i as int,
                        member@,
                        event,
                    ));
                }
                return true;
            }
        }
        proof {
            assert(!crate::absence::has_approved_req(self.absence_requests@, member@, event)) by {
                if crate::absence::has_approved_req(self.absence_requests@, member@, event) {
                    let j = choose|j: int|
                        #[trigger] crate::absence::req_key_at(
                            self.absence_requests@,
                            j,
                            member@,
                            event,
                        ) && self.absence_requests@[j].status
                            == crate::absence::AbsenceRequestStatus::Approved;
                    assert(crate::absence::req_key_at(self.absence_requests@, j, member@, event));
                }
            }
        }
        false
    }

    /// All event types of the catalog.
    pub fn get_event_types(&self) -> (r: &Vec<crate::catalog::EventType>)
        ensures
            r@ == self.catalog.event_types@,
    {
        &self.catalog.event_types
    }

    /// All section types of the catalog.
    pub fn get_section_types(&self) -> (r: &Vec<crate::catalog::SectionType>)
        ensures
            r@ == self.catalog.section_types@,
    {
        &self.catalog.section_types
    }
}

} // verus!
