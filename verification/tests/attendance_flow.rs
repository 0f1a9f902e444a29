use grease::attendance::AttendanceForm;
use grease::catalog::{
    Catalog, EventType, Member, MemberRole, Role, RolePermission, Scope, SectionType,
};
use grease::error::Error;
use grease::event::Event;
use grease::store::{ActiveSemester, Enrollment, Store};

fn s(x: &str) -> String {
    x.to_string()
}

fn member(email: &str, first: &str) -> Member {
    Member { email: s(email), first_name: s(first), last_name: s("Singer") }
}

fn active(email: &str, section: Option<&str>) -> ActiveSemester {
    ActiveSemester {
        member: s(email),
        semester: s("fall"),
        section: section.map(s),
        enrollment: Enrollment::Class,
    }
}

fn flow_store() -> Store {
    Store {
        catalog: Catalog {
            members: vec![
                member("alice@x.org", "Alice"),
                member("bob@x.org", "Bob"),
                member("carol@x.org", "Carol"),
                member("dave@x.org", "Dave"),
            ],
            roles: vec![
                Role { name: s("president"), rank: 1, max_quantity: 1 },
                Role { name: s("section-leader"), rank: 2, max_quantity: 4 },
            ],
            member_roles: vec![
                MemberRole { member: s("alice@x.org"), role: s("president") },
                MemberRole { member: s("bob@x.org"), role: s("section-leader") },
            ],
            role_permissions: vec![
                RolePermission {
                    role: s("president"),
                    permission: s("edit-attendance"),
                    scope: Scope::General,
                },
                RolePermission {
                    role: s("president"),
                    permission: s("view-attendance"),
                    scope: Scope::General,
                },
                RolePermission {
                    role: s("president"),
                    permission: s("process-absence-requests"),
                    scope: Scope::General,
                },
                RolePermission {
                    role: s("section-leader"),
                    permission: s("edit-attendance-own-section"),
                    scope: Scope::Scoped(s("rehearsal")),
                },
                RolePermission {
                    role: s("section-leader"),
                    permission: s("view-attendance-own-section"),
                    scope: Scope::Scoped(s("rehearsal")),
                },
            ],
            event_types: vec![EventType { name: s("rehearsal") }, EventType { name: s("gig") }],
            section_types: vec![
                SectionType { name: s("tenor1") },
                SectionType { name: s("bass") },
            ],
        },
        current_semester: s("fall"),
        active_semesters: vec![
            active("bob@x.org", Some("tenor1")),
            active("carol@x.org", Some("tenor1")),
            active("dave@x.org", Some("bass")),
        ],
        events: vec![Event {
            id: 1,
            name: s("Weekly Rehearsal"),
            semester: s("fall"),
            type_: s("rehearsal"),
            call_time: 1000,
        }],
        attendance: vec![],
        absence_requests: vec![],
        gig_requests: vec![],
        gig_songs: vec![],
        todos: vec![],
        variables: vec![],
        next_id: 2,
    }
}

#[test]
fn flow_fixture_is_well_formed() {
    let st = flow_store();
    assert!(st.is_well_formed());
    assert!(st.catalog.is_well_formed());
}

#[test]
fn rsvp_for_unknown_event_is_not_found() {
    let mut st = flow_store();
    let r = st.rsvp_for_event(99, &s("bob@x.org"), true);
    assert!(matches!(r, Err(Error::NotFound(_))));
    assert!(st.attendance.is_empty());
}

#[test]
fn rsvp_requires_an_active_semester() {
    let mut st = flow_store();
    // Alice has no active-semester row for fall.
    let r = st.rsvp_for_event(1, &s("alice@x.org"), true);
    assert!(matches!(r, Err(Error::BadRequest(_))));
    assert!(st.attendance.is_empty());
}

#[test]
fn rsvp_creates_then_overwrites_the_record() {
    let mut st = flow_store();
    assert_eq!(st.rsvp_for_event(1, &s("bob@x.org"), true), Ok(()));
    assert_eq!(st.attendance.len(), 1);
    assert_eq!(st.attendance[0].rsvp, Some(true));
    assert_eq!(st.rsvp_for_event(1, &s("bob@x.org"), false), Ok(()));
    assert_eq!(st.attendance.len(), 1);
    assert_eq!(st.attendance[0].rsvp, Some(false));
}

#[test]
fn rsvp_twice_equals_rsvp_once() {
    let mut once = flow_store();
    assert_eq!(once.rsvp_for_event(1, &s("bob@x.org"), true), Ok(()));
    let mut twice = flow_store();
    assert_eq!(twice.rsvp_for_event(1, &s("bob@x.org"), true), Ok(()));
    assert_eq!(twice.rsvp_for_event(1, &s("bob@x.org"), true), Ok(()));
    assert_eq!(once.attendance, twice.attendance);
}

#[test]
fn confirm_before_positive_rsvp_fails() {
    let mut st = flow_store();
    let r = st.confirm_for_event(1, &s("bob@x.org"));
    assert!(matches!(r, Err(Error::BadRequest(_))));
    assert_eq!(st.rsvp_for_event(1, &s("bob@x.org"), false), Ok(()));
    let r = st.confirm_for_event(1, &s("bob@x.org"));
    assert!(matches!(r, Err(Error::BadRequest(_))));
    assert!(!st.attendance[0].confirmed);
}

#[test]
fn confirm_after_positive_rsvp_succeeds_and_is_idempotent() {
    let mut st = flow_store();
    assert_eq!(st.rsvp_for_event(1, &s("bob@x.org"), true), Ok(()));
    assert_eq!(st.confirm_for_event(1, &s("bob@x.org")), Ok(()));
    assert!(st.attendance[0].confirmed);
    let snapshot = st.attendance.clone();
    assert_eq!(st.confirm_for_event(1, &s("bob@x.org")), Ok(()));
    assert_eq!(st.attendance, snapshot);
}

#[test]
fn update_attendance_enforces_the_carveout() {
    let mut st = flow_store();
    assert_eq!(st.rsvp_for_event(1, &s("carol@x.org"), true), Ok(()));
    assert_eq!(st.rsvp_for_event(1, &s("dave@x.org"), true), Ok(()));
    let form = AttendanceForm { confirmed: true, excused: false, did_attend: true };
    // Carol holds no role at all.
    let r = st.update_attendance(1, &s("dave@x.org"), &form, &s("carol@x.org"));
    assert_eq!(r, Err(Error::Forbidden(s("edit-attendance"))));
    // Bob leads tenor1 and may edit Carol, who shares his section.
    assert_eq!(st.update_attendance(1, &s("carol@x.org"), &form, &s("bob@x.org")), Ok(()));
    // But not Dave, who sings bass.
    let r = st.update_attendance(1, &s("dave@x.org"), &form, &s("bob@x.org"));
    assert_eq!(r, Err(Error::Forbidden(s("edit-attendance"))));
    // The president may edit anyone.
    assert_eq!(st.update_attendance(1, &s("dave@x.org"), &form, &s("alice@x.org")), Ok(()));
    assert!(st.attendance.iter().all(|a| a.confirmed && a.did_attend));
}

#[test]
fn get_member_attendance_allows_own_record_without_permission() {
    let mut st = flow_store();
    assert_eq!(st.rsvp_for_event(1, &s("carol@x.org"), true), Ok(()));
    let own = st.get_member_attendance(1, &s("carol@x.org"), &s("carol@x.org")).unwrap();
    assert_eq!(own.rsvp, Some(true));
    // Another member's record needs view-attendance.
    let r = st.get_member_attendance(1, &s("carol@x.org"), &s("dave@x.org"));
    assert_eq!(r, Err(Error::Forbidden(s("view-attendance"))));
    let seen = st.get_member_attendance(1, &s("carol@x.org"), &s("alice@x.org")).unwrap();
    assert_eq!(seen.member, s("carol@x.org"));
}

#[test]
fn get_attendance_roster_depends_on_the_viewer() {
    let mut st = flow_store();
    assert_eq!(st.rsvp_for_event(1, &s("bob@x.org"), true), Ok(()));
    assert_eq!(st.rsvp_for_event(1, &s("carol@x.org"), false), Ok(()));
    assert_eq!(st.rsvp_for_event(1, &s("dave@x.org"), true), Ok(()));
    // General view-attendance sees the whole roster.
    let all = st.get_attendance(1, &s("alice@x.org")).unwrap();
    assert_eq!(all.len(), 3);
    // The section leader sees only his own section.
    let tenors = st.get_attendance(1, &s("bob@x.org")).unwrap();
    assert_eq!(tenors.len(), 2);
    assert!(tenors.iter().all(|a| a.member == s("bob@x.org") || a.member == s("carol@x.org")));
    // Everyone else is denied.
    let r = st.get_attendance(1, &s("dave@x.org"));
    assert_eq!(r, Err(Error::Forbidden(s("view-attendance"))));
}

#[test]
fn get_events_pairs_the_members_own_attendance() {
    let mut st = flow_store();
    assert_eq!(st.rsvp_for_event(1, &s("bob@x.org"), true), Ok(()));
    let for_bob = st.get_events(&s("bob@x.org"));
    assert_eq!(for_bob.len(), 1);
    assert_eq!(for_bob[0].0.id, 1);
    let bobs_record = for_bob[0].1.as_ref().unwrap();
    assert_eq!(bobs_record.rsvp, Some(true));
    // Carol never interacted with the event.
    let for_carol = st.get_events(&s("carol@x.org"));
    assert_eq!(for_carol.len(), 1);
    assert!(for_carol[0].1.is_none());
}

#[test]
fn see_whos_attending_lists_the_event_rows() {
    let mut st = flow_store();
    assert_eq!(st.rsvp_for_event(1, &s("bob@x.org"), true), Ok(()));
    let rows = st.see_whos_attending(1);
    assert_eq!(rows.len(), 1);
    assert_eq!(rows[0].member, s("bob@x.org"));
    assert!(st.see_whos_attending(2).is_empty());
}

#[test]
fn excuse_unconfirmed_scenario() {
    let mut st = flow_store();
    // Bob is confirmed.
    assert_eq!(st.rsvp_for_event(1, &s("bob@x.org"), true), Ok(()));
    assert_eq!(st.confirm_for_event(1, &s("bob@x.org")), Ok(()));
    // Carol holds an approved absence request.
    assert_eq!(st.submit_absence_request(1, &s("carol@x.org"), &s("away")), Ok(()));
    assert_eq!(st.approve_absence_request(1, &s("carol@x.org"), &s("alice@x.org")), Ok(()));
    // Dave never responded and has no record at all.
    assert_eq!(st.excuse_unconfirmed_for_event(1, &s("alice@x.org")), Ok(()));
    let bob = st.get_member_attendance(1, &s("bob@x.org"), &s("alice@x.org")).unwrap();
    assert!(bob.confirmed && !bob.excused);
    let carol = st.get_member_attendance(1, &s("carol@x.org"), &s("alice@x.org")).unwrap();
    assert!(!carol.excused);
    assert!(st.member_is_excused(1, &s("carol@x.org")));
    let dave = st.get_member_attendance(1, &s("dave@x.org"), &s("alice@x.org")).unwrap();
    assert!(dave.excused && !dave.confirmed);
}

#[test]
fn excuse_unconfirmed_without_permission_changes_nothing() {
    let mut st = flow_store();
    assert_eq!(st.rsvp_for_event(1, &s("dave@x.org"), true), Ok(()));
    let snapshot = st.attendance.clone();
    let r = st.excuse_unconfirmed_for_event(1, &s("carol@x.org"));
    assert_eq!(r, Err(Error::Forbidden(s("edit-attendance"))));
    assert_eq!(st.attendance, snapshot);
}
