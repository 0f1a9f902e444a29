use grease::absence::AbsenceRequestStatus;
use grease::catalog::{
    Catalog, EventType, Member, MemberRole, Role, RolePermission, Scope, SectionType,
};
use grease::error::Error;
use grease::event::Event;
use grease::store::{ActiveSemester, Enrollment, Store};

fn s(x: &str) -> String {
    x.to_string()
}

fn absence_store() -> Store {
    Store {
        catalog: Catalog {
            members: vec![
                Member { email: s("alice@x.org"), first_name: s("Alice"), last_name: s("Adams") },
                Member { email: s("bob@x.org"), first_name: s("Bob"), last_name: s("Brown") },
            ],
            roles: vec![Role { name: s("president"), rank: 1, max_quantity: 1 }],
            member_roles: vec![MemberRole { member: s("alice@x.org"), role: s("president") }],
            role_permissions: vec![RolePermission {
                role: s("president"),
                permission: s("process-absence-requests"),
                scope: Scope::General,
            }],
            event_types: vec![EventType { name: s("rehearsal") }],
            section_types: vec![SectionType { name: s("tenor1") }],
        },
        current_semester: s("fall"),
        active_semesters: vec![ActiveSemester {
            member: s("bob@x.org"),
            semester: s("fall"),
            section: Some(s("tenor1")),
            enrollment: Enrollment::Club,
        }],
        events: vec![
            Event {
                id: 1,
                name: s("Weekly Rehearsal"),
                semester: s("fall"),
                type_: s("rehearsal"),
                call_time: 1000,
            },
            Event {
                id: 2,
                name: s("Old Rehearsal"),
                semester: s("spring"),
                type_: s("rehearsal"),
                call_time: 500,
            },
        ],
        attendance: vec![],
        absence_requests: vec![],
        gig_requests: vec![],
        gig_songs: vec![],
        todos: vec![],
        variables: vec![],
        next_id: 3,
    }
}

#[test]
fn submitting_twice_for_the_same_pair_fails() {
    let mut st = absence_store();
    assert_eq!(st.submit_absence_request(1, &s("bob@x.org"), &s("sick")), Ok(()));
    let r = st.submit_absence_request(1, &s("bob@x.org"), &s("still sick"));
    assert!(matches!(r, Err(Error::BadRequest(_))));
    assert_eq!(st.absence_requests.len(), 1);
    assert_eq!(st.absence_requests[0].reason, s("sick"));
}

#[test]
fn deciding_requires_the_general_permission() {
    let mut st = absence_store();
    assert_eq!(st.submit_absence_request(1, &s("bob@x.org"), &s("sick")), Ok(()));
    let r = st.approve_absence_request(1, &s("bob@x.org"), &s("bob@x.org"));
    assert_eq!(r, Err(Error::Forbidden(s("process-absence-requests"))));
    assert_eq!(st.absence_requests[0].status, AbsenceRequestStatus::Pending);
}

#[test]
fn a_decision_is_terminal() {
    let mut st = absence_store();
    assert_eq!(st.submit_absence_request(1, &s("bob@x.org"), &s("sick")), Ok(()));
    assert_eq!(st.approve_absence_request(1, &s("bob@x.org"), &s("alice@x.org")), Ok(()));
    assert_eq!(st.absence_requests[0].status, AbsenceRequestStatus::Approved);
    let r = st.approve_absence_request(1, &s("bob@x.org"), &s("alice@x.org"));
    assert!(matches!(r, Err(Error::BadRequest(_))));
    let r = st.deny_absence_request(1, &s("bob@x.org"), &s("alice@x.org"));
    assert!(matches!(r, Err(Error::BadRequest(_))));
    assert_eq!(st.absence_requests[0].status, AbsenceRequestStatus::Approved);
}

#[test]
fn denying_keeps_the_member_unexcused() {
    let mut st = absence_store();
    assert_eq!(st.submit_absence_request(1, &s("bob@x.org"), &s("sick")), Ok(()));
    assert_eq!(st.deny_absence_request(1, &s("bob@x.org"), &s("alice@x.org")), Ok(()));
    assert_eq!(st.absence_requests[0].status, AbsenceRequestStatus::Denied);
    assert!(!st.member_is_excused(1, &s("bob@x.org")));
}

#[test]
fn deciding_a_missing_request_is_not_found() {
    let mut st = absence_store();
    let r = st.approve_absence_request(1, &s("bob@x.org"), &s("alice@x.org"));
    assert!(matches!(r, Err(Error::NotFound(_))));
}

#[test]
fn member_is_excused_tracks_approval() {
    let mut st = absence_store();
    assert!(!st.member_is_excused(1, &s("bob@x.org")));
    assert_eq!(st.submit_absence_request(1, &s("bob@x.org"), &s("sick")), Ok(()));
    assert!(!st.member_is_excused(1, &s("bob@x.org")));
    assert_eq!(st.approve_absence_request(1, &s("bob@x.org"), &s("alice@x.org")), Ok(()));
    assert!(st.member_is_excused(1, &s("bob@x.org")));
}

#[test]
fn own_request_is_readable_without_permission() {
    let mut st = absence_store();
    let r = st.get_absence_request(1, &s("bob@x.org"));
    assert!(matches!(r, Err(Error::NotFound(_))));
    assert_eq!(st.submit_absence_request(1, &s("bob@x.org"), &s("sick")), Ok(()));
    let q = st.get_absence_request(1, &s("bob@x.org")).unwrap();
    assert_eq!(q.reason, s("sick"));
    assert_eq!(q.status, AbsenceRequestStatus::Pending);
}

#[test]
fn listing_requests_filters_by_current_semester() {
    let mut st = absence_store();
    assert_eq!(st.submit_absence_request(1, &s("bob@x.org"), &s("sick")), Ok(()));
    assert_eq!(st.submit_absence_request(2, &s("bob@x.org"), &s("long ago")), Ok(()));
    let r = st.get_absence_requests(&s("bob@x.org"));
    assert_eq!(r, Err(Error::Forbidden(s("process-absence-requests"))));
    let listed = st.get_absence_requests(&s("alice@x.org")).unwrap();
    assert_eq!(listed.len(), 1);
    assert_eq!(listed[0].event, 1);
}
