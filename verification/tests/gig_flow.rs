use grease::catalog::{
    Catalog, EventType, Member, MemberRole, Role, RolePermission, Scope, SectionType,
};
use grease::error::Error;
use grease::event::NewEvent;
use grease::gig::{GigRequest, GigRequestStatus, NewGigRequest};
use grease::store::Store;

fn s(x: &str) -> String {
    x.to_string()
}

fn gig_store() -> Store {
    Store {
        catalog: Catalog {
            members: vec![
                Member { email: s("alice@x.org"), first_name: s("Alice"), last_name: s("Adams") },
                Member { email: s("carol@x.org"), first_name: s("Carol"), last_name: s("Clark") },
            ],
            roles: vec![Role { name: s("president"), rank: 1, max_quantity: 1 }],
            member_roles: vec![MemberRole { member: s("alice@x.org"), role: s("president") }],
            role_permissions: vec![RolePermission {
                role: s("president"),
                permission: s("process-gig-requests"),
                scope: Scope::General,
            }],
            event_types: vec![EventType { name: s("gig") }],
            section_types: vec![SectionType { name: s("tenor1") }],
        },
        current_semester: s("fall"),
        active_semesters: vec![],
        events: vec![],
        attendance: vec![],
        absence_requests: vec![],
        gig_requests: vec![],
        gig_songs: vec![],
        todos: vec![],
        variables: vec![],
        next_id: 1,
    }
}

fn wedding_form() -> NewGigRequest {
    NewGigRequest { name: s("Wedding"), description: s("An hour of song") }
}

fn gig_event_form() -> NewEvent {
    NewEvent { name: s("Wedding Gig"), semester: s("fall"), type_: s("gig"), call_time: 5000 }
}

#[test]
fn submissions_get_fresh_consecutive_ids() {
    let mut st = gig_store();
    let first = st.new_gig_request(&wedding_form(), 100).unwrap();
    let second = st.new_gig_request(&wedding_form(), 200).unwrap();
    assert_eq!(first, 1);
    assert_eq!(second, 2);
    assert_eq!(st.gig_requests.len(), 2);
    assert_eq!(st.gig_requests[0].status, GigRequestStatus::Pending);
    assert_eq!(st.gig_requests[0].semester, s("fall"));
    assert_eq!(st.gig_requests[0].time, 100);
}

#[test]
fn dismiss_and_reopen_cycle() {
    let mut st = gig_store();
    let id = st.new_gig_request(&wedding_form(), 100).unwrap();
    assert_eq!(st.dismiss_gig_request(id, &s("alice@x.org")), Ok(()));
    assert_eq!(
        st.get_gig_request(id, &s("alice@x.org")).unwrap().status,
        GigRequestStatus::Dismissed,
    );
    assert_eq!(st.reopen_gig_request(id, &s("alice@x.org")), Ok(()));
    assert_eq!(
        st.get_gig_request(id, &s("alice@x.org")).unwrap().status,
        GigRequestStatus::Pending,
    );
}

#[test]
fn status_changes_require_the_permission() {
    let mut st = gig_store();
    let id = st.new_gig_request(&wedding_form(), 100).unwrap();
    let r = st.dismiss_gig_request(id, &s("carol@x.org"));
    assert_eq!(r, Err(Error::Forbidden(s("process-gig-requests"))));
    let r = st.get_gig_request(id, &s("carol@x.org"));
    assert_eq!(r, Err(Error::Forbidden(s("process-gig-requests"))));
}

#[test]
fn converting_a_pending_request_succeeds_exactly_once() {
    let mut st = gig_store();
    let id = st.new_gig_request(&wedding_form(), 100).unwrap();
    let event_id = st
        .create_event_from_gig_request(id, &gig_event_form(), &s("alice@x.org"))
        .unwrap();
    let created = st.get_event(event_id).unwrap();
    assert_eq!(created.name, s("Wedding Gig"));
    let converted = st.get_gig_request(id, &s("alice@x.org")).unwrap();
    assert_eq!(converted.status, GigRequestStatus::Converted);
    assert_eq!(converted.event, Some(event_id));
    // A second conversion, a dismissal and a reopening are all rejected.
    let r = st.create_event_from_gig_request(id, &gig_event_form(), &s("alice@x.org"));
    assert!(matches!(r, Err(Error::BadRequest(_))));
    let r = st.dismiss_gig_request(id, &s("alice@x.org"));
    assert!(matches!(r, Err(Error::BadRequest(_))));
    let r = st.reopen_gig_request(id, &s("alice@x.org"));
    assert!(matches!(r, Err(Error::BadRequest(_))));
    assert_eq!(st.events.len(), 1);
}

#[test]
fn converting_a_dismissed_request_fails() {
    let mut st = gig_store();
    let id = st.new_gig_request(&wedding_form(), 100).unwrap();
    assert_eq!(st.dismiss_gig_request(id, &s("alice@x.org")), Ok(()));
    let snapshot = st.gig_requests.clone();
    let r = st.create_event_from_gig_request(id, &gig_event_form(), &s("alice@x.org"));
    assert!(matches!(r, Err(Error::BadRequest(_))));
    assert!(st.events.is_empty());
    assert_eq!(st.gig_requests, snapshot);
}

#[test]
fn converting_a_missing_request_is_not_found() {
    let mut st = gig_store();
    let r = st.create_event_from_gig_request(7, &gig_event_form(), &s("alice@x.org"));
    assert!(matches!(r, Err(Error::NotFound(_))));
}

#[test]
fn listing_keeps_current_semester_and_pending_elsewhere() {
    let mut st = gig_store();
    st.gig_requests = vec![
        GigRequest {
            id: 1,
            time: 30,
            semester: s("spring"),
            name: s("Old pending"),
            description: s(""),
            status: GigRequestStatus::Pending,
            event: None,
        },
        GigRequest {
            id: 2,
            time: 20,
            semester: s("spring"),
            name: s("Old dismissed"),
            description: s(""),
            status: GigRequestStatus::Dismissed,
            event: None,
        },
        GigRequest {
            id: 3,
            time: 10,
            semester: s("fall"),
            name: s("Current dismissed"),
            description: s(""),
            status: GigRequestStatus::Dismissed,
            event: None,
        },
    ];
    st.next_id = 4;
    // The default listing keeps the two and orders them by submission time.
    let recent = st.get_gig_requests(false, &s("alice@x.org")).unwrap();
    assert_eq!(recent.len(), 2);
    assert_eq!(recent[0].id, 3);
    assert_eq!(recent[1].id, 1);
    let everything = st.get_gig_requests(true, &s("alice@x.org")).unwrap();
    assert_eq!(everything.len(), 3);
}
