use grease::catalog::{
    Catalog, EventType, Member, MemberRole, Role, RolePermission, Scope, SectionType,
};
use grease::error::Error;
use grease::event::{week_bounds, Event, NewEvent};
use grease::setlist::{GigSong, NewGigSong};
use grease::store::Store;
use grease::todo::{NewTodo, Todo};
use grease::uniform::Uniform;
use grease::upload::FileUpload;
use grease::variable::Variable;

fn s(x: &str) -> String {
    x.to_string()
}

fn misc_store() -> Store {
    Store {
        catalog: Catalog {
            members: vec![
                Member { email: s("alice@x.org"), first_name: s("Alice"), last_name: s("Adams") },
                Member { email: s("carol@x.org"), first_name: s("Carol"), last_name: s("Clark") },
            ],
            roles: vec![Role { name: s("president"), rank: 1, max_quantity: 1 }],
            member_roles: vec![MemberRole { member: s("alice@x.org"), role: s("president") }],
            role_permissions: vec![
                RolePermission {
                    role: s("president"),
                    permission: s("create-event"),
                    scope: Scope::General,
                },
                RolePermission {
                    role: s("president"),
                    permission: s("modify-event"),
                    scope: Scope::Scoped(s("rehearsal")),
                },
                RolePermission {
                    role: s("president"),
                    permission: s("delete-event"),
                    scope: Scope::Scoped(s("rehearsal")),
                },
                RolePermission {
                    role: s("president"),
                    permission: s("edit-carpool"),
                    scope: Scope::General,
                },
            ],
            event_types: vec![EventType { name: s("rehearsal") }, EventType { name: s("gig") }],
            section_types: vec![SectionType { name: s("tenor1") }],
        },
        current_semester: s("fall"),
        active_semesters: vec![],
        events: vec![],
        attendance: vec![],
        absence_requests: vec![],
        gig_requests: vec![],
        gig_songs: vec![],
        todos: vec![],
        variables: vec![],
        next_id: 1,
    }
}

fn rehearsal_form(name: &str, call_time: i64) -> NewEvent {
    NewEvent { name: s(name), semester: s("fall"), type_: s("rehearsal"), call_time }
}

#[test]
fn new_event_requires_create_permission() {
    let mut st = misc_store();
    let r = st.new_event(&rehearsal_form("First", 100), &s("carol@x.org"));
    assert_eq!(r, Err(Error::Forbidden(s("create-event"))));
    assert!(st.events.is_empty());
    let id = st.new_event(&rehearsal_form("First", 100), &s("alice@x.org")).unwrap();
    assert_eq!(id, 1);
    assert_eq!(st.get_event(id).unwrap().name, s("First"));
}

#[test]
fn update_event_rewrites_the_record() {
    let mut st = misc_store();
    let id = st.new_event(&rehearsal_form("First", 100), &s("alice@x.org")).unwrap();
    let r = st.update_event(id, &rehearsal_form("Renamed", 150), &s("carol@x.org"));
    assert_eq!(r, Err(Error::Forbidden(s("modify-event"))));
    assert_eq!(st.update_event(id, &rehearsal_form("Renamed", 150), &s("alice@x.org")), Ok(()));
    let e = st.get_event(id).unwrap();
    assert_eq!(e.name, s("Renamed"));
    assert_eq!(e.call_time, 150);
    let r = st.update_event(99, &rehearsal_form("Ghost", 1), &s("alice@x.org"));
    assert!(matches!(r, Err(Error::NotFound(_))));
}

#[test]
fn delete_event_removes_the_record() {
    let mut st = misc_store();
    let id = st.new_event(&rehearsal_form("First", 100), &s("alice@x.org")).unwrap();
    let r = st.delete_event(id, &s("carol@x.org"));
    assert_eq!(r, Err(Error::Forbidden(s("delete-event"))));
    assert_eq!(st.delete_event(id, &s("alice@x.org")), Ok(()));
    assert!(matches!(st.get_event(id), Err(Error::NotFound(_))));
}

#[test]
fn get_events_sorts_by_call_time_within_the_semester() {
    let mut st = misc_store();
    st.events = vec![
        Event { id: 1, name: s("Late"), semester: s("fall"), type_: s("rehearsal"), call_time: 300 },
        Event { id: 2, name: s("Other"), semester: s("spring"), type_: s("rehearsal"), call_time: 10 },
        Event { id: 3, name: s("Early"), semester: s("fall"), type_: s("rehearsal"), call_time: 100 },
        Event { id: 4, name: s("Middle"), semester: s("fall"), type_: s("gig"), call_time: 200 },
    ];
    st.next_id = 5;
    let listed = st.get_events(&s("alice@x.org"));
    let names: Vec<String> = listed.iter().map(|(e, _)| e.name.clone()).collect();
    assert_eq!(names, vec![s("Early"), s("Middle"), s("Late")]);
    // Alice never interacted with any of them.
    assert!(listed.iter().all(|(_, a)| a.is_none()));
}

#[test]
fn week_bounds_wrap_the_epoch_thursday() {
    // 1970-01-01 was a Thursday: the week starts three days earlier.
    let (start, end) = week_bounds(0);
    assert_eq!(start, -3 * 86400);
    assert_eq!(end, start + 7 * 86400);
    // A Monday midnight starts its own week.
    let monday = 4 * 86400;
    let (start, end) = week_bounds(monday);
    assert_eq!(start, monday);
    assert_eq!(end, monday + 7 * 86400);
}

#[test]
fn events_between_is_a_strict_window() {
    let mut st = misc_store();
    st.events = vec![
        Event { id: 1, name: s("At start"), semester: s("fall"), type_: s("gig"), call_time: 100 },
        Event { id: 2, name: s("Inside"), semester: s("fall"), type_: s("gig"), call_time: 150 },
        Event { id: 3, name: s("At end"), semester: s("fall"), type_: s("gig"), call_time: 200 },
        Event { id: 4, name: s("Elsewhere"), semester: s("spring"), type_: s("gig"), call_time: 150 },
    ];
    st.next_id = 5;
    let inside = st.events_between(100, 200);
    assert_eq!(inside.len(), 1);
    assert_eq!(inside[0].name, s("Inside"));
}

#[test]
fn edit_setlist_replaces_and_renumbers() {
    let mut st = misc_store();
    let id = st.new_event(&rehearsal_form("First", 100), &s("alice@x.org")).unwrap();
    st.gig_songs = vec![
        GigSong { event: id, song: 40, order: 1 },
        GigSong { event: 77, song: 50, order: 1 },
    ];
    let new_list = vec![NewGigSong { song: 10 }, NewGigSong { song: 20 }];
    assert_eq!(st.edit_setlist(id, &new_list, &s("alice@x.org")), Ok(()));
    let songs = st.get_setlist(id);
    assert_eq!(songs.len(), 2);
    assert_eq!((songs[0].song, songs[0].order), (10, 1));
    assert_eq!((songs[1].song, songs[1].order), (20, 2));
    // The other event's setlist is untouched.
    let other = st.get_setlist(77);
    assert_eq!(other.len(), 1);
    assert_eq!(other[0].song, 50);
}

#[test]
fn edit_setlist_without_permission_changes_nothing() {
    let mut st = misc_store();
    let id = st.new_event(&rehearsal_form("First", 100), &s("alice@x.org")).unwrap();
    st.gig_songs = vec![GigSong { event: id, song: 40, order: 1 }];
    let snapshot = st.gig_songs.clone();
    let r = st.edit_setlist(id, &vec![NewGigSong { song: 10 }], &s("carol@x.org"));
    assert_eq!(r, Err(Error::Forbidden(s("edit-carpool"))));
    assert_eq!(st.gig_songs, snapshot);
}

#[test]
fn todo_fanout_creates_one_entry_per_member() {
    let mut st = misc_store();
    let batch = NewTodo { text: s("Pay dues"), members: vec![s("alice@x.org"), s("carol@x.org")] };
    assert_eq!(Todo::create(&mut st, &batch), Ok(()));
    assert_eq!(st.todos.len(), 2);
    assert_eq!(st.todos[0].member, s("alice@x.org"));
    assert_eq!(st.todos[1].member, s("carol@x.org"));
    assert_eq!(st.todos[0].id + 1, st.todos[1].id);
    assert!(st.todos.iter().all(|t| !t.completed && t.text == s("Pay dues")));
}

#[test]
fn todo_fanout_is_all_or_nothing() {
    let mut st = misc_store();
    st.next_id = i32::MAX - 1;
    let batch = NewTodo {
        text: s("Pay dues"),
        members: vec![s("a@x.org"), s("b@x.org"), s("c@x.org")],
    };
    let r = Todo::create(&mut st, &batch);
    assert!(matches!(r, Err(Error::ServerError(_))));
    // No partial fan-out is observable.
    assert!(st.todos.is_empty());
    assert_eq!(st.next_id, i32::MAX - 1);
}

#[test]
fn todo_completion_and_member_listing() {
    let mut st = misc_store();
    let batch = NewTodo { text: s("Pay dues"), members: vec![s("alice@x.org"), s("carol@x.org")] };
    assert_eq!(Todo::create(&mut st, &batch), Ok(()));
    let first = st.todos[0].id;
    assert!(Todo::load_all_for_member(&st, &s("alice@x.org")).is_empty());
    assert_eq!(Todo::mark_complete(&mut st, first), Ok(()));
    let done = Todo::load_all_for_member(&st, &s("alice@x.org"));
    assert_eq!(done.len(), 1);
    assert!(done[0].completed);
    assert_eq!(Todo::load(&st, first).unwrap().completed, true);
    assert!(matches!(Todo::mark_complete(&mut st, 999), Err(Error::NotFound(_))));
}

#[test]
fn variables_upsert_and_unset() {
    let mut st = misc_store();
    assert_eq!(Variable::load(&st, &s("greeting")), None);
    assert_eq!(Variable::set(&mut st, s("greeting"), s("hello")), None);
    assert_eq!(Variable::set(&mut st, s("greeting"), s("howdy")), Some(s("hello")));
    let v = Variable::load(&st, &s("greeting")).unwrap();
    assert_eq!(v.value, s("howdy"));
    assert_eq!(Variable::unset(&mut st, &s("greeting")), Some(s("howdy")));
    assert_eq!(Variable::unset(&mut st, &s("greeting")), None);
    assert!(st.variables.is_empty());
}

#[test]
fn color_validation_accepts_only_the_pattern() {
    assert_eq!(Uniform::validate_color(&None), Ok(()));
    assert_eq!(Uniform::validate_color(&Some(s("#abc"))), Ok(()));
    assert_eq!(Uniform::validate_color(&Some(s("#A1_"))), Ok(()));
    assert!(matches!(Uniform::validate_color(&Some(s("#ab"))), Err(Error::BadRequest(_))));
    assert!(matches!(Uniform::validate_color(&Some(s("#abcd"))), Err(Error::BadRequest(_))));
    assert!(matches!(Uniform::validate_color(&Some(s("abcd"))), Err(Error::BadRequest(_))));
    assert!(matches!(Uniform::validate_color(&Some(s("#a c"))), Err(Error::BadRequest(_))));
}

#[test]
fn upload_preparation_decodes_and_names() {
    let up = FileUpload { path: s("music/tune.mp3"), content: s("aGVsbG8=") };
    let (bytes, name) = up.prepare().unwrap();
    assert_eq!(bytes, b"hello".to_vec());
    assert_eq!(name, s("tune.mp3"));
    let bad = FileUpload { path: s("music/tune.mp3"), content: s("!!!not base64!!!") };
    assert!(matches!(bad.prepare(), Err(Error::BadRequest(_))));
    let no_name = FileUpload { path: s("music/"), content: s("aGVsbG8=") };
    assert!(matches!(no_name.prepare(), Err(Error::BadRequest(_))));
    let no_extension = FileUpload { path: s("music/tune"), content: s("aGVsbG8=") };
    assert!(matches!(no_extension.prepare(), Err(Error::BadRequest(_))));
}

#[test]
fn well_formedness_is_decidable_at_run_time() {
    let st = misc_store();
    assert!(st.is_well_formed());
    assert!(st.catalog.is_well_formed());
    // A duplicated event id breaks it.
    let mut broken = misc_store();
    let e = Event { id: 1, name: s("One"), semester: s("fall"), type_: s("gig"), call_time: 1 };
    broken.events = vec![e.clone(), e];
    broken.next_id = 2;
    assert!(!broken.is_well_formed());
    // An id at or above the counter breaks it.
    let mut stale = misc_store();
    stale.events =
        vec![Event { id: 7, name: s("One"), semester: s("fall"), type_: s("gig"), call_time: 1 }];
    stale.next_id = 7;
    assert!(!stale.is_well_formed());
    // A member-role row pointing at a missing role breaks the catalog.
    let mut dangling = misc_store();
    dangling.catalog.member_roles.push(MemberRole { member: s("alice@x.org"), role: s("ghost") });
    assert!(!dangling.catalog.is_well_formed());
}

#[test]
fn event_and_section_types_read_back() {
    let st = misc_store();
    let types = st.get_event_types();
    assert_eq!(types.len(), 2);
    assert_eq!(types[0].name, s("rehearsal"));
    assert_eq!(st.get_section_types()[0].name, s("tenor1"));
}
