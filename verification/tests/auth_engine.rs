use grease::auth::{check, check_own_section, require};
use grease::catalog::{
    Catalog, EventType, Member, MemberRole, Role, RolePermission, Scope, SectionType,
};
use grease::error::Error;

fn s(x: &str) -> String {
    x.to_string()
}

fn sample_catalog() -> Catalog {
    Catalog {
        members: vec![
            Member { email: s("alice@x.org"), first_name: s("Alice"), last_name: s("Adams") },
            Member { email: s("bob@x.org"), first_name: s("Bob"), last_name: s("Brown") },
            Member { email: s("carol@x.org"), first_name: s("Carol"), last_name: s("Clark") },
        ],
        roles: vec![
            Role { name: s("president"), rank: 1, max_quantity: 1 },
            Role { name: s("section-leader"), rank: 2, max_quantity: 4 },
        ],
        member_roles: vec![
            MemberRole { member: s("alice@x.org"), role: s("president") },
            MemberRole { member: s("bob@x.org"), role: s("section-leader") },
        ],
        role_permissions: vec![
            RolePermission {
                role: s("president"),
                permission: s("edit-attendance"),
                scope: Scope::General,
            },
            RolePermission {
                role: s("section-leader"),
                permission: s("edit-attendance-own-section"),
                scope: Scope::Scoped(s("rehearsal")),
            },
        ],
        event_types: vec![EventType { name: s("rehearsal") }, EventType { name: s("gig") }],
        section_types: vec![SectionType { name: s("tenor1") }, SectionType { name: s("bass") }],
    }
}

#[test]
fn check_is_exact_over_grants() {
    let cat = sample_catalog();
    // A general grant matches with and without a requested scope.
    assert!(check(&cat, &s("alice@x.org"), &s("edit-attendance"), None));
    assert!(check(&cat, &s("alice@x.org"), &s("edit-attendance"), Some(&s("gig"))));
    // A scoped grant matches only its own scope.
    let own = s("edit-attendance-own-section");
    assert!(check(&cat, &s("bob@x.org"), &own, Some(&s("rehearsal"))));
    assert!(!check(&cat, &s("bob@x.org"), &own, Some(&s("gig"))));
    assert!(!check(&cat, &s("bob@x.org"), &own, None));
    // No grant, no authorization.
    assert!(!check(&cat, &s("carol@x.org"), &s("edit-attendance"), None));
    assert!(!check(&cat, &s("alice@x.org"), &s("process-gig-requests"), None));
    assert!(!check(&cat, &s("nobody@x.org"), &s("edit-attendance"), None));
}

#[test]
fn general_grant_covers_every_scope() {
    let cat = sample_catalog();
    for scope in [None, Some(s("rehearsal")), Some(s("gig")), Some(s("volunteer"))] {
        assert!(check(&cat, &s("alice@x.org"), &s("edit-attendance"), scope.as_ref()));
    }
}

#[test]
fn scoped_grant_does_not_widen() {
    let cat = sample_catalog();
    // The type-scoped grant gives nothing at an unspecified scope.
    assert!(!check(&cat, &s("bob@x.org"), &s("edit-attendance-own-section"), None));
    // Nor does it leak onto the base permission name.
    assert!(!check(&cat, &s("bob@x.org"), &s("edit-attendance"), Some(&s("rehearsal"))));
}

#[test]
fn own_section_carveout_requires_equal_sections() {
    let cat = sample_catalog();
    let own = s("edit-attendance-own-section");
    let rehearsal = s("rehearsal");
    let tenor = s("tenor1");
    let bass = s("bass");
    assert!(check_own_section(
        &cat,
        &s("bob@x.org"),
        &own,
        Some(&rehearsal),
        Some(&tenor),
        Some(&tenor),
    ));
    // Denied across sections even though the variant permission is granted.
    assert!(!check_own_section(
        &cat,
        &s("bob@x.org"),
        &own,
        Some(&rehearsal),
        Some(&tenor),
        Some(&bass),
    ));
    // Denied without the variant permission even with equal sections.
    assert!(!check_own_section(
        &cat,
        &s("carol@x.org"),
        &own,
        Some(&rehearsal),
        Some(&tenor),
        Some(&tenor),
    ));
    // An unsectioned principal matches an unsectioned target.
    assert!(check_own_section(&cat, &s("bob@x.org"), &own, Some(&rehearsal), None, None));
    assert!(!check_own_section(&cat, &s("bob@x.org"), &own, Some(&rehearsal), None, Some(&tenor)));
}

#[test]
fn require_reports_the_permission_name() {
    let cat = sample_catalog();
    assert_eq!(require(&cat, &s("alice@x.org"), &s("edit-attendance"), None), Ok(()));
    let denied = require(&cat, &s("bob@x.org"), &s("edit-attendance"), None);
    assert_eq!(denied, Err(Error::Forbidden(s("edit-attendance"))));
}

#[test]
fn enable_grants_and_is_idempotent() {
    let mut cat = sample_catalog();
    let before = cat.role_permissions.len();
    RolePermission::enable(&mut cat, &s("president"), &s("delete-event"), &Some(s("gig")));
    assert_eq!(cat.role_permissions.len(), before + 1);
    assert!(check(&cat, &s("alice@x.org"), &s("delete-event"), Some(&s("gig"))));
    RolePermission::enable(&mut cat, &s("president"), &s("delete-event"), &Some(s("gig")));
    assert_eq!(cat.role_permissions.len(), before + 1);
}

#[test]
fn disable_removes_exactly_the_triple() {
    let mut cat = sample_catalog();
    RolePermission::disable(
        &mut cat,
        &s("section-leader"),
        &s("edit-attendance-own-section"),
        &Some(s("rehearsal")),
    );
    assert!(!check(
        &cat,
        &s("bob@x.org"),
        &s("edit-attendance-own-section"),
        Some(&s("rehearsal")),
    ));
    // The unrelated general grant stays.
    assert!(check(&cat, &s("alice@x.org"), &s("edit-attendance"), None));
    assert_eq!(cat.role_permissions.len(), 1);
    // Disabling with the wrong scope removes nothing.
    RolePermission::disable(&mut cat, &s("president"), &s("edit-attendance"), &Some(s("gig")));
    assert_eq!(cat.role_permissions.len(), 1);
}

#[test]
fn member_roles_come_out_by_rank() {
    let cat = sample_catalog();
    let pairs = MemberRole::load_all(&cat);
    assert_eq!(pairs.len(), 2);
    assert_eq!(pairs[0].0.email, s("alice@x.org"));
    assert_eq!(pairs[0].1.name, s("president"));
    assert_eq!(pairs[1].0.email, s("bob@x.org"));
    assert_eq!(pairs[1].1.rank, 2);
}
