//! The authorization engine: whether a principal may perform a named action,
//! given general and type-scoped grants and the own-section carve-out.

use vstd::prelude::*;

use crate::catalog::{scope_view, Catalog, RolePermission};
use crate::error::{forbids, Error};
use crate::util::opt_ref_view;

verus! {

/// The grant matches the request: same permission name, and either the grant
/// is general or its scope equals the requested one. A general grant matches
/// every requested scope; a type-scoped grant never matches a request made
/// with no scope.
pub open spec fn grant_matches(
    g: RolePermission,
    permission: Seq<char>,
    scope: Option<Seq<char>>,
) -> bool {
    &&& g.permission@ == permission
    &&& (g.scope is General || scope_view(g.scope) == scope)
}

/// Row `i` of the member-role table gives `member` a role whose grant at row
/// `j` of the grant table matches the request.
pub open spec fn role_grant_matches(
    cat: Catalog,
    i: int,
    j: int,
    member: Seq<char>,
    permission: Seq<char>,
    scope: Option<Seq<char>>,
) -> bool {
    &&& 0 <= i < cat.member_roles@.len()
    &&& 0 <= j < cat.role_permissions@.len()
    &&& cat.member_roles@[i].member@ == member
    &&& cat.role_permissions@[j].role@ == cat.member_roles@[i].role@
    &&& grant_matches(cat.role_permissions@[j], permission, scope)
}

/// The member holds a role with a grant matching the request: the request is
/// authorized if and only if this holds.
pub open spec fn authorized(
    cat: Catalog,
    member: Seq<char>,
    permission: Seq<char>,
    scope: Option<Seq<char>>,
) -> bool {
    exists|i: int, j: int| #[trigger] role_grant_matches(cat, i, j, member, permission, scope)
}

/// The member holds a general (unscoped) grant for the permission.
pub open spec fn holds_general_grant(cat: Catalog, member: Seq<char>, permission: Seq<char>) -> bool {
    authorized(cat, member, permission, None)
}

/// The own-section carve-out: the narrower "-own-section" variant is granted
/// and the principal's section equals the target member's section.
pub open spec fn own_section_authorized(
    cat: Catalog,
    member: Seq<char>,
    own_permission: Seq<char>,
    scope: Option<Seq<char>>,
    principal_section: Option<Seq<char>>,
    target_section: Option<Seq<char>>,
) -> bool {
    &&& authorized(cat, member, own_permission, scope)
    &&& principal_section == target_section
}

/// Decide whether `member` may perform `permission` at the requested scope:
/// true exactly when some role the member holds carries a grant for that
/// permission that is general or scoped to the requested event type.
#[verifier::loop_isolation(false)]
pub fn check(cat: &Catalog, member: &String, permission: &String, scope: Option<&String>) -> (r:
    bool)
    ensures
        r == authorized(*cat, member@, permission@, opt_ref_view(scope)),
{
    let n = cat.member_roles.len();
    for i in 0..n
        invariant
            n == cat.member_roles@.len(),
            forall|i2: int, j2: int|
                0 <= i2 < i ==> !#[trigger] role_grant_matches(
                    *cat,
                    i2,
                    j2,
                    member@,
                    permission@,
                    opt_ref_view(scope),
                ),
    {
        let mr = &cat.member_roles[i];
        if *member == mr.member {
            let m = cat.role_permissions.len();
            for j in 0..m
                invariant
                    n == cat.member_roles@.len(),
                    m == cat.role_permissions@.len(),
                    0 <= i < n,
                    cat.member_roles@[i as int].member@ == member@,
                    forall|i2: int, j2: int|
                        0 <= i2 < i ==> !#[trigger] role_grant_matches(
                            *cat,
                            i2,
                            j2,
                            member@,
                            permission@,
                            opt_ref_view(scope),
                        ),
                    forall|j2: int|
                        0 <= j2 < j ==> !role_grant_matches(
                            *cat,
                            i as int,
                            j2,
                            member@,
                            permission@,
                            opt_ref_view(scope),
                        ),
            {
                let g = &cat.role_permissions[j];
                if g.role == mr.role && g.permission == *permission {
                    let scope_ok = match (&g.scope, scope) {
                        (crate::catalog::Scope::General, _) => true,
                        (crate::catalog::Scope::Scoped(t), Some(s)) => *t == *s,
                        (crate::catalog::Scope::Scoped(_), None) => false,
                    };
                    if scope_ok {
                        proof {
                            assert(role_grant_matches(
                                *cat,
                                i as int,
                                j as int,
                                member@,
                                permission@,
                                opt_ref_view(scope),
                            ));
                        }
                        return true;
                    }
                }
            }
        }
    }
    false
}

/// As `check`, but for callers that must abort on denial: `Ok` exactly when
/// authorized, and otherwise a `Forbidden` outcome carrying the permission
/// name that was being checked.
pub fn require(cat: &Catalog, member: &String, permission: &String, scope: Option<&String>) -> (r:
    Result<(), Error>)
    ensures
        r is Ok <==> authorized(*cat, member@, permission@, opt_ref_view(scope)),
        r matches Err(e) ==> forbids(e, permission@),
{
    if check(cat, member, permission, scope) {
        Ok(())
    } else {
        Err(Error::Forbidden(permission.clone()))
    }
}

/// Decide the own-section carve-out: authorized exactly when the
/// "-own-section" variant is granted at the requested scope and the
/// principal's section equals the target member's section.
pub fn check_own_section(
    cat: &Catalog,
    member: &String,
    own_permission: &String,
    scope: Option<&String>,
    principal_section: Option<&String>,
    target_section: Option<&String>,
) -> (r: bool)
    ensures
        r == own_section_authorized(
            *cat,
            member@,
            own_permission@,
            opt_ref_view(scope),
            opt_ref_view(principal_section),
            opt_ref_view(target_section),
        ),
{
    let sections_match = crate::util::opt_string_eq(principal_section, target_section);
    sections_match && check(cat, member, own_permission, scope)
}

/// A principal holding a general grant for a permission is authorized for it
/// at every scope, including an unspecified one.
pub proof fn lemma_general_grant_authorizes_all_scopes(
    cat: Catalog,
    member: Seq<char>,
    permission: Seq<char>,
    scope: Option<Seq<char>>,
)
    requires
        holds_general_grant(cat, member, permission),
    ensures
        authorized(cat, member, permission, scope),
{
    let (i, j): (int, int) = choose|i: int, j: int|
        #[trigger] role_grant_matches(cat, i, j, member, permission, None);
    assert(cat.role_permissions@[j].scope is General);
    assert(role_grant_matches(cat, i, j, member, permission, scope));
}

/// The own-section carve-out never widens access across sections: when the
/// principal's and the target's sections differ, it denies, even though the
/// "-own-section" variant is granted.
pub proof fn lemma_own_section_denied_across_sections(
    cat: Catalog,
    member: Seq<char>,
    own_permission: Seq<char>,
    scope: Option<Seq<char>>,
    principal_section: Option<Seq<char>>,
    target_section: Option<Seq<char>>,
)
    requires
        principal_section != target_section,
    ensures
        !own_section_authorized(
            cat,
            member,
            own_permission,
            scope,
            principal_section,
            target_section,
        ),
{
}

} // verus!
