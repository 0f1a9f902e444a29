//! The permission catalog: members, roles, grants and the enumerated
//! event-type and section-type domains that grants are scoped over.

use vstd::prelude::*;

use crate::util::{lemma_filter_push, lemma_take_step, opt_str_view};

verus! {

/// A member's identity. The email is the unique key; which section a member
/// sings in is recorded per semester (see `ActiveSemester`).
#[derive(Debug, PartialEq, Eq, Clone)]
pub struct Member {
    pub email: String,
    pub first_name: String,
    pub last_name: String,
}

/// A named title with a rank (for ordering; not security-relevant) and a
/// maximum occupancy.
#[derive(Debug, PartialEq, Eq, Clone)]
pub struct Role {
    pub name: String,
    pub rank: i32,
    pub max_quantity: i32,
}

/// A member currently holding a role.
#[derive(Debug, PartialEq, Eq, Clone)]
pub struct MemberRole {
    pub member: String,
    pub role: String,
}

/// The scope of a grant: general (every event type) or one event type.
#[derive(Debug, PartialEq, Eq, Clone)]
pub enum Scope {
    General,
    Scoped(String),
}

/// A grant: the named role may perform the named permission, universally or
/// for one event type.
#[derive(Debug, PartialEq, Eq, Clone)]
pub struct RolePermission {
    pub role: String,
    pub permission: String,
    pub scope: Scope,
}

/// An event-type tag (rehearsal, gig, ...); the domain that grant scopes and
/// event records draw from.
#[derive(Debug, PartialEq, Eq, Clone)]
pub struct EventType {
    pub name: String,
}

/// A named section that members may be sorted into.
#[derive(Debug, PartialEq, Eq, Clone)]
pub struct SectionType {
    pub name: String,
}

/// The queryable set of members, roles and grants that the authorization
/// engine evaluates over.
pub struct Catalog {
    pub members: Vec<Member>,
    pub roles: Vec<Role>,
    pub member_roles: Vec<MemberRole>,
    pub role_permissions: Vec<RolePermission>,
    pub event_types: Vec<EventType>,
    pub section_types: Vec<SectionType>,
}

/// The view of a grant's scope: `None` for a general grant.
pub open spec fn scope_view(s: Scope) -> Option<Seq<char>> {
    match s {
        Scope::General => None,
        Scope::Scoped(t) => Some(t@),
    }
}

/// The scope that an optional event-type name denotes.
pub open spec fn scope_of_opt(o: Option<String>) -> Scope {
    match o {
        Some(t) => Scope::Scoped(t),
        None => Scope::General,
    }
}

/// The grant gives `role` the permission with exactly this scope.
pub open spec fn grant_triple_matches(
    g: RolePermission,
    role: Seq<char>,
    permission: Seq<char>,
    scope: Option<Seq<char>>,
) -> bool {
    &&& g.role@ == role
    &&& g.permission@ == permission
    &&& scope_view(g.scope) == scope
}

/// Some grant in the sequence carries exactly this (role, permission, scope)
/// triple.
pub open spec fn has_grant(
    grants: Seq<RolePermission>,
    role: Seq<char>,
    permission: Seq<char>,
    scope: Option<Seq<char>>,
) -> bool {
    exists|i: int|
        0 <= i < grants.len() && grant_triple_matches(#[trigger] grants[i], role, permission, scope)
}

/// No two members share an email.
pub open spec fn unique_member_emails(members: Seq<Member>) -> bool {
    forall|i: int, j: int|
        0 <= i < j < members.len() ==> (#[trigger] members[i]).email@ != (
        #[trigger] members[j]).email@
}

/// Some member carries this email.
pub open spec fn has_member(members: Seq<Member>, email: Seq<char>) -> bool {
    exists|i: int| 0 <= i < members.len() && (#[trigger] members[i]).email@ == email
}

/// The index of the member with this email (meaningful when emails are
/// unique and the email is present).
pub open spec fn member_index(members: Seq<Member>, email: Seq<char>) -> int {
    choose|i: int| 0 <= i < members.len() && (#[trigger] members[i]).email@ == email
}

/// No two roles share a name.
pub open spec fn unique_role_names(roles: Seq<Role>) -> bool {
    forall|i: int, j: int|
        0 <= i < j < roles.len() ==> (#[trigger] roles[i]).name@ != (#[trigger] roles[j]).name@
}

/// Some role carries this name.
pub open spec fn has_role(roles: Seq<Role>, name: Seq<char>) -> bool {
    exists|i: int| 0 <= i < roles.len() && (#[trigger] roles[i]).name@ == name
}

/// The index of the role with this name (meaningful when names are unique
/// and the name is present).
pub open spec fn role_index(roles: Seq<Role>, name: Seq<char>) -> int {
    choose|i: int| 0 <= i < roles.len() && (#[trigger] roles[i]).name@ == name
}

/// The member/role pairs the member-role table denotes, in stored order.
pub open spec fn officer_pairs(cat: Catalog) -> Seq<(Member, Role)> {
    cat.member_roles@.map_values(
        |mr: MemberRole|
            (
                cat.members@[member_index(cat.members@, mr.member@)],
                cat.roles@[role_index(cat.roles@, mr.role@)],
            ),
    )
}

/// The pairs come in ascending role rank.
pub open spec fn sorted_by_rank(pairs: Seq<(Member, Role)>) -> bool {
    forall|i: int, j: int|
        0 <= i < j < pairs.len() ==> (#[trigger] pairs[i]).1.rank <= (#[trigger] pairs[j]).1.rank
}

impl Member {
    /// An equal member value.
    pub fn cloned(&self) -> (r: Member)
        ensures
            r == *self,
    {
        Member {
            email: self.email.clone(),
            first_name: self.first_name.clone(),
            last_name: self.last_name.clone(),
        }
    }
}

impl Role {
    /// An equal role value.
    pub fn cloned(&self) -> (r: Role)
        ensures
            r == *self,
    {
        Role { name: self.name.clone(), rank: self.rank, max_quantity: self.max_quantity }
    }
}

impl Catalog {
    /// Referential soundness: emails and role names are unique keys and
    /// every member-role row points at an existing member and role.
    pub open spec fn wf(&self) -> bool {
        &&& unique_member_emails(self.members@)
        &&& unique_role_names(self.roles@)
        &&& forall|i: int|
            0 <= i < self.member_roles@.len() ==> has_member(
                self.members@,
                (#[trigger] self.member_roles@[i]).member@,
            ) && has_role(self.roles@, self.member_roles@[i].role@)
    }

    /// The member with this email, when one exists.
    #[verifier::loop_isolation(false)]
    fn find_member(&self, email: &String) -> (r: Option<usize>)
        requires
            unique_member_emails(self.members@),
        ensures
            match r {
                Some(k) => has_member(self.members@, email@) && k as int == member_index(
                    self.members@,
                    email@,
                ),
                None => !has_member(self.members@, email@),
            },
    {
        let n = self.members.len();
        for i in 0..n
            invariant
                forall|k: int| 0 <= k < i ==> (#[trigger] self.members@[k]).email@ != email@,
        {
            if self.members[i].email == *email {
                proof {
                    assert(has_member(self.members@, email@));
                    let j = member_index(self.members@, email@);
                    if j != i as int {
                        assert(self.members@[j].email@ != self.members@[i as int].email@);
                    }
                }
                return Some(i);
            }
        }
        proof {
            assert(!has_member(self.members@, email@)) by {
                if has_member(self.members@, email@) {
                    let j = choose|j: int|
                        0 <= j < self.members@.len() && (#[trigger] self.members@[j]).email@
                            == email@;
                    assert(self.members@[j].email@ != email@);
                }
            }
        }
        None
    }

    /// The role with this name, when one exists.
    #[verifier::loop_isolation(false)]
    fn find_role(&self, name: &String) -> (r: Option<usize>)
        requires
            unique_role_names(self.roles@),
        ensures
            match r {
                Some(k) => has_role(self.roles@, name@) && k as int == role_index(
                    self.roles@,
                    name@,
                ),
                None => !has_role(self.roles@, name@),
            },
    {
        let n = self.roles.len();
        for i in 0..n
            invariant
                forall|k: int| 0 <= k < i ==> (#[trigger] self.roles@[k]).name@ != name@,
        {
            if self.roles[i].name == *name {
                proof {
                    assert(has_role(self.roles@, name@));
                    let j = role_index(self.roles@, name@);
                    if j != i as int {
                        assert(self.roles@[j].name@ != self.roles@[i as int].name@);
                    }
                }
                return Some(i);
            }
        }
        proof {
            assert(!has_role(self.roles@, name@)) by {
                if has_role(self.roles@, name@) {
                    let j = choose|j: int|
                        0 <= j < self.roles@.len() && (#[trigger] self.roles@[j]).name@ == name@;
                    assert(self.roles@[j].name@ != name@);
                }
            }
        }
        None
    }

    /// No two members share an email, decided at run time.
    #[verifier::loop_isolation(false)]
    fn emails_unique(&self) -> (r: bool)
        ensures
            r == unique_member_emails(self.members@),
    {
        let n = self.members.len();
        for i in 0..n
            invariant
                forall|a: int, b: int|
                    0 <= a < b < n as int && a < i ==> (#[trigger] self.members@[a]).email@ != (
                    #[trigger] self.members@[b]).email@,
        {
            for j in (i + 1)..n
                invariant
                    forall|b: int|
                        i < b < j ==> self.members@[i as int].email@ != (
                        #[trigger] self.members@[b]).email@,
            {
                if self.members[i].email == self.members[j].email {
                    return false;
                }
            }
        }
        true
    }

    /// No two roles share a name, decided at run time.
    #[verifier::loop_isolation(false)]
    fn role_names_unique(&self) -> (r: bool)
        ensures
            r == unique_role_names(self.roles@),
    {
        let n = self.roles.len();
        for i in 0..n
            invariant
                forall|a: int, b: int|
                    0 <= a < b < n as int && a < i ==> (#[trigger] self.roles@[a]).name@ != (
                    #[trigger] self.roles@[b]).name@,
        {
            for j in (i + 1)..n
                invariant
                    forall|b: int|
                        i < b < j ==> self.roles@[i as int].name@ != (
                        #[trigger] self.roles@[b]).name@,
            {
                if self.roles[i].name == self.roles[j].name {
                    return false;
                }
            }
        }
        true
    }

    /// Every member-role row resolves to a member and a role, decided at
    /// run time.
    #[verifier::loop_isolation(false)]
    fn member_roles_resolve(&self) -> (r: bool)
        requires
            unique_member_emails(self.members@),
            unique_role_names(self.roles@),
        ensures
            r == (forall|i: int|
                0 <= i < self.member_roles@.len() ==> has_member(
                    self.members@,
                    (#[trigger] self.member_roles@[i]).member@,
                ) && has_role(self.roles@, self.member_roles@[i].role@)),
    {
        let n = self.member_roles.len();
        for i in 0..n
            invariant
                forall|k: int|
                    0 <= k < i ==> has_member(
                        self.members@,
                        (#[trigger] self.member_roles@[k]).member@,
                    ) && has_role(self.roles@, self.member_roles@[k].role@),
        {
            let mr = &self.member_roles[i];
            if self.find_member(&mr.member).is_none() || self.find_role(&mr.role).is_none() {
                return false;
            }
        }
        true
    }

    /// Decide `wf` at run time, for callers that assemble a catalog from
    /// raw tables.
    pub fn is_well_formed(&self) -> (r: bool)
        ensures
            r == self.wf(),
    {
        self.emails_unique() && self.role_names_unique() && self.member_roles_resolve()
    }

    /// An empty catalog, to be filled by the loader.
    pub fn new() -> (r: Catalog)
        ensures
            r.members@ == Seq::<Member>::empty(),
            r.roles@ == Seq::<Role>::empty(),
            r.member_roles@ == Seq::<MemberRole>::empty(),
            r.role_permissions@ == Seq::<RolePermission>::empty(),
            r.event_types@ == Seq::<EventType>::empty(),
            r.section_types@ == Seq::<SectionType>::empty(),
    {
        Catalog {
            members: Vec::new(),
            roles: Vec::new(),
            member_roles: Vec::new(),
            role_permissions: Vec::new(),
            event_types: Vec::new(),
            section_types: Vec::new(),
        }
    }

    /// Every field but the grants is as in `other`.
    pub open spec fn same_except_grants(self, other: Catalog) -> bool {
        &&& self.members == other.members
        &&& self.roles == other.roles
        &&& self.member_roles == other.member_roles
        &&& self.event_types == other.event_types
        &&& self.section_types == other.section_types
    }
}

impl Scope {
    /// An equal scope value.
    pub fn cloned(&self) -> (r: Scope)
        ensures
            r == *self,
    {
        match self {
            Scope::General => Scope::General,
            Scope::Scoped(t) => Scope::Scoped(t.clone()),
        }
    }

    /// Whether this scope is exactly the one the optional event-type name
    /// denotes.
    pub fn matches_opt(&self, event_type: &Option<String>) -> (r: bool)
        ensures
            r == (scope_view(*self) == opt_str_view(*event_type)),
    {
        match (self, event_type) {
            (Scope::General, None) => true,
            (Scope::Scoped(t), Some(s)) => *t == *s,
            _ => false,
        }
    }
}

impl RolePermission {
    /// An equal grant value.
    pub fn cloned(&self) -> (r: RolePermission)
        ensures
            r == *self,
    {
        RolePermission {
            role: self.role.clone(),
            permission: self.permission.clone(),
            scope: self.scope.cloned(),
        }
    }

    /// Grant `permission` to `role`, optionally scoped to one event type.
    /// Idempotent: a grant that is already present is left as it is, so the
    /// grant set never holds the same triple twice more than it already did.
    #[verifier::loop_isolation(false)]
    pub fn enable(
        cat: &mut Catalog,
        role: &String,
        permission: &String,
        event_type: &Option<String>,
    )
        ensures
            final(cat).same_except_grants(*old(cat)),
            if has_grant(
                old(cat).role_permissions@,
                role@,
                permission@,
                opt_str_view(*event_type),
            ) {
                final(cat).role_permissions == old(cat).role_permissions
            } else {
                final(cat).role_permissions@ == old(cat).role_permissions@.push(
                    (RolePermission {
                        role: *role,
                        permission: *permission,
                        scope: scope_of_opt(*event_type),
                    }),
                )
            },
    {
        let n = cat.role_permissions.len();
        for i in 0..n
            invariant
                *cat == *old(cat),
                n == cat.role_permissions@.len(),
                forall|k: int|
                    0 <= k < i ==> !grant_triple_matches(
                        #[trigger] cat.role_permissions@[k],
                        role@,
                        permission@,
                        opt_str_view(*event_type),
                    ),
        {
            let g = &cat.role_permissions[i];
            if g.role == *role && g.permission == *permission && g.scope.matches_opt(event_type) {
                return ;
            }
        }
        let scope = match event_type {
            Some(t) => Scope::Scoped(t.clone()),
            None => Scope::General,
        };
        cat.role_permissions.push(
            RolePermission { role: role.clone(), permission: permission.clone(), scope },
        );
    }

    /// Withdraw the grant of `permission` from `role` at exactly this scope;
    /// a grant that is not present is silently ignored.
    #[verifier::loop_isolation(false)]
    pub fn disable(
        cat: &mut Catalog,
        role: &String,
        permission: &String,
        event_type: &Option<String>,
    )
        ensures
            final(cat).same_except_grants(*old(cat)),
            final(cat).role_permissions@ == old(cat).role_permissions@.filter(
                |g: RolePermission|
                    !grant_triple_matches(g, role@, permission@, opt_str_view(*event_type)),
            ),
    {
        let ghost pred = |g: RolePermission|
            !grant_triple_matches(g, role@, permission@, opt_str_view(*event_type));
        let mut kept: Vec<RolePermission> = Vec::new();
        let n = cat.role_permissions.len();
        for i in 0..n
            invariant
                *cat == *old(cat),
                n == cat.role_permissions@.len(),
                kept@ == cat.role_permissions@.take(i as int).filter(pred),
        {
            let g = &cat.role_permissions[i];
            proof {
                lemma_take_step(cat.role_permissions@, i as int);
                lemma_filter_push(cat.role_permissions@.take(i as int), cat.role_permissions@[i as int], pred);
            }
            if !(g.role == *role && g.permission == *permission && g.scope.matches_opt(event_type)) {
                kept.push(g.cloned());
            }
        }
        proof {
            assert(cat.role_permissions@.take(n as int) =~= cat.role_permissions@);
            assert(pred =~= (|g: RolePermission|
                !grant_triple_matches(g, role@, permission@, opt_str_view(*event_type))));
        }
        cat.role_permissions = kept;
    }
}

impl MemberRole {
    /// Every member currently holding a role, paired with the role and
    /// ordered by the role's rank.
    #[verifier::loop_isolation(false)]
    pub fn load_all(cat: &Catalog) -> (r: Vec<(Member, Role)>)
        requires
            cat.wf(),
        ensures
            sorted_by_rank(r@),
            r@.to_multiset() == officer_pairs(*cat).to_multiset(),
    {
        broadcast use vstd::seq_lib::group_to_multiset_ensures;

        let mut rest: Vec<(Member, Role)> = Vec::new();
        let n = cat.member_roles.len();
        for i in 0..n
            invariant
                rest@ == officer_pairs(*cat).take(i as int),
        {
            let mr = &cat.member_roles[i];
            let mi = match cat.find_member(&mr.member) {
                Some(k) => k,
                None => vstd::pervasive::unreached(),
            };
            let ri = match cat.find_role(&mr.role) {
                Some(k) => k,
                None => vstd::pervasive::unreached(),
            };
            rest.push((cat.members[mi].cloned(), cat.roles[ri].cloned()));
            proof {
                assert(rest@ =~= officer_pairs(*cat).take(i as int + 1));
            }
        }
        proof {
            assert(officer_pairs(*cat).take(n as int) =~= officer_pairs(*cat));
        }
        let ghost whole = rest@.to_multiset();
        let mut out: Vec<(Member, Role)> = Vec::new();
        while rest.len() > 0
            invariant
                sorted_by_rank(out@),
                out@.to_multiset().add(rest@.to_multiset()) =~= whole,
                forall|a: int, b: int|
                    0 <= a < out@.len() && 0 <= b < rest@.len() ==> (#[trigger] out@[a]).1.rank <= (
                    #[trigger] rest@[b]).1.rank,
            decreases rest@.len(),
        {
            let mut mi: usize = 0;
            let m = rest.len();
            for k in 1..m
                invariant
                    0 <= mi < m,
                    m == rest@.len(),
                    forall|b: int| 0 <= b < k ==> rest@[mi as int].1.rank <= (#[trigger] rest@[b]).1.rank,
            {
                if rest[k].1.rank < rest[mi].1.rank {
                    mi = k;
                }
            }
            let x = rest.remove(mi);
            proof {
                assert(out@.push(x).to_multiset().add(rest@.to_multiset()) =~= whole);
            }
            out.push(x);
        }
        out
    }
}

} // verus!
