//! Role-based access control: a registry mapping role names to at most one
//! assignee each, administered by the built-in `RolesManager` role.

use vstd::prelude::*;

use crate::address::{addr_eq, Address};
use crate::utils::are_addresses_equal;

verus! {

/// A named role, wrapped for typing.
#[derive(Debug, Eq, Hash)]
pub struct NamedRole(pub String);

impl View for NamedRole {
    type V = Seq<char>;

    open spec fn view(&self) -> Seq<char> {
        self.0@
    }
}

impl PartialEq for NamedRole {
    fn eq(&self, other: &NamedRole) -> (r: bool) {
        self.0 == other.0
    }
}

impl vstd::std_specs::cmp::PartialEqSpecImpl for NamedRole {
    open spec fn obeys_eq_spec() -> bool {
        true
    }

    open spec fn eq_spec(&self, other: &NamedRole) -> bool {
        self@ == other@
    }
}

impl Clone for NamedRole {
    fn clone(&self) -> (r: Self)
        ensures
            r == *self,
    {
        NamedRole(self.0.clone())
    }
}

/// Why an access check failed.
#[derive(Debug)]
pub enum UnauthorizedError {
    AddressNotAuthorized,
}

/// The assignee recorded for `role` in the association list `s`: the address
/// of the first entry whose key is `role`, or nothing when there is none.
pub open spec fn assignee_of(s: Seq<(NamedRole, Address)>, role: Seq<char>) -> Option<Seq<char>>
    decreases s.len(),
{
    if s.len() == 0 {
        None
    } else if s[0].0@ == role {
        Some(s[0].1@)
    } else {
        assignee_of(s.drop_first(), role)
    }
}

/// Whether `caller` currently holds the `RolesManager` role in `s`.
pub open spec fn is_role_manager(s: Seq<(NamedRole, Address)>, caller: Seq<char>) -> bool {
    assignee_of(s, "RolesManager"@) matches Some(a) && addr_eq(a, caller)
}

/// Whether `caller` holds at least one of the role names in `roles` under the
/// assignments `s`.
pub open spec fn holds_some_role(
    s: Seq<(NamedRole, Address)>,
    roles: Seq<NamedRole>,
    caller: Seq<char>,
) -> bool {
    exists|k: int|
        0 <= k < roles.len() && ((#[trigger] assignee_of(s, roles[k]@)) matches Some(a)
            && addr_eq(a, caller))
}

/// If no entry carries key `role`, no assignee is recorded for it.
proof fn lemma_assignee_of_absent(s: Seq<(NamedRole, Address)>, role: Seq<char>)
    requires
        forall|j: int| 0 <= j < s.len() ==> s[j].0@ != role,
    ensures
        assignee_of(s, role) is None,
    decreases s.len(),
{
    if s.len() > 0 {
        lemma_assignee_of_absent(s.drop_first(), role);
    }
}

/// The assignee for `role` is the address at its first matching entry.
proof fn lemma_assignee_of_first(s: Seq<(NamedRole, Address)>, i: int, role: Seq<char>)
    requires
        0 <= i < s.len(),
        s[i].0@ == role,
        forall|j: int| 0 <= j < i ==> s[j].0@ != role,
    ensures
        assignee_of(s, role) == Some(s[i].1@),
    decreases i,
{
    if i > 0 {
        let t = s.drop_first();
        assert(forall|j: int| 0 <= j < i - 1 ==> t[j].0@ != role);
        lemma_assignee_of_first(t, i - 1, role);
    }
}

/// Overwriting the first entry for a role with another entry for the same
/// role changes only that role's assignee.
proof fn lemma_assignee_of_update_first(
    s: Seq<(NamedRole, Address)>,
    i: int,
    p: (NamedRole, Address),
    role: Seq<char>,
    other: Seq<char>,
)
    requires
        0 <= i < s.len(),
        s[i].0@ == role,
        p.0@ == role,
        forall|j: int| 0 <= j < i ==> s[j].0@ != role,
    ensures
        assignee_of(s.update(i, p), other) == if other == role {
            Some(p.1@)
        } else {
            assignee_of(s, other)
        },
    decreases i,
{
    let u = s.update(i, p);
    if i == 0 {
        assert(u.drop_first() =~= s.drop_first());
    } else {
        assert(u.drop_first() =~= s.drop_first().update(i - 1, p));
        assert(forall|j: int| 0 <= j < i - 1 ==> s.drop_first()[j].0@ != role);
        lemma_assignee_of_update_first(s.drop_first(), i - 1, p, role, other);
        assert(u[0] == s[0]);
    }
}

/// Appending an entry for a fresh role sets that role's assignee and leaves
/// every other role's assignee alone.
proof fn lemma_assignee_of_push(
    s: Seq<(NamedRole, Address)>,
    p: (NamedRole, Address),
    other: Seq<char>,
)
    requires
        forall|j: int| 0 <= j < s.len() ==> s[j].0@ != p.0@,
    ensures
        assignee_of(s.push(p), other) == if other == p.0@ {
            Some(p.1@)
        } else {
            assignee_of(s, other)
        },
    decreases s.len(),
{
    if s.len() == 0 {
        assert(s.push(p)[0] == p);
        assert(s.push(p).drop_first() =~= Seq::<(NamedRole, Address)>::empty());
        assert(assignee_of(Seq::<(NamedRole, Address)>::empty(), other) is None);
    } else {
        assert(s.push(p)[0] == s[0]);
        assert(s.push(p).drop_first() =~= s.drop_first().push(p));
        lemma_assignee_of_push(s.drop_first(), p, other);
    }
}

/// The role registry: who may hold which named role. Each role has at most
/// one assignee at a time, and only the holder of `RolesManager` may change
/// the registry.
pub struct RoleAuthorizer {
    pub role_assignees: Vec<(NamedRole, Address)>,
    pub is_role_known: Vec<NamedRole>,
}

/// The fallback role-manager address used by built-in registries.
pub fn placeholder_role_manager_address() -> (r: Address)
    ensures
        r@ == "0xb73B0A92544a5D2523F00F868d795d50DbDfcCf4"@,
{
    proof {
        reveal_strlit("0xb73B0A92544a5D2523F00F868d795d50DbDfcCf4");
    }
    Address::from("0xb73B0A92544a5D2523F00F868d795d50DbDfcCf4").unwrap()
}

impl RoleAuthorizer {
    /// The current assignee (if any) recorded for a role name.
    pub open spec fn assignee(&self, role: Seq<char>) -> Option<Seq<char>> {
        assignee_of(self.role_assignees@, role)
    }

    /// Whether a role name has been made known to this registry.
    pub open spec fn knows_role(&self, role: Seq<char>) -> bool {
        exists|j: int| 0 <= j < self.is_role_known@.len() && (#[trigger] self.is_role_known@[j]@)
            == role
    }

    /// Creates a registry whose only known role is `RolesManager`, assigned to
    /// `role_manager_addr`.
    pub fn new(role_manager_addr: Address) -> (r: RoleAuthorizer)
        ensures
            forall|ro: Seq<char>| #[trigger] r.assignee(ro) == if ro == "RolesManager"@ {
                Some(role_manager_addr@)
            } else {
                None::<Seq<char>>
            },
            forall|ro: Seq<char>| #[trigger] r.knows_role(ro) == (ro == "RolesManager"@),
    {
        let role = NamedRole(String::from_str("RolesManager"));
        let mut role_assignees: Vec<(NamedRole, Address)> = Vec::new();
        let mut is_role_known: Vec<NamedRole> = Vec::new();
        is_role_known.push(role.clone());
        role_assignees.push((role, role_manager_addr));
        proof {
            assert forall|ro: Seq<char>| #[trigger] assignee_of(role_assignees@, ro) == (if ro
                == "RolesManager"@ {
                Some(role_manager_addr@)
            } else {
                None::<Seq<char>>
            }) by {
                lemma_assignee_of_push(
                    Seq::<(NamedRole, Address)>::empty(),
                    role_assignees@[0],
                    ro,
                );
            }
        }
        let r = RoleAuthorizer { role_assignees, is_role_known };
        proof {
            assert forall|ro: Seq<char>| #[trigger] r.knows_role(ro) == (ro == "RolesManager"@) by {
                if ro == "RolesManager"@ {
                    assert(r.is_role_known@[0]@ == ro);
                }
            }
        }
        r
    }

    /// Succeeds exactly when the caller is the assignee of at least one of
    /// the allowed roles (compared case-insensitively).
    pub fn only_authorized_role(
        &self,
        allowed_roles: &[NamedRole],
        caller_address: Address,
    ) -> (r: Result<(), UnauthorizedError>)
        ensures
            r is Ok == holds_some_role(self.role_assignees@, allowed_roles@, caller_address@),
            r is Err ==> r matches Err(UnauthorizedError::AddressNotAuthorized),
    {
        let n = allowed_roles.len();
        let mut k: usize = 0;
        while k < n
            invariant
                k <= n,
                n == allowed_roles@.len(),
                forall|m: int| 0 <= m < k ==> !((#[trigger] assignee_of(
                    self.role_assignees@,
                    allowed_roles@[m]@,
                )) matches Some(a) && addr_eq(a, caller_address@)),
            decreases n - k,
        {
            let role = &allowed_roles[k];
            match self.find_assignee(role) {
                Some(i) => {
                    let assignee = &self.role_assignees[i].1;
                    if are_addresses_equal(assignee, &caller_address) {
                        return Ok(());
                    }
                },
                None => {},
            }
            k = k + 1;
        }
        Err(UnauthorizedError::AddressNotAuthorized)
    }

    /// Finds the first assignment entry for `role`, if any.
    fn find_assignee(&self, role: &NamedRole) -> (r: Option<usize>)
        ensures
            match r {
                Some(i) => i < self.role_assignees@.len()
                    && self.role_assignees@[i as int].0@ == role@
                    && self.assignee(role@) == Some(self.role_assignees@[i as int].1@)
                    && forall|j: int| 0 <= j < i ==> self.role_assignees@[j].0@ != role@,
                None => self.assignee(role@) is None && forall|j: int|
                    0 <= j < self.role_assignees@.len() ==> self.role_assignees@[j].0@ != role@,
            },
    {
        let n = self.role_assignees.len();
        let mut k: usize = 0;
        while k < n
            invariant
                k <= n,
                n == self.role_assignees@.len(),
                forall|j: int| 0 <= j < k ==> self.role_assignees@[j].0@ != role@,
            decreases n - k,
        {
            if self.role_assignees[k].0 == *role {
                proof {
                    lemma_assignee_of_first(self.role_assignees@, k as int, role@);
                }
                return Some(k);
            }
            k = k + 1;
        }
        proof {
            lemma_assignee_of_absent(self.role_assignees@, role@);
        }
        None
    }

    /// Records `address` as the sole assignee of `role`, replacing any prior
    /// assignee.
    fn set_assignee(&mut self, role: NamedRole, address: Address)
        ensures
            final(self).is_role_known@ == old(self).is_role_known@,
            forall|ro: Seq<char>| #[trigger] final(self).assignee(ro) == if ro == role@ {
                Some(address@)
            } else {
                old(self).assignee(ro)
            },
    {
        match self.find_assignee(&role) {
            Some(i) => {
                let p = (role, address);
                proof {
                    assert forall|ro: Seq<char>| #[trigger] assignee_of(
                        old(self).role_assignees@.update(i as int, p),
                        ro,
                    ) == (if ro == p.0@ {
                        Some(p.1@)
                    } else {
                        assignee_of(old(self).role_assignees@, ro)
                    }) by {
                        lemma_assignee_of_update_first(
                            old(self).role_assignees@,
                            i as int,
                            p,
                            p.0@,
                            ro,
                        );
                    }
                }
                self.role_assignees[i] = p;
            },
            None => {
                let p = (role, address);
                proof {
                    assert forall|ro: Seq<char>| #[trigger] assignee_of(
                        old(self).role_assignees@.push(p),
                        ro,
                    ) == (if ro == p.0@ {
                        Some(p.1@)
                    } else {
                        assignee_of(old(self).role_assignees@, ro)
                    }) by {
                        lemma_assignee_of_push(old(self).role_assignees@, p, ro);
                    }
                }
                self.role_assignees.push(p);
            },
        }
    }

    /// Reassigns the `RolesManager` role itself; only its current holder may
    /// do so.
    pub fn change_role_manager_address(
        &mut self,
        new_address: Address,
        caller_address: Address,
    ) -> (r: Result<(), UnauthorizedError>)
        ensures
            r is Ok == is_role_manager(old(self).role_assignees@, caller_address@),
            r is Err ==> *final(self) == *old(self) && r matches Err(
                UnauthorizedError::AddressNotAuthorized,
            ),
            r is Ok ==> {
                &&& final(self).is_role_known@ == old(self).is_role_known@
                &&& forall|ro: Seq<char>| #[trigger] final(self).assignee(ro) == if ro
                    == "RolesManager"@ {
                    Some(new_address@)
                } else {
                    old(self).assignee(ro)
                }
            },
    {
        let role = NamedRole(String::from_str("RolesManager"));
        let mut roles: Vec<NamedRole> = Vec::new();
        roles.push(role.clone());
        match self.only_authorized_role(roles.as_slice(), caller_address) {
            Ok(()) => {
                proof {
                    assert(roles@[0]@ == "RolesManager"@);
                }
                self.set_assignee(role, new_address);
                Ok(())
            },
            Err(e) => {
                proof {
                    assert(roles@[0]@ == "RolesManager"@);
                }
                Err(e)
            },
        }
    }

    /// Adds a role name to the set of known roles; only the `RolesManager`
    /// holder may do so. Making a role known does not assign it.
    pub fn make_role_known(
        &mut self,
        new_role: NamedRole,
        caller_address: Address,
    ) -> (r: Result<(), UnauthorizedError>)
        ensures
            r is Ok == is_role_manager(old(self).role_assignees@, caller_address@),
            r is Err ==> *final(self) == *old(self) && r matches Err(
                UnauthorizedError::AddressNotAuthorized,
            ),
            r is Ok ==> {
                &&& final(self).role_assignees@ == old(self).role_assignees@
                &&& forall|ro: Seq<char>| #[trigger] final(self).knows_role(ro) == (
                old(self).knows_role(ro) || ro == new_role@)
            },
    {
        let mut roles: Vec<NamedRole> = Vec::new();
        roles.push(NamedRole(String::from_str("RolesManager")));
        match self.only_authorized_role(roles.as_slice(), caller_address) {
            Ok(()) => {
                proof {
                    assert(roles@[0]@ == "RolesManager"@);
                }
                let ghost old_known = self.is_role_known@;
                let ghost nr = new_role@;
                self.is_role_known.push(new_role);
                proof {
                    assert forall|ro: Seq<char>| #[trigger] self.knows_role(ro) == (old(
                        self,
                    ).knows_role(ro) || ro == nr) by {
                        if ro == nr {
                            assert(self.is_role_known@[old_known.len() as int]@ == ro);
                        } else if self.knows_role(ro) {
                            let j = choose|j: int|
                                0 <= j < self.is_role_known@.len() && (
                                #[trigger] self.is_role_known@[j]@) == ro;
                            assert(old(self).is_role_known@[j]@ == ro);
                        } else if old(self).knows_role(ro) {
                            let j = choose|j: int|
                                0 <= j < old(self).is_role_known@.len() && (#[trigger] old(
                                    self,
                                ).is_role_known@[j]@) == ro;
                            assert(self.is_role_known@[j]@ == ro);
                        }
                    }
                }
                Ok(())
            },
            Err(e) => {
                proof {
                    assert(roles@[0]@ == "RolesManager"@);
                }
                Err(e)
            },
        }
    }

    /// Sets (or reassigns) the assignee of a role; the prior assignee, if
    /// any, loses the role. Only the `RolesManager` holder may do so.
    pub fn assign_role(
        &mut self,
        role: NamedRole,
        assignee: Address,
        caller_address: Address,
    ) -> (r: Result<(), UnauthorizedError>)
        ensures
            r is Ok == is_role_manager(old(self).role_assignees@, caller_address@),
            r is Err ==> *final(self) == *old(self) && r matches Err(
                UnauthorizedError::AddressNotAuthorized,
            ),
            r is Ok ==> {
                &&& final(self).is_role_known@ == old(self).is_role_known@
                &&& forall|ro: Seq<char>| #[trigger] final(self).assignee(ro) == if ro == role@ {
                    Some(assignee@)
                } else {
                    old(self).assignee(ro)
                }
            },
    {
        let mut roles: Vec<NamedRole> = Vec::new();
        roles.push(NamedRole(String::from_str("RolesManager")));
        match self.only_authorized_role(roles.as_slice(), caller_address) {
            Ok(()) => {
                proof {
                    assert(roles@[0]@ == "RolesManager"@);
                }
                self.set_assignee(role, assignee);
                Ok(())
            },
            Err(e) => {
                proof {
                    assert(roles@[0]@ == "RolesManager"@);
                }
                Err(e)
            },
        }
    }
}

/// Each named role has at most one assignee at any time: the registry's
/// assignment relation is a function from role name to assignee, so two
/// assignees of one role coincide.
pub proof fn lemma_role_uniqueness(
    auth: RoleAuthorizer,
    role: Seq<char>,
    a1: Seq<char>,
    a2: Seq<char>,
)
    requires
        auth.assignee(role) == Some(a1),
        auth.assignee(role) == Some(a2),
    ensures
        a1 == a2,
{
}

} // verus!
