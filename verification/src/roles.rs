//! Roles: capability tags grantable to an identity on an account, and sets of
//! them. The owner role is structural: it is required for every mutating
//! account operation and is never removed through the role-removal path.

use vstd::prelude::*;

verus! {

/// A capability tag grantable to an identity on an account.
#[derive(Clone, Copy, PartialEq, Eq, Structural, Debug)]
pub enum Role {
    Owner,
    CanLedgerTransact,
    CanMultisigApprove,
}

/// A set of roles.
#[derive(Clone, Copy, PartialEq, Eq, Structural, Debug)]
pub struct RoleSet {
    owner: bool,
    can_ledger_transact: bool,
    can_multisig_approve: bool,
}

impl RoleSet {
    pub closed spec fn spec_has(&self, r: Role) -> bool {
        match r {
            Role::Owner => self.owner,
            Role::CanLedgerTransact => self.can_ledger_transact,
            Role::CanMultisigApprove => self.can_multisig_approve,
        }
    }
}

impl View for RoleSet {
    type V = Set<Role>;

    open spec fn view(&self) -> Set<Role> {
        Set::new(|r: Role| self.spec_has(r))
    }
}

impl RoleSet {
    pub fn empty() -> (r: RoleSet)
        ensures
            r@ == Set::<Role>::empty(),
    {
        let r = RoleSet { owner: false, can_ledger_transact: false, can_multisig_approve: false };
        proof {
            assert(r@ =~= Set::<Role>::empty());
        }
        r
    }

    pub fn singleton(role: Role) -> (r: RoleSet)
        ensures
            r@ == Set::<Role>::empty().insert(role),
    {
        let mut r = RoleSet::empty();
        r.insert(role);
        r
    }

    pub fn contains(&self, role: Role) -> (r: bool)
        ensures
            r == self@.contains(role),
    {
        match role {
            Role::Owner => self.owner,
            Role::CanLedgerTransact => self.can_ledger_transact,
            Role::CanMultisigApprove => self.can_multisig_approve,
        }
    }

    pub fn insert(&mut self, role: Role)
        ensures
            final(self)@ == old(self)@.insert(role),
    {
        match role {
            Role::Owner => {
                self.owner = true;
            },
            Role::CanLedgerTransact => {
                self.can_ledger_transact = true;
            },
            Role::CanMultisigApprove => {
                self.can_multisig_approve = true;
            },
        }
        proof {
            assert(self@ =~= old(self)@.insert(role));
        }
    }

    pub fn union(&self, other: &RoleSet) -> (r: RoleSet)
        ensures
            r@ == self@.union(other@),
    {
        let r = RoleSet {
            owner: self.owner || other.owner,
            can_ledger_transact: self.can_ledger_transact || other.can_ledger_transact,
            can_multisig_approve: self.can_multisig_approve || other.can_multisig_approve,
        };
        proof {
            assert(r@ =~= self@.union(other@));
        }
        r
    }

    pub fn difference(&self, other: &RoleSet) -> (r: RoleSet)
        ensures
            r@ == self@.difference(other@),
    {
        let r = RoleSet {
            owner: self.owner && !other.owner,
            can_ledger_transact: self.can_ledger_transact && !other.can_ledger_transact,
            can_multisig_approve: self.can_multisig_approve && !other.can_multisig_approve,
        };
        proof {
            assert(r@ =~= self@.difference(other@));
        }
        r
    }

    /// This set with the owner role taken out.
    pub fn without_owner(&self) -> (r: RoleSet)
        ensures
            r@ == self@.remove(Role::Owner),
    {
        let r = RoleSet { owner: false, ..*self };
        proof {
            assert(r@ =~= self@.remove(Role::Owner));
        }
        r
    }

    pub fn is_empty(&self) -> (r: bool)
        ensures
            r == (self@ == Set::<Role>::empty()),
    {
        let r = !self.owner && !self.can_ledger_transact && !self.can_multisig_approve;
        proof {
            if r {
                assert(self@ =~= Set::<Role>::empty());
            } else {
                if self.owner {
                    assert(self@.contains(Role::Owner));
                } else if self.can_ledger_transact {
                    assert(self@.contains(Role::CanLedgerTransact));
                } else {
                    assert(self@.contains(Role::CanMultisigApprove));
                }
            }
        }
        r
    }
}

/// The role set an identity holds after a grant of `granted` on top of
/// `held`: grants are unioned in, never replacing what was held.
pub open spec fn roles_after_add(held: Set<Role>, granted: Set<Role>) -> Set<Role> {
    held.union(granted)
}

/// The role set an identity holds after a removal request of `removed` from
/// `held`: set difference, except that the owner role is never removed through
/// this path. Removing a role never held is a no-op.
pub open spec fn roles_after_removal(held: Set<Role>, removed: Set<Role>) -> Set<Role> {
    held.difference(removed.remove(Role::Owner))
}

/// An identity holding the owner role still holds it after any single
/// role-removal request; by induction, no sequence of removal requests takes
/// the owner role away through that path.
pub proof fn lemma_removal_preserves_owner(held: Set<Role>, removed: Set<Role>)
    requires
        held.contains(Role::Owner),
    ensures
        roles_after_removal(held, removed).contains(Role::Owner),
{
}

/// Granting a role an identity does not hold and then requesting its removal
/// returns the identity's role set to its value before the grant, for every
/// role other than the owner role.
pub proof fn lemma_add_remove_round_trip(held: Set<Role>, role: Role)
    requires
        role != Role::Owner,
        !held.contains(role),
    ensures
        roles_after_removal(
            roles_after_add(held, Set::empty().insert(role)),
            Set::empty().insert(role),
        ) == held,
{
    assert(roles_after_removal(
        roles_after_add(held, Set::empty().insert(role)),
        Set::empty().insert(role),
    ) =~= held);
}

} // verus!
