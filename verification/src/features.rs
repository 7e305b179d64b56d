//! Features: pluggable capability descriptors attached to an account. A
//! feature both adds behaviour (outside this core) and declares which roles
//! become grantable on the account. Feature ids within one account are
//! unique; the collection keeps insertion order.

use vstd::prelude::*;
use crate::error::OmniError;
use crate::roles::{Role, RoleSet};

verus! {

/// The feature id of the multisig capability.
pub const MULTISIG_FEATURE_ID: u64 = 1;
/// The feature id of the ledger capability.
pub const LEDGER_FEATURE_ID: u64 = 2;

/// A capability descriptor: a small-integer id, unique per account, and the
/// set of roles the feature declares valid for granting.
#[derive(Clone, Copy, PartialEq, Eq, Structural, Debug)]
pub struct Feature {
    pub id: u64,
    pub roles: RoleSet,
}

/// The ledger feature: makes `CanLedgerTransact` grantable.
pub fn ledger_feature() -> (f: Feature)
    ensures
        f.id == LEDGER_FEATURE_ID,
        f.roles@ == Set::<Role>::empty().insert(Role::CanLedgerTransact),
{
    Feature { id: LEDGER_FEATURE_ID, roles: RoleSet::singleton(Role::CanLedgerTransact) }
}

/// The multisig feature: makes `CanMultisigApprove` grantable.
pub fn multisig_feature() -> (f: Feature)
    ensures
        f.id == MULTISIG_FEATURE_ID,
        f.roles@ == Set::<Role>::empty().insert(Role::CanMultisigApprove),
{
    Feature { id: MULTISIG_FEATURE_ID, roles: RoleSet::singleton(Role::CanMultisigApprove) }
}

/// Whether some feature in `s` has id `id`.
pub open spec fn spec_has_feature_id(s: Seq<Feature>, id: u64) -> bool {
    exists|i: int| 0 <= i < s.len() && (#[trigger] s[i]).id == id
}

/// Whether `role` may be granted on an account whose features are `s`: it is
/// the owner role, or some attached feature declares it valid.
pub open spec fn spec_role_grantable(s: Seq<Feature>, role: Role) -> bool {
    role == Role::Owner || exists|i: int| 0 <= i < s.len() && (#[trigger] s[i]).roles.spec_has(role)
}

/// An ordered collection of features with pairwise distinct ids.
#[derive(Debug)]
pub struct FeatureSet {
    features: Vec<Feature>,
}

impl View for FeatureSet {
    type V = Seq<Feature>;

    closed spec fn view(&self) -> Seq<Feature> {
        self.features@
    }
}

impl FeatureSet {
    /// Ids are pairwise distinct.
    pub open spec fn wf(&self) -> bool {
        forall|i: int, j: int|
            0 <= i < j < self@.len() ==> (#[trigger] self@[i]).id != (#[trigger] self@[j]).id
    }

    pub fn new() -> (r: FeatureSet)
        ensures
            r@ == Seq::<Feature>::empty(),
            r.wf(),
    {
        FeatureSet { features: Vec::new() }
    }

    pub fn len(&self) -> (r: usize)
        ensures
            r == self@.len(),
    {
        self.features.len()
    }

    pub fn get(&self, i: usize) -> (r: Feature)
        requires
            i < self@.len(),
        ensures
            r == self@[i as int],
    {
        self.features[i]
    }

    pub fn has_id(&self, id: u64) -> (r: bool)
        ensures
            r == spec_has_feature_id(self@, id),
    {
        let mut i: usize = 0;
        while i < self.features.len()
            invariant
                i <= self@.len(),
                forall|j: int| 0 <= j < i ==> (#[trigger] self@[j]).id != id,
            decreases self@.len() - i,
        {
            if self.features[i].id == id {
                return true;
            }
            i += 1;
        }
        false
    }

    /// Whether `role` may be granted against this feature collection.
    pub fn role_grantable(&self, role: Role) -> (r: bool)
        ensures
            r == spec_role_grantable(self@, role),
    {
        if matches!(role, Role::Owner) {
            return true;
        }
        let mut i: usize = 0;
        while i < self.features.len()
            invariant
                i <= self@.len(),
                forall|j: int| 0 <= j < i ==> !(#[trigger] self@[j]).roles.spec_has(role),
            decreases self@.len() - i,
        {
            if self.features[i].roles.contains(role) {
                return true;
            }
            i += 1;
        }
        false
    }

    /// Whether every role in `rs` may be granted against this collection.
    pub fn all_roles_grantable(&self, rs: &RoleSet) -> (r: bool)
        ensures
            r == (forall|role: Role|
                rs@.contains(role) ==> spec_role_grantable(self@, role)),
    {
        let ok = (!rs.contains(Role::CanLedgerTransact) || self.role_grantable(
            Role::CanLedgerTransact,
        )) && (!rs.contains(Role::CanMultisigApprove) || self.role_grantable(
            Role::CanMultisigApprove,
        ));
        proof {
            if ok {
                assert forall|role: Role| rs@.contains(role) implies spec_role_grantable(
                    self@,
                    role,
                ) by {
                    match role {
                        Role::Owner => {},
                        Role::CanLedgerTransact => {},
                        Role::CanMultisigApprove => {},
                    }
                }
            } else {
                if rs@.contains(Role::CanLedgerTransact) && !spec_role_grantable(
                    self@,
                    Role::CanLedgerTransact,
                ) {
                    assert(!(forall|role: Role|
                        rs@.contains(role) ==> spec_role_grantable(self@, role)));
                } else {
                    assert(rs@.contains(Role::CanMultisigApprove) && !spec_role_grantable(
                        self@,
                        Role::CanMultisigApprove,
                    ));
                }
            }
        }
        ok
    }

    /// Append a feature whose id is known to be fresh.
    pub fn push(&mut self, f: Feature)
        requires
            old(self).wf(),
            !spec_has_feature_id(old(self)@, f.id),
        ensures
            final(self)@ == old(self)@.push(f),
            final(self).wf(),
    {
        self.features.push(f);
    }

    /// Add a feature, refusing a duplicate id and changing nothing in that
    /// case.
    pub fn add(&mut self, f: Feature) -> (r: Result<(), OmniError>)
        requires
            old(self).wf(),
        ensures
            final(self).wf(),
            !spec_has_feature_id(old(self)@, f.id) ==> (r matches Ok(u) && final(self)@ == old(
                self,
            )@.push(f)),
            spec_has_feature_id(old(self)@, f.id) ==> r == Result::<(), OmniError>::Err(
                OmniError::DuplicateFeature,
            ) && *final(self) == *old(self),
    {
        if self.has_id(f.id) {
            Err(OmniError::duplicate_feature())
        } else {
            self.push(f);
            Ok(())
        }
    }

    /// A copy of this collection with the same contents and order.
    pub fn duplicate(&self) -> (r: FeatureSet)
        ensures
            r@ == self@,
    {
        let mut out: Vec<Feature> = Vec::new();
        let mut i: usize = 0;
        while i < self.features.len()
            invariant
                i <= self@.len(),
                out@ == self@.subrange(0, i as int),
            decreases self@.len() - i,
        {
            out.push(self.features[i]);
            i += 1;
        }
        proof {
            assert(self@.subrange(0, self@.len() as int) =~= self@);
        }
        FeatureSet { features: out }
    }
}

} // verus!
