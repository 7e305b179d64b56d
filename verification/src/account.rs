//! The Account capability module: accounts with an owner, a role-grant table
//! and an additive feature set, with role-based access control. Every
//! mutating operation is atomic: validation fully precedes mutation, and any
//! failed validation leaves the store unchanged.

use vstd::prelude::*;
use crate::error::{is_user_needs_owner, OmniError};
use crate::features::{spec_has_feature_id, spec_role_grantable, Feature, FeatureSet};
use crate::identity::{Identity, IdentityView, TAG_PUBLIC_KEY, TAG_SUBRESOURCE};
use crate::identity::identity_eq;
use crate::rolemap::{spec_all_roles, RoleMap};
use crate::roles::{roles_after_add, roles_after_removal, Role, RoleSet};

verus! {

/// The mathematical value of an optional description.
pub open spec fn view_opt_string(o: Option<String>) -> Option<Seq<char>> {
    match o {
        Some(s) => Some(s@),
        None => None,
    }
}

/// Whether every requested (identity, role) grant in `req` is valid against
/// `features`: each granted role is the owner role or declared valid by some
/// feature.
pub open spec fn spec_grants_valid(req: RoleMap, features: Seq<Feature>) -> bool {
    forall|k: IdentityView, role: Role|
        #[trigger] req.spec_roles(k).contains(role) ==> spec_role_grantable(features, role)
}

pub open spec fn spec_opt_grants_valid(req: Option<RoleMap>, features: Seq<Feature>) -> bool {
    match req {
        Some(r) => spec_grants_valid(r, features),
        None => true,
    }
}

/// The roles requested for `k` by an optional grant table.
pub open spec fn spec_requested_roles(req: Option<RoleMap>, k: IdentityView) -> Set<Role> {
    match req {
        Some(r) => r.spec_roles(k),
        None => Set::empty(),
    }
}

/// Whether the features `new` can all be appended to `cur`: no id of `new`
/// already occurs in `cur`, and the ids of `new` are pairwise distinct.
pub open spec fn spec_features_addable(cur: Seq<Feature>, new: Seq<Feature>) -> bool {
    &&& forall|j: int| 0 <= j < new.len() ==> !spec_has_feature_id(cur, (#[trigger] new[j]).id)
    &&& forall|a: int, b: int|
        0 <= a < b < new.len() ==> (#[trigger] new[a]).id != (#[trigger] new[b]).id
}

/// An access-controlled entity: an optional description, a role-grant table
/// and an ordered feature collection.
#[derive(Debug)]
pub struct Account {
    pub description: Option<String>,
    pub roles: RoleMap,
    pub features: FeatureSet,
}

impl Account {
    pub open spec fn wf(&self) -> bool {
        self.roles.wf() && self.features.wf()
    }

    pub open spec fn spec_has_role(&self, k: IdentityView, role: Role) -> bool {
        self.roles.spec_roles(k).contains(role)
    }

    pub open spec fn spec_is_owner(&self, k: IdentityView) -> bool {
        self.spec_has_role(k, Role::Owner)
    }

    /// The single authorization primitive: whether `id` holds `role` on this
    /// account.
    pub fn has_role(&self, id: &Identity, role: Role) -> (r: bool)
        requires
            self.wf(),
        ensures
            r == self.spec_has_role(id@, role),
    {
        self.roles.get(id).contains(role)
    }

    /// The single grant-validity primitive: whether `role` may be granted on
    /// this account, given its currently attached features.
    pub fn role_grantable(&self, role: Role) -> (r: bool)
        ensures
            r == spec_role_grantable(self.features@, role),
    {
        self.features.role_grantable(role)
    }
}

#[derive(Debug)]
pub struct CreateArgs {
    pub description: Option<String>,
    pub roles: Option<RoleMap>,
    pub features: FeatureSet,
}

impl CreateArgs {
    pub open spec fn wf(&self) -> bool {
        &&& self.roles matches Some(r) ==> r.wf()
        &&& self.features.wf()
    }
}

#[derive(Debug)]
pub struct CreateReturn {
    pub id: Identity,
}

#[derive(Debug)]
pub struct InfoArgs {
    pub account: Identity,
}

#[derive(Debug)]
pub struct InfoReturn {
    pub description: Option<String>,
    pub roles: RoleMap,
    pub features: FeatureSet,
}

#[derive(Debug)]
pub struct SetDescriptionArgs {
    pub account: Identity,
    pub description: String,
}

#[derive(Debug)]
pub struct ListRolesArgs {
    pub account: Identity,
}

#[derive(Debug)]
pub struct ListRolesReturn {
    pub roles: RoleSet,
}

#[derive(Debug)]
pub struct GetRolesArgs {
    pub account: Identity,
    pub identities: Vec<Identity>,
}

#[derive(Debug)]
pub struct GetRolesReturn {
    pub roles: RoleMap,
}

#[derive(Debug)]
pub struct AddRolesArgs {
    pub account: Identity,
    pub roles: RoleMap,
}

#[derive(Debug)]
pub struct RemoveRolesArgs {
    pub account: Identity,
    pub roles: RoleMap,
}

#[derive(Debug)]
pub struct AddFeaturesArgs {
    pub account: Identity,
    pub roles: Option<RoleMap>,
    pub features: FeatureSet,
}

impl AddFeaturesArgs {
    pub open spec fn wf(&self) -> bool {
        &&& self.roles matches Some(r) ==> r.wf()
        &&& self.features.wf()
    }
}

#[derive(Debug)]
pub struct DeleteArgs {
    pub account: Identity,
}

/// Pairwise distinct account ids.
pub open spec fn account_keys_unique(s: Seq<(Identity, Account)>) -> bool {
    forall|i: int, j: int| 0 <= i < j < s.len() ==> (#[trigger] s[i]).0@ != (#[trigger] s[j]).0@
}

/// The account keyed by `k` in the entry sequence `s`, if any.
pub open spec fn spec_account_in(s: Seq<(Identity, Account)>, k: IdentityView) -> Option<Account>
    decreases s.len(),
{
    if s.len() == 0 {
        None
    } else if s.last().0@ == k {
        Some(s.last().1)
    } else {
        spec_account_in(s.drop_last(), k)
    }
}

proof fn lemma_account_absent(s: Seq<(Identity, Account)>, k: IdentityView)
    requires
        forall|i: int| 0 <= i < s.len() ==> (#[trigger] s[i]).0@ != k,
    ensures
        spec_account_in(s, k) is None,
    decreases s.len(),
{
    if s.len() > 0 {
        assert(s.last() == s[s.len() - 1]);
        lemma_account_absent(s.drop_last(), k);
    }
}

proof fn lemma_account_at_index(s: Seq<(Identity, Account)>, k: IdentityView, i: int)
    requires
        account_keys_unique(s),
        0 <= i < s.len(),
        s[i].0@ == k,
    ensures
        spec_account_in(s, k) == Some(s[i].1),
    decreases s.len(),
{
    assert(s.last() == s[s.len() - 1]);
    if i == s.len() - 1 {
    } else {
        assert(s.last().0@ != k);
        lemma_account_at_index(s.drop_last(), k, i);
    }
}

proof fn lemma_account_update(
    s: Seq<(Identity, Account)>,
    i: int,
    e: (Identity, Account),
    k: IdentityView,
)
    requires
        account_keys_unique(s),
        0 <= i < s.len(),
        e.0@ == s[i].0@,
    ensures
        spec_account_in(s.update(i, e), k) == if k == e.0@ {
            Some(e.1)
        } else {
            spec_account_in(s, k)
        },
    decreases s.len(),
{
    let s2 = s.update(i, e);
    assert(s.last() == s[s.len() - 1]);
    assert(s2.last() == s2[s.len() - 1]);
    if i == s.len() - 1 {
        assert(s2.drop_last() =~= s.drop_last());
        if k != e.0@ {
            assert(s.last().0@ == e.0@);
        }
    } else {
        lemma_account_update(s.drop_last(), i, e, k);
        assert(s2.drop_last() =~= s.drop_last().update(i, e));
        assert(s2.last() == s.last());
        if k == e.0@ {
            assert(s.last().0@ != k);
        }
    }
}

proof fn lemma_account_removed(s: Seq<(Identity, Account)>, i: int, k: IdentityView)
    requires
        account_keys_unique(s),
        0 <= i < s.len(),
    ensures
        spec_account_in(s.remove(i), k) == if k == s[i].0@ {
            None::<Account>
        } else {
            spec_account_in(s, k)
        },
    decreases s.len(),
{
    let s2 = s.remove(i);
    s.remove_ensures(i);
    assert(s.last() == s[s.len() - 1]);
    if i == s.len() - 1 {
        assert(s2 =~= s.drop_last());
        if k == s[i].0@ {
            assert(forall|j: int| 0 <= j < s2.len() ==> (#[trigger] s2[j]).0@ != k);
            lemma_account_absent(s2, k);
        }
    } else {
        assert(s2.len() == s.len() - 1);
        assert(s2.last() == s.last());
        assert(s2.drop_last() =~= s.drop_last().remove(i));
        lemma_account_removed(s.drop_last(), i, k);
        if k == s[i].0@ {
            assert(s.last().0@ != k);
        }
    }
}

/// Removing index `i` and inserting `e` back at `i` is an update at `i`.
proof fn lemma_remove_insert(s: Seq<(Identity, Account)>, i: int, e: (Identity, Account))
    requires
        0 <= i < s.len(),
    ensures
        s.remove(i).insert(i, e) =~= s.update(i, e),
{
    s.remove_ensures(i);
    s.remove(i).insert_ensures(i, e);
}

/// The store of the Account module: the module's own identity (the parent of
/// every account id it issues), the next subresource discriminator, and the
/// accounts keyed by their derived identities.
#[derive(Debug)]
pub struct AccountModule {
    identity: Identity,
    next_sub: u64,
    accounts: Vec<(Identity, Account)>,
}

impl AccountModule {
    pub closed spec fn spec_accounts(&self) -> Seq<(Identity, Account)> {
        self.accounts@
    }

    pub closed spec fn spec_identity(&self) -> Identity {
        self.identity
    }

    pub closed spec fn spec_next_sub(&self) -> u64 {
        self.next_sub
    }

    /// Every stored account id is a subresource of the module identity with a
    /// discriminator below `next_sub`; discriminators are pairwise distinct;
    /// every stored account is well formed.
    pub open spec fn wf(&self) -> bool {
        &&& self.spec_identity()@.0 == TAG_PUBLIC_KEY
        &&& forall|i: int|
            0 <= i < self.spec_accounts().len() ==> {
                &&& (#[trigger] self.spec_accounts()[i]).0@.0 == TAG_SUBRESOURCE
                &&& self.spec_accounts()[i].0@.1 == self.spec_identity()@.1
                &&& self.spec_accounts()[i].0@.2 < self.spec_next_sub()
                &&& self.spec_accounts()[i].1.wf()
            }
        &&& forall|i: int, j: int|
            0 <= i < j < self.spec_accounts().len() ==> (#[trigger] self.spec_accounts()[i]).0@.2
                != (#[trigger] self.spec_accounts()[j]).0@.2
    }

    /// The account stored under `k`, if any.
    pub open spec fn spec_get(&self, k: IdentityView) -> Option<Account> {
        spec_account_in(self.spec_accounts(), k)
    }

    proof fn lemma_keys_unique(&self)
        requires
            self.wf(),
        ensures
            account_keys_unique(self.spec_accounts()),
    {
        assert forall|i: int, j: int| 0 <= i < j < self.spec_accounts().len() implies (
        #[trigger] self.spec_accounts()[i]).0@ != (#[trigger] self.spec_accounts()[j]).0@ by {
            assert(self.spec_accounts()[i].0@.2 != self.spec_accounts()[j].0@.2);
        }
    }

    /// An empty store owned by `identity`.
    pub fn new(identity: Identity) -> (r: AccountModule)
        requires
            identity@.0 == TAG_PUBLIC_KEY,
        ensures
            r.wf(),
            r.spec_identity() == identity,
            r.spec_next_sub() == 0,
            forall|k: IdentityView| r.spec_get(k) is None,
    {
        AccountModule { identity, next_sub: 0, accounts: Vec::new() }
    }

    /// The next subresource discriminator the store will issue.
    pub fn next_subresource(&self) -> (r: u64)
        ensures
            r == self.spec_next_sub(),
    {
        self.next_sub
    }

    fn find_index(&self, id: &Identity) -> (r: Option<usize>)
        requires
            self.wf(),
        ensures
            match r {
                Some(i) => {
                    &&& i < self.spec_accounts().len()
                    &&& self.spec_accounts()[i as int].0@ == id@
                    &&& self.spec_get(id@) == Some(self.spec_accounts()[i as int].1)
                },
                None => self.spec_get(id@) is None,
            },
    {
        let mut i: usize = 0;
        #[verifier::loop_isolation(false)]
        while i < self.accounts.len()
            invariant
                i <= self.spec_accounts().len(),
                forall|j: int| 0 <= j < i ==> (#[trigger] self.spec_accounts()[j]).0@ != id@,
            decreases self.spec_accounts().len() - i,
        {
            if identity_eq(&self.accounts[i].0, id) {
                proof {
                    self.lemma_keys_unique();
                    lemma_account_at_index(self.spec_accounts(), id@, i as int);
                }
                return Some(i);
            }
            i += 1;
        }
        proof {
            lemma_account_absent(self.spec_accounts(), id@);
        }
        None
    }

    /// Create an account. The caller is recorded with the owner role; every
    /// requested initial role must be grantable against the initial features,
    /// else the call fails with `UnknownRole` and stores nothing. The account
    /// is stored under a fresh subresource identity of the module.
    pub fn create(&mut self, sender: &Identity, args: CreateArgs) -> (r: Result<
        CreateReturn,
        OmniError,
    >)
        requires
            old(self).wf(),
            old(self).spec_next_sub() < u64::MAX,
            args.wf(),
        ensures
            final(self).wf(),
            r matches Ok(ret) <==> spec_opt_grants_valid(args.roles, args.features@),
            r matches Err(e) ==> e == OmniError::UnknownRole && *final(self) == *old(self),
            r matches Ok(ret) ==> ({
                &&& ret.id@ == (TAG_SUBRESOURCE, old(self).spec_identity()@.1, old(
                    self,
                ).spec_next_sub())
                &&& old(self).spec_get(ret.id@) is None
                &&& final(self).spec_get(ret.id@) matches Some(acct) && ({
                    &&& view_opt_string(acct.description) == view_opt_string(args.description)
                    &&& forall|k: IdentityView|
                        acct.roles.spec_roles(k) == if k == sender@ {
                            roles_after_add(
                                spec_requested_roles(args.roles, k),
                                Set::empty().insert(Role::Owner),
                            )
                        } else {
                            spec_requested_roles(args.roles, k)
                        }
                    &&& acct.spec_is_owner(sender@)
                    &&& acct.features@ == args.features@
                })
                &&& forall|k: IdentityView|
                    k != ret.id@ ==> final(self).spec_get(k) == old(self).spec_get(k)
                &&& final(self).spec_identity() == old(self).spec_identity()
                &&& final(self).spec_next_sub() == old(self).spec_next_sub() + 1
            }),
    {
        let valid = match &args.roles {
            Some(r) => r.all_grantable(&args.features),
            None => true,
        };
        if !valid {
            return Err(OmniError::unknown_role());
        }
        let id = self.identity.subresource(self.next_sub);
        let mut roles = match args.roles {
            Some(r) => r,
            None => RoleMap::new(),
        };
        let cur = roles.get(sender);
        let owner_set = RoleSet::singleton(Role::Owner);
        roles.insert(*sender, cur.union(&owner_set));
        let account = Account { description: args.description, roles, features: args.features };
        proof {
            self.lemma_keys_unique();
            assert forall|i: int| 0 <= i < self.spec_accounts().len() implies (
            #[trigger] self.spec_accounts()[i]).0@ != id@ by {
                assert(self.spec_accounts()[i].0@.2 < self.spec_next_sub());
            }
            lemma_account_absent(self.spec_accounts(), id@);
        }
        let ghost s_old = self.spec_accounts();
        self.accounts.push((id, account));
        self.next_sub = self.next_sub + 1;
        proof {
            let s_new = self.spec_accounts();
            assert(s_new =~= s_old.push((id, account)));
            assert(s_new.last() == (id, account));
            assert(s_new.drop_last() =~= s_old);
            assert(self.spec_get(id@) == Some(account));
            assert forall|k: IdentityView| k != id@ implies self.spec_get(k) == old(
                self,
            ).spec_get(k) by {
                assert(spec_account_in(s_new, k) == spec_account_in(s_old, k));
            }
            assert forall|i: int| 0 <= i < s_new.len() implies {
                &&& (#[trigger] s_new[i]).0@.0 == TAG_SUBRESOURCE
                &&& s_new[i].0@.1 == self.spec_identity()@.1
                &&& s_new[i].0@.2 < self.spec_next_sub()
                &&& s_new[i].1.wf()
            } by {
                if i < s_old.len() {
                    assert(s_new[i] == s_old[i]);
                }
            }
            assert forall|i: int, j: int| 0 <= i < j < s_new.len() implies (
            #[trigger] s_new[i]).0@.2 != (#[trigger] s_new[j]).0@.2 by {
                if j == s_old.len() {
                    assert(s_new[i] == s_old[i]);
                    assert(s_old[i].0@.2 < old(self).spec_next_sub());
                }
            }
        }
        Ok(CreateReturn { id })
    }

    /// Read an account: its description, role table and features. An open
    /// read: no role check.
    pub fn info(&self, sender: &Identity, args: InfoArgs) -> (r: Result<InfoReturn, OmniError>)
        requires
            self.wf(),
        ensures
            (r matches Ok(ret)) <==> self.spec_get(args.account@) is Some,
            r matches Err(e) ==> e == OmniError::UnknownAccount,
            r matches Ok(ret) ==> (self.spec_get(args.account@) matches Some(acct) && ({
                &&& view_opt_string(ret.description) == view_opt_string(acct.description)
                &&& ret.roles.spec_entries() == acct.roles.spec_entries()
                &&& forall|k: IdentityView|
                    #[trigger] ret.roles.spec_roles(k) == acct.roles.spec_roles(k)
                &&& forall|k: IdentityView|
                    #[trigger] ret.roles.spec_has_key(k) == acct.roles.spec_has_key(k)
                &&& ret.features@ == acct.features@
            })),
    {
        match self.find_index(&args.account) {
            Some(i) => {
                let entry = &self.accounts[i];
                let description = match &entry.1.description {
                    Some(s) => Some(s.clone()),
                    None => None,
                };
                Ok(
                    InfoReturn {
                        description,
                        roles: entry.1.roles.duplicate(),
                        features: entry.1.features.duplicate(),
                    },
                )
            },
            None => Err(OmniError::unknown_account()),
        }
    }

    /// Replace the description. Requires the owner role.
    pub fn set_description(&mut self, sender: &Identity, args: SetDescriptionArgs) -> (r: Result<
        (),
        OmniError,
    >)
        requires
            old(self).wf(),
        ensures
            final(self).wf(),
            old(self).spec_get(args.account@) is None ==> r == Result::<(), OmniError>::Err(
                OmniError::UnknownAccount,
            ) && *final(self) == *old(self),
            (old(self).spec_get(args.account@) matches Some(acct) && !acct.spec_is_owner(sender@))
                ==> ((r matches Err(e) && is_user_needs_owner(e)) && *final(self) == *old(self)),
            old(self).spec_get(args.account@) matches Some(acct) ==> (acct.spec_is_owner(sender@)
                ==> {
                &&& r matches Ok(u)
                &&& final(self).spec_get(args.account@) matches Some(a2) && ({
                    &&& view_opt_string(a2.description) == Some(args.description@)
                    &&& a2.roles.spec_entries() == acct.roles.spec_entries()
                    &&& a2.features@ == acct.features@
                })
                &&& forall|k: IdentityView|
                    k != args.account@ ==> final(self).spec_get(k) == old(self).spec_get(k)
                &&& final(self).spec_identity() == old(self).spec_identity()
                &&& final(self).spec_next_sub() == old(self).spec_next_sub()
            }),
    {
        let i = match self.find_index(&args.account) {
            Some(i) => i,
            None => {
                return Err(OmniError::unknown_account());
            },
        };
        if !self.accounts[i].1.has_role(sender, Role::Owner) {
            return Err(OmniError::user_needs_role("owner".to_owned()));
        }
        let (key, mut acct) = self.accounts.remove(i);
        acct.description = Some(args.description);
        let ghost e = (key, acct);
        self.accounts.insert(i, (key, acct));
        proof {
            self.commit_replace(*old(self), i as int, e);
        }
        Ok(())
    }

    /// After `accounts.remove(i)` then `accounts.insert(i, e)` with the same
    /// key and a well-formed account, the store maps `e`'s key to `e`'s
    /// account and everything else is unchanged.
    proof fn commit_replace(&self, pre: AccountModule, i: int, e: (Identity, Account))
        requires
            pre.wf(),
            0 <= i < pre.spec_accounts().len(),
            e.0 == pre.spec_accounts()[i].0,
            e.1.wf(),
            self.spec_accounts() == pre.spec_accounts().remove(i).insert(i, e),
            self.spec_identity() == pre.spec_identity(),
            self.spec_next_sub() == pre.spec_next_sub(),
        ensures
            self.wf(),
            self.spec_get(e.0@) == Some(e.1),
            forall|k: IdentityView| k != e.0@ ==> self.spec_get(k) == pre.spec_get(k),
    {
        let s = pre.spec_accounts();
        pre.lemma_keys_unique();
        lemma_remove_insert(s, i, e);
        assert(self.spec_accounts() =~= s.update(i, e));
        let s2 = self.spec_accounts();
        assert forall|k: IdentityView| #[trigger] self.spec_get(k) == (if k == e.0@ {
            Some(e.1)
        } else {
            pre.spec_get(k)
        }) by {
            lemma_account_update(s, i, e, k);
        }
        assert forall|a: int| 0 <= a < s2.len() implies {
            &&& (#[trigger] s2[a]).0@.0 == TAG_SUBRESOURCE
            &&& s2[a].0@.1 == self.spec_identity()@.1
            &&& s2[a].0@.2 < self.spec_next_sub()
            &&& s2[a].1.wf()
        } by {
            if a != i {
                assert(s2[a] == s[a]);
            }
        }
        assert forall|a: int, b: int| 0 <= a < b < s2.len() implies (#[trigger] s2[a]).0@.2 != (
        #[trigger] s2[b]).0@.2 by {
            assert(s2[a].0@ == s[a].0@);
            assert(s2[b].0@ == s[b].0@);
        }
    }

    /// The union of all roles granted to anyone on the account, without the
    /// owner role (the owner role is structural, not listed as a grant).
    pub fn list_roles(&self, sender: &Identity, args: ListRolesArgs) -> (r: Result<
        ListRolesReturn,
        OmniError,
    >)
        requires
            self.wf(),
        ensures
            (r matches Ok(ret)) <==> self.spec_get(args.account@) is Some,
            r matches Err(e) ==> e == OmniError::UnknownAccount,
            r matches Ok(ret) ==> (self.spec_get(args.account@) matches Some(acct)
                && ret.roles@ == spec_all_roles(acct.roles.spec_entries()).remove(Role::Owner)),
    {
        match self.find_index(&args.account) {
            Some(i) => {
                let all = self.accounts[i].1.roles.union_of_all();
                Ok(ListRolesReturn { roles: all.without_owner() })
            },
            None => Err(OmniError::unknown_account()),
        }
    }

    /// The roles of each requested identity on the account. Every requested
    /// identity appears in the result, mapped to its (possibly empty) set.
    pub fn get_roles(&self, sender: &Identity, args: GetRolesArgs) -> (r: Result<
        GetRolesReturn,
        OmniError,
    >)
        requires
            self.wf(),
        ensures
            (r matches Ok(ret)) <==> self.spec_get(args.account@) is Some,
            r matches Err(e) ==> e == OmniError::UnknownAccount,
            r matches Ok(ret) ==> (self.spec_get(args.account@) matches Some(acct) && ({
                &&& ret.roles.wf()
                &&& forall|j: int|
                    0 <= j < args.identities@.len() ==> ret.roles.spec_has_key(
                        (#[trigger] args.identities@[j])@,
                    )
                &&& forall|k: IdentityView|
                    ret.roles.spec_has_key(k) ==> exists|j: int|
                        0 <= j < args.identities@.len() && (#[trigger] args.identities@[j])@ == k
                &&& forall|k: IdentityView|
                    ret.roles.spec_has_key(k) ==> ret.roles.spec_roles(k) == acct.roles.spec_roles(
                        k,
                    )
            })),
    {
        let i = match self.find_index(&args.account) {
            Some(i) => i,
            None => {
                return Err(OmniError::unknown_account());
            },
        };
        let mut out = RoleMap::new();
        let mut j: usize = 0;
        #[verifier::loop_isolation(false)]
        while j < args.identities.len()
            invariant
                self.wf(),
                i < self.spec_accounts().len(),
                self.spec_accounts()[i as int].0@ == args.account@,
                self.spec_get(args.account@) == Some(self.spec_accounts()[i as int].1),
                j <= args.identities@.len(),
                out.wf(),
                forall|k: IdentityView|
                    out.spec_has_key(k) ==> exists|j2: int|
                        0 <= j2 < j && (#[trigger] args.identities@[j2])@ == k,
                forall|j2: int|
                    0 <= j2 < j ==> out.spec_has_key((#[trigger] args.identities@[j2])@),
                forall|k: IdentityView|
                    out.spec_has_key(k) ==> out.spec_roles(k) == self.spec_accounts()[
                        i as int
                    ].1.roles.spec_roles(k),
            decreases args.identities@.len() - j,
        {
            let id = args.identities[j];
            let rs = self.accounts[i].1.roles.get(&id);
            out.insert(id, rs);
            proof {
                assert forall|k: IdentityView| out.spec_has_key(k) implies exists|j2: int|
                    0 <= j2 < j + 1 && (#[trigger] args.identities@[j2])@ == k by {
                    if k == id@ {
                        assert(args.identities@[j as int]@ == k);
                    } else {
                        let w = choose|j2: int|
                            0 <= j2 < j && (#[trigger] args.identities@[j2])@ == k;
                        assert(0 <= w < j + 1 && args.identities@[w]@ == k);
                    }
                }
            }
            j += 1;
        }
        Ok(GetRolesReturn { roles: out })
    }

    /// Grant roles. Requires the owner role; every (identity, role) pair must
    /// be grantable against the account's current features, else the whole
    /// call fails with `UnknownRole` and changes nothing. On success each
    /// identity's role set is unioned with the new roles.
    pub fn add_roles(&mut self, sender: &Identity, args: AddRolesArgs) -> (r: Result<
        (),
        OmniError,
    >)
        requires
            old(self).wf(),
            args.roles.wf(),
        ensures
            final(self).wf(),
            old(self).spec_get(args.account@) is None ==> r == Result::<(), OmniError>::Err(
                OmniError::UnknownAccount,
            ) && *final(self) == *old(self),
            (old(self).spec_get(args.account@) matches Some(acct) && !acct.spec_is_owner(sender@))
                ==> ((r matches Err(e) && is_user_needs_owner(e)) && *final(self) == *old(self)),
            old(self).spec_get(args.account@) matches Some(acct) ==> ((acct.spec_is_owner(sender@)
                && !spec_grants_valid(args.roles, acct.features@)) ==> (r == Result::<
                (),
                OmniError,
            >::Err(OmniError::UnknownRole) && *final(self) == *old(self))),
            old(self).spec_get(args.account@) matches Some(acct) ==> ((acct.spec_is_owner(sender@)
                && spec_grants_valid(args.roles, acct.features@)) ==> {
                &&& r matches Ok(u)
                &&& final(self).spec_get(args.account@) matches Some(a2) && ({
                    &&& view_opt_string(a2.description) == view_opt_string(acct.description)
                    &&& forall|k: IdentityView|
                        a2.roles.spec_roles(k) == roles_after_add(
                            acct.roles.spec_roles(k),
                            args.roles.spec_roles(k),
                        )
                    &&& forall|k: IdentityView|
                        a2.roles.spec_has_key(k) == (acct.roles.spec_has_key(k)
                            || args.roles.spec_has_key(k))
                    &&& a2.features@ == acct.features@
                })
                &&& forall|k: IdentityView|
                    k != args.account@ ==> final(self).spec_get(k) == old(self).spec_get(k)
                &&& final(self).spec_identity() == old(self).spec_identity()
                &&& final(self).spec_next_sub() == old(self).spec_next_sub()
            }),
    {
        let i = match self.find_index(&args.account) {
            Some(i) => i,
            None => {
                return Err(OmniError::unknown_account());
            },
        };
        if !self.accounts[i].1.has_role(sender, Role::Owner) {
            return Err(OmniError::user_needs_role("owner".to_owned()));
        }
        if !args.roles.all_grantable(&self.accounts[i].1.features) {
            return Err(OmniError::unknown_role());
        }
        let (key, acct0) = self.accounts.remove(i);
        let mut rmap = acct0.roles;
        rmap.merge_union(&args.roles);
        let acct = Account {
            description: acct0.description,
            roles: rmap,
            features: acct0.features,
        };
        let ghost e = (key, acct);
        self.accounts.insert(i, (key, acct));
        proof {
            self.commit_replace(*old(self), i as int, e);
            assert(self.spec_get(args.account@) matches Some(a2x) && a2x == e.1);
            assert(old(self).spec_get(args.account@) matches Some(acctx) && acctx == old(
                self,
            ).spec_accounts()[i as int].1);
        }
        Ok(())
    }

    /// Remove roles. Requires the owner role; removes listed roles by set
    /// difference per identity, except that the owner role is never removed
    /// through this path. Removing a role never held is a no-op, never an
    /// error; there is no grantability re-check on removal.
    pub fn remove_roles(&mut self, sender: &Identity, args: RemoveRolesArgs) -> (r: Result<
        (),
        OmniError,
    >)
        requires
            old(self).wf(),
            args.roles.wf(),
        ensures
            final(self).wf(),
            old(self).spec_get(args.account@) is None ==> r == Result::<(), OmniError>::Err(
                OmniError::UnknownAccount,
            ) && *final(self) == *old(self),
            (old(self).spec_get(args.account@) matches Some(acct) && !acct.spec_is_owner(sender@))
                ==> ((r matches Err(e) && is_user_needs_owner(e)) && *final(self) == *old(self)),
            old(self).spec_get(args.account@) matches Some(acct) ==> (acct.spec_is_owner(sender@)
                ==> {
                &&& r matches Ok(u)
                &&& final(self).spec_get(args.account@) matches Some(a2) && ({
                    &&& view_opt_string(a2.description) == view_opt_string(acct.description)
                    &&& forall|k: IdentityView|
                        a2.roles.spec_roles(k) == roles_after_removal(
                            acct.roles.spec_roles(k),
                            args.roles.spec_roles(k),
                        )
                    &&& forall|k: IdentityView|
                        a2.roles.spec_has_key(k) == acct.roles.spec_has_key(k)
                    &&& a2.features@ == acct.features@
                })
                &&& forall|k: IdentityView|
                    k != args.account@ ==> final(self).spec_get(k) == old(self).spec_get(k)
                &&& final(self).spec_identity() == old(self).spec_identity()
                &&& final(self).spec_next_sub() == old(self).spec_next_sub()
            }),
    {
        let i = match self.find_index(&args.account) {
            Some(i) => i,
            None => {
                return Err(OmniError::unknown_account());
            },
        };
        if !self.accounts[i].1.has_role(sender, Role::Owner) {
            return Err(OmniError::user_needs_role("owner".to_owned()));
        }
        let (key, acct0) = self.accounts.remove(i);
        let mut rmap = acct0.roles;
        rmap.remove_all(&args.roles);
        let acct = Account {
            description: acct0.description,
            roles: rmap,
            features: acct0.features,
        };
        let ghost e = (key, acct);
        self.accounts.insert(i, (key, acct));
        proof {
            self.commit_replace(*old(self), i as int, e);
            assert(self.spec_get(args.account@) matches Some(a2x) && a2x == e.1);
            assert(old(self).spec_get(args.account@) matches Some(acctx) && acctx == old(
                self,
            ).spec_accounts()[i as int].1);
        }
        Ok(())
    }

    /// Attach features. Requires the owner role; fails with
    /// `DuplicateFeature` and changes nothing if any new feature's id exists
    /// on the account (or twice in the request); otherwise appends the
    /// features and then applies the requested grants, validated against the
    /// updated feature set.
    pub fn add_features(&mut self, sender: &Identity, args: AddFeaturesArgs) -> (r: Result<
        (),
        OmniError,
    >)
        requires
            old(self).wf(),
            args.wf(),
        ensures
            final(self).wf(),
            old(self).spec_get(args.account@) is None ==> r == Result::<(), OmniError>::Err(
                OmniError::UnknownAccount,
            ) && *final(self) == *old(self),
            (old(self).spec_get(args.account@) matches Some(acct) && !acct.spec_is_owner(sender@))
                ==> ((r matches Err(e) && is_user_needs_owner(e)) && *final(self) == *old(self)),
            old(self).spec_get(args.account@) matches Some(acct) ==> ((acct.spec_is_owner(sender@)
                && !spec_features_addable(acct.features@, args.features@)) ==> (r == Result::<
                (),
                OmniError,
            >::Err(OmniError::DuplicateFeature) && *final(self) == *old(self))),
            old(self).spec_get(args.account@) matches Some(acct) ==> ((acct.spec_is_owner(sender@)
                && spec_features_addable(acct.features@, args.features@)
                && !spec_opt_grants_valid(args.roles, acct.features@ + args.features@)) ==> (r
                == Result::<(), OmniError>::Err(OmniError::UnknownRole) && *final(self) == *old(
                self,
            ))),
            old(self).spec_get(args.account@) matches Some(acct) ==> ((acct.spec_is_owner(sender@)
                && spec_features_addable(acct.features@, args.features@)
                && spec_opt_grants_valid(args.roles, acct.features@ + args.features@)) ==> {
                &&& r matches Ok(u)
                &&& final(self).spec_get(args.account@) matches Some(a2) && ({
                    &&& view_opt_string(a2.description) == view_opt_string(acct.description)
                    &&& a2.features@ == acct.features@ + args.features@
                    &&& forall|k: IdentityView|
                        a2.roles.spec_roles(k) == roles_after_add(
                            acct.roles.spec_roles(k),
                            spec_requested_roles(args.roles, k),
                        )
                })
                &&& forall|k: IdentityView|
                    k != args.account@ ==> final(self).spec_get(k) == old(self).spec_get(k)
                &&& final(self).spec_identity() == old(self).spec_identity()
                &&& final(self).spec_next_sub() == old(self).spec_next_sub()
            }),
    {
        let i = match self.find_index(&args.account) {
            Some(i) => i,
            None => {
                return Err(OmniError::unknown_account());
            },
        };
        if !self.accounts[i].1.has_role(sender, Role::Owner) {
            return Err(OmniError::user_needs_role("owner".to_owned()));
        }
        let ghost cur = self.spec_accounts()[i as int].1.features@;
        let mut cand = self.accounts[i].1.features.duplicate();
        let n = args.features.len();
        let mut j: usize = 0;
        #[verifier::loop_isolation(false)]
        while j < n
            invariant
                n == args.features@.len(),
                j <= n,
                cand@ == cur + args.features@.subrange(0, j as int),
                cand.wf(),
                cur == self.spec_accounts()[i as int].1.features@,
                i < self.spec_accounts().len(),
                self.spec_accounts()[i as int].1.wf(),
                forall|j2: int|
                    0 <= j2 < j ==> !spec_has_feature_id(cur, (#[trigger] args.features@[j2]).id),
                forall|a: int, b: int|
                    0 <= a < b < j ==> (#[trigger] args.features@[a]).id != (
                    #[trigger] args.features@[b]).id,
            decreases n - j,
        {
            let f = args.features.get(j);
            if cand.has_id(f.id) {
                proof {
                    let w = choose|w: int| 0 <= w < cand@.len() && (#[trigger] cand@[w]).id == f.id;
                    if w < cur.len() {
                        assert(cand@[w] == cur[w]);
                        assert(spec_has_feature_id(cur, args.features@[j as int].id));
                    } else {
                        let w2 = w - cur.len();
                        assert(cand@[w] == args.features@.subrange(0, j as int)[w2]);
                        assert(args.features@[w2].id == args.features@[j as int].id);
                    }
                    assert(!spec_features_addable(cur, args.features@));
                }
                return Err(OmniError::duplicate_feature());
            }
            let ghost pre_cand = cand@;
            cand.push(f);
            proof {
                assert(cand@ =~= cur + args.features@.subrange(0, j as int + 1));
                assert(!spec_has_feature_id(cur, args.features@[j as int].id)) by {
                    if spec_has_feature_id(cur, args.features@[j as int].id) {
                        let w = choose|w: int|
                            0 <= w < cur.len() && (#[trigger] cur[w]).id == args.features@[
                                j as int
                            ].id;
                        assert(pre_cand[w] == cur[w]);
                        assert(spec_has_feature_id(pre_cand, f.id));
                    }
                }
                assert forall|a: int| 0 <= a < j implies (#[trigger] args.features@[a]).id
                    != args.features@[j as int].id by {
                    if args.features@[a].id == args.features@[j as int].id {
                        assert(pre_cand[cur.len() + a] == args.features@.subrange(0, j as int)[a]);
                        assert(spec_has_feature_id(pre_cand, f.id));
                    }
                }
            }
            j += 1;
        }
        proof {
            assert(args.features@.subrange(0, n as int) =~= args.features@);
            assert(spec_features_addable(cur, args.features@));
        }
        let valid = match &args.roles {
            Some(r) => r.all_grantable(&cand),
            None => true,
        };
        if !valid {
            return Err(OmniError::unknown_role());
        }
        let (key, acct0) = self.accounts.remove(i);
        let mut rmap = acct0.roles;
        match &args.roles {
            Some(r) => rmap.merge_union(r),
            None => {
                proof {
                    assert forall|k: IdentityView|
                        rmap.spec_roles(k) == roles_after_add(
                            old(self).spec_accounts()[i as int].1.roles.spec_roles(k),
                            spec_requested_roles(args.roles, k),
                        ) by {
                        assert(rmap.spec_roles(k).union(Set::<Role>::empty()) =~= rmap.spec_roles(
                            k,
                        ));
                    }
                }
            },
        }
        let acct = Account { description: acct0.description, roles: rmap, features: cand };
        let ghost e = (key, acct);
        self.accounts.insert(i, (key, acct));
        proof {
            self.commit_replace(*old(self), i as int, e);
            assert(self.spec_get(args.account@) matches Some(a2x) && a2x == e.1);
            assert(old(self).spec_get(args.account@) matches Some(acctx) && acctx == old(
                self,
            ).spec_accounts()[i as int].1);
        }
        Ok(())
    }

    /// Delete an account. Requires the owner role; afterwards any reference
    /// to the account id fails with `UnknownAccount`.
    pub fn delete(&mut self, sender: &Identity, args: DeleteArgs) -> (r: Result<(), OmniError>)
        requires
            old(self).wf(),
        ensures
            final(self).wf(),
            old(self).spec_get(args.account@) is None ==> r == Result::<(), OmniError>::Err(
                OmniError::UnknownAccount,
            ) && *final(self) == *old(self),
            (old(self).spec_get(args.account@) matches Some(acct) && !acct.spec_is_owner(sender@))
                ==> ((r matches Err(e) && is_user_needs_owner(e)) && *final(self) == *old(self)),
            (old(self).spec_get(args.account@) matches Some(acct) && acct.spec_is_owner(sender@))
                ==> ({
                &&& r matches Ok(u)
                &&& final(self).spec_get(args.account@) is None
                &&& forall|k: IdentityView|
                    k != args.account@ ==> final(self).spec_get(k) == old(self).spec_get(k)
                &&& final(self).spec_identity() == old(self).spec_identity()
                &&& final(self).spec_next_sub() == old(self).spec_next_sub()
            }),
    {
        let i = match self.find_index(&args.account) {
            Some(i) => i,
            None => {
                return Err(OmniError::unknown_account());
            },
        };
        if !self.accounts[i].1.has_role(sender, Role::Owner) {
            return Err(OmniError::user_needs_role("owner".to_owned()));
        }
        self.accounts.remove(i);
        proof {
            let s = old(self).spec_accounts();
            old(self).lemma_keys_unique();
            s.remove_ensures(i as int);
            assert forall|k: IdentityView| #[trigger] self.spec_get(k) == (if k == s[i as int].0@ {
                None::<Account>
            } else {
                old(self).spec_get(k)
            }) by {
                lemma_account_removed(s, i as int, k);
            }
            let s2 = self.spec_accounts();
            assert forall|a: int| 0 <= a < s2.len() implies {
                &&& (#[trigger] s2[a]).0@.0 == TAG_SUBRESOURCE
                &&& s2[a].0@.1 == self.spec_identity()@.1
                &&& s2[a].0@.2 < self.spec_next_sub()
                &&& s2[a].1.wf()
            } by {
                if a < i as int {
                    assert(s2[a] == s[a]);
                } else {
                    assert(s2[a] == s[a + 1]);
                }
            }
            assert forall|a: int, b: int| 0 <= a < b < s2.len() implies (#[trigger] s2[a]).0@.2
                != (#[trigger] s2[b]).0@.2 by {
                let a0 = if a < i as int {
                    a
                } else {
                    a + 1
                };
                let b0 = if b < i as int {
                    b
                } else {
                    b + 1
                };
                assert(s2[a] == s[a0]);
                assert(s2[b] == s[b0]);
            }
        }
        Ok(())
    }
}

} // verus!
