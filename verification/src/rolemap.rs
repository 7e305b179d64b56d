//! The role table of an account: a mapping from identities to role sets,
//! kept as an association list with pairwise distinct keys. The mathematical
//! reading of a table is the total function `spec_roles`, which maps every
//! identity to its (possibly empty) granted set.

use vstd::prelude::*;
use crate::features::{spec_role_grantable, FeatureSet};
use crate::identity::{identity_eq, Identity, IdentityView};
use crate::roles::{roles_after_add, roles_after_removal, Role, RoleSet};

verus! {

/// The roles `k` holds in the entry sequence `s`: the union of the sets of
/// the entries keyed by `k` (with distinct keys, the one such set).
pub open spec fn spec_roles_in(s: Seq<(Identity, RoleSet)>, k: IdentityView) -> Set<Role>
    decreases s.len(),
{
    if s.len() == 0 {
        Set::empty()
    } else {
        spec_roles_in(s.drop_last(), k).union(
            if s.last().0@ == k {
                s.last().1@
            } else {
                Set::empty()
            },
        )
    }
}

/// Whether `k` keys an entry of `s`.
pub open spec fn spec_has_key_in(s: Seq<(Identity, RoleSet)>, k: IdentityView) -> bool {
    exists|i: int| 0 <= i < s.len() && (#[trigger] s[i]).0@ == k
}

/// Pairwise distinct keys.
pub open spec fn spec_keys_unique(s: Seq<(Identity, RoleSet)>) -> bool {
    forall|i: int, j: int| 0 <= i < j < s.len() ==> (#[trigger] s[i]).0@ != (#[trigger] s[j]).0@
}

/// All roles granted to anyone in `s`.
pub open spec fn spec_all_roles(s: Seq<(Identity, RoleSet)>) -> Set<Role>
    decreases s.len(),
{
    if s.len() == 0 {
        Set::empty()
    } else {
        spec_all_roles(s.drop_last()).union(s.last().1@)
    }
}

proof fn lemma_roles_absent(s: Seq<(Identity, RoleSet)>, k: IdentityView)
    requires
        forall|i: int| 0 <= i < s.len() ==> (#[trigger] s[i]).0@ != k,
    ensures
        spec_roles_in(s, k) == Set::<Role>::empty(),
    decreases s.len(),
{
    if s.len() > 0 {
        lemma_roles_absent(s.drop_last(), k);
        assert(s.last() == s[s.len() - 1]);
        assert(spec_roles_in(s, k) =~= Set::<Role>::empty());
    } else {
        assert(spec_roles_in(s, k) =~= Set::<Role>::empty());
    }
}

proof fn lemma_roles_at_index(s: Seq<(Identity, RoleSet)>, k: IdentityView, i: int)
    requires
        spec_keys_unique(s),
        0 <= i < s.len(),
        s[i].0@ == k,
    ensures
        spec_roles_in(s, k) == s[i].1@,
    decreases s.len(),
{
    assert(s.last() == s[s.len() - 1]);
    if i == s.len() - 1 {
        assert(forall|j: int|
            0 <= j < s.drop_last().len() ==> (#[trigger] s.drop_last()[j]).0@ != k);
        lemma_roles_absent(s.drop_last(), k);
        assert(spec_roles_in(s, k) =~= s[i].1@);
    } else {
        lemma_roles_at_index(s.drop_last(), k, i);
        assert(s.last().0@ != k);
        assert(spec_roles_in(s, k) =~= s[i].1@);
    }
}

proof fn lemma_roles_update(
    s: Seq<(Identity, RoleSet)>,
    i: int,
    e: (Identity, RoleSet),
    k: IdentityView,
)
    requires
        spec_keys_unique(s),
        0 <= i < s.len(),
        e.0@ == s[i].0@,
    ensures
        spec_roles_in(s.update(i, e), k) == if k == e.0@ {
            e.1@
        } else {
            spec_roles_in(s, k)
        },
        spec_keys_unique(s.update(i, e)),
        forall|k2: IdentityView| spec_has_key_in(s.update(i, e), k2) == spec_has_key_in(s, k2),
    decreases s.len(),
{
    let s2 = s.update(i, e);
    assert(s2.len() == s.len());
    assert(forall|j: int| 0 <= j < s.len() && j != i ==> s2[j] == s[j]);
    assert(s2[i] == e);
    // keys are the same views, so uniqueness and key membership carry over
    assert forall|k2: IdentityView| spec_has_key_in(s2, k2) implies spec_has_key_in(s, k2) by {
        let w = choose|w: int| 0 <= w < s2.len() && (#[trigger] s2[w]).0@ == k2;
        assert(s[w].0@ == k2);
    }
    assert forall|k2: IdentityView| spec_has_key_in(s, k2) implies spec_has_key_in(s2, k2) by {
        let w = choose|w: int| 0 <= w < s.len() && (#[trigger] s[w]).0@ == k2;
        assert(s2[w].0@ == k2);
    }
    if i == s.len() - 1 {
        assert(s2.drop_last() =~= s.drop_last());
        if k == e.0@ {
            assert(forall|j: int|
                0 <= j < s.drop_last().len() ==> (#[trigger] s.drop_last()[j]).0@ != k);
            lemma_roles_absent(s.drop_last(), k);
            assert(spec_roles_in(s2, k) =~= e.1@);
        } else {
            assert(spec_roles_in(s2, k) =~= spec_roles_in(s, k));
        }
    } else {
        lemma_roles_update(s.drop_last(), i, e, k);
        assert(s2.drop_last() =~= s.drop_last().update(i, e));
        assert(s2.last() == s.last());
        if k == e.0@ {
            assert(s.last().0@ != k);
            assert(spec_roles_in(s2, k) =~= e.1@);
        } else {
            assert(spec_roles_in(s2, k) =~= spec_roles_in(s, k));
        }
    }
}

proof fn lemma_roles_push(s: Seq<(Identity, RoleSet)>, e: (Identity, RoleSet), k: IdentityView)
    requires
        !spec_has_key_in(s, e.0@),
    ensures
        spec_roles_in(s.push(e), k) == if k == e.0@ {
            e.1@
        } else {
            spec_roles_in(s, k)
        },
{
    let s2 = s.push(e);
    assert(s2.drop_last() =~= s);
    assert(s2.last() == e);
    if k == e.0@ {
        assert(forall|i: int| 0 <= i < s.len() ==> (#[trigger] s[i]).0@ != k);
        lemma_roles_absent(s, k);
        assert(spec_roles_in(s2, k) =~= e.1@);
    } else {
        assert(spec_roles_in(s2, k) =~= spec_roles_in(s, k));
    }
}

/// A mapping from identities to role sets.
#[derive(Debug)]
pub struct RoleMap {
    entries: Vec<(Identity, RoleSet)>,
}

impl RoleMap {
    /// The entries, in insertion order.
    pub closed spec fn spec_entries(&self) -> Seq<(Identity, RoleSet)> {
        self.entries@
    }

    /// Keys are pairwise distinct.
    pub open spec fn wf(&self) -> bool {
        spec_keys_unique(self.spec_entries())
    }

    /// The roles granted to `k` (empty when `k` keys no entry).
    pub open spec fn spec_roles(&self, k: IdentityView) -> Set<Role> {
        spec_roles_in(self.spec_entries(), k)
    }

    pub open spec fn spec_has_key(&self, k: IdentityView) -> bool {
        spec_has_key_in(self.spec_entries(), k)
    }

    pub fn new() -> (r: RoleMap)
        ensures
            r.wf(),
            r.spec_entries() == Seq::<(Identity, RoleSet)>::empty(),
            forall|k: IdentityView| r.spec_roles(k) == Set::<Role>::empty(),
            forall|k: IdentityView| !r.spec_has_key(k),
    {
        RoleMap { entries: Vec::new() }
    }

    pub fn len(&self) -> (r: usize)
        ensures
            r == self.spec_entries().len(),
    {
        self.entries.len()
    }

    pub fn entry_at(&self, i: usize) -> (r: (Identity, RoleSet))
        requires
            i < self.spec_entries().len(),
        ensures
            r == self.spec_entries()[i as int],
    {
        self.entries[i]
    }

    fn find_index(&self, id: &Identity) -> (r: Option<usize>)
        ensures
            match r {
                Some(i) => i < self.spec_entries().len() && self.spec_entries()[i as int].0@
                    == id@,
                None => !self.spec_has_key(id@),
            },
    {
        let mut i: usize = 0;
        while i < self.entries.len()
            invariant
                i <= self.spec_entries().len(),
                forall|j: int| 0 <= j < i ==> (#[trigger] self.spec_entries()[j]).0@ != id@,
            decreases self.spec_entries().len() - i,
        {
            if identity_eq(&self.entries[i].0, id) {
                return Some(i);
            }
            i += 1;
        }
        None
    }

    pub fn contains_key(&self, id: &Identity) -> (r: bool)
        ensures
            r == self.spec_has_key(id@),
    {
        match self.find_index(id) {
            Some(i) => {
                proof {
                    assert(spec_has_key_in(self.spec_entries(), id@));
                }
                true
            },
            None => false,
        }
    }

    /// The roles granted to `id`; the empty set when `id` keys no entry.
    pub fn get(&self, id: &Identity) -> (r: RoleSet)
        requires
            self.wf(),
        ensures
            r@ == self.spec_roles(id@),
    {
        match self.find_index(id) {
            Some(i) => {
                let r = self.entries[i].1;
                proof {
                    lemma_roles_at_index(self.spec_entries(), id@, i as int);
                }
                r
            },
            None => {
                proof {
                    assert(forall|j: int|
                        0 <= j < self.spec_entries().len() ==> (#[trigger] self.spec_entries()[j]).0@
                            != id@);
                    lemma_roles_absent(self.spec_entries(), id@);
                }
                RoleSet::empty()
            },
        }
    }

    /// Set the roles of `id` to exactly `roles`, replacing an existing entry
    /// or appending a new one.
    pub fn insert(&mut self, id: Identity, roles: RoleSet)
        requires
            old(self).wf(),
        ensures
            final(self).wf(),
            forall|k: IdentityView|
                final(self).spec_roles(k) == if k == id@ {
                    roles@
                } else {
                    old(self).spec_roles(k)
                },
            forall|k: IdentityView|
                final(self).spec_has_key(k) == (old(self).spec_has_key(k) || k == id@),
    {
        match self.find_index(&id) {
            Some(i) => {
                let e = &mut self.entries[i];
                e.1 = roles;
                proof {
                    let s = old(self).spec_entries();
                    let entry = (s[i as int].0, roles);
                    assert(self.spec_entries() =~= s.update(i as int, entry));
                    assert forall|k: IdentityView|
                        self.spec_roles(k) == if k == id@ {
                            roles@
                        } else {
                            old(self).spec_roles(k)
                        } by {
                        lemma_roles_update(s, i as int, entry, k);
                    }
                    assert forall|k: IdentityView|
                        self.spec_has_key(k) == (old(self).spec_has_key(k) || k == id@) by {
                        lemma_roles_update(s, i as int, entry, k);
                        if k == id@ {
                            assert(s[i as int].0@ == k);
                        }
                    }
                }
            },
            None => {
                self.entries.push((id, roles));
                proof {
                    let s = old(self).spec_entries();
                    let e = (id, roles);
                    assert(self.spec_entries() =~= s.push(e));
                    assert forall|k: IdentityView|
                        self.spec_roles(k) == if k == id@ {
                            roles@
                        } else {
                            old(self).spec_roles(k)
                        } by {
                        lemma_roles_push(s, e, k);
                    }
                    assert forall|k: IdentityView|
                        self.spec_has_key(k) == (old(self).spec_has_key(k) || k == id@) by {
                        if spec_has_key_in(s.push(e), k) {
                            let w = choose|w: int|
                                0 <= w < s.push(e).len() && (#[trigger] s.push(e)[w]).0@ == k;
                            if w < s.len() {
                                assert(s[w].0@ == k);
                            }
                        }
                        if spec_has_key_in(s, k) {
                            let w = choose|w: int| 0 <= w < s.len() && (#[trigger] s[w]).0@ == k;
                            assert(s.push(e)[w].0@ == k);
                        }
                        if k == id@ {
                            assert(s.push(e)[s.len() as int].0@ == k);
                        }
                    }
                    assert forall|a: int, b: int|
                        0 <= a < b < self.spec_entries().len() implies (
                    #[trigger] self.spec_entries()[a]).0@ != (#[trigger] self.spec_entries()[b]).0@
                        by {
                        if b == s.len() {
                            assert(s[a].0@ == self.spec_entries()[a].0@);
                            assert(!spec_has_key_in(s, id@));
                        }
                    }
                }
            },
        }
    }

    /// Whether every (identity, role) grant in this table is valid against
    /// `features`.
    pub fn all_grantable(&self, features: &FeatureSet) -> (r: bool)
        requires
            self.wf(),
        ensures
            r == (forall|k: IdentityView, role: Role|
                #[trigger] self.spec_roles(k).contains(role) ==> spec_role_grantable(
                    features@,
                    role,
                )),
    {
        let mut j: usize = 0;
        #[verifier::loop_isolation(false)]
        while j < self.entries.len()
            invariant
                self.wf(),
                j <= self.spec_entries().len(),
                forall|j2: int, role: Role|
                    0 <= j2 < j && #[trigger] self.spec_entries()[j2].1@.contains(role)
                        ==> spec_role_grantable(features@, role),
            decreases self.spec_entries().len() - j,
        {
            if !features.all_roles_grantable(&self.entries[j].1) {
                proof {
                    let role = choose|role: Role|
                        self.spec_entries()[j as int].1@.contains(role) && !spec_role_grantable(
                            features@,
                            role,
                        );
                    lemma_roles_at_index(
                        self.spec_entries(),
                        self.spec_entries()[j as int].0@,
                        j as int,
                    );
                    assert(self.spec_roles(self.spec_entries()[j as int].0@).contains(role));
                }
                return false;
            }
            j += 1;
        }
        proof {
            assert forall|k: IdentityView, role: Role|
                #[trigger] self.spec_roles(k).contains(role) implies spec_role_grantable(
                features@,
                role,
            ) by {
                lemma_roles_to_entry(self.spec_entries(), k, role);
            }
        }
        true
    }

    /// Union the requested grants into this table, identity by identity.
    pub fn merge_union(&mut self, req: &RoleMap)
        requires
            old(self).wf(),
            req.wf(),
        ensures
            final(self).wf(),
            forall|k: IdentityView|
                final(self).spec_roles(k) == roles_after_add(
                    old(self).spec_roles(k),
                    req.spec_roles(k),
                ),
            forall|k: IdentityView|
                #![trigger final(self).spec_has_key(k)]
                #![trigger old(self).spec_has_key(k)]
                #![trigger req.spec_has_key(k)]
                final(self).spec_has_key(k) == (old(self).spec_has_key(k) || req.spec_has_key(k)),
    {
        let n = req.len();
        let mut j: usize = 0;
        while j < n
            invariant
                n == req.spec_entries().len(),
                j <= n,
                req.wf(),
                self.wf(),
                forall|k: IdentityView|
                    self.spec_roles(k) == old(self).spec_roles(k).union(
                        spec_roles_in(req.spec_entries().subrange(0, j as int), k),
                    ),
                forall|k: IdentityView|
                    self.spec_has_key(k) == (old(self).spec_has_key(k) || spec_has_key_in(
                        req.spec_entries().subrange(0, j as int),
                        k,
                    )),
            decreases n - j,
        {
            let (id, rs) = req.entry_at(j);
            let cur = self.get(&id);
            let merged = cur.union(&rs);
            self.insert(id, merged);
            proof {
                let pre = req.spec_entries().subrange(0, j as int);
                let post = req.spec_entries().subrange(0, j as int + 1);
                assert(post.drop_last() =~= pre);
                assert(post.last() == req.spec_entries()[j as int]);
                assert forall|k: IdentityView|
                    self.spec_roles(k) == old(self).spec_roles(k).union(spec_roles_in(post, k)) by {
                    if k == id@ {
                        assert(self.spec_roles(k) =~= old(self).spec_roles(k).union(
                            spec_roles_in(post, k),
                        ));
                    } else {
                        assert(spec_roles_in(post, k) == spec_roles_in(pre, k));
                    }
                }
                assert forall|k: IdentityView|
                    self.spec_has_key(k) == (old(self).spec_has_key(k) || spec_has_key_in(post, k))
                    by {
                    if spec_has_key_in(post, k) && !spec_has_key_in(pre, k) {
                        let w = choose|w: int| 0 <= w < post.len() && (#[trigger] post[w]).0@ == k;
                        assert(w == j);
                    }
                    if spec_has_key_in(pre, k) {
                        let w = choose|w: int| 0 <= w < pre.len() && (#[trigger] pre[w]).0@ == k;
                        assert(post[w].0@ == k);
                    }
                    if k == id@ {
                        assert(post[j as int].0@ == k);
                    }
                }
            }
            j += 1;
        }
        proof {
            assert(req.spec_entries().subrange(0, n as int) =~= req.spec_entries());
        }
    }

    /// Apply the requested removals to this table, identity by identity: set
    /// difference per identity, never removing the owner role, never creating
    /// an entry.
    pub fn remove_all(&mut self, req: &RoleMap)
        requires
            old(self).wf(),
            req.wf(),
        ensures
            final(self).wf(),
            forall|k: IdentityView|
                final(self).spec_roles(k) == roles_after_removal(
                    old(self).spec_roles(k),
                    req.spec_roles(k),
                ),
            forall|k: IdentityView| final(self).spec_has_key(k) == old(self).spec_has_key(k),
    {
        let n = req.len();
        let mut j: usize = 0;
        while j < n
            invariant
                n == req.spec_entries().len(),
                j <= n,
                req.wf(),
                self.wf(),
                forall|k: IdentityView|
                    self.spec_roles(k) == roles_after_removal(
                        old(self).spec_roles(k),
                        spec_roles_in(req.spec_entries().subrange(0, j as int), k),
                    ),
                forall|k: IdentityView| self.spec_has_key(k) == old(self).spec_has_key(k),
            decreases n - j,
        {
            let (id, rs) = req.entry_at(j);
            if self.contains_key(&id) {
                let cur = self.get(&id);
                let reduced = cur.difference(&rs.without_owner());
                self.insert(id, reduced);
            }
            proof {
                let pre = req.spec_entries().subrange(0, j as int);
                let post = req.spec_entries().subrange(0, j as int + 1);
                assert(post.drop_last() =~= pre);
                assert(post.last() == req.spec_entries()[j as int]);
                assert(spec_roles_in(pre, id@) == Set::<Role>::empty()) by {
                    assert forall|w: int| 0 <= w < pre.len() implies (#[trigger] pre[w]).0@ != id@
                        by {
                        assert(pre[w] == req.spec_entries()[w]);
                    }
                    lemma_roles_absent(pre, id@);
                }
                assert forall|k: IdentityView|
                    self.spec_roles(k) == roles_after_removal(
                        old(self).spec_roles(k),
                        spec_roles_in(post, k),
                    ) by {
                    if k == id@ {
                        assert(spec_roles_in(post, k) =~= req.spec_entries()[j as int].1@);
                        if old(self).spec_has_key(k) {
                            assert(self.spec_roles(k) =~= roles_after_removal(
                                old(self).spec_roles(k),
                                spec_roles_in(post, k),
                            ));
                        } else {
                            lemma_roles_absent_of_map(*old(self), k);
                            assert(self.spec_roles(k) =~= roles_after_removal(
                                old(self).spec_roles(k),
                                spec_roles_in(post, k),
                            ));
                        }
                    } else {
                        assert(spec_roles_in(post, k) == spec_roles_in(pre, k));
                    }
                }
            }
            j += 1;
        }
        proof {
            assert(req.spec_entries().subrange(0, n as int) =~= req.spec_entries());
        }
    }

    /// The union of all granted sets in this table.
    pub fn union_of_all(&self) -> (r: RoleSet)
        ensures
            r@ == spec_all_roles(self.spec_entries()),
    {
        let mut acc = RoleSet::empty();
        let mut j: usize = 0;
        while j < self.entries.len()
            invariant
                j <= self.spec_entries().len(),
                acc@ == spec_all_roles(self.spec_entries().subrange(0, j as int)),
            decreases self.spec_entries().len() - j,
        {
            acc = acc.union(&self.entries[j].1);
            proof {
                let pre = self.spec_entries().subrange(0, j as int);
                let post = self.spec_entries().subrange(0, j as int + 1);
                assert(post.drop_last() =~= pre);
                assert(post.last() == self.spec_entries()[j as int]);
            }
            j += 1;
        }
        proof {
            assert(self.spec_entries().subrange(0, self.spec_entries().len() as int)
                =~= self.spec_entries());
        }
        acc
    }

    /// A copy of this table with the same entries and order.
    pub fn duplicate(&self) -> (r: RoleMap)
        ensures
            r.spec_entries() == self.spec_entries(),
    {
        let mut out: Vec<(Identity, RoleSet)> = Vec::new();
        let mut i: usize = 0;
        while i < self.entries.len()
            invariant
                i <= self.spec_entries().len(),
                out@ == self.spec_entries().subrange(0, i as int),
            decreases self.spec_entries().len() - i,
        {
            out.push(self.entries[i]);
            i += 1;
        }
        proof {
            assert(self.spec_entries().subrange(0, self.spec_entries().len() as int)
                =~= self.spec_entries());
        }
        RoleMap { entries: out }
    }
}

/// A role held by some key comes from some entry of the table.
proof fn lemma_roles_to_entry(s: Seq<(Identity, RoleSet)>, k: IdentityView, role: Role)
    requires
        spec_roles_in(s, k).contains(role),
    ensures
        exists|i: int|
            0 <= i < s.len() && (#[trigger] s[i]).0@ == k && s[i].1@.contains(role),
    decreases s.len(),
{
    assert(s.len() > 0);
    assert(s.last() == s[s.len() - 1]);
    if s.last().0@ == k && s.last().1@.contains(role) {
        assert(s[s.len() - 1].0@ == k && s[s.len() - 1].1@.contains(role));
    } else {
        lemma_roles_to_entry(s.drop_last(), k, role);
        let w = choose|i: int|
            0 <= i < s.drop_last().len() && (#[trigger] s.drop_last()[i]).0@ == k
                && s.drop_last()[i].1@.contains(role);
        assert(s[w].0@ == k && s[w].1@.contains(role));
    }
}

/// A key outside the table holds no roles.
proof fn lemma_roles_absent_of_map(m: RoleMap, k: IdentityView)
    requires
        !m.spec_has_key(k),
    ensures
        m.spec_roles(k) == Set::<Role>::empty(),
{
    assert(forall|i: int|
        0 <= i < m.spec_entries().len() ==> (#[trigger] m.spec_entries()[i]).0@ != k);
    lemma_roles_absent(m.spec_entries(), k);
}

} // verus!
