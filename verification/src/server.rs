//! The registry and dispatcher: a server owns its identity, its public key,
//! an ordered list of registered modules and the derived method cache (the
//! set of all dispatchable endpoint names). The server is immutable once
//! constructed; the method cache is exactly the union of the registered
//! modules' endpoints, kept sorted and duplicate-free, the base module's
//! endpoints being the built-in names.

use vstd::prelude::*;
use crate::codec::{cbor_encode_text_array, cbor_of_text_array, status_encoding};
use crate::crypto::public_key_bytes;
use crate::error::{OmniError, RegistrationError};
use crate::identity::{identity_eq, Identity, TAG_PUBLIC_KEY};
use vstd::string::StrSliceExecFns;
use crate::message::{RequestMessage, ResponseMessage};
use vstd::pervasive::unreached;

verus! {

/// A capability a module advertises to the registry: a small-integer id and
/// the endpoint names it serves.
#[derive(Debug)]
pub struct Attribute {
    pub id: u64,
    pub endpoints: Option<Vec<String>>,
}

/// The endpoint names of an attribute (none means an empty list).
pub open spec fn spec_attr_endpoints(a: Attribute) -> Seq<String> {
    match a.endpoints {
        Some(v) => v@,
        None => Seq::empty(),
    }
}

pub open spec fn spec_attr_has_endpoint(a: Attribute, m: Seq<char>) -> bool {
    exists|i: int|
        0 <= i < spec_attr_endpoints(a).len() && (#[trigger] spec_attr_endpoints(a)[i])@ == m
}

/// What a module exposes to the registry: a name and its attribute set.
#[derive(Debug)]
pub struct OmniModuleInfo {
    pub name: String,
    pub attributes: Vec<Attribute>,
}

pub open spec fn spec_module_has_endpoint(m: OmniModuleInfo, name: Seq<char>) -> bool {
    exists|i: int|
        0 <= i < m.attributes@.len() && spec_attr_has_endpoint(#[trigger] m.attributes@[i], name)
}

pub open spec fn spec_module_has_attr_id(m: OmniModuleInfo, id: u64) -> bool {
    exists|i: int| 0 <= i < m.attributes@.len() && (#[trigger] m.attributes@[i]).id == id
}

/// Whether two modules advertise a common attribute id.
pub open spec fn spec_modules_share_attr_id(a: OmniModuleInfo, b: OmniModuleInfo) -> bool {
    exists|id: u64| #[trigger] spec_module_has_attr_id(a, id) && spec_module_has_attr_id(b, id)
}

/// Whether `n` occurs among the strings of `s`.
pub open spec fn spec_contains_name(s: Seq<String>, n: Seq<char>) -> bool {
    exists|i: int| 0 <= i < s.len() && (#[trigger] s[i])@ == n
}

proof fn lemma_contains_push(s: Seq<String>, x: String, n: Seq<char>)
    ensures
        spec_contains_name(s.push(x), n) == (spec_contains_name(s, n) || x@ == n),
{
    if spec_contains_name(s, n) {
        let w = choose|w: int| 0 <= w < s.len() && (#[trigger] s[w])@ == n;
        assert(s.push(x)[w]@ == n);
    }
    if x@ == n {
        assert(s.push(x)[s.len() as int]@ == n);
    }
    if spec_contains_name(s.push(x), n) {
        let w = choose|w: int| 0 <= w < s.push(x).len() && (#[trigger] s.push(x)[w])@ == n;
        if w < s.len() {
            assert(s[w]@ == n);
        }
    }
}


/// Lexicographic order on names, by scalar value of each character.
pub open spec fn spec_name_lt(a: Seq<char>, b: Seq<char>) -> bool
    decreases a.len(),
{
    if b.len() == 0 {
        false
    } else if a.len() == 0 {
        true
    } else if (a[0] as u32) < (b[0] as u32) {
        true
    } else if a[0] == b[0] {
        spec_name_lt(a.skip(1), b.skip(1))
    } else {
        false
    }
}

/// Strictly ascending by name.
pub open spec fn spec_names_sorted(s: Seq<String>) -> bool {
    forall|i: int, j: int|
        0 <= i < j < s.len() ==> spec_name_lt((#[trigger] s[i])@, (#[trigger] s[j])@)
}

proof fn lemma_char_scalar_injective(c1: char, c2: char)
    requires
        c1 as u32 == c2 as u32,
    ensures
        c1 == c2,
{
}

proof fn lemma_name_lt_irrefl(a: Seq<char>)
    ensures
        !spec_name_lt(a, a),
    decreases a.len(),
{
    if a.len() > 0 {
        lemma_name_lt_irrefl(a.skip(1));
    }
}

proof fn lemma_name_lt_connex(a: Seq<char>, b: Seq<char>)
    requires
        a != b,
    ensures
        spec_name_lt(a, b) || spec_name_lt(b, a),
    decreases a.len(),
{
    if a.len() == 0 {
        if b.len() == 0 {
            assert(a =~= b);
        }
    } else if b.len() == 0 {
    } else if a[0] == b[0] {
        if a.skip(1) =~= b.skip(1) {
            assert(a.len() == b.len());
            assert forall|i: int| 0 <= i < a.len() implies a[i] == b[i] by {
                if i > 0 {
                    assert(a.skip(1)[i - 1] == a[i]);
                    assert(b.skip(1)[i - 1] == b[i]);
                }
            }
            assert(a =~= b);
        } else {
            lemma_name_lt_connex(a.skip(1), b.skip(1));
        }
    } else {
        if !((a[0] as u32) < (b[0] as u32)) && !((b[0] as u32) < (a[0] as u32)) {
            assert(a[0] as u32 == b[0] as u32);
            lemma_char_scalar_injective(a[0], b[0]);
        }
    }
}

proof fn lemma_name_lt_trans(a: Seq<char>, b: Seq<char>, c: Seq<char>)
    requires
        spec_name_lt(a, b),
        spec_name_lt(b, c),
    ensures
        spec_name_lt(a, c),
    decreases a.len(),
{
    if a.len() == 0 {
    } else {
        if (a[0] as u32) < (b[0] as u32) {
            if (b[0] as u32) < (c[0] as u32) {
            } else {
                assert(b[0] == c[0]);
            }
        } else {
            assert(a[0] == b[0]);
            if (b[0] as u32) < (c[0] as u32) {
            } else {
                assert(b[0] == c[0]);
                lemma_name_lt_trans(a.skip(1), b.skip(1), c.skip(1));
            }
        }
    }
}

proof fn lemma_contains_insert(s: Seq<String>, k: int, x: String, n: Seq<char>)
    requires
        0 <= k <= s.len(),
    ensures
        spec_contains_name(s.insert(k, x), n) == (spec_contains_name(s, n) || x@ == n),
{
    s.insert_ensures(k, x);
    let s2 = s.insert(k, x);
    if spec_contains_name(s, n) {
        let w = choose|w: int| 0 <= w < s.len() && (#[trigger] s[w])@ == n;
        if w < k {
            assert(s2[w]@ == n);
        } else {
            assert(s2[w + 1]@ == n);
        }
    }
    if x@ == n {
        assert(s2[k]@ == n);
    }
    if spec_contains_name(s2, n) {
        let w = choose|w: int| 0 <= w < s2.len() && (#[trigger] s2[w])@ == n;
        if w < k {
            assert(s[w]@ == n);
        } else if w > k {
            assert(s[w - 1]@ == n);
        }
    }
}

/// Lexicographic comparison of two names.
fn name_lt(a: &String, b: &String) -> (r: bool)
    ensures
        r == spec_name_lt(a@, b@),
{
    let a_str = a.as_str();
    let b_str = b.as_str();
    let a_len = a_str.unicode_len();
    let b_len = b_str.unicode_len();
    proof {
        assert(a@.skip(0) =~= a@);
        assert(b@.skip(0) =~= b@);
    }
    let mut i: usize = 0;
    #[verifier::loop_isolation(false)]
    while i < a_len && i < b_len
        invariant
            a_len == a@.len(),
            b_len == b@.len(),
            i <= a_len,
            i <= b_len,
            spec_name_lt(a@, b@) == spec_name_lt(
                a@.skip(i as int),
                b@.skip(i as int),
            ),
        decreases a_len - i,
    {
        let ca = a_str.get_char(i);
        let cb = b_str.get_char(i);
        proof {
            assert(a@.skip(i as int)[0] == a@[i as int]);
            assert(b@.skip(i as int)[0] == b@[i as int]);
        }
        if ca == cb {
            proof {
                assert(a@.skip(i as int).skip(1) =~= a@.skip(i as int + 1));
                assert(b@.skip(i as int).skip(1) =~= b@.skip(i as int + 1));
            }
            i += 1;
        } else {
            return (ca as u32) < (cb as u32);
        }
    }
    a_len < b_len
}

/// Whether `name` occurs in `v`.
fn names_contain(v: &Vec<String>, name: &String) -> (r: bool)
    ensures
        r == spec_contains_name(v@, name@),
{
    let mut i: usize = 0;
    #[verifier::loop_isolation(false)]
    while i < v.len()
        invariant
            i <= v@.len(),
            forall|j: int| 0 <= j < i ==> (#[trigger] v@[j])@ != name@,
        decreases v@.len() - i,
    {
        if string_eq(&v[i], name) {
            return true;
        }
        i += 1;
    }
    false
}

fn insert_position(v: &Vec<String>, name: &String) -> (k: usize)
    requires
        spec_names_sorted(v@),
    ensures
        k <= v@.len(),
        forall|i: int| 0 <= i < k ==> spec_name_lt((#[trigger] v@[i])@, name@),
        k < v@.len() ==> !spec_name_lt(v@[k as int]@, name@),
{
    let mut k: usize = 0;
    #[verifier::loop_isolation(false)]
    while k < v.len()
        invariant
            k <= v@.len(),
            forall|i: int| 0 <= i < k ==> spec_name_lt((#[trigger] v@[i])@, name@),
        decreases v@.len() - k,
    {
        if !name_lt(&v[k], name) {
            return k;
        }
        k += 1;
    }
    k
}

/// Insert a fresh name into a sorted list, keeping it sorted.
fn sorted_insert(v: &mut Vec<String>, name: String)
    requires
        spec_names_sorted(old(v)@),
        forall|i: int| 0 <= i < old(v)@.len() ==> (#[trigger] old(v)@[i])@ != name@,
    ensures
        spec_names_sorted(final(v)@),
        forall|n: Seq<char>|
            #[trigger] spec_contains_name(final(v)@, n) == (spec_contains_name(old(v)@, n) || n
                == name@),
{
    let ghost name_v = name@;
    let k = insert_position(v, &name);
    proof {
        if (k as int) < v@.len() {
            lemma_name_lt_connex(name_v, v@[k as int]@);
            assert(spec_name_lt(name_v, v@[k as int]@));
        }
    }
    let ghost old_v = v@;
    v.insert(k, name);
    proof {
        old_v.insert_ensures(k as int, name);
        assert(v@ == old_v.insert(k as int, name));
        assert forall|i: int, j: int| 0 <= i < j < v@.len() implies spec_name_lt(
            (#[trigger] v@[i])@,
            (#[trigger] v@[j])@,
        ) by {
            if j < k {
                assert(v@[i] == old_v[i] && v@[j] == old_v[j]);
            } else if j == k {
                assert(v@[i] == old_v[i]);
                assert(spec_name_lt(old_v[i]@, name_v));
            } else if i < k {
                assert(v@[i] == old_v[i] && v@[j] == old_v[j - 1]);
                if i < j - 1 {
                } else {
                    assert(spec_name_lt(old_v[i]@, name_v));
                    assert(spec_name_lt(name_v, old_v[k as int]@));
                    lemma_name_lt_trans(old_v[i]@, name_v, old_v[k as int]@);
                }
            } else if i == k {
                assert(v@[j] == old_v[j - 1]);
                assert(spec_name_lt(name_v, old_v[k as int]@));
                if j - 1 > k {
                    lemma_name_lt_trans(name_v, old_v[k as int]@, old_v[j - 1]@);
                }
            } else {
                assert(v@[i] == old_v[i - 1] && v@[j] == old_v[j - 1]);
            }
        }
        assert forall|n: Seq<char>| #[trigger] spec_contains_name(v@, n) == (spec_contains_name(
            old_v,
            n,
        ) || n == name_v) by {
            lemma_contains_insert(old_v, k as int, name, n);
        }
    }
}

/// Whether two of one module's own attributes share an id.
pub open spec fn spec_module_self_attr_conflict(m: OmniModuleInfo) -> bool {
    exists|a: int, b: int|
        0 <= a < b < m.attributes@.len() && (#[trigger] m.attributes@[a]).id == (
        #[trigger] m.attributes@[b]).id
}

fn module_self_attr_conflict(info: &OmniModuleInfo) -> (r: bool)
    ensures
        r == spec_module_self_attr_conflict(*info),
{
    let mut a: usize = 0;
    #[verifier::loop_isolation(false)]
    while a < info.attributes.len()
        invariant
            a <= info.attributes@.len(),
            forall|a2: int, b2: int|
                0 <= a2 < b2 < info.attributes@.len() && a2 < a ==> (
                #[trigger] info.attributes@[a2]).id != (#[trigger] info.attributes@[b2]).id,
        decreases info.attributes@.len() - a,
    {
        let mut b: usize = a + 1;
        #[verifier::loop_isolation(false)]
        while b < info.attributes.len()
            invariant
                a < b <= info.attributes@.len() || b == a + 1,
                a < info.attributes@.len(),
                forall|b2: int|
                    a < b2 < b ==> (#[trigger] info.attributes@[b2]).id
                        != info.attributes@[a as int].id,
        decreases info.attributes@.len() - b,
        {
            if info.attributes[b].id == info.attributes[a].id {
                proof {
                    assert(info.attributes@[a as int].id == info.attributes@[b as int].id);
                }
                return true;
            }
            b += 1;
        }
        a += 1;
    }
    false
}

/// String equality by value.
fn string_eq(a: &String, b: &String) -> (r: bool)
    ensures
        r == (a@ == b@),
{
    a.eq(b)
}

fn module_has_attr_id(info: &OmniModuleInfo, id: u64) -> (r: bool)
    ensures
        r == spec_module_has_attr_id(*info, id),
{
    let mut i: usize = 0;
    #[verifier::loop_isolation(false)]
    while i < info.attributes.len()
        invariant
            i <= info.attributes@.len(),
            forall|j: int| 0 <= j < i ==> (#[trigger] info.attributes@[j]).id != id,
        decreases info.attributes@.len() - i,
    {
        if info.attributes[i].id == id {
            return true;
        }
        i += 1;
    }
    false
}

fn modules_share_attr_id(a: &OmniModuleInfo, b: &OmniModuleInfo) -> (r: bool)
    ensures
        r == spec_modules_share_attr_id(*a, *b),
{
    let mut i: usize = 0;
    #[verifier::loop_isolation(false)]
    while i < a.attributes.len()
        invariant
            i <= a.attributes@.len(),
            forall|j: int|
                0 <= j < i ==> !spec_module_has_attr_id(*b, (#[trigger] a.attributes@[j]).id),
        decreases a.attributes@.len() - i,
    {
        let id = a.attributes[i].id;
        if module_has_attr_id(b, id) {
            proof {
                assert(spec_module_has_attr_id(*a, id));
            }
            return true;
        }
        i += 1;
    }
    proof {
        if spec_modules_share_attr_id(*a, *b) {
            let id = choose|id: u64| #[trigger] spec_module_has_attr_id(*a, id)
                && spec_module_has_attr_id(*b, id);
            let w = choose|w: int| 0 <= w < a.attributes@.len() && (#[trigger] a.attributes@[w]).id
                == id;
            assert(!spec_module_has_attr_id(*b, a.attributes@[w].id));
        }
    }
    false
}

fn module_has_endpoint(info: &OmniModuleInfo, method: &String) -> (r: bool)
    ensures
        r == spec_module_has_endpoint(*info, method@),
{
    let mut i: usize = 0;
    #[verifier::loop_isolation(false)]
    while i < info.attributes.len()
        invariant
            i <= info.attributes@.len(),
            forall|j: int|
                0 <= j < i ==> !spec_attr_has_endpoint(#[trigger] info.attributes@[j], method@),
        decreases info.attributes@.len() - i,
    {
        match &info.attributes[i].endpoints {
            Some(v) => {
                let mut w: usize = 0;
                #[verifier::loop_isolation(false)]
                while w < v.len()
                    invariant
                        w <= v@.len(),
                        v@ == spec_attr_endpoints(info.attributes@[i as int]),
                        i < info.attributes@.len(),
                        forall|w2: int| 0 <= w2 < w ==> (#[trigger] v@[w2])@ != method@,
                    decreases v@.len() - w,
                {
                    if string_eq(&v[w], method) {
                        proof {
                            assert(spec_attr_has_endpoint(info.attributes@[i as int], method@));
                            assert(spec_module_has_endpoint(*info, method@));
                        }
                        return true;
                    }
                    w += 1;
                }
                proof {
                    if spec_attr_has_endpoint(info.attributes@[i as int], method@) {
                        let w2 = choose|w2: int|
                            0 <= w2 < spec_attr_endpoints(info.attributes@[i as int]).len() && (
                            #[trigger] spec_attr_endpoints(info.attributes@[i as int])[w2])@
                                == method@;
                        assert(v@[w2]@ == method@);
                        assert(false);
                    }
                }
            },
            None => {
                proof {
                    if spec_attr_has_endpoint(info.attributes@[i as int], method@) {
                        let w2 = choose|w2: int|
                            0 <= w2 < spec_attr_endpoints(info.attributes@[i as int]).len() && (
                            #[trigger] spec_attr_endpoints(info.attributes@[i as int])[w2])@
                                == method@;
                        assert(false);
                    }
                }
            },
        }
        i += 1;
    }
    false
}

/// The endpoint names of a module, flattened.
fn collect_endpoints(info: &OmniModuleInfo) -> (r: Vec<String>)
    ensures
        forall|n: Seq<char>|
            #[trigger] spec_contains_name(r@, n) == spec_module_has_endpoint(*info, n),
{
    let mut out: Vec<String> = Vec::new();
    let mut i: usize = 0;
    #[verifier::loop_isolation(false)]
    while i < info.attributes.len()
        invariant
            i <= info.attributes@.len(),
            forall|n: Seq<char>|
                #[trigger] spec_contains_name(out@, n) ==> spec_module_has_endpoint(*info, n),
            forall|j: int, w: int|
                0 <= j < i && 0 <= w < spec_attr_endpoints(info.attributes@[j]).len()
                    ==> spec_contains_name(
                    out@,
                    (#[trigger] spec_attr_endpoints(info.attributes@[j])[w])@,
                ),
        decreases info.attributes@.len() - i,
    {
        match &info.attributes[i].endpoints {
            Some(v) => {
                let mut w: usize = 0;
                #[verifier::loop_isolation(false)]
                while w < v.len()
                    invariant
                        w <= v@.len(),
                        v@ == spec_attr_endpoints(info.attributes@[i as int]),
                        i < info.attributes@.len(),
                        forall|n: Seq<char>|
                            #[trigger] spec_contains_name(out@, n) ==> spec_module_has_endpoint(
                                *info,
                                n,
                            ),
                        forall|j: int, w2: int|
                            0 <= j < i && 0 <= w2 < spec_attr_endpoints(info.attributes@[j]).len()
                                ==> spec_contains_name(
                                out@,
                                (#[trigger] spec_attr_endpoints(info.attributes@[j])[w2])@,
                            ),
                        forall|w2: int|
                            0 <= w2 < w ==> spec_contains_name(out@, (#[trigger] v@[w2])@),
                    decreases v@.len() - w,
                {
                    let ghost out_pre = out@;
                    let s = v[w].clone();
                    out.push(s);
                    proof {
                        assert(out@ =~= out_pre.push(s));
                        assert(spec_attr_has_endpoint(info.attributes@[i as int], v@[w as int]@));
                        assert(spec_module_has_endpoint(*info, v@[w as int]@));
                        assert forall|n: Seq<char>| #[trigger] spec_contains_name(out@, n) implies
                            spec_module_has_endpoint(*info, n) by {
                            lemma_contains_push(out_pre, s, n);
                        }
                        assert forall|j: int, w2: int|
                            0 <= j < i && 0 <= w2 < spec_attr_endpoints(
                                info.attributes@[j],
                            ).len() implies spec_contains_name(
                            out@,
                            (#[trigger] spec_attr_endpoints(info.attributes@[j])[w2])@,
                        ) by {
                            lemma_contains_push(
                                out_pre,
                                s,
                                spec_attr_endpoints(info.attributes@[j])[w2]@,
                            );
                        }
                        assert forall|w2: int| 0 <= w2 < w + 1 implies spec_contains_name(
                            out@,
                            (#[trigger] v@[w2])@,
                        ) by {
                            lemma_contains_push(out_pre, s, v@[w2]@);
                        }
                    }
                    w += 1;
                }
            },
            None => {},
        }
        i += 1;
    }
    proof {
        assert forall|n: Seq<char>| spec_module_has_endpoint(*info, n) implies spec_contains_name(
            out@,
            n,
        ) by {
            let j = choose|j: int|
                0 <= j < info.attributes@.len() && spec_attr_has_endpoint(
                    #[trigger] info.attributes@[j],
                    n,
                );
            let w = choose|w: int|
                0 <= w < spec_attr_endpoints(info.attributes@[j]).len() && (
                #[trigger] spec_attr_endpoints(info.attributes@[j])[w])@ == n;
        }
    }
    out
}

/// The ordered list of registered modules; registration order is dispatch
/// priority.
#[derive(Debug)]
pub struct OmniModuleList {
    pub modules: Vec<OmniModuleInfo>,
}

/// The status a server reports: a pure read of immutable server state.
#[derive(Debug)]
pub struct Status {
    pub version: u64,
    pub public_key: Vec<u8>,
    pub identity: Identity,
    pub attributes: Vec<u64>,
    pub internal_version: Vec<u8>,
}

impl Status {
    /// The wire encoding of this status.
    pub fn to_bytes(&self) -> (r: Vec<u8>)
        ensures
            r@ == status_encoding(
                self.version,
                self.public_key@,
                self.identity@.0,
                self.identity@.1,
                self.attributes@,
                self.internal_version@,
            ),
    {
        let tag = self.identity.tag();
        let hash = self.identity.hash_bytes();
        crate::codec::cbor_encode_status(
            self.version,
            &self.public_key,
            tag,
            &hash,
            &self.attributes,
            &self.internal_version,
        )
    }
}

/// What the dispatcher decides for a request: a finished response (built-in
/// methods), or the index of the first registered module whose endpoints
/// contain the method, whose own execution happens outside the dispatcher.
#[derive(Debug)]
pub enum Execution {
    Response(ResponseMessage),
    Dispatch(usize),
}

/// The four built-in method names, never shadowed by a module.
pub open spec fn spec_is_builtin(m: Seq<char>) -> bool {
    ||| m == "status"@
    ||| m == "heartbeat"@
    ||| m == "echo"@
    ||| m == "endpoints"@
}

/// The base module: the built-in endpoints, advertised under attribute id 0.
/// Registering it seeds the method cache with the built-in names, so a later
/// module that lists a built-in name is refused at registration time.
pub fn base_module_info() -> (r: OmniModuleInfo)
    ensures
        r.attributes@.len() == 1,
        r.attributes@[0].id == 0,
        forall|n: Seq<char>| #[trigger] spec_module_has_endpoint(r, n) == spec_is_builtin(n),
{
    let mut endpoints: Vec<String> = Vec::new();
    endpoints.push("status".to_owned());
    endpoints.push("heartbeat".to_owned());
    endpoints.push("echo".to_owned());
    endpoints.push("endpoints".to_owned());
    let mut attributes: Vec<Attribute> = Vec::new();
    attributes.push(Attribute { id: 0, endpoints: Some(endpoints) });
    let r = OmniModuleInfo { name: "base".to_owned(), attributes };
    proof {
        let eps = spec_attr_endpoints(r.attributes@[0]);
        assert(eps.len() == 4);
        assert forall|n: Seq<char>| #[trigger] spec_module_has_endpoint(r, n)
            == spec_is_builtin(n) by {
            if spec_module_has_endpoint(r, n) {
                let j = choose|j: int|
                    0 <= j < r.attributes@.len() && spec_attr_has_endpoint(
                        #[trigger] r.attributes@[j],
                        n,
                    );
                let w = choose|w: int|
                    0 <= w < spec_attr_endpoints(r.attributes@[j]).len() && (
                    #[trigger] spec_attr_endpoints(r.attributes@[j])[w])@ == n;
                assert(spec_is_builtin(n));
            }
            if spec_is_builtin(n) {
                if n == "status"@ {
                    assert(eps[0]@ == n);
                } else if n == "heartbeat"@ {
                    assert(eps[1]@ == n);
                } else if n == "echo"@ {
                    assert(eps[2]@ == n);
                } else {
                    assert(eps[3]@ == n);
                }
                assert(spec_attr_has_endpoint(r.attributes@[0], n));
            }
        }
    }
    r
}

/// The server: identity, public key, registered modules and the derived
/// method cache. Immutable once constructed.
#[derive(Debug)]
pub struct OmniServer {
    identity: Identity,
    public_key: Vec<u8>,
    modules: OmniModuleList,
    method_cache: Vec<String>,
}

impl OmniServer {
    pub closed spec fn spec_identity(&self) -> Identity {
        self.identity
    }

    pub closed spec fn spec_public_key(&self) -> Seq<u8> {
        self.public_key@
    }

    pub closed spec fn spec_modules(&self) -> Seq<OmniModuleInfo> {
        self.modules.modules@
    }

    pub closed spec fn spec_cache(&self) -> Seq<String> {
        self.method_cache@
    }

    pub closed spec fn spec_cache_views(&self) -> Seq<Seq<char>> {
        self.method_cache.deep_view()
    }

    /// Whether the method cache holds `n`.
    pub open spec fn spec_cache_contains(&self, n: Seq<char>) -> bool {
        spec_contains_name(self.spec_cache(), n)
    }

    /// Whether some registered module serves `n`.
    pub open spec fn spec_modules_serve(&self, n: Seq<char>) -> bool {
        exists|i: int|
            0 <= i < self.spec_modules().len() && spec_module_has_endpoint(
                #[trigger] self.spec_modules()[i],
                n,
            )
    }

    /// The method cache is exactly the union of the registered modules'
    /// endpoint names, kept strictly ascending (so duplicate-free).
    pub open spec fn wf(&self) -> bool {
        &&& forall|n: Seq<char>|
            #![trigger self.spec_cache_contains(n)]
            #![trigger self.spec_modules_serve(n)]
            self.spec_cache_contains(n) <==> self.spec_modules_serve(n)
        &&& spec_names_sorted(self.spec_cache())
    }

    pub fn identity(&self) -> (r: Identity)
        ensures
            r == self.spec_identity(),
    {
        self.identity
    }

    fn cache_contains(&self, method: &String) -> (r: bool)
        ensures
            r == self.spec_cache_contains(method@),
    {
        let mut i: usize = 0;
        #[verifier::loop_isolation(false)]
        while i < self.method_cache.len()
            invariant
                i <= self.spec_cache().len(),
                forall|j: int| 0 <= j < i ==> (#[trigger] self.spec_cache()[j])@ != method@,
            decreases self.spec_cache().len() - i,
        {
            if string_eq(&self.method_cache[i], method) {
                return true;
            }
            i += 1;
        }
        false
    }

    /// A server with the given identity and public key, with the base module
    /// registered.
    pub fn new(identity: Identity, keypair: &ring::signature::Ed25519KeyPair) -> (r: OmniServer)
        requires
            identity@.0 == TAG_PUBLIC_KEY,
        ensures
            r.wf(),
            r.spec_identity() == identity,
            r.spec_public_key().len() == 32,
            r.spec_modules().len() == 1,
            forall|n: Seq<char>| #[trigger] r.spec_cache_contains(n) == spec_is_builtin(n),
    {
        let public_key = public_key_bytes(keypair);
        let empty = OmniServer {
            identity,
            public_key,
            modules: OmniModuleList { modules: Vec::new() },
            method_cache: Vec::new(),
        };
        proof {
            assert forall|n: Seq<char>| !(#[trigger] empty.spec_cache_contains(n)) by {
                if spec_contains_name(empty.spec_cache(), n) {
                    let w = choose|w: int|
                        0 <= w < empty.spec_cache().len() && (#[trigger] empty.spec_cache()[w])@
                            == n;
                }
            }
            assert forall|n: Seq<char>| !(#[trigger] empty.spec_modules_serve(n)) by {}
        }
        let base = base_module_info();
        proof {
            assert(!spec_module_self_attr_conflict(base));
        }
        match empty.with_module(base) {
            Ok(server) => {
                proof {
                    assert forall|n: Seq<char>| #[trigger] server.spec_cache_contains(n)
                        == spec_is_builtin(n) by {}
                }
                server
            },
            Err(err) => match err {
                RegistrationError::AttributeConflict => {
                    proof {
                        assert(false);
                    }
                    unreached()
                },
                RegistrationError::EndpointConflict => {
                    proof {
                        assert(false);
                    }
                    unreached()
                },
            },
        }
    }

    /// Register a module. Fails at composition time, before any request is
    /// served, when the module repeats an attribute id (its own or a
    /// registered module's), or (as a defensive second check) lists an
    /// endpoint name already in the method cache. On success the endpoints
    /// are unioned into the cache, kept sorted and duplicate-free, and the
    /// module is appended.
    pub fn with_module(self, module: OmniModuleInfo) -> (r: Result<OmniServer, RegistrationError>)
        requires
            self.wf(),
        ensures
            (r == Result::<OmniServer, RegistrationError>::Err(
                RegistrationError::AttributeConflict,
            )) <==> (spec_module_self_attr_conflict(module) || exists|i: int|
                0 <= i < self.spec_modules().len() && spec_modules_share_attr_id(
                    #[trigger] self.spec_modules()[i],
                    module,
                )),
            (r == Result::<OmniServer, RegistrationError>::Err(
                RegistrationError::EndpointConflict,
            )) <==> (!(spec_module_self_attr_conflict(module) || exists|i: int|
                0 <= i < self.spec_modules().len() && spec_modules_share_attr_id(
                    #[trigger] self.spec_modules()[i],
                    module,
                )) && exists|n: Seq<char>|
                #[trigger] self.spec_cache_contains(n) && spec_module_has_endpoint(module, n)),
            r matches Ok(s) ==> ({
                &&& s.wf()
                &&& s.spec_modules() == self.spec_modules().push(module)
                &&& s.spec_identity() == self.spec_identity()
                &&& s.spec_public_key() == self.spec_public_key()
                &&& forall|n: Seq<char>|
                    #[trigger] s.spec_cache_contains(n) == (self.spec_cache_contains(n)
                        || spec_module_has_endpoint(module, n))
            }),
    {
        if module_self_attr_conflict(&module) {
            return Err(RegistrationError::AttributeConflict);
        }
        let mut i: usize = 0;
        #[verifier::loop_isolation(false)]
        while i < self.modules.modules.len()
            invariant
                i <= self.spec_modules().len(),
                forall|j: int|
                    0 <= j < i ==> !spec_modules_share_attr_id(
                        (#[trigger] self.spec_modules()[j]),
                        module,
                    ),
            decreases self.spec_modules().len() - i,
        {
            if modules_share_attr_id(&self.modules.modules[i], &module) {
                proof {
                    assert(spec_modules_share_attr_id(self.spec_modules()[i as int], module));
                }
                return Err(RegistrationError::AttributeConflict);
            }
            i += 1;
        }
        let endpoints = collect_endpoints(&module);
        let mut w: usize = 0;
        #[verifier::loop_isolation(false)]
        while w < endpoints.len()
            invariant
                w <= endpoints@.len(),
                forall|n: Seq<char>|
                    #[trigger] spec_contains_name(endpoints@, n) == spec_module_has_endpoint(
                        module,
                        n,
                    ),
                forall|w2: int|
                    0 <= w2 < w ==> !self.spec_cache_contains((#[trigger] endpoints@[w2])@),
            decreases endpoints@.len() - w,
        {
            if self.cache_contains(&endpoints[w]) {
                proof {
                    assert(endpoints@[w as int]@ == endpoints@[w as int]@);
                    assert(spec_contains_name(endpoints@, endpoints@[w as int]@));
                    assert(spec_module_has_endpoint(module, endpoints@[w as int]@));
                }
                return Err(RegistrationError::EndpointConflict);
            }
            w += 1;
        }
        proof {
            if exists|n: Seq<char>|
                #[trigger] self.spec_cache_contains(n) && spec_module_has_endpoint(module, n) {
                let n = choose|n: Seq<char>|
                    #[trigger] self.spec_cache_contains(n) && spec_module_has_endpoint(module, n);
                assert(spec_contains_name(endpoints@, n));
                let w2 = choose|w2: int|
                    0 <= w2 < endpoints@.len() && (#[trigger] endpoints@[w2])@ == n;
                assert(!self.spec_cache_contains(endpoints@[w2]@));
                assert(false);
            }
        }
        let ghost pre = self;
        let OmniServer { identity, public_key, mut modules, method_cache: mut cache } = self;
        modules.modules.push(module);
        proof {
            assert(modules.modules@ =~= pre.spec_modules().push(module));
            assert(cache@ == pre.spec_cache());
        }
        let ghost cache0 = cache@;
        let mut t: usize = 0;
        #[verifier::loop_isolation(false)]
        while t < endpoints.len()
            invariant
                t <= endpoints@.len(),
                spec_names_sorted(cache@),
                forall|n: Seq<char>|
                    #[trigger] spec_contains_name(cache@, n) == (spec_contains_name(cache0, n)
                        || exists|x: int| 0 <= x < t && (#[trigger] endpoints@[x])@ == n),
            decreases endpoints@.len() - t,
        {
            let ghost cache_pre = cache@;
            let name = endpoints[t].clone();
            if names_contain(&cache, &name) {
                proof {
                    assert forall|n: Seq<char>| #[trigger] spec_contains_name(cache@, n) == (
                    spec_contains_name(cache0, n) || exists|x: int|
                        0 <= x < t + 1 && (#[trigger] endpoints@[x])@ == n) by {
                        if exists|x: int| 0 <= x < t + 1 && (#[trigger] endpoints@[x])@ == n {
                            let x = choose|x: int|
                                0 <= x < t + 1 && (#[trigger] endpoints@[x])@ == n;
                            if x == t {
                                assert(spec_contains_name(cache@, name@));
                            }
                        }
                    }
                }
            } else {
                proof {
                    assert forall|i2: int| 0 <= i2 < cache@.len() implies (
                    #[trigger] cache@[i2])@ != name@ by {
                        if cache@[i2]@ == name@ {
                            assert(spec_contains_name(cache@, name@));
                        }
                    }
                }
                sorted_insert(&mut cache, name);
                proof {
                    assert forall|n: Seq<char>| #[trigger] spec_contains_name(cache@, n) == (
                    spec_contains_name(cache0, n) || exists|x: int|
                        0 <= x < t + 1 && (#[trigger] endpoints@[x])@ == n) by {
                        if spec_contains_name(cache@, n) {
                            if n == name@ {
                                assert(endpoints@[t as int]@ == n);
                            }
                        }
                        if exists|x: int| 0 <= x < t + 1 && (#[trigger] endpoints@[x])@ == n {
                            let x = choose|x: int|
                                0 <= x < t + 1 && (#[trigger] endpoints@[x])@ == n;
                            if x == t {
                                assert(spec_contains_name(cache@, name@));
                            } else {
                                assert(spec_contains_name(cache_pre, n));
                            }
                        }
                    }
                }
            }
            t += 1;
        }
        let server = OmniServer { identity, public_key, modules, method_cache: cache };
        proof {
            assert(server.spec_modules() =~= pre.spec_modules().push(module));
            assert forall|n: Seq<char>| #[trigger] server.spec_cache_contains(n) == (
            pre.spec_cache_contains(n) || spec_module_has_endpoint(module, n)) by {
                if exists|x: int| 0 <= x < endpoints@.len() && (#[trigger] endpoints@[x])@ == n {
                    let x = choose|x: int|
                        0 <= x < endpoints@.len() && (#[trigger] endpoints@[x])@ == n;
                    assert(spec_contains_name(endpoints@, n));
                }
                if spec_module_has_endpoint(module, n) {
                    assert(spec_contains_name(endpoints@, n));
                    let x = choose|x: int|
                        0 <= x < endpoints@.len() && (#[trigger] endpoints@[x])@ == n;
                }
            }
            assert forall|n: Seq<char>| #[trigger] server.spec_cache_contains(n)
                == server.spec_modules_serve(n) by {
                if server.spec_cache_contains(n) {
                    if pre.spec_cache_contains(n) {
                        let i0 = choose|i0: int|
                            0 <= i0 < pre.spec_modules().len() && spec_module_has_endpoint(
                                #[trigger] pre.spec_modules()[i0],
                                n,
                            );
                        assert(server.spec_modules()[i0] == pre.spec_modules()[i0]);
                        assert(spec_module_has_endpoint(server.spec_modules()[i0], n));
                    } else {
                        assert(server.spec_modules()[pre.spec_modules().len() as int] == module);
                        assert(spec_module_has_endpoint(
                            server.spec_modules()[pre.spec_modules().len() as int],
                            n,
                        ));
                    }
                }
                if server.spec_modules_serve(n) {
                    let i0 = choose|i0: int|
                        0 <= i0 < server.spec_modules().len() && spec_module_has_endpoint(
                            #[trigger] server.spec_modules()[i0],
                            n,
                        );
                    if i0 < pre.spec_modules().len() {
                        assert(server.spec_modules()[i0] == pre.spec_modules()[i0]);
                        assert(pre.spec_modules_serve(n));
                    } else {
                        assert(server.spec_modules()[i0] == module);
                    }
                }
            }
        }
        Ok(server)
    }

    /// The destination and method-existence check executed before dispatch: a
    /// request for another concrete identity fails with `UnknownDestination`
    /// whatever its method; otherwise the method must be in the method cache.
    pub fn validate(&self, message: &RequestMessage) -> (r: Result<(), OmniError>)
        ensures
            !(message.to.spec_is_anonymous() || message.to@ == self.spec_identity()@) ==> r
                == Result::<(), OmniError>::Err(
                OmniError::UnknownDestination(message.to, self.spec_identity()),
            ),
            (message.to.spec_is_anonymous() || message.to@ == self.spec_identity()@)
                && self.spec_cache_contains(message.method@) ==> r == Result::<(), OmniError>::Ok(
                (),
            ),
            (message.to.spec_is_anonymous() || message.to@ == self.spec_identity()@)
                && !self.spec_cache_contains(message.method@) ==> (r matches Err(e) && e matches
                OmniError::InvalidMethodName(s) && s@ == message.method@),
    {
        if message.to.is_anonymous() || identity_eq(&message.to, &self.identity) {
            if self.cache_contains(&message.method) {
                Ok(())
            } else {
                Err(OmniError::invalid_method_name(message.method.clone()))
            }
        } else {
            Err(OmniError::unknown_destination(message.to, self.identity))
        }
    }

    /// The server's status: a pure read of immutable server state.
    pub fn status(&self) -> (r: Status)
        ensures
            r.version == 1,
            r.public_key@ == self.spec_public_key(),
            r.identity == self.spec_identity(),
            r.attributes@ == Seq::<u64>::empty(),
            r.internal_version@ == Seq::<u8>::empty(),
    {
        let mut public_key: Vec<u8> = Vec::new();
        let mut i: usize = 0;
        #[verifier::loop_isolation(false)]
        while i < self.public_key.len()
            invariant
                i <= self.public_key@.len(),
                public_key@ == self.public_key@.subrange(0, i as int),
            decreases self.public_key@.len() - i,
        {
            public_key.push(self.public_key[i]);
            i += 1;
        }
        proof {
            assert(self.public_key@.subrange(0, self.public_key@.len() as int)
                =~= self.public_key@);
        }
        Status {
            version: 1,
            public_key,
            identity: self.identity,
            attributes: Vec::new(),
            internal_version: Vec::new(),
        }
    }

    /// The registered endpoint names: sorted, duplicate-free, and as a set
    /// the union of the registered modules' endpoints (the base module's
    /// built-in names included, since the base module registers them).
    pub fn endpoints(&self) -> (r: Vec<String>)
        requires
            self.wf(),
        ensures
            r.deep_view() == self.spec_cache_views(),
            spec_names_sorted(r@),
            forall|i: int, j: int|
                0 <= i < j < r@.len() ==> (#[trigger] r@[i])@ != (#[trigger] r@[j])@,
    {
        let mut out: Vec<String> = Vec::new();
        let mut i: usize = 0;
        #[verifier::loop_isolation(false)]
        while i < self.method_cache.len()
            invariant
                i <= self.spec_cache().len(),
                out@.len() == i,
                forall|j: int| 0 <= j < i ==> (#[trigger] out@[j])@ == self.spec_cache()[j]@,
            decreases self.spec_cache().len() - i,
        {
            out.push(self.method_cache[i].clone());
            i += 1;
        }
        proof {
            assert(out.deep_view() =~= self.spec_cache_views());
            assert forall|a: int, b: int| 0 <= a < b < out@.len() implies spec_name_lt(
                (#[trigger] out@[a])@,
                (#[trigger] out@[b])@,
            ) by {
                assert(out@[a]@ == self.spec_cache()[a]@);
                assert(out@[b]@ == self.spec_cache()[b]@);
            }
            assert forall|a: int, b: int| 0 <= a < b < out@.len() implies (#[trigger] out@[a])@
                != (#[trigger] out@[b])@ by {
                if out@[a]@ == out@[b]@ {
                    lemma_name_lt_irrefl(out@[a]@);
                }
            }
        }
        out
    }

    /// Overwrite the responder identity of a module's response with the
    /// server's own, so callers can trust who answered.
    pub fn seal_response(&self, response: ResponseMessage) -> (r: ResponseMessage)
        ensures
            r.from == self.spec_identity(),
            r.to == response.to,
            r.result == response.result,
    {
        ResponseMessage { from: self.identity, ..response }
    }

    /// The payload a built-in method answers with, in the fixed priority
    /// order in which the built-in names are tried.
    pub open spec fn spec_builtin_payload(&self, message: RequestMessage) -> Seq<u8> {
        if message.method@ == "status"@ {
            status_encoding(
                1,
                self.spec_public_key(),
                self.spec_identity()@.0,
                self.spec_identity()@.1,
                Seq::empty(),
                Seq::empty(),
            )
        } else if message.method@ == "heartbeat"@ {
            Seq::empty()
        } else if message.method@ == "echo"@ {
            message.data@
        } else {
            cbor_of_text_array(self.spec_cache_views())
        }
    }

    /// Route a request: the built-ins answer first, in fixed priority, and
    /// are never shadowed; otherwise the request goes to the first registered
    /// module whose attribute endpoints contain the method; otherwise the
    /// method name is invalid.
    pub fn execute(&self, message: RequestMessage) -> (r: Result<Execution, OmniError>)
        ensures
            spec_is_builtin(message.method@) ==> (r matches Ok(ex) && ex matches
                Execution::Response(resp) && resp.from == self.spec_identity() && resp.to
                == message.from && (resp.result matches Ok(p) && p@ == self.spec_builtin_payload(
                message,
            ))),
            !spec_is_builtin(message.method@) ==> ({
                &&& (exists|i: int|
                    0 <= i < self.spec_modules().len() && spec_module_has_endpoint(
                        #[trigger] self.spec_modules()[i],
                        message.method@,
                    )) ==> (r matches Ok(ex) && ex matches Execution::Dispatch(i) && ({
                    &&& i < self.spec_modules().len()
                    &&& spec_module_has_endpoint(self.spec_modules()[i as int], message.method@)
                    &&& forall|j: int|
                        0 <= j < i ==> !spec_module_has_endpoint(
                            #[trigger] self.spec_modules()[j],
                            message.method@,
                        )
                }))
                &&& !(exists|i: int|
                    0 <= i < self.spec_modules().len() && spec_module_has_endpoint(
                        #[trigger] self.spec_modules()[i],
                        message.method@,
                    )) ==> (r matches Err(e) && e matches OmniError::InvalidMethodName(s) && s@
                    == message.method@)
            }),
    {
        let status_name: String = "status".to_owned();
        let heartbeat_name: String = "heartbeat".to_owned();
        let echo_name: String = "echo".to_owned();
        let endpoints_name: String = "endpoints".to_owned();
        if string_eq(&message.method, &status_name) {
            let payload = self.status().to_bytes();
            let response = ResponseMessage::from_request(&message, &self.identity, Ok(payload));
            return Ok(Execution::Response(response));
        }
        if string_eq(&message.method, &heartbeat_name) {
            let response = ResponseMessage::from_request(&message, &self.identity, Ok(Vec::new()));
            return Ok(Execution::Response(response));
        }
        if string_eq(&message.method, &echo_name) {
            let mut data: Vec<u8> = Vec::new();
            let mut i: usize = 0;
            #[verifier::loop_isolation(false)]
            while i < message.data.len()
                invariant
                    i <= message.data@.len(),
                    data@ == message.data@.subrange(0, i as int),
                decreases message.data@.len() - i,
            {
                data.push(message.data[i]);
                i += 1;
            }
            proof {
                assert(message.data@.subrange(0, message.data@.len() as int) =~= message.data@);
            }
            let response = ResponseMessage::from_request(&message, &self.identity, Ok(data));
            return Ok(Execution::Response(response));
        }
        if string_eq(&message.method, &endpoints_name) {
            let payload = cbor_encode_text_array(&self.method_cache);
            let response = ResponseMessage::from_request(&message, &self.identity, Ok(payload));
            return Ok(Execution::Response(response));
        }
        let mut i: usize = 0;
        #[verifier::loop_isolation(false)]
        while i < self.modules.modules.len()
            invariant
                i <= self.spec_modules().len(),
                forall|j: int|
                    0 <= j < i ==> !spec_module_has_endpoint(
                        #[trigger] self.spec_modules()[j],
                        message.method@,
                    ),
            decreases self.spec_modules().len() - i,
        {
            if module_has_endpoint(&self.modules.modules[i], &message.method) {
                return Ok(Execution::Dispatch(i));
            }
            i += 1;
        }
        Err(OmniError::invalid_method_name(message.method))
    }
}

} // verus!
