use vstd::prelude::*;
use crate::access::{AccessControl, default_admin_role, default_admin_role_spec};
use crate::error::YieldAdapterRegistryError;

verus! {

/// One registered capability: its key, its address and the assets it supports.
struct AdapterEntry {
    yield_type: String,
    protocol: String,
    address: String,
    assets: Vec<String>,
}

/// The (category, provider) key of an entry.
spec fn key_of(e: AdapterEntry) -> (Seq<char>, Seq<char>) {
    (e.yield_type@, e.protocol@)
}

/// The names held in a sequence of strings, as a set.
pub open spec fn string_set(s: Seq<String>) -> Set<Seq<char>> {
    Set::new(|a: Seq<char>| exists|i: int| 0 <= i < s.len() && s[i]@ == a)
}

spec fn distinct_strings(s: Seq<String>) -> bool {
    forall|i: int, j: int| 0 <= i < s.len() && 0 <= j < s.len() && s[i]@ == s[j]@ ==> i == j
}

/// What an entry maps its key to: its address and its set of assets.
spec fn entry_value(e: AdapterEntry) -> (Seq<char>, Set<Seq<char>>) {
    (e.address@, string_set(e.assets@))
}

spec fn keys_distinct(s: Seq<AdapterEntry>) -> bool {
    forall|i: int, j: int|
        0 <= i < s.len() && 0 <= j < s.len() && key_of(s[i]) == key_of(s[j]) ==> i == j
}

spec fn has_key(s: Seq<AdapterEntry>, k: (Seq<char>, Seq<char>)) -> bool {
    exists|i: int| 0 <= i < s.len() && key_of(s[i]) == k
}

spec fn entry_map(s: Seq<AdapterEntry>) -> Map<(Seq<char>, Seq<char>), (Seq<char>, Set<Seq<char>>)> {
    Map::new(
        |k: (Seq<char>, Seq<char>)| has_key(s, k),
        |k: (Seq<char>, Seq<char>)|
            entry_value(s[choose|i: int| 0 <= i < s.len() && key_of(s[i]) == k]),
    )
}

proof fn lemma_entry_at(s: Seq<AdapterEntry>, i: int)
    requires
        keys_distinct(s),
        0 <= i < s.len(),
    ensures
        entry_map(s).contains_key(key_of(s[i])),
        entry_map(s)[key_of(s[i])] == entry_value(s[i]),
{
    let k = key_of(s[i]);
    assert(has_key(s, k));
    let j = choose|j: int| 0 <= j < s.len() && key_of(s[j]) == k;
    assert(i == j);
}

proof fn lemma_entry_update(s: Seq<AdapterEntry>, i: int, e: AdapterEntry)
    requires
        keys_distinct(s),
        0 <= i < s.len(),
        key_of(e) == key_of(s[i]),
    ensures
        keys_distinct(s.update(i, e)),
        entry_map(s.update(i, e)) == entry_map(s).insert(key_of(e), entry_value(e)),
{
    let t = s.update(i, e);
    assert forall|a: int, b: int|
        0 <= a < t.len() && 0 <= b < t.len() && key_of(t[a]) == key_of(t[b]) implies a == b by {
        assert(key_of(t[a]) == key_of(s[a]));
        assert(key_of(t[b]) == key_of(s[b]));
    }
    let m = entry_map(s).insert(key_of(e), entry_value(e));
    assert forall|k: (Seq<char>, Seq<char>)| entry_map(t).contains_key(k) <==> m.contains_key(k) by {
        if has_key(s, k) {
            let j = choose|j: int| 0 <= j < s.len() && key_of(s[j]) == k;
            assert(key_of(t[j]) == k);
        }
        if has_key(t, k) {
            let j = choose|j: int| 0 <= j < t.len() && key_of(t[j]) == k;
            assert(key_of(s[j]) == k);
        }
    }
    assert forall|k: (Seq<char>, Seq<char>)| #[trigger]
        entry_map(t).contains_key(k) implies entry_map(t)[k] == m[k] by {
        let j = choose|j: int| 0 <= j < t.len() && key_of(t[j]) == k;
        lemma_entry_at(t, j);
        if j != i {
            lemma_entry_at(s, j);
        }
    }
    assert(entry_map(t) =~= m);
}

proof fn lemma_entry_push(s: Seq<AdapterEntry>, e: AdapterEntry)
    requires
        keys_distinct(s),
        !entry_map(s).contains_key(key_of(e)),
    ensures
        keys_distinct(s.push(e)),
        entry_map(s.push(e)) == entry_map(s).insert(key_of(e), entry_value(e)),
{
    let t = s.push(e);
    let n = s.len() as int;
    assert forall|a: int, b: int|
        0 <= a < t.len() && 0 <= b < t.len() && key_of(t[a]) == key_of(t[b]) implies a == b by {
        if a < n && b == n {
            assert(has_key(s, key_of(e)));
        }
        if b < n && a == n {
            assert(has_key(s, key_of(e)));
        }
    }
    let m = entry_map(s).insert(key_of(e), entry_value(e));
    assert forall|k: (Seq<char>, Seq<char>)| entry_map(t).contains_key(k) <==> m.contains_key(k) by {
        if has_key(s, k) {
            let j = choose|j: int| 0 <= j < s.len() && key_of(s[j]) == k;
            assert(t[j] == s[j]);
        }
        if k == key_of(e) {
            assert(key_of(t[n]) == k);
        }
        if has_key(t, k) && k != key_of(e) {
            let j = choose|j: int| 0 <= j < t.len() && key_of(t[j]) == k;
            assert(key_of(s[j]) == k);
        }
    }
    assert forall|k: (Seq<char>, Seq<char>)| #[trigger]
        entry_map(t).contains_key(k) implies entry_map(t)[k] == m[k] by {
        let j = choose|j: int| 0 <= j < t.len() && key_of(t[j]) == k;
        lemma_entry_at(t, j);
        if j != n {
            lemma_entry_at(s, j);
        }
    }
    assert(entry_map(t) =~= m);
}

proof fn lemma_entry_remove(s: Seq<AdapterEntry>, i: int)
    requires
        keys_distinct(s),
        0 <= i < s.len(),
    ensures
        keys_distinct(s.remove(i)),
        entry_map(s.remove(i)) == entry_map(s).remove(key_of(s[i])),
{
    let t = s.remove(i);
    assert forall|a: int, b: int|
        0 <= a < t.len() && 0 <= b < t.len() && key_of(t[a]) == key_of(t[b]) implies a == b by {
        let a2 = if a < i { a } else { a + 1 };
        let b2 = if b < i { b } else { b + 1 };
        assert(t[a] == s[a2]);
        assert(t[b] == s[b2]);
    }
    let m = entry_map(s).remove(key_of(s[i]));
    assert forall|k: (Seq<char>, Seq<char>)| entry_map(t).contains_key(k) <==> m.contains_key(k) by {
        if m.contains_key(k) {
            let j = choose|j: int| 0 <= j < s.len() && key_of(s[j]) == k;
            assert(j != i);
            if j < i {
                assert(t[j] == s[j]);
            } else {
                assert(t[j - 1] == s[j]);
            }
        }
        if has_key(t, k) {
            let j = choose|j: int| 0 <= j < t.len() && key_of(t[j]) == k;
            let j2 = if j < i { j } else { j + 1 };
            assert(t[j] == s[j2]);
            assert(j2 != i);
        }
    }
    assert forall|k: (Seq<char>, Seq<char>)| #[trigger]
        entry_map(t).contains_key(k) implies entry_map(t)[k] == m[k] by {
        let j = choose|j: int| 0 <= j < t.len() && key_of(t[j]) == k;
        let j2 = if j < i { j } else { j + 1 };
        assert(t[j] == s[j2]);
        lemma_entry_at(t, j);
        lemma_entry_at(s, j2);
    }
    assert(entry_map(t) =~= m);
}

proof fn lemma_strings_push(s: Seq<String>, x: String)
    requires
        distinct_strings(s),
        !string_set(s).contains(x@),
    ensures
        distinct_strings(s.push(x)),
        string_set(s.push(x)) == string_set(s).insert(x@),
{
    let t = s.push(x);
    let n = s.len() as int;
    assert forall|a: int, b: int|
        0 <= a < t.len() && 0 <= b < t.len() && t[a]@ == t[b]@ implies a == b by {
        if a < n && b == n {
            assert(string_set(s).contains(x@));
        }
        if b < n && a == n {
            assert(string_set(s).contains(x@));
        }
    }
    assert forall|y: Seq<char>| string_set(t).contains(y) <==> string_set(s).insert(x@).contains(y) by {
        if string_set(s).contains(y) {
            let j = choose|j: int| 0 <= j < s.len() && s[j]@ == y;
            assert(t[j] == s[j]);
        }
        if y == x@ {
            assert(t[n]@ == y);
        }
        if string_set(t).contains(y) && y != x@ {
            let j = choose|j: int| 0 <= j < t.len() && t[j]@ == y;
            assert(s[j]@ == y);
        }
    }
    assert(string_set(t) =~= string_set(s).insert(x@));
}

proof fn lemma_strings_remove(s: Seq<String>, i: int)
    requires
        distinct_strings(s),
        0 <= i < s.len(),
    ensures
        distinct_strings(s.remove(i)),
        string_set(s.remove(i)) == string_set(s).remove(s[i]@),
{
    let t = s.remove(i);
    assert forall|a: int, b: int|
        0 <= a < t.len() && 0 <= b < t.len() && t[a]@ == t[b]@ implies a == b by {
        let a2 = if a < i { a } else { a + 1 };
        let b2 = if b < i { b } else { b + 1 };
        assert(t[a] == s[a2]);
        assert(t[b] == s[b2]);
    }
    let m = string_set(s).remove(s[i]@);
    assert forall|y: Seq<char>| string_set(t).contains(y) <==> m.contains(y) by {
        if m.contains(y) {
            let j = choose|j: int| 0 <= j < s.len() && s[j]@ == y;
            assert(j != i);
            if j < i {
                assert(t[j] == s[j]);
            } else {
                assert(t[j - 1] == s[j]);
            }
        }
        if string_set(t).contains(y) {
            let j = choose|j: int| 0 <= j < t.len() && t[j]@ == y;
            let j2 = if j < i { j } else { j + 1 };
            assert(t[j] == s[j2]);
            assert(j2 != i);
        }
    }
    assert(string_set(t) =~= m);
}

fn find_string(v: &Vec<String>, x: &String) -> (r: Option<usize>)
    ensures
        match r {
            Some(i) => i < v@.len() && v@[i as int]@ == x@,
            None => !string_set(v@).contains(x@),
        },
{
    let mut i: usize = 0;
    while i < v.len()
        invariant
            i <= v@.len(),
            forall|j: int| 0 <= j < i ==> v@[j]@ != x@,
        decreases v@.len() - i,
    {
        if v[i] == *x {
            return Some(i);
        }
        i = i + 1;
    }
    None
}

fn copy_strings(v: &Vec<String>) -> (r: Vec<String>)
    ensures
        r@ == v@,
{
    let mut r: Vec<String> = Vec::new();
    let mut i: usize = 0;
    while i < v.len()
        invariant
            i <= v@.len(),
            r@ == v@.subrange(0, i as int),
        decreases v@.len() - i,
    {
        r.push(v[i].clone());
        i = i + 1;
    }
    assert(r@ =~= v@);
    r
}

/// `ps` lists each provider registered under `category` exactly once.
pub open spec fn providers_under(
    m: Map<(Seq<char>, Seq<char>), (Seq<char>, Set<Seq<char>>)>,
    category: Seq<char>,
    ps: Seq<Seq<char>>,
) -> bool {
    &&& ps.no_duplicates()
    &&& forall|p: Seq<char>| ps.contains(p) <==> m.contains_key((category, p))
}

/// The increasing indices `idx` are exactly the entries of `s` below `upto`
/// under `category`.
spec fn picks_category(s: Seq<AdapterEntry>, category: Seq<char>, idx: Seq<int>, upto: int) -> bool {
    &&& forall|m: int|
        0 <= m < idx.len() ==> 0 <= #[trigger] idx[m] < upto && s[idx[m]].yield_type@ == category
    &&& forall|a: int, b: int| 0 <= a < b < idx.len() ==> idx[a] < idx[b]
    &&& forall|j: int|
        0 <= j < upto && #[trigger] s[j].yield_type@ == category ==> exists|m: int|
            0 <= m < idx.len() && idx[m] == j
}

spec fn protocols_at(s: Seq<AdapterEntry>, idx: Seq<int>) -> Seq<Seq<char>> {
    Seq::new(idx.len(), |m: int| s[idx[m]].protocol@)
}

proof fn lemma_picks_push(s: Seq<AdapterEntry>, category: Seq<char>, idx: Seq<int>, i: int)
    requires
        0 <= i < s.len(),
        s[i].yield_type@ == category,
        picks_category(s, category, idx, i),
    ensures
        picks_category(s, category, idx.push(i), i + 1),
{
    let t = idx.push(i);
    assert forall|m: int| 0 <= m < t.len() implies 0 <= #[trigger] t[m] < i + 1
        && s[t[m]].yield_type@ == category by {
        if m < idx.len() {
            assert(t[m] == idx[m]);
        }
    }
    assert forall|j: int| 0 <= j < i + 1 && #[trigger] s[j].yield_type@ == category implies exists|
        m: int,
    | 0 <= m < t.len() && t[m] == j by {
        if j < i {
            let m = choose|m: int| 0 <= m < idx.len() && idx[m] == j;
            assert(t[m] == idx[m]);
        } else {
            assert(t[idx.len() as int] == j);
        }
    }
}

proof fn lemma_picks_skip(s: Seq<AdapterEntry>, category: Seq<char>, idx: Seq<int>, i: int)
    requires
        0 <= i < s.len(),
        s[i].yield_type@ != category,
        picks_category(s, category, idx, i),
    ensures
        picks_category(s, category, idx, i + 1),
{
}

proof fn lemma_picks_providers(s: Seq<AdapterEntry>, category: Seq<char>, idx: Seq<int>)
    requires
        keys_distinct(s),
        picks_category(s, category, idx, s.len() as int),
    ensures
        providers_under(entry_map(s), category, protocols_at(s, idx)),
        forall|m: int|
            0 <= m < idx.len() ==> entry_map(s)[(category, #[trigger] protocols_at(s, idx)[m])]
                == entry_value(s[idx[m]]),
{
    let ps = protocols_at(s, idx);
    assert forall|m: int| 0 <= m < idx.len() implies entry_map(s).contains_key(
        (category, #[trigger] ps[m]),
    ) && entry_map(s)[(category, ps[m])] == entry_value(s[idx[m]]) by {
        assert(key_of(s[idx[m]]) == (category, ps[m]));
        lemma_entry_at(s, idx[m]);
    }
    assert forall|a: int, b: int| 0 <= a < ps.len() && 0 <= b < ps.len() && a != b implies ps[a]
        != ps[b] by {
        if ps[a] == ps[b] {
            assert(key_of(s[idx[a]]) == key_of(s[idx[b]]));
            if a < b {
                assert(idx[a] < idx[b]);
            } else {
                assert(idx[b] < idx[a]);
            }
        }
    }
    assert forall|p: Seq<char>| ps.contains(p) <==> entry_map(s).contains_key((category, p)) by {
        if ps.contains(p) {
            let m = choose|m: int| 0 <= m < ps.len() && ps[m] == p;
            assert(entry_map(s).contains_key((category, ps[m])));
        }
        if entry_map(s).contains_key((category, p)) {
            let j = choose|j: int| 0 <= j < s.len() && key_of(s[j]) == (category, p);
            assert(s[j].yield_type@ == category);
            let m = choose|m: int| 0 <= m < idx.len() && idx[m] == j;
            assert(ps[m] == p);
        }
    }
}

/// Keyed capability registry: (category, provider) to an address and a set
/// of supported assets. Mutations are gated behind the root role; reads are
/// open.
pub struct YieldAdapterRegistry {
    access: AccessControl,
    entries: Vec<AdapterEntry>,
}

/// One listed provider: its address and its asset set.
pub open spec fn listing_view(item: (String, Vec<String>)) -> (Seq<char>, Set<Seq<char>>) {
    (item.0@, string_set(item.1@))
}

impl YieldAdapterRegistry {
    /// The registry's roles.
    pub closed spec fn roles(&self) -> AccessControl {
        self.access
    }

    /// The table: (category, provider) to (address, supported assets).
    pub closed spec fn adapters(&self) -> Map<(Seq<char>, Seq<char>), (Seq<char>, Set<Seq<char>>)> {
        entry_map(self.entries@)
    }

    pub closed spec fn wf(&self) -> bool {
        &&& self.access.wf()
        &&& keys_distinct(self.entries@)
        &&& forall|i: int| 0 <= i < self.entries@.len() ==> distinct_strings(#[trigger] self.entries@[i].assets@)
    }

    /// Whether `caller` may change the registry.
    pub open spec fn is_admin(&self, caller: Seq<char>) -> bool {
        self.roles().holds(default_admin_role_spec(), caller)
    }

    /// Outcome of the admin gate of every mutating operation.
    pub open spec fn admin_gate(&self, caller: Seq<char>) -> Result<(), YieldAdapterRegistryError> {
        if self.is_admin(caller) {
            Ok(())
        } else {
            Err(YieldAdapterRegistryError::AccessControl(
                crate::error::AccessControlError::UnauthorizedError,
            ))
        }
    }

    /// An empty registry whose root role is held by `admin`.
    pub fn new(admin: String) -> (r: Self)
        ensures
            r.wf(),
            r.roles().is_initialized(),
            r.roles().admin_map() == map![default_admin_role_spec() => default_admin_role_spec()],
            r.roles().members() == set![(default_admin_role_spec(), admin@)],
            r.adapters() == Map::<(Seq<char>, Seq<char>), (Seq<char>, Set<Seq<char>>)>::empty(),
    {
        let mut access = AccessControl::new();
        let _ = access.initialize(&admin);
        let root = default_admin_role();
        access.set_role_admin(&root, &root);
        access.grant_role_unchecked(&root, &admin);
        let r = YieldAdapterRegistry { access, entries: Vec::new() };
        proof {
            assert(r.roles().admin_map() =~= map![default_admin_role_spec() => default_admin_role_spec()]);
            assert(r.roles().members() =~= set![(default_admin_role_spec(), admin@)]);
            assert(r.adapters() =~= Map::<(Seq<char>, Seq<char>), (Seq<char>, Set<Seq<char>>)>::empty());
        }
        r
    }

    /// The admin gate: succeeds exactly when `caller` holds the root role
    /// now. Changes nothing.
    pub fn only_admin(&self, caller: &String) -> (r: Result<(), YieldAdapterRegistryError>)
        requires
            self.wf(),
        ensures
            r == self.admin_gate(caller@),
    {
        match self.access.only_role(caller, &default_admin_role()) {
            Ok(()) => Ok(()),
            Err(e) => Err(YieldAdapterRegistryError::AccessControl(e)),
        }
    }

    fn find_entry(&self, yield_type: &String, protocol: &String) -> (r: Option<usize>)
        requires
            self.wf(),
        ensures
            match r {
                Some(i) => i < self.entries@.len() && key_of(self.entries@[i as int]) == (
                yield_type@,
                protocol@,
                ) && self.adapters().contains_key((yield_type@, protocol@))
                    && self.adapters()[(yield_type@, protocol@)] == entry_value(
                    self.entries@[i as int],
                ),
                None => !self.adapters().contains_key((yield_type@, protocol@)),
            },
    {
        let mut i: usize = 0;
        while i < self.entries.len()
            invariant
                self.wf(),
                i <= self.entries@.len(),
                forall|j: int| 0 <= j < i ==> key_of(self.entries@[j]) != (yield_type@, protocol@),
            decreases self.entries@.len() - i,
        {
            if self.entries[i].yield_type == *yield_type && self.entries[i].protocol == *protocol {
                proof {
                    lemma_entry_at(self.entries@, i as int);
                }
                return Some(i);
            }
            i = i + 1;
        }
        None
    }

    /// Grants the root role to `new_admin`; `caller` must hold the role that
    /// administers it.
    pub fn set_yield_adapter_admin(&mut self, caller: String, new_admin: String) -> (r: Result<
        (),
        YieldAdapterRegistryError,
    >)
        requires
            old(self).wf(),
        ensures
            final(self).wf(),
            final(self).adapters() == old(self).adapters(),
            r == (match old(self).roles().admin_check(caller@, default_admin_role_spec()) {
                Ok(_) => Ok(()),
                Err(e) => Err(YieldAdapterRegistryError::AccessControl(e)),
            }),
            r is Ok ==> final(self).roles().members() == old(self).roles().members().insert(
                (default_admin_role_spec(), new_admin@),
            ) && final(self).roles().admin_map() == old(self).roles().admin_map(),
            r is Err ==> *final(self) == *old(self),
    {
        match self.access.grant_role(&caller, &default_admin_role(), &new_admin) {
            Ok(()) => Ok(()),
            Err(e) => Err(YieldAdapterRegistryError::AccessControl(e)),
        }
    }
    /// What `register_adapter` does: from `pre` it gives `post` and `r`.
    pub open spec fn register_outcome(
        pre: YieldAdapterRegistry,
        caller: Seq<char>,
        yield_type: Seq<char>,
        protocol: Seq<char>,
        adapter_address: Seq<char>,
        post: YieldAdapterRegistry,
        r: Result<(), YieldAdapterRegistryError>,
    ) -> bool {
        let k = (yield_type, protocol);
        let assets = if pre.adapters().contains_key(k) {
            pre.adapters()[k].1
        } else {
            Set::empty()
        };
        &&& post.roles() == pre.roles()
        &&& r == pre.admin_gate(caller)
        &&& r is Ok ==> post.adapters() == pre.adapters().insert(k, (adapter_address, assets))
        &&& r is Err ==> post == pre
    }

    /// Registers `adapter_address` under (`yield_type`, `protocol`), where
    /// `caller` holds the root role. A registered key keeps its asset set
    /// and gets the new address; a new key starts with no assets.
    pub fn register_adapter(
        &mut self,
        caller: String,
        yield_type: String,
        protocol: String,
        adapter_address: String,
    ) -> (r: Result<(), YieldAdapterRegistryError>)
        requires
            old(self).wf(),
        ensures
            final(self).wf(),
            YieldAdapterRegistry::register_outcome(*old(self), caller@, yield_type@, protocol@, adapter_address@, *final(self), r),
    {
        match self.only_admin(&caller) {
            Err(e) => return Err(e),
            Ok(()) => {},
        }
        match self.find_entry(&yield_type, &protocol) {
            Some(i) => {
                let old_entry = self.entries.remove(i);
                let entry = AdapterEntry {
                    yield_type: old_entry.yield_type,
                    protocol: old_entry.protocol,
                    address: adapter_address,
                    assets: old_entry.assets,
                };
                self.entries.insert(i, entry);
                proof {
                    assert(self.entries@ =~= old(self).entries@.update(i as int, entry));
                    lemma_entry_update(old(self).entries@, i as int, entry);
                }
            },
            None => {
                let entry = AdapterEntry {
                    yield_type,
                    protocol,
                    address: adapter_address,
                    assets: Vec::new(),
                };
                self.entries.push(entry);
                proof {
                    assert(string_set(entry.assets@) =~= Set::empty());
                    lemma_entry_push(old(self).entries@, entry);
                }
            },
        }
        Ok(())
    }

    /// What `remove_adapter` does: from `pre` it gives `post` and `r`.
    pub open spec fn remove_outcome(
        pre: YieldAdapterRegistry,
        caller: Seq<char>,
        yield_type: Seq<char>,
        protocol: Seq<char>,
        post: YieldAdapterRegistry,
        r: Result<String, YieldAdapterRegistryError>,
    ) -> bool {
        let k = (yield_type, protocol);
        &&& post.roles() == pre.roles()
        &&& pre.admin_gate(caller) is Err ==> r == Err::<String, YieldAdapterRegistryError>(
            pre.admin_gate(caller)->Err_0,
        )
        &&& pre.admin_gate(caller) is Ok && !pre.adapters().contains_key(k) ==> r == Err::<
            String,
            YieldAdapterRegistryError,
        >(YieldAdapterRegistryError::NotFound)
        &&& pre.admin_gate(caller) is Ok && pre.adapters().contains_key(k) ==> r is Ok
        &&& r is Ok ==> pre.admin_gate(caller) is Ok && pre.adapters().contains_key(k)
            && r->Ok_0@ == pre.adapters()[k].0 && post.adapters() == pre.adapters().remove(k)
        &&& r is Err ==> post == pre
    }

    /// Removes the entry under (`yield_type`, `protocol`), where `caller`
    /// holds the root role, and returns the address it held.
    pub fn remove_adapter(&mut self, caller: String, yield_type: String, protocol: String) -> (r:
        Result<String, YieldAdapterRegistryError>)
        requires
            old(self).wf(),
        ensures
            final(self).wf(),
            YieldAdapterRegistry::remove_outcome(*old(self), caller@, yield_type@, protocol@, *final(self), r),
    {
        match self.only_admin(&caller) {
            Err(e) => return Err(e),
            Ok(()) => {},
        }
        match self.find_entry(&yield_type, &protocol) {
            None => Err(YieldAdapterRegistryError::NotFound),
            Some(i) => {
                let entry = self.entries.remove(i);
                proof {
                    lemma_entry_remove(old(self).entries@, i as int);
                    assert forall|j: int| 0 <= j < self.entries@.len() implies distinct_strings(
                        #[trigger] self.entries@[j].assets@,
                    ) by {
                        let j2 = if j < i { j } else { j + 1 };
                        assert(self.entries@[j] == old(self).entries@[j2]);
                    }
                }
                Ok(entry.address)
            },
        }
    }

    /// What `get_adapter` returns, as a view.
    pub open spec fn get_result(&self, yield_type: Seq<char>, protocol: Seq<char>) -> Result<
        Seq<char>,
        YieldAdapterRegistryError,
    > {
        if self.adapters().contains_key((yield_type, protocol)) {
            Ok(self.adapters()[(yield_type, protocol)].0)
        } else {
            Err(YieldAdapterRegistryError::InvalidYieldAdapter)
        }
    }

    /// The address under (`yield_type`, `protocol`); fails when the key was
    /// never registered, or was removed.
    pub fn get_adapter(&self, yield_type: String, protocol: String) -> (r: Result<
        String,
        YieldAdapterRegistryError,
    >)
        requires
            self.wf(),
        ensures
            match r {
                Ok(a) => self.get_result(yield_type@, protocol@) == Ok::<
                    Seq<char>,
                    YieldAdapterRegistryError,
                >(a@),
                Err(e) => self.get_result(yield_type@, protocol@) == Err::<
                    Seq<char>,
                    YieldAdapterRegistryError,
                >(e),
            },
    {
        match self.find_entry(&yield_type, &protocol) {
            None => Err(YieldAdapterRegistryError::InvalidYieldAdapter),
            Some(i) => Ok(self.entries[i].address.clone()),
        }
    }

    /// What `add_support_for_asset` does: from `pre` it gives `post` and `r`.
    pub open spec fn add_asset_outcome(
        pre: YieldAdapterRegistry,
        caller: Seq<char>,
        yield_type: Seq<char>,
        protocol: Seq<char>,
        asset_address: Seq<char>,
        post: YieldAdapterRegistry,
        r: Result<(), YieldAdapterRegistryError>,
    ) -> bool {
        let k = (yield_type, protocol);
        &&& post.roles() == pre.roles()
        &&& r == (if pre.admin_gate(caller) is Err {
            pre.admin_gate(caller)
        } else if !pre.adapters().contains_key(k) {
            Err(YieldAdapterRegistryError::InvalidYieldAdapter)
        } else {
            Ok(())
        })
        &&& r is Ok ==> post.adapters() == pre.adapters().insert(
            k,
            (pre.adapters()[k].0, pre.adapters()[k].1.insert(asset_address)),
        )
        &&& r is Err ==> post == pre
    }

    /// What `remove_support_for_asset` does: from `pre` it gives `post` and `r`.
    pub open spec fn remove_asset_outcome(
        pre: YieldAdapterRegistry,
        caller: Seq<char>,
        yield_type: Seq<char>,
        protocol: Seq<char>,
        asset_address: Seq<char>,
        post: YieldAdapterRegistry,
        r: Result<(), YieldAdapterRegistryError>,
    ) -> bool {
        let k = (yield_type, protocol);
        &&& post.roles() == pre.roles()
        &&& r == pre.admin_gate(caller)
        &&& r is Ok && pre.adapters().contains_key(k) ==> post.adapters() == pre.adapters().insert(
            k,
            (pre.adapters()[k].0, pre.adapters()[k].1.remove(asset_address)),
        )
        &&& !(r is Ok && pre.adapters().contains_key(k)) ==> post == pre
    }

    /// Adds `asset_address` to the assets of the entry under (`yield_type`,
    /// `protocol`), where `caller` holds the root role. Adding an asset that
    /// is already there changes nothing. Fails when the key is not
    /// registered.
    pub fn add_support_for_asset(
        &mut self,
        caller: String,
        yield_type: String,
        protocol: String,
        asset_address: String,
    ) -> (r: Result<(), YieldAdapterRegistryError>)
        requires
            old(self).wf(),
        ensures
            final(self).wf(),
            final(self).roles() == old(self).roles(),
            YieldAdapterRegistry::add_asset_outcome(
                *old(self),
                caller@,
                yield_type@,
                protocol@,
                asset_address@,
                *final(self),
                r,
            ),
    {
        match self.only_admin(&caller) {
            Err(e) => return Err(e),
            Ok(()) => {},
        }
        match self.find_entry(&yield_type, &protocol) {
            None => Err(YieldAdapterRegistryError::InvalidYieldAdapter),
            Some(i) => {
                match find_string(&self.entries[i].assets, &asset_address) {
                    Some(_) => {
                        proof {
                            let k = (yield_type@, protocol@);
                            let v = self.adapters()[k];
                            assert(v.1.insert(asset_address@) =~= v.1);
                            assert(self.adapters() =~= self.adapters().insert(
                                k,
                                (v.0, v.1.insert(asset_address@)),
                            ));
                        }
                    },
                    None => {
                        let old_entry = self.entries.remove(i);
                        let mut assets = old_entry.assets;
                        proof {
                            lemma_strings_push(assets@, asset_address);
                        }
                        assets.push(asset_address);
                        let entry = AdapterEntry {
                            yield_type: old_entry.yield_type,
                            protocol: old_entry.protocol,
                            address: old_entry.address,
                            assets,
                        };
                        self.entries.insert(i, entry);
                        proof {
                            assert(self.entries@ =~= old(self).entries@.update(i as int, entry));
                            lemma_entry_update(old(self).entries@, i as int, entry);
                            assert forall|j: int| 0 <= j < self.entries@.len() implies distinct_strings(
                                #[trigger] self.entries@[j].assets@,
                            ) by {
                                if j != i {
                                    assert(self.entries@[j] == old(self).entries@[j]);
                                }
                            }
                        }
                    },
                }
                Ok(())
            },
        }
    }

    /// Removes `asset_address` from the assets of the entry under
    /// (`yield_type`, `protocol`), where `caller` holds the root role.
    /// Removing an asset that is not there, or from a key that is not
    /// registered, changes nothing.
    pub fn remove_support_for_asset(
        &mut self,
        caller: String,
        yield_type: String,
        protocol: String,
        asset_address: String,
    ) -> (r: Result<(), YieldAdapterRegistryError>)
        requires
            old(self).wf(),
        ensures
            final(self).wf(),
            final(self).roles() == old(self).roles(),
            YieldAdapterRegistry::remove_asset_outcome(
                *old(self),
                caller@,
                yield_type@,
                protocol@,
                asset_address@,
                *final(self),
                r,
            ),
    {
        match self.only_admin(&caller) {
            Err(e) => return Err(e),
            Ok(()) => {},
        }
        match self.find_entry(&yield_type, &protocol) {
            None => {},
            Some(i) => {
                match find_string(&self.entries[i].assets, &asset_address) {
                    None => {
                        proof {
                            let k = (yield_type@, protocol@);
                            let v = self.adapters()[k];
                            assert(v.1.remove(asset_address@) =~= v.1);
                            assert(self.adapters() =~= self.adapters().insert(
                                k,
                                (v.0, v.1.remove(asset_address@)),
                            ));
                        }
                    },
                    Some(j) => {
                        let old_entry = self.entries.remove(i);
                        let mut assets = old_entry.assets;
                        proof {
                            lemma_strings_remove(assets@, j as int);
                        }
                        assets.remove(j);
                        let entry = AdapterEntry {
                            yield_type: old_entry.yield_type,
                            protocol: old_entry.protocol,
                            address: old_entry.address,
                            assets,
                        };
                        self.entries.insert(i, entry);
                        proof {
                            assert(self.entries@ =~= old(self).entries@.update(i as int, entry));
                            lemma_entry_update(old(self).entries@, i as int, entry);
                            assert forall|m: int| 0 <= m < self.entries@.len() implies distinct_strings(
                                #[trigger] self.entries@[m].assets@,
                            ) by {
                                if m != i {
                                    assert(self.entries@[m] == old(self).entries@[m]);
                                }
                            }
                        }
                    },
                }
            },
        }
        Ok(())
    }

    /// Whether the entry under (`yield_type`, `protocol`) supports
    /// `asset_address`; false for a key that is not registered.
    pub fn is_supported_asset(&self, yield_type: String, protocol: String, asset_address: String) -> (r:
        bool)
        requires
            self.wf(),
        ensures
            r == (self.adapters().contains_key((yield_type@, protocol@)) && self.adapters()[(
                yield_type@,
                protocol@,
            )].1.contains(asset_address@)),
    {
        match self.find_entry(&yield_type, &protocol) {
            None => false,
            Some(i) => match find_string(&self.entries[i].assets, &asset_address) {
                Some(_) => true,
                None => false,
            },
        }
    }

    /// The addresses registered under `yield_type`: one per provider, in
    /// no particular order.
    pub fn get_adapters(&self, yield_type: String) -> (r: Vec<String>)
        requires
            self.wf(),
        ensures
            exists|ps: Seq<Seq<char>>|
                #[trigger] providers_under(self.adapters(), yield_type@, ps) && r@.len() == ps.len()
                    && forall|m: int|
                    0 <= m < ps.len() ==> r@[m]@ == self.adapters()[(yield_type@, ps[m])].0,
    {
        let mut r: Vec<String> = Vec::new();
        let ghost mut idx: Seq<int> = Seq::empty();
        let mut i: usize = 0;
        while i < self.entries.len()
            invariant
                self.wf(),
                i <= self.entries@.len(),
                picks_category(self.entries@, yield_type@, idx, i as int),
                r@.len() == idx.len(),
                forall|m: int| 0 <= m < idx.len() ==> #[trigger] r@[m]@ == self.entries@[idx[m]].address@,
            decreases self.entries@.len() - i,
        {
            if self.entries[i].yield_type == yield_type {
                r.push(self.entries[i].address.clone());
                proof {
                    lemma_picks_push(self.entries@, yield_type@, idx, i as int);
                    idx = idx.push(i as int);
                }
            } else {
                proof {
                    lemma_picks_skip(self.entries@, yield_type@, idx, i as int);
                }
            }
            i = i + 1;
        }
        proof {
            let ps = protocols_at(self.entries@, idx);
            lemma_picks_providers(self.entries@, yield_type@, idx);
            assert(providers_under(self.adapters(), yield_type@, ps) && r@.len() == ps.len()
                && forall|m: int|
                0 <= m < ps.len() ==> r@[m]@ == self.adapters()[(yield_type@, ps[m])].0);
        }
        r
    }

    /// For each provider under `yield_type`, its address with its assets:
    /// one pair per provider, in no particular order.
    pub fn get_adapters_with_assets(&self, yield_type: String) -> (r: Vec<(String, Vec<String>)>)
        requires
            self.wf(),
        ensures
            exists|ps: Seq<Seq<char>>|
                #[trigger] providers_under(self.adapters(), yield_type@, ps) && r@.len() == ps.len()
                    && forall|m: int|
                    0 <= m < ps.len() ==> listing_view(r@[m]) == self.adapters()[(
                        yield_type@,
                        ps[m],
                    )],
    {
        let mut r: Vec<(String, Vec<String>)> = Vec::new();
        let ghost mut idx: Seq<int> = Seq::empty();
        let mut i: usize = 0;
        while i < self.entries.len()
            invariant
                self.wf(),
                i <= self.entries@.len(),
                picks_category(self.entries@, yield_type@, idx, i as int),
                r@.len() == idx.len(),
                forall|m: int|
                    0 <= m < idx.len() ==> #[trigger] listing_view(r@[m]) == entry_value(
                        self.entries@[idx[m]],
                    ),
            decreases self.entries@.len() - i,
        {
            if self.entries[i].yield_type == yield_type {
                let item = (self.entries[i].address.clone(), copy_strings(&self.entries[i].assets));
                r.push(item);
                proof {
                    assert(listing_view(r@[idx.len() as int]) == entry_value(self.entries@[i as int]));
                    lemma_picks_push(self.entries@, yield_type@, idx, i as int);
                    idx = idx.push(i as int);
                }
            } else {
                proof {
                    lemma_picks_skip(self.entries@, yield_type@, idx, i as int);
                }
            }
            i = i + 1;
        }
        proof {
            let ps = protocols_at(self.entries@, idx);
            lemma_picks_providers(self.entries@, yield_type@, idx);
            assert(providers_under(self.adapters(), yield_type@, ps) && r@.len() == ps.len()
                && forall|m: int|
                0 <= m < ps.len() ==> listing_view(r@[m]) == self.adapters()[(yield_type@, ps[m])]);
        }
        r
    }
}

/// After a successful `register_adapter` of `adapter_address` under
/// (`yield_type`, `protocol`), `get_adapter` on that key returns
/// `adapter_address`.
pub proof fn law_register_then_get(
    pre: YieldAdapterRegistry,
    caller: Seq<char>,
    yield_type: Seq<char>,
    protocol: Seq<char>,
    adapter_address: Seq<char>,
    post: YieldAdapterRegistry,
    r: Result<(), YieldAdapterRegistryError>,
)
    requires
        YieldAdapterRegistry::register_outcome(
            pre,
            caller,
            yield_type,
            protocol,
            adapter_address,
            post,
            r,
        ),
        r is Ok,
    ensures
        post.get_result(yield_type, protocol) == Ok::<Seq<char>, YieldAdapterRegistryError>(
            adapter_address,
        ),
{
}

/// After a successful `remove_adapter` of (`yield_type`, `protocol`),
/// `get_adapter` on that key fails: the key is no longer found.
pub proof fn law_remove_then_get(
    pre: YieldAdapterRegistry,
    caller: Seq<char>,
    yield_type: Seq<char>,
    protocol: Seq<char>,
    post: YieldAdapterRegistry,
    r: Result<String, YieldAdapterRegistryError>,
)
    requires
        YieldAdapterRegistry::remove_outcome(pre, caller, yield_type, protocol, post, r),
        r is Ok,
    ensures
        post.get_result(yield_type, protocol) == Err::<Seq<char>, YieldAdapterRegistryError>(
            YieldAdapterRegistryError::InvalidYieldAdapter,
        ),
{
}

/// Adding the same asset twice leaves the table as adding it once did; the
/// second call succeeds too.
pub proof fn law_add_asset_idempotent(
    pre: YieldAdapterRegistry,
    caller: Seq<char>,
    yield_type: Seq<char>,
    protocol: Seq<char>,
    asset_address: Seq<char>,
    mid: YieldAdapterRegistry,
    r1: Result<(), YieldAdapterRegistryError>,
    post: YieldAdapterRegistry,
    r2: Result<(), YieldAdapterRegistryError>,
)
    requires
        YieldAdapterRegistry::add_asset_outcome(
            pre,
            caller,
            yield_type,
            protocol,
            asset_address,
            mid,
            r1,
        ),
        YieldAdapterRegistry::add_asset_outcome(
            mid,
            caller,
            yield_type,
            protocol,
            asset_address,
            post,
            r2,
        ),
        r1 is Ok,
    ensures
        r2 is Ok,
        post.adapters() == mid.adapters(),
{
    let k = (yield_type, protocol);
    assert(mid.adapters().contains_key(k));
    let v = mid.adapters()[k];
    assert(v.1.insert(asset_address) =~= v.1);
    assert(mid.adapters().insert(k, (v.0, v.1.insert(asset_address))) =~= mid.adapters());
}

/// Removing an asset that the entry does not support, or from a key that is
/// not registered, leaves the table as it was.
pub proof fn law_remove_absent_asset(
    pre: YieldAdapterRegistry,
    caller: Seq<char>,
    yield_type: Seq<char>,
    protocol: Seq<char>,
    asset_address: Seq<char>,
    post: YieldAdapterRegistry,
    r: Result<(), YieldAdapterRegistryError>,
)
    requires
        YieldAdapterRegistry::remove_asset_outcome(
            pre,
            caller,
            yield_type,
            protocol,
            asset_address,
            post,
            r,
        ),
        !(pre.adapters().contains_key((yield_type, protocol)) && pre.adapters()[(
            yield_type,
            protocol,
        )].1.contains(asset_address)),
    ensures
        post.adapters() == pre.adapters(),
{
    let k = (yield_type, protocol);
    if r is Ok && pre.adapters().contains_key(k) {
        let v = pre.adapters()[k];
        assert(v.1.remove(asset_address) =~= v.1);
        assert(pre.adapters().insert(k, (v.0, v.1.remove(asset_address))) =~= pre.adapters());
    }
}

} // verus!
