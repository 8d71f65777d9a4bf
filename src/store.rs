//! The live state store: entities carrying components, and singleton
//! resources. Values are held in their wire encoding, keyed by the type key
//! under which their kind is registered.

use vstd::prelude::*;
use vstd::utf8::*;
use crate::registry::{keys_unique, lookup, lemma_lookup_at, lemma_lookup_none};

verus! {

/// The (key, value) pairs of `s` with each value as its bytes.
pub open spec fn pairs_view(s: Seq<(u64, Vec<u8>)>) -> Seq<(u64, Seq<u8>)> {
    s.map_values(|p: (u64, Vec<u8>)| (p.0, p.1@))
}

/// `s` with `k` bound to `v`: the pair with key `k` is replaced, or a new
/// pair is appended.
pub open spec fn put(s: Seq<(u64, Seq<u8>)>, k: u64, v: Seq<u8>) -> Seq<(u64, Seq<u8>)> {
    if exists|i: int| 0 <= i < s.len() && s[i].0 == k {
        s.update(choose|i: int| 0 <= i < s.len() && s[i].0 == k, (k, v))
    } else {
        s.push((k, v))
    }
}

/// Whether an entity with components `c` carries every kind in `keys`.
pub open spec fn has_all(c: Seq<(u64, Seq<u8>)>, keys: Seq<u64>) -> bool {
    forall|j: int| 0 <= j < keys.len() ==> #[trigger] lookup(c, keys[j]) is Some
}

/// The values of the kinds in `keys`, in that order.
pub open spec fn row_of(c: Seq<(u64, Seq<u8>)>, keys: Seq<u64>) -> Seq<Seq<u8>> {
    keys.map_values(|k: u64| lookup(c, k)->Some_0)
}

/// One row per entity that carries every kind in `keys`, in entity order;
/// entities missing one of them are left out.
pub open spec fn join(ents: Seq<Seq<(u64, Seq<u8>)>>, keys: Seq<u64>) -> Seq<Seq<Seq<u8>>>
    decreases ents.len(),
{
    if ents.len() == 0 {
        seq![]
    } else {
        let prev = join(ents.drop_last(), keys);
        if has_all(ents.last(), keys) {
            prev.push(row_of(ents.last(), keys))
        } else {
            prev
        }
    }
}

/// Finds the position of the pair with key `k`.
fn find_key(s: &Vec<(u64, Vec<u8>)>, k: u64) -> (r: Option<usize>)
    requires
        keys_unique(pairs_view(s@)),
    ensures
        match r {
            Some(i) => i < s@.len() && s@[i as int].0 == k && lookup(pairs_view(s@), k) == Some(
                s@[i as int].1@,
            ),
            None => lookup(pairs_view(s@), k) is None,
        },
{
    let ghost sv = pairs_view(s@);
    let mut i: usize = 0;
    while i < s.len()
        invariant
            sv == pairs_view(s@),
            keys_unique(sv),
            i <= s@.len(),
            forall|j: int| 0 <= j < i ==> #[trigger] sv[j].0 != k,
        decreases s.len() - i,
    {
        if s[i].0 == k {
            proof {
                lemma_lookup_at(sv, i as int);
            }
            return Some(i);
        }
        i += 1;
    }
    proof {
        lemma_lookup_none(sv, k);
    }
    None
}

/// Binds `k` to `v` in `s`.
fn put_pair(s: &mut Vec<(u64, Vec<u8>)>, k: u64, v: Vec<u8>)
    requires
        keys_unique(pairs_view(old(s)@)),
    ensures
        keys_unique(pairs_view(final(s)@)),
        pairs_view(final(s)@) == put(pairs_view(old(s)@), k, v@),
{
    let ghost sv = pairs_view(s@);
    match find_key(s, k) {
        Some(i) => {
            proof {
                let c = choose|j: int| 0 <= j < sv.len() && sv[j].0 == k;
                assert(sv[i as int].0 == k);
            }
            s.set(i, (k, v));
            assert(pairs_view(s@) =~= sv.update(i as int, (k, v@)));
        },
        None => {
            assert(!exists|j: int| 0 <= j < sv.len() && sv[j].0 == k) by {
                if exists|j: int| 0 <= j < sv.len() && sv[j].0 == k {
                    let j = choose|j: int| 0 <= j < sv.len() && sv[j].0 == k;
                    lemma_lookup_at(sv, j);
                }
            }
            s.push((k, v));
            assert(pairs_view(s@) =~= sv.push((k, v@)));
        },
    }
}

/// An asset that a module defined: raw bytes under its module and type.
pub struct AssetInfo {
    pub mod_name: String,
    pub asset_type: String,
    pub asset_data: Vec<u8>,
}

/// An asset as (module name, asset type, bytes).
pub open spec fn asset_view(a: AssetInfo) -> (Seq<char>, Seq<char>, Seq<u8>) {
    (a.mod_name@, a.asset_type@, a.asset_data@)
}

/// The decimal digits of `n`, most significant first.
pub open spec fn decimal(n: nat) -> Seq<u8>
    decreases n,
{
    if n < 10 {
        seq![(48 + n) as u8]
    } else {
        decimal(n / 10).push((48 + n % 10) as u8)
    }
}

/// The id of the asset at position `index`: module name, asset type and
/// position, separated by slashes.
pub open spec fn asset_id(a: (Seq<char>, Seq<char>, Seq<u8>), index: nat) -> Seq<u8> {
    encode_utf8(a.0) + seq![47u8] + encode_utf8(a.1) + seq![47u8] + decimal(index)
}

/// The position of an asset equal to `a`, if there is one.
pub open spec fn asset_index(s: Seq<(Seq<char>, Seq<char>, Seq<u8>)>, a: (Seq<char>, Seq<char>, Seq<u8>)) -> Option<int> {
    if exists|i: int| 0 <= i < s.len() && s[i] == a {
        Some(choose|i: int| 0 <= i < s.len() && s[i] == a)
    } else {
        None
    }
}

/// Whether two byte vectors hold the same bytes.
pub fn bytes_equal(a: &Vec<u8>, b: &Vec<u8>) -> (r: bool)
    ensures
        r == (a@ == b@),
{
    if a.len() != b.len() {
        return false;
    }
    let mut i: usize = 0;
    while i < a.len()
        invariant
            a@.len() == b@.len(),
            i <= a@.len(),
            forall|j: int| 0 <= j < i ==> a@[j] == b@[j],
        decreases a.len() - i,
    {
        if a[i] != b[i] {
            return false;
        }
        i += 1;
    }
    assert(a@ =~= b@);
    true
}

fn push_decimal(out: &mut Vec<u8>, n: u64)
    ensures
        final(out)@ == old(out)@ + decimal(n as nat),
    decreases n,
{
    if n >= 10 {
        push_decimal(out, n / 10);
    }
    out.push((48 + n % 10) as u8);
    assert(final(out)@ =~= old(out)@ + decimal(n as nat));
}

/// Entities, resources and assets; entity and resource values are held in
/// their wire encoding.
pub struct StateStore {
    entities: Vec<Vec<(u64, Vec<u8>)>>,
    resources: Vec<(u64, Vec<u8>)>,
    assets: Vec<AssetInfo>,
}

impl StateStore {
    /// The components of each entity, an entity's id being its position.
    pub closed spec fn entities(&self) -> Seq<Seq<(u64, Seq<u8>)>> {
        self.entities@.map_values(|c: Vec<(u64, Vec<u8>)>| pairs_view(c@))
    }

    /// The resources, as (type key, value) pairs.
    pub closed spec fn resources(&self) -> Seq<(u64, Seq<u8>)> {
        pairs_view(self.resources@)
    }

    /// The assets, in the order they were defined.
    pub closed spec fn assets(&self) -> Seq<(Seq<char>, Seq<char>, Seq<u8>)> {
        self.assets@.map_values(|a: AssetInfo| asset_view(a))
    }

    /// No entity carries two values of one kind, no resource is held twice,
    /// and no asset is defined twice.
    pub open spec fn wf(&self) -> bool {
        &&& forall|e: int| 0 <= e < self.entities().len() ==> #[trigger] keys_unique(self.entities()[e])
        &&& keys_unique(self.resources())
        &&& forall|i: int, j: int|
            0 <= i < self.assets().len() && 0 <= j < self.assets().len() && self.assets()[i]
                == self.assets()[j] ==> i == j
    }

    /// The position of an asset equal to `info`.
    fn find_asset(&self, info: &AssetInfo) -> (r: Option<usize>)
        requires
            self.wf(),
        ensures
            match r {
                Some(k) => k < self.assets().len() && asset_index(self.assets(), asset_view(*info))
                    == Some(k as int),
                None => asset_index(self.assets(), asset_view(*info)) is None,
            },
    {
        let ghost s = self.assets();
        let ghost a = asset_view(*info);
        let mut i: usize = 0;
        while i < self.assets.len()
            invariant
                self.wf(),
                a == asset_view(*info),
                s == self.assets(),
                s.len() == self.assets@.len(),
                i <= s.len(),
                forall|j: int| 0 <= j < i ==> #[trigger] s[j] != a,
            decreases self.assets.len() - i,
        {
            let x = &self.assets[i];
            let same_name = x.mod_name == info.mod_name;
            let same_type = x.asset_type == info.asset_type;
            let same_data = bytes_equal(&x.asset_data, &info.asset_data);
            assert(same_name == (x.mod_name@ == info.mod_name@));
            assert(same_type == (x.asset_type@ == info.asset_type@));
            assert(s[i as int] == asset_view(*x));
            if same_name && same_type && same_data {
                assert(s[i as int] == a);
                assert(asset_index(s, a) == Some(i as int)) by {
                    let c = choose|j: int| 0 <= j < s.len() && s[j] == a;
                }
                return Some(i);
            }
            assert(s[i as int] == asset_view(*x));
            i += 1;
        }
        None
    }

    /// Defines an asset and returns its id; an asset equal to one defined
    /// before gets that one's id and is not stored again.
    pub fn define_asset(&mut self, info: AssetInfo) -> (r: Vec<u8>)
        requires
            old(self).wf(),
        ensures
            final(self).wf(),
            final(self).entities() == old(self).entities(),
            final(self).resources() == old(self).resources(),
            match asset_index(old(self).assets(), asset_view(info)) {
                Some(i) => r@ == asset_id(asset_view(info), i as nat) && final(self).assets() == old(
                    self,
                ).assets(),
                None => r@ == asset_id(asset_view(info), old(self).assets().len())
                    && final(self).assets() == old(self).assets().push(asset_view(info)),
            },
    {
        let ghost s = self.assets();
        let ghost a = asset_view(info);
        let found = self.find_asset(&info);
        let mut id: Vec<u8> = Vec::new();
        id.extend_from_slice(info.mod_name.as_str().as_bytes());
        id.push(47u8);
        id.extend_from_slice(info.asset_type.as_str().as_bytes());
        id.push(47u8);
        match found {
            Some(k) => {
                push_decimal(&mut id, k as u64);
            },
            None => {
                push_decimal(&mut id, self.assets.len() as u64);
                self.assets.push(info);
                assert(self.assets() =~= s.push(a));
                assert(forall|j: int| 0 <= j < s.len() ==> s[j] != a);
                let ghost t = self.assets();
                assert forall|x: int, y: int|
                    0 <= x < t.len() && 0 <= y < t.len() && t[x] == t[y] implies x == y by {
                    if x < s.len() && y < s.len() {
                        assert(t[x] == s[x] && t[y] == s[y]);
                    }
                }
            },
        }
        assert(self.entities() == old(self).entities());
        assert(self.resources() == old(self).resources());
        assert(id@ =~= asset_id(a, if found is Some { found->Some_0 as nat } else { s.len() }));
        id
    }

    /// An empty store.
    pub fn new() -> (r: StateStore)
        ensures
            r.wf(),
            r.entities() == Seq::<Seq<(u64, Seq<u8>)>>::empty(),
            r.resources() == Seq::<(u64, Seq<u8>)>::empty(),
    {
        let r = StateStore { entities: Vec::new(), resources: Vec::new(), assets: Vec::new() };
        assert(r.entities() =~= Seq::<Seq<(u64, Seq<u8>)>>::empty());
        assert(r.resources() =~= Seq::<(u64, Seq<u8>)>::empty());
        r
    }

    /// The number of entities.
    pub fn entity_count(&self) -> (r: usize)
        ensures
            r == self.entities().len(),
    {
        self.entities.len()
    }

    /// Creates an entity with no components and returns its id.
    pub fn spawn_empty(&mut self) -> (r: usize)
        requires
            old(self).wf(),
        ensures
            final(self).wf(),
            r == old(self).entities().len(),
            final(self).entities() == old(self).entities().push(Seq::<(u64, Seq<u8>)>::empty()),
            final(self).resources() == old(self).resources(),
            final(self).assets() == old(self).assets(),
    {
        let r = self.entities.len();
        self.entities.push(Vec::new());
        assert(self.assets() == old(self).assets());
        assert(pairs_view(self.entities@[r as int]@) =~= Seq::<(u64, Seq<u8>)>::empty());
        assert(self.entities() =~= old(self).entities().push(Seq::<(u64, Seq<u8>)>::empty()));
        r
    }

    /// Binds the component of kind `key` of entity `e` to `value`.
    pub fn insert_component(&mut self, e: usize, key: u64, value: Vec<u8>)
        requires
            old(self).wf(),
            e < old(self).entities().len(),
        ensures
            final(self).wf(),
            final(self).entities() == old(self).entities().update(
                e as int,
                put(old(self).entities()[e as int], key, value@),
            ),
            final(self).resources() == old(self).resources(),
            final(self).assets() == old(self).assets(),
    {
        let ghost ents = self.entities();
        let mut c = Vec::new();
        std::mem::swap(&mut c, &mut self.entities[e]);
        assert(pairs_view(c@) == ents[e as int]);
        put_pair(&mut c, key, value);
        self.entities.set(e, c);
        assert(self.assets() == old(self).assets());
        assert(self.entities() =~= ents.update(e as int, put(ents[e as int], key, value@)));
    }

    /// The component of kind `key` of entity `e`.
    pub fn get_component(&self, e: usize, key: u64) -> (r: Option<&Vec<u8>>)
        requires
            self.wf(),
            e < self.entities().len(),
        ensures
            match r {
                Some(v) => lookup(self.entities()[e as int], key) == Some(v@),
                None => lookup(self.entities()[e as int], key) is None,
            },
    {
        let c = &self.entities[e];
        assert(pairs_view(c@) == self.entities()[e as int]);
        match find_key(c, key) {
            Some(i) => Some(&c[i].1),
            None => None,
        }
    }

    /// The values of the kinds in `keys` carried by entity `e`, in that order,
    /// or `None` when it lacks one of them.
    fn row_for(&self, e: usize, keys: &Vec<u64>) -> (r: Option<Vec<Vec<u8>>>)
        requires
            self.wf(),
            e < self.entities().len(),
        ensures
            match r {
                Some(row) => has_all(self.entities()[e as int], keys@) && row.deep_view() == row_of(
                    self.entities()[e as int],
                    keys@,
                ),
                None => !has_all(self.entities()[e as int], keys@),
            },
    {
        let ghost c = self.entities()[e as int];
        let mut row: Vec<Vec<u8>> = Vec::new();
        let mut j: usize = 0;
        while j < keys.len()
            invariant
                self.wf(),
                e < self.entities().len(),
                c == self.entities()[e as int],
                j <= keys@.len(),
                row@.len() == j,
                forall|i: int| 0 <= i < j ==> #[trigger] lookup(c, keys@[i]) is Some,
                forall|i: int| 0 <= i < j ==> #[trigger] row@[i]@ == lookup(c, keys@[i])->Some_0,
            decreases keys.len() - j,
        {
            match self.get_component(e, keys[j]) {
                Some(v) => {
                    let w = v.clone();
                    assert(w@ =~= v@);
                    row.push(w);
                },
                None => return None,
            }
            j += 1;
        }
        assert forall|i: int| 0 <= i < row@.len() implies #[trigger] row.deep_view()[i] == row_of(c, keys@)[i] by {
            assert(row.deep_view()[i] =~= row@[i]@);
        }
        assert(row.deep_view() =~= row_of(c, keys@));
        Some(row)
    }

    /// One row per entity that carries every kind in `keys`, each row the
    /// values of those kinds in the order of `keys`.
    pub fn query(&self, keys: &Vec<u64>) -> (r: Vec<Vec<Vec<u8>>>)
        requires
            self.wf(),
        ensures
            r.deep_view() == join(self.entities(), keys@),
    {
        let ghost ents = self.entities();
        let mut out: Vec<Vec<Vec<u8>>> = Vec::new();
        let mut e: usize = 0;
        while e < self.entities.len()
            invariant
                self.wf(),
                ents == self.entities(),
                ents.len() == self.entities@.len(),
                e <= ents.len(),
                out.deep_view() == join(ents.take(e as int), keys@),
            decreases self.entities.len() - e,
        {
            let ghost prev = out.deep_view();
            assert(ents.take(e + 1).drop_last() =~= ents.take(e as int));
            match self.row_for(e, keys) {
                Some(row) => {
                    out.push(row);
                    assert(out.deep_view() =~= prev.push(row_of(ents[e as int], keys@)));
                },
                None => {},
            }
            e += 1;
        }
        assert(ents.take(ents.len() as int) =~= ents);
        out
    }

    /// Binds the resource of kind `key` to `value`.
    pub fn insert_resource(&mut self, key: u64, value: Vec<u8>)
        requires
            old(self).wf(),
        ensures
            final(self).wf(),
            final(self).resources() == put(old(self).resources(), key, value@),
            final(self).entities() == old(self).entities(),
            final(self).assets() == old(self).assets(),
    {
        put_pair(&mut self.resources, key, value);
        assert(self.entities() == old(self).entities());
        assert(self.assets() == old(self).assets());
    }

    /// The resource of kind `key`.
    pub fn get_resource(&self, key: u64) -> (r: Option<&Vec<u8>>)
        requires
            self.wf(),
        ensures
            match r {
                Some(v) => lookup(self.resources(), key) == Some(v@),
                None => lookup(self.resources(), key) is None,
            },
    {
        match find_key(&self.resources, key) {
            Some(i) => Some(&self.resources[i].1),
            None => None,
        }
    }
}

} // verus!
