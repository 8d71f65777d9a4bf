//! The entrypoints that modules call, and the per-module state they act on.
//!
//! Each entrypoint reads its arguments from the calling module's linear
//! memory, acts on the live state store, and writes its answer back. A failure
//! of any kind yields an empty or zero answer and leaves the memory as it was.

use vstd::prelude::*;
use crate::codec::{
    decode_id, decode_ids, decode_pair_list, dec_id, dec_ids, dec_list, enc_rows, encode_rows,
    le_bytes, lossy_utf8, pair_decoder, utf8_lossy, utf8_string,
};
use vstd::utf8::*;
use crate::memory::{GuestMemory, accessible, in_bounds, spec_read, spec_write};
use crate::registry::{Registry, lookup};
use crate::store::{AssetInfo, StateStore, asset_id, asset_index, join, put};

verus! {

/// Finds the type key of the component kind registered under `id`.
pub fn find_component_registration(regs: &Registries, id: &String) -> (r: Option<u64>)
    requires
        regs.wf(),
    ensures
        r == regs.components.spec_find(id@),
{
    regs.components.find(id)
}

/// Finds the type key of the resource kind registered under `id`.
pub fn find_resource_registration(regs: &Registries, id: &String) -> (r: Option<u64>)
    requires
        regs.wf(),
    ensures
        r == regs.resources.spec_find(id@),
{
    regs.resources.find(id)
}

/// Where query responses are staged in a module's memory.
pub const STAGING_OFFSET: usize = 0x100000;

/// The record that tells a module where a response lies: `data_ptr == 0`
/// means that there is none, whatever `data_len` holds.
#[derive(Debug, Clone, Copy, PartialEq, Eq, Structural)]
pub struct HostModResult {
    pub data_ptr: u32,
    pub data_len: u32,
}

/// The eight bytes of a result record: both fields, little-endian.
pub open spec fn handle_bytes(data_ptr: u32, data_len: u32) -> Seq<u8> {
    le_bytes(data_ptr as nat, 4) + le_bytes(data_len as nat, 4)
}

fn push_le_u32(out: &mut Vec<u8>, x: u32)
    ensures
        final(out)@ == old(out)@ + le_bytes(x as nat, 4),
        final(out)@.len() == old(out)@.len() + 4,
{
    let b0 = (x % 256) as u8;
    let x1 = x / 256;
    let b1 = (x1 % 256) as u8;
    let x2 = x1 / 256;
    let b2 = (x2 % 256) as u8;
    let x3 = x2 / 256;
    let b3 = (x3 % 256) as u8;
    out.push(b0);
    out.push(b1);
    out.push(b2);
    out.push(b3);
    reveal_with_fuel(le_bytes, 5);
    assert(le_bytes(x as nat, 4) =~= seq![b0, b1, b2, b3]);
}

impl HostModResult {
    /// The record of a response at `data_ptr` of `data_len` bytes.
    pub fn new(data_ptr: u32, data_len: u32) -> (r: HostModResult)
        ensures
            r.data_ptr == data_ptr,
            r.data_len == data_len,
    {
        HostModResult { data_ptr, data_len }
    }

    /// Whether the record stands for no response.
    pub fn is_absent(&self) -> (r: bool)
        ensures
            r == (self.data_ptr == 0),
    {
        self.data_ptr == 0
    }

    /// The record as it is laid out in a module's memory.
    pub fn to_bytes(&self) -> (r: Vec<u8>)
        ensures
            r@ == handle_bytes(self.data_ptr, self.data_len),
            r@.len() == 8,
    {
        let mut out: Vec<u8> = Vec::new();
        push_le_u32(&mut out, self.data_ptr);
        push_le_u32(&mut out, self.data_len);
        assert(out@ =~= handle_bytes(self.data_ptr, self.data_len));
        out
    }

    /// Reads a record from its eight bytes.
    pub fn from_bytes(b: &[u8]) -> (r: HostModResult)
        requires
            b@.len() == 8,
        ensures
            handle_bytes(r.data_ptr, r.data_len) == b@,
    {
        let p = read_le_u32(b, 0);
        let l = read_le_u32(b, 4);
        assert(b@ =~= b@.subrange(0, 4) + b@.subrange(4, 8));
        HostModResult { data_ptr: p, data_len: l }
    }
}

/// Reads four little-endian bytes at `at`.
pub fn read_le_u32(b: &[u8], at: usize) -> (r: u32)
    requires
        at + 4 <= b@.len(),
    ensures
        le_bytes(r as nat, 4) == b@.subrange(at as int, at + 4),
{
    let b0 = b[at] as u32;
    let b1 = b[at + 1] as u32;
    let b2 = b[at + 2] as u32;
    let b3 = b[at + 3] as u32;
    let r = b0 + 256 * (b1 + 256 * (b2 + 256 * b3));
    let x1 = b1 + 256 * (b2 + 256 * b3);
    let x2 = b2 + 256 * b3;
    assert(r % 256 == b0 && r / 256 == x1);
    assert(x1 % 256 == b1 && x1 / 256 == x2);
    assert(x2 % 256 == b2 && x2 / 256 == b3);
    assert(b3 % 256 == b3);
    reveal_with_fuel(le_bytes, 5);
    assert(le_bytes(r as nat, 4) =~= b@.subrange(at as int, at + 4));
    r
}

/// The component and resource registries that every module's calls consult.
pub struct Registries {
    pub components: Registry,
    pub resources: Registry,
}

impl Registries {
    /// Both registries are well formed.
    pub open spec fn wf(&self) -> bool {
        self.components.wf() && self.resources.wf()
    }

    /// Two empty registries.
    pub fn new() -> (r: Registries)
        ensures
            r.wf(),
            r.components.view_entries().len() == 0,
            r.resources.view_entries().len() == 0,
    {
        Registries { components: Registry::new(), resources: Registry::new() }
    }
}

/// The host-side state of one module instance: the state store while it is
/// wired to the module, for the duration of its calls.
pub struct ModState {
    world: Option<StateStore>,
}

impl ModState {
    /// The store wired to the module, if any.
    pub closed spec fn spec_world(&self) -> Option<StateStore> {
        self.world
    }

    /// A wired store is well formed.
    pub open spec fn wf(&self) -> bool {
        match self.spec_world() {
            Some(w) => w.wf(),
            None => true,
        }
    }

    /// A state with no store wired.
    pub fn new() -> (r: ModState)
        ensures
            r.spec_world() is None,
    {
        ModState { world: None }
    }

    /// Wires `world` to the module.
    pub fn set_world(&mut self, world: StateStore)
        ensures
            final(self).spec_world() == Some(world),
    {
        self.world = Some(world);
    }

    /// The store wired to the module, if any.
    pub fn get_world(&self) -> (r: Option<&StateStore>)
        ensures
            match r {
                Some(w) => self.spec_world() == Some(*w),
                None => self.spec_world() is None,
            },
    {
        self.world.as_ref()
    }

    /// Unwires the store and hands it back.
    pub fn take_world(&mut self) -> (r: Option<StateStore>)
        ensures
            r == old(self).spec_world(),
            final(self).spec_world() is None,
    {
        self.world.take()
    }
}

/// The bytes `[ptr, ptr + len)` of a module's memory, when there is a memory
/// and the range is inside it; no bytes at all when `len` is zero.
pub open spec fn spec_region(m: Option<Seq<u8>>, ptr: i32, len: i32) -> Option<Seq<u8>> {
    match m {
        Some(m) => if ptr >= 0 && len >= 0 && accessible(m.len() as int, ptr as int, len as int) {
            Some(spec_read(m, ptr as int, len as int))
        } else {
            None
        },
        None => None,
    }
}

/// Reads the bytes `[ptr, ptr + len)` of a module's memory.
pub fn read_region(mem: &GuestMemory, ptr: i32, len: i32) -> (r: Option<Vec<u8>>)
    ensures
        match r {
            Some(b) => spec_region(mem.spec_data(), ptr, len) == Some(b@),
            None => spec_region(mem.spec_data(), ptr, len) is None,
        },
{
    if ptr < 0 || len < 0 {
        return None;
    }
    match mem.read_bytes(ptr as usize, len as usize) {
        Ok(b) => Some(b),
        Err(_) => None,
    }
}

/// Whether a response of `n` bytes and its record at `result_ptr` both fit.
pub open spec fn can_deliver(m: Seq<u8>, result_ptr: i32, n: nat) -> bool {
    &&& result_ptr >= 0
    &&& n <= i32::MAX
    &&& in_bounds(m.len() as int, STAGING_OFFSET as int, n as int)
    &&& in_bounds(m.len() as int, result_ptr as int, 8)
}

/// The memory after a response `d` is staged and its record written at
/// `result_ptr`.
pub open spec fn delivered(m: Seq<u8>, result_ptr: i32, d: Seq<u8>) -> Seq<u8> {
    spec_write(
        spec_write(m, STAGING_OFFSET as int, d),
        result_ptr as int,
        handle_bytes(STAGING_OFFSET as u32, d.len() as u32),
    )
}

/// What a call answers with a response `d` (`None`: no response): the memory
/// after it and the returned length.
pub open spec fn spec_answer(m: Option<Seq<u8>>, result_ptr: i32, d: Option<Seq<u8>>) -> (
    Option<Seq<u8>>,
    i32,
) {
    match (m, d) {
        (Some(m), Some(d)) => if can_deliver(m, result_ptr, d.len()) {
            (Some(delivered(m, result_ptr, d)), d.len() as i32)
        } else {
            (Some(m), 0)
        },
        _ => (m, 0),
    }
}

/// Stages a response in the module's memory and writes its record at
/// `result_ptr`; returns the response's length, or 0 and changes nothing when
/// either does not fit.
pub fn deliver_response(mem: &mut GuestMemory, result_ptr: i32, data: &Vec<u8>) -> (r: i32)
    ensures
        (final(mem).spec_data(), r) == spec_answer(old(mem).spec_data(), result_ptr, Some(data@)),
{
    let size = mem.size();
    if !mem.is_present() {
        return 0;
    }
    if result_ptr < 0 || data.len() > 0x7fff_ffff || STAGING_OFFSET > size || data.len() > size
        - STAGING_OFFSET || result_ptr as usize > size || 8 > size - result_ptr as usize {
        return 0;
    }
    let ghost m0 = mem.spec_data()->Some_0;
    let _ = mem.write_bytes(STAGING_OFFSET, data.as_slice());
    assert(mem.spec_data() == Some(spec_write(m0, STAGING_OFFSET as int, data@)));
    assert(mem.spec_data()->Some_0.len() == m0.len());
    let handle = HostModResult { data_ptr: STAGING_OFFSET as u32, data_len: data.len() as u32 };
    let hb = handle.to_bytes();
    assert(hb@ == handle_bytes(STAGING_OFFSET as u32, data@.len() as u32));
    let _ = mem.write_bytes(result_ptr as usize, hb.as_slice());
    data.len() as i32
}

/// The type keys registered for `ids`, when every one of them is known.
pub open spec fn resolve_all(reg: Registry, ids: Seq<Seq<char>>) -> Option<Seq<u64>> {
    if forall|i: int| 0 <= i < ids.len() ==> #[trigger] reg.spec_find(ids[i]) is Some {
        Some(ids.map_values(|id: Seq<char>| reg.spec_find(id)->Some_0))
    } else {
        None
    }
}

/// The response to a component query: the rows of every entity carrying all
/// the requested kinds, encoded; none for an empty request, an unknown id, or
/// no matching entity.
pub open spec fn spec_components_response(reg: Registry, world: StateStore, ids: Seq<Seq<char>>) -> Option<
    Seq<u8>,
> {
    if ids.len() == 0 {
        None
    } else {
        match resolve_all(reg, ids) {
            Some(keys) => if join(world.entities(), keys).len() == 0 {
                None
            } else {
                Some(enc_rows(join(world.entities(), keys)))
            },
            None => None,
        }
    }
}

/// Answers a component query against `world`.
pub fn query_components_from_world(reg: &Registry, world: &StateStore, ids: &Vec<String>) -> (r:
    Option<Vec<u8>>)
    requires
        reg.wf(),
        world.wf(),
    ensures
        match r {
            Some(d) => spec_components_response(*reg, *world, ids.deep_view()) == Some(d@),
            None => spec_components_response(*reg, *world, ids.deep_view()) is None,
        },
{
    let ghost idv = ids.deep_view();
    if ids.len() == 0 {
        return None;
    }
    let mut keys: Vec<u64> = Vec::new();
    let mut i: usize = 0;
    while i < ids.len()
        invariant
            reg.wf(),
            idv == ids.deep_view(),
            i <= ids@.len(),
            keys@.len() == i,
            forall|j: int| 0 <= j < i ==> #[trigger] reg.spec_find(idv[j]) == Some(keys@[j]),
        decreases ids.len() - i,
    {
        match reg.find(&ids[i]) {
            Some(k) => keys.push(k),
            None => {
                assert(reg.spec_find(idv[i as int]) is None);
                return None;
            },
        }
        i += 1;
    }
    assert(keys@ =~= idv.map_values(|id: Seq<char>| reg.spec_find(id)->Some_0));
    let rows = world.query(&keys);
    if rows.len() == 0 {
        return None;
    }
    Some(encode_rows(&rows))
}

/// The entrypoint for component queries: reads the encoded ids at
/// `[ids_ptr, ids_ptr + ids_len)`, stages the response and writes its record
/// at `result_ptr`; returns the response's length, 0 when there is none.
pub fn host_handle_query_components(
    regs: &Registries,
    state: &ModState,
    mem: &mut GuestMemory,
    ids_ptr: i32,
    ids_len: i32,
    result_ptr: i32,
) -> (r: i32)
    requires
        regs.wf(),
        state.wf(),
    ensures
        (final(mem).spec_data(), r) == spec_answer(
            old(mem).spec_data(),
            result_ptr,
            match (spec_region(old(mem).spec_data(), ids_ptr, ids_len), state.spec_world()) {
                (Some(payload), Some(world)) => match dec_ids(payload) {
                    Some(ids) => spec_components_response(regs.components, world, ids),
                    None => None,
                },
                _ => None,
            },
        ),
{
    let payload = match read_region(mem, ids_ptr, ids_len) {
        Some(p) => p,
        None => return 0,
    };
    let ids = match decode_ids(payload.as_slice()) {
        Ok(ids) => ids,
        Err(_) => return 0,
    };
    let world = match state.get_world() {
        Some(w) => w,
        None => return 0,
    };
    match query_components_from_world(&regs.components, world, &ids) {
        Some(d) => deliver_response(mem, result_ptr, &d),
        None => 0,
    }
}


/// The response to a resource query: the resource's encoded value, empty or
/// not; none for an unknown id or a resource not present.
pub open spec fn spec_resource_response(reg: Registry, world: StateStore, id: Seq<char>) -> Option<Seq<u8>> {
    match reg.spec_find(id) {
        Some(k) => lookup(world.resources(), k),
        None => None,
    }
}

/// A response that has bytes to stage; an empty one stages nothing.
pub open spec fn non_empty(d: Option<Seq<u8>>) -> Option<Seq<u8>> {
    match d {
        Some(v) => if v.len() == 0 {
            None
        } else {
            Some(v)
        },
        None => None,
    }
}

/// Answers a resource query against `world`.
pub fn query_resource_from_world(reg: &Registry, world: &StateStore, id: &String) -> (r: Option<Vec<u8>>)
    requires
        reg.wf(),
        world.wf(),
    ensures
        match r {
            Some(d) => spec_resource_response(*reg, *world, id@) == Some(d@),
            None => spec_resource_response(*reg, *world, id@) is None,
        },
{
    let k = match reg.find(id) {
        Some(k) => k,
        None => return None,
    };
    match world.get_resource(k) {
        Some(v) => {
            let d = v.clone();
            assert(d@ =~= v@);
            Some(d)
        },
        None => None,
    }
}

/// The entrypoint for resource queries: reads the encoded id at
/// `[id_ptr, id_ptr + id_len)`, stages the value and writes its record at
/// `result_ptr`; returns the value's length, 0 and writes nothing when there is
/// none or it is empty.
pub fn host_handle_query_resources(
    regs: &Registries,
    state: &ModState,
    mem: &mut GuestMemory,
    id_ptr: i32,
    id_len: i32,
    result_ptr: i32,
) -> (r: i32)
    requires
        regs.wf(),
        state.wf(),
    ensures
        (final(mem).spec_data(), r) == spec_answer(
            old(mem).spec_data(),
            result_ptr,
            match (spec_region(old(mem).spec_data(), id_ptr, id_len), state.spec_world()) {
                (Some(payload), Some(world)) => match dec_id(payload) {
                    Some(id) => non_empty(spec_resource_response(regs.resources, world, id)),
                    None => None,
                },
                _ => None,
            },
        ),
{
    let payload = match read_region(mem, id_ptr, id_len) {
        Some(p) => p,
        None => return 0,
    };
    let id = match decode_id(payload.as_slice()) {
        Ok(id) => id,
        Err(_) => return 0,
    };
    let world = match state.get_world() {
        Some(w) => w,
        None => return 0,
    };
    match query_resource_from_world(&regs.resources, world, &id) {
        Some(d) => if d.len() == 0 {
            0
        } else {
            deliver_response(mem, result_ptr, &d)
        },
        None => 0,
    }
}

/// The components of an entity spawned from `pairs`: each pair whose id is
/// registered binds its kind to its bytes, a later pair overriding an earlier
/// one of the same kind.
pub open spec fn spawned(reg: Registry, pairs: Seq<(Seq<char>, Seq<u8>)>) -> Seq<(u64, Seq<u8>)>
    decreases pairs.len(),
{
    if pairs.len() == 0 {
        seq![]
    } else {
        let prev = spawned(reg, pairs.drop_last());
        match reg.spec_find(pairs.last().0) {
            Some(k) => put(prev, k, pairs.last().1),
            None => prev,
        }
    }
}

/// The ids of `pairs` that are not registered, in order.
pub open spec fn skipped(reg: Registry, pairs: Seq<(Seq<char>, Seq<u8>)>) -> Seq<Seq<char>>
    decreases pairs.len(),
{
    if pairs.len() == 0 {
        seq![]
    } else {
        let prev = skipped(reg, pairs.drop_last());
        match reg.spec_find(pairs.last().0) {
            Some(_) => prev,
            None => prev.push(pairs.last().0),
        }
    }
}

/// Spawns exactly one entity carrying the components of `pairs` whose ids
/// are registered; returns its id and the ids that were skipped.
pub fn spawn_entity_with_components(
    reg: &Registry,
    world: &mut StateStore,
    pairs: &Vec<(String, Vec<u8>)>,
) -> (r: (usize, Vec<String>))
    requires
        reg.wf(),
        old(world).wf(),
    ensures
        final(world).wf(),
        r.0 == old(world).entities().len(),
        final(world).entities() == old(world).entities().push(spawned(*reg, pairs.deep_view())),
        final(world).resources() == old(world).resources(),
        final(world).assets() == old(world).assets(),
        r.1.deep_view() == skipped(*reg, pairs.deep_view()),
{
    let ghost pv = pairs.deep_view();
    let ghost ents = world.entities();
    let e = world.spawn_empty();
    let mut skip: Vec<String> = Vec::new();
    let mut i: usize = 0;
    while i < pairs.len()
        invariant
            reg.wf(),
            world.wf(),
            pv == pairs.deep_view(),
            e == ents.len(),
            i <= pv.len(),
            world.entities() == ents.push(spawned(*reg, pv.take(i as int))),
            world.resources() == old(world).resources(),
            world.assets() == old(world).assets(),
            skip.deep_view() == skipped(*reg, pv.take(i as int)),
        decreases pairs.len() - i,
    {
        assert(pv.take(i + 1).drop_last() =~= pv.take(i as int));
        assert(pv[i as int].0 == pairs@[i as int].0@);
        assert(pv[i as int].1 =~= pairs@[i as int].1@);
        match reg.find(&pairs[i].0) {
            Some(k) => {
                let v = pairs[i].1.clone();
                assert(v@ =~= pairs@[i as int].1@);
                world.insert_component(e, k, v);
                assert(world.entities() =~= ents.push(spawned(*reg, pv.take(i + 1))));
            },
            None => {
                let ghost prev = skip.deep_view();
                skip.push(pairs[i].0.clone());
                assert(skip.deep_view() =~= prev.push(pv[i as int].0));
            },
        }
        i += 1;
    }
    assert(pv.take(pv.len() as int) =~= pv);
    (e, skip)
}

/// The pairs of `xs` whose id is valid UTF-8, with the id decoded.
pub open spec fn valid_pairs(xs: Seq<(Seq<u8>, Seq<u8>)>) -> Seq<(Seq<char>, Seq<u8>)>
    decreases xs.len(),
{
    if xs.len() == 0 {
        seq![]
    } else {
        let prev = valid_pairs(xs.drop_last());
        if valid_utf8(xs.last().0) {
            prev.push((decode_utf8(xs.last().0), xs.last().1))
        } else {
            prev
        }
    }
}

/// The positions of the pairs of `xs` whose id is not valid UTF-8.
pub open spec fn invalid_positions(xs: Seq<(Seq<u8>, Seq<u8>)>) -> Seq<usize>
    decreases xs.len(),
{
    if xs.len() == 0 {
        seq![]
    } else {
        let prev = invalid_positions(xs.drop_last());
        if valid_utf8(xs.last().0) {
            prev
        } else {
            prev.push((xs.len() - 1) as usize)
        }
    }
}

/// What a spawn request did: the new entity, the ids that are not registered,
/// and the positions of the pairs whose id is not valid UTF-8. Those pairs
/// are skipped; the entity is created all the same.
pub struct SpawnReport {
    pub entity: usize,
    pub unknown_ids: Vec<String>,
    pub invalid_ids: Vec<usize>,
}

/// Splits raw pairs into those whose id is valid UTF-8, decoded, and the
/// positions of the others.
fn split_pairs(xs: Vec<(Vec<u8>, Vec<u8>)>) -> (r: (Vec<(String, Vec<u8>)>, Vec<usize>))
    ensures
        r.0.deep_view() == valid_pairs(xs.deep_view()),
        r.1@ == invalid_positions(xs.deep_view()),
{
    let ghost xv = xs.deep_view();
    let mut good: Vec<(String, Vec<u8>)> = Vec::new();
    let mut bad: Vec<usize> = Vec::new();
    let mut i: usize = 0;
    while i < xs.len()
        invariant
            xv == xs.deep_view(),
            i <= xv.len(),
            good.deep_view() == valid_pairs(xv.take(i as int)),
            bad@ == invalid_positions(xv.take(i as int)),
        decreases xs.len() - i,
    {
        assert(xv.take(i + 1).drop_last() =~= xv.take(i as int));
        let id = xs[i].0.clone();
        let data = xs[i].1.clone();
        assert(id@ =~= xv[i as int].0);
        assert(data@ =~= xv[i as int].1);
        let ghost g0 = good.deep_view();
        match utf8_string(id) {
            Some(s) => {
                good.push((s, data));
                assert(good.deep_view() =~= g0.push((decode_utf8(xv[i as int].0), xv[i as int].1))) by {
                    assert(good.deep_view().last().1 =~= data@);
                }
            },
            None => bad.push(i),
        }
        i += 1;
    }
    assert(xv.take(xv.len() as int) =~= xv);
    (good, bad)
}

/// The entrypoint for spawning: reads the encoded (component id, bytes) pairs
/// at `[ptr, ptr + len)` and spawns one entity from them; a pair whose id is
/// not registered or not valid UTF-8 is skipped and reported. Returns `None`,
/// with nothing spawned, when the payload cannot be read or decoded or no
/// store is wired.
pub fn host_handle_spawn_entities(
    regs: &Registries,
    state: &mut ModState,
    mem: &GuestMemory,
    ptr: i32,
    len: i32,
) -> (r: Option<SpawnReport>)
    requires
        regs.wf(),
        old(state).wf(),
    ensures
        final(state).wf(),
        match (spec_region(mem.spec_data(), ptr, len), old(state).spec_world()) {
            (Some(payload), Some(w)) => match dec_list(payload, pair_decoder()) {
                Some((xs, _)) => r is Some && final(state).spec_world() is Some && {
                    let ps = valid_pairs(xs);
                    let w2 = final(state).spec_world()->Some_0;
                    &&& w2.entities() == w.entities().push(spawned(regs.components, ps))
                    &&& w2.resources() == w.resources()
                    &&& w2.assets() == w.assets()
                    &&& r->Some_0.entity == w.entities().len()
                    &&& r->Some_0.unknown_ids.deep_view() == skipped(regs.components, ps)
                    &&& r->Some_0.invalid_ids@ == invalid_positions(xs)
                },
                None => r is None && final(state).spec_world() == old(state).spec_world(),
            },
            _ => r is None && final(state).spec_world() == old(state).spec_world(),
        },
{
    let payload = match read_region(mem, ptr, len) {
        Some(p) => p,
        None => return None,
    };
    let raw = match decode_pair_list(payload.as_slice()) {
        Ok(xs) => xs,
        Err(_) => return None,
    };
    let (pairs, invalid_ids) = split_pairs(raw);
    match state.take_world() {
        Some(mut w) => {
            let (entity, unknown_ids) = spawn_entity_with_components(&regs.components, &mut w, &pairs);
            state.set_world(w);
            Some(SpawnReport { entity, unknown_ids, invalid_ids })
        },
        None => None,
    }
}

/// What became of a request to free a staged response.
#[derive(Debug, Clone, Copy, PartialEq, Eq, Structural)]
pub enum FreeOutcome {
    /// The pointer or the length was not positive.
    InvalidParameters,
    /// The pointer is not where responses are staged.
    UnexpectedLocation,
    /// The region was zeroed.
    Cleared,
    /// The region lies outside the memory, or there is no memory.
    Failed,
}

/// `n` zero bytes.
pub open spec fn zeros(n: nat) -> Seq<u8> {
    Seq::new(n, |i: int| 0u8)
}

/// The entrypoint for freeing a staged response: zeroes `[ptr, ptr + len)`
/// when `ptr` is where responses are staged.
pub fn host_handle_free_memory(mem: &mut GuestMemory, ptr: i32, len: i32) -> (r: FreeOutcome)
    ensures
        ptr <= 0 || len <= 0 ==> r == FreeOutcome::InvalidParameters,
        ptr > 0 && len > 0 && ptr != STAGING_OFFSET ==> r == FreeOutcome::UnexpectedLocation,
        ptr > 0 && len > 0 && ptr == STAGING_OFFSET ==> match old(mem).spec_data() {
            Some(m) => if in_bounds(m.len() as int, ptr as int, len as int) {
                r == FreeOutcome::Cleared && final(mem).spec_data() == Some(
                    spec_write(m, ptr as int, zeros(len as nat)),
                )
            } else {
                r == FreeOutcome::Failed
            },
            None => r == FreeOutcome::Failed,
        },
        r != FreeOutcome::Cleared ==> final(mem).spec_data() == old(mem).spec_data(),
{
    if ptr <= 0 || len <= 0 {
        return FreeOutcome::InvalidParameters;
    }
    if ptr as usize != STAGING_OFFSET {
        return FreeOutcome::UnexpectedLocation;
    }
    let mut z: Vec<u8> = Vec::new();
    let mut i: usize = 0;
    while i < len as usize
        invariant
            len > 0,
            i <= len as usize,
            z@ == zeros(i as nat),
        decreases len as usize - i,
    {
        z.push(0u8);
        i += 1;
        assert(z@ =~= zeros(i as nat));
    }
    match mem.write_bytes(ptr as usize, z.as_slice()) {
        Ok(()) => FreeOutcome::Cleared,
        Err(_) => FreeOutcome::Failed,
    }
}

/// How urgent a module's log message is.
#[derive(Debug, Clone, Copy, PartialEq, Eq, Structural)]
pub enum LogLevel {
    Debug,
    Info,
    Warn,
    Error,
}

/// 0 debug, 1 info, 2 warn, 3 error; any other code is info.
pub open spec fn level_of(code: i32) -> LogLevel {
    if code == 0 {
        LogLevel::Debug
    } else if code == 2 {
        LogLevel::Warn
    } else if code == 3 {
        LogLevel::Error
    } else {
        LogLevel::Info
    }
}

impl LogLevel {
    /// 0 debug, 1 info, 2 warn, 3 error; any other code is info.
    pub fn from_code(code: i32) -> (r: LogLevel)
        ensures
            r == level_of(code),
    {
        match code {
            0 => LogLevel::Debug,
            2 => LogLevel::Warn,
            3 => LogLevel::Error,
            _ => LogLevel::Info,
        }
    }
}

/// A message that a module logged.
pub struct LogRecord {
    pub level: LogLevel,
    pub text: String,
}

/// The entrypoint for logging: the text at `[ptr, ptr + len)`, decoded
/// leniently, at the level that `level` gives; `None` when it cannot be read.
pub fn host_handle_log(mem: &GuestMemory, ptr: i32, len: i32, level: i32) -> (r: Option<LogRecord>)
    ensures
        match spec_region(mem.spec_data(), ptr, len) {
            Some(b) => r is Some && r->Some_0.level == level_of(level) && r->Some_0.text@
                == lossy_utf8(b) && (valid_utf8(b) ==> r->Some_0.text@ == decode_utf8(b)),
            None => r is None,
        },
{
    match read_region(mem, ptr, len) {
        Some(b) => Some(LogRecord { level: LogLevel::from_code(level), text: utf8_lossy(b.as_slice()) }),
        None => None,
    }
}

/// Whether every pointer and length of an asset definition is positive.
pub open spec fn asset_args_valid(
    mod_name_ptr: i32,
    mod_name_len: i32,
    asset_type_ptr: i32,
    asset_type_len: i32,
    asset_data_ptr: i32,
    asset_data_len: i32,
    asset_id_ptr: i32,
    asset_id_len: i32,
) -> bool {
    mod_name_ptr > 0 && mod_name_len > 0 && asset_type_ptr > 0 && asset_type_len > 0
        && asset_data_ptr > 0 && asset_data_len > 0 && asset_id_ptr > 0 && asset_id_len > 0
}


/// The (module name, asset type, bytes) that an asset definition reads, when
/// all three regions can be read and both names are valid UTF-8.
pub open spec fn spec_asset_input(
    m: Option<Seq<u8>>,
    mod_name_ptr: i32,
    mod_name_len: i32,
    asset_type_ptr: i32,
    asset_type_len: i32,
    asset_data_ptr: i32,
    asset_data_len: i32,
) -> Option<(Seq<char>, Seq<char>, Seq<u8>)> {
    match (
        spec_region(m, mod_name_ptr, mod_name_len),
        spec_region(m, asset_type_ptr, asset_type_len),
        spec_region(m, asset_data_ptr, asset_data_len),
    ) {
        (Some(n), Some(t), Some(d)) => if valid_utf8(n) && valid_utf8(t) {
            Some((decode_utf8(n), decode_utf8(t), d))
        } else {
            None
        },
        _ => None,
    }
}

/// The id that defining `a` in a store holding `assets` gives.
pub open spec fn defined_id(assets: Seq<(Seq<char>, Seq<char>, Seq<u8>)>, a: (Seq<char>, Seq<char>, Seq<u8>)) -> Seq<u8> {
    match asset_index(assets, a) {
        Some(i) => asset_id(a, i as nat),
        None => asset_id(a, assets.len()),
    }
}

/// The assets after defining `a`.
pub open spec fn assets_after(assets: Seq<(Seq<char>, Seq<char>, Seq<u8>)>, a: (Seq<char>, Seq<char>, Seq<u8>)) -> Seq<(Seq<char>, Seq<char>, Seq<u8>)> {
    match asset_index(assets, a) {
        Some(_) => assets,
        None => assets.push(a),
    }
}

/// The entrypoint for defining an asset. Every pointer and length must be
/// positive, which is checked before memory is touched. It reads the module
/// name, asset type and bytes, defines the asset in the wired store, writes as
/// much of its id as `asset_id_len` allows at `asset_id_ptr`, and returns the
/// id's full length; it returns 0 on any failure.
pub fn host_handle_define_asset(
    state: &mut ModState,
    mem: &mut GuestMemory,
    mod_name_ptr: i32,
    mod_name_len: i32,
    asset_type_ptr: i32,
    asset_type_len: i32,
    asset_data_ptr: i32,
    asset_data_len: i32,
    asset_id_ptr: i32,
    asset_id_len: i32,
) -> (r: u32)
    requires
        old(state).wf(),
    ensures
        final(state).wf(),
        !asset_args_valid(
            mod_name_ptr,
            mod_name_len,
            asset_type_ptr,
            asset_type_len,
            asset_data_ptr,
            asset_data_len,
            asset_id_ptr,
            asset_id_len,
        ) ==> r == 0 && final(mem).spec_data() == old(mem).spec_data() && final(state).spec_world()
            == old(state).spec_world(),
        asset_args_valid(
            mod_name_ptr,
            mod_name_len,
            asset_type_ptr,
            asset_type_len,
            asset_data_ptr,
            asset_data_len,
            asset_id_ptr,
            asset_id_len,
        ) ==> match (
            spec_asset_input(
                old(mem).spec_data(),
                mod_name_ptr,
                mod_name_len,
                asset_type_ptr,
                asset_type_len,
                asset_data_ptr,
                asset_data_len,
            ),
            old(state).spec_world(),
        ) {
            (Some(a), Some(w)) => {
                let id = defined_id(w.assets(), a);
                let k = if id.len() < asset_id_len { id.len() as int } else { asset_id_len as int };
                let m = old(mem).spec_data()->Some_0;
                &&& final(state).spec_world() is Some
                &&& final(state).spec_world()->Some_0.assets() == assets_after(w.assets(), a)
                &&& final(state).spec_world()->Some_0.entities() == w.entities()
                &&& final(state).spec_world()->Some_0.resources() == w.resources()
                &&& if in_bounds(m.len() as int, asset_id_ptr as int, k) && id.len() <= u32::MAX {
                    &&& r == id.len()
                    &&& r > 0
                    &&& final(mem).spec_data() == Some(spec_write(m, asset_id_ptr as int, id.take(k)))
                } else {
                    r == 0 && final(mem).spec_data() == old(mem).spec_data()
                }
            },
            _ => r == 0 && final(mem).spec_data() == old(mem).spec_data()
                && final(state).spec_world() == old(state).spec_world(),
        },
{
    if mod_name_ptr <= 0 || mod_name_len <= 0 || asset_type_ptr <= 0 || asset_type_len <= 0
        || asset_data_ptr <= 0 || asset_data_len <= 0 || asset_id_ptr <= 0 || asset_id_len <= 0 {
        return 0;
    }
    let name_bytes = match read_region(mem, mod_name_ptr, mod_name_len) {
        Some(b) => b,
        None => return 0,
    };
    let type_bytes = match read_region(mem, asset_type_ptr, asset_type_len) {
        Some(b) => b,
        None => return 0,
    };
    let data = match read_region(mem, asset_data_ptr, asset_data_len) {
        Some(b) => b,
        None => return 0,
    };
    let mod_name = match utf8_string(name_bytes) {
        Some(s) => s,
        None => return 0,
    };
    let asset_type = match utf8_string(type_bytes) {
        Some(s) => s,
        None => return 0,
    };
    let mut w = match state.take_world() {
        Some(w) => w,
        None => return 0,
    };
    let ghost a = (mod_name@, asset_type@, data@);
    let info = AssetInfo { mod_name, asset_type, asset_data: data };
    let id = w.define_asset(info);
    state.set_world(w);
    let k: usize = if id.len() < asset_id_len as usize {
        id.len()
    } else {
        asset_id_len as usize
    };
    if id.len() > 0xffff_ffff {
        return 0;
    }
    let mut out: Vec<u8> = Vec::new();
    let mut i: usize = 0;
    while i < k
        invariant
            k <= id@.len(),
            i <= k,
            out@ == id@.take(i as int),
        decreases k - i,
    {
        out.push(id[i]);
        i += 1;
        assert(out@ =~= id@.take(i as int));
    }
    assert(id@.len() >= 2) by {
        assert(id@ == asset_id(a, if asset_index(old(state).spec_world()->Some_0.assets(), a) is Some {
            asset_index(old(state).spec_world()->Some_0.assets(), a)->Some_0 as nat
        } else {
            old(state).spec_world()->Some_0.assets().len()
        }));
    }
    match mem.write_bytes(asset_id_ptr as usize, out.as_slice()) {
        Ok(()) => id.len() as u32,
        Err(_) => 0,
    }
}

} // verus!
