use modruntime::codec::{decode_rows, encode_id, encode_ids, encode_spawn_payload};
use modruntime::host::{
    host_handle_define_asset, host_handle_free_memory, host_handle_log,
    host_handle_query_components, host_handle_query_resources, host_handle_spawn_entities,
    FreeOutcome, HostModResult, LogLevel, ModState, Registries, STAGING_OFFSET,
};
use modruntime::memory::GuestMemory;
use modruntime::store::StateStore;

const A: u64 = 10;
const B: u64 = 20;
const RES: u64 = 30;

fn registries() -> Registries {
    let mut r = Registries::new();
    r.components.register("A".to_string(), A).unwrap();
    r.components.register("B".to_string(), B).unwrap();
    r.resources.register("Clock".to_string(), RES).unwrap();
    r
}

fn joined_world() -> StateStore {
    let mut w = StateStore::new();
    let e1 = w.spawn_empty();
    w.insert_component(e1, A, vec![1]);
    w.insert_component(e1, B, vec![2]);
    let e2 = w.spawn_empty();
    w.insert_component(e2, A, vec![3]);
    let e3 = w.spawn_empty();
    w.insert_component(e3, B, vec![4]);
    w
}

fn wired(w: StateStore) -> ModState {
    let mut s = ModState::new();
    s.set_world(w);
    s
}

fn memory_with(at: usize, payload: &[u8]) -> GuestMemory {
    let mut bytes = vec![0u8; STAGING_OFFSET + 4096];
    bytes[at..at + payload.len()].copy_from_slice(payload);
    GuestMemory::new(bytes)
}

fn result_at(mem: &GuestMemory, at: usize) -> HostModResult {
    HostModResult::from_bytes(&mem.bytes().unwrap()[at..at + 8])
}

fn staged(mem: &GuestMemory, len: usize) -> Vec<u8> {
    mem.bytes().unwrap()[STAGING_OFFSET..STAGING_OFFSET + len].to_vec()
}

#[test]
fn empty_query_returns_zero() {
    let regs = registries();
    let state = wired(joined_world());
    let payload = encode_ids(&vec![]);
    let mut mem = memory_with(64, &payload);
    let before = mem.bytes().unwrap().clone();
    let n = host_handle_query_components(&regs, &state, &mut mem, 64, payload.len() as i32, 16);
    assert_eq!(n, 0);
    assert_eq!(mem.bytes().unwrap(), &before);
}

#[test]
fn query_is_an_inner_join() {
    let regs = registries();
    let state = wired(joined_world());
    let payload = encode_ids(&vec!["A".to_string(), "B".to_string()]);
    let mut mem = memory_with(64, &payload);
    let n = host_handle_query_components(&regs, &state, &mut mem, 64, payload.len() as i32, 16);
    assert!(n > 0);
    let rec = result_at(&mem, 16);
    assert_eq!(rec.data_ptr as usize, STAGING_OFFSET);
    assert_eq!(rec.data_len as i32, n);
    let rows = decode_rows(&staged(&mem, n as usize)).unwrap();
    assert_eq!(rows, vec![vec![vec![1u8], vec![2u8]]]);
}

#[test]
fn query_rows_follow_request_order() {
    let regs = registries();
    let state = wired(joined_world());
    let payload = encode_ids(&vec!["B".to_string(), "A".to_string()]);
    let mut mem = memory_with(64, &payload);
    let n = host_handle_query_components(&regs, &state, &mut mem, 64, payload.len() as i32, 16);
    let rows = decode_rows(&staged(&mem, n as usize)).unwrap();
    assert_eq!(rows, vec![vec![vec![2u8], vec![1u8]]]);
}

#[test]
fn query_single_kind_lists_every_carrier() {
    let regs = registries();
    let state = wired(joined_world());
    let payload = encode_ids(&vec!["A".to_string()]);
    let mut mem = memory_with(64, &payload);
    let n = host_handle_query_components(&regs, &state, &mut mem, 64, payload.len() as i32, 16);
    let rows = decode_rows(&staged(&mem, n as usize)).unwrap();
    assert_eq!(rows, vec![vec![vec![1u8]], vec![vec![3u8]]]);
}

#[test]
fn query_with_unknown_id_returns_zero() {
    let regs = registries();
    let state = wired(joined_world());
    let payload = encode_ids(&vec!["A".to_string(), "Nope".to_string()]);
    let mut mem = memory_with(64, &payload);
    assert_eq!(host_handle_query_components(&regs, &state, &mut mem, 64, payload.len() as i32, 16), 0);
}

#[test]
fn query_without_matches_returns_zero() {
    let regs = registries();
    let state = wired(StateStore::new());
    let payload = encode_ids(&vec!["A".to_string()]);
    let mut mem = memory_with(64, &payload);
    assert_eq!(host_handle_query_components(&regs, &state, &mut mem, 64, payload.len() as i32, 16), 0);
}

#[test]
fn query_without_wired_state_returns_zero() {
    let regs = registries();
    let state = ModState::new();
    let payload = encode_ids(&vec!["A".to_string()]);
    let mut mem = memory_with(64, &payload);
    assert_eq!(host_handle_query_components(&regs, &state, &mut mem, 64, payload.len() as i32, 16), 0);
}

#[test]
fn query_out_of_bounds_returns_zero() {
    let regs = registries();
    let state = wired(joined_world());
    let mut mem = GuestMemory::new(vec![0u8; 128]);
    assert_eq!(host_handle_query_components(&regs, &state, &mut mem, 120, 64, 16), 0);
    assert_eq!(host_handle_query_components(&regs, &state, &mut mem, -4, 4, 16), 0);
    let mut none = GuestMemory::absent();
    assert_eq!(host_handle_query_components(&regs, &state, &mut none, 0, 0, 16), 0);
}

#[test]
fn query_with_result_record_outside_memory_changes_nothing() {
    let regs = registries();
    let state = wired(joined_world());
    let payload = encode_ids(&vec!["A".to_string()]);
    let mut mem = memory_with(64, &payload);
    let before = mem.bytes().unwrap().clone();
    let size = before.len() as i32;
    assert_eq!(host_handle_query_components(&regs, &state, &mut mem, 64, payload.len() as i32, size - 4), 0);
    assert_eq!(mem.bytes().unwrap(), &before);
}

#[test]
fn resource_query_stages_the_value() {
    let regs = registries();
    let mut w = StateStore::new();
    w.insert_resource(RES, vec![5, 6, 7]);
    let state = wired(w);
    let payload = encode_id(&"Clock".to_string());
    let mut mem = memory_with(64, &payload);
    let n = host_handle_query_resources(&regs, &state, &mut mem, 64, payload.len() as i32, 16);
    assert_eq!(n, 3);
    assert_eq!(staged(&mem, 3), vec![5, 6, 7]);
    assert_eq!(result_at(&mem, 16), HostModResult::new(STAGING_OFFSET as u32, 3));
}

#[test]
fn resource_query_absent_or_unknown_returns_zero() {
    let regs = registries();
    let state = wired(StateStore::new());
    let payload = encode_id(&"Clock".to_string());
    let mut mem = memory_with(64, &payload);
    assert_eq!(host_handle_query_resources(&regs, &state, &mut mem, 64, payload.len() as i32, 16), 0);
    let payload = encode_id(&"Weather".to_string());
    let mut mem = memory_with(64, &payload);
    assert_eq!(host_handle_query_resources(&regs, &state, &mut mem, 64, payload.len() as i32, 16), 0);
}

#[test]
fn spawn_skips_unknown_ids_and_creates_one_entity() {
    let regs = registries();
    let mut state = wired(StateStore::new());
    let pairs = vec![
        ("A".to_string(), vec![1u8]),
        ("UNKNOWN".to_string(), vec![9u8]),
        ("B".to_string(), vec![2u8]),
    ];
    let payload = encode_spawn_payload(&pairs);
    let mem = memory_with(64, &payload);
    let report = host_handle_spawn_entities(&regs, &mut state, &mem, 64, payload.len() as i32).unwrap();
    assert_eq!(report.entity, 0);
    assert_eq!(report.unknown_ids, vec!["UNKNOWN".to_string()]);
    assert!(report.invalid_ids.is_empty());
    let w = state.take_world().unwrap();
    assert_eq!(w.entity_count(), 1);
    assert_eq!(w.get_component(0, A), Some(&vec![1u8]));
    assert_eq!(w.get_component(0, B), Some(&vec![2u8]));
}

#[test]
fn spawn_with_only_unknown_ids_still_creates_the_entity() {
    let regs = registries();
    let mut state = wired(StateStore::new());
    let payload = encode_spawn_payload(&vec![("X".to_string(), vec![1u8])]);
    let mem = memory_with(64, &payload);
    let r = host_handle_spawn_entities(&regs, &mut state, &mem, 64, payload.len() as i32);
    assert!(r.is_some());
    assert_eq!(state.get_world().unwrap().entity_count(), 1);
}

#[test]
fn spawn_skips_an_id_that_is_not_utf8() {
    let regs = registries();
    let mut state = wired(StateStore::new());
    let payload = vec![3, 1, b'A', 1, 1, 1, 0xff, 1, 9, 1, b'B', 1, 2];
    let mem = memory_with(64, &payload);
    let report = host_handle_spawn_entities(&regs, &mut state, &mem, 64, payload.len() as i32).unwrap();
    assert_eq!(report.entity, 0);
    assert_eq!(report.invalid_ids, vec![1usize]);
    assert!(report.unknown_ids.is_empty());
    let w = state.take_world().unwrap();
    assert_eq!(w.entity_count(), 1);
    assert_eq!(w.get_component(0, A), Some(&vec![1u8]));
    assert_eq!(w.get_component(0, B), Some(&vec![2u8]));
}

#[test]
fn resource_with_empty_value_stages_nothing() {
    let regs = registries();
    let mut w = StateStore::new();
    w.insert_resource(RES, vec![]);
    assert_eq!(modruntime::host::query_resource_from_world(&regs.resources, &w, &"Clock".to_string()), Some(vec![]));
    let state = wired(w);
    let payload = encode_id(&"Clock".to_string());
    let mut mem = memory_with(64, &payload);
    let before = mem.bytes().unwrap().clone();
    assert_eq!(host_handle_query_resources(&regs, &state, &mut mem, 64, payload.len() as i32, 16), 0);
    assert_eq!(mem.bytes().unwrap(), &before);
}

#[test]
fn spawn_with_bad_payload_creates_nothing() {
    let regs = registries();
    let mut state = wired(StateStore::new());
    let mem = memory_with(64, &[3, 1]);
    assert!(host_handle_spawn_entities(&regs, &mut state, &mem, 64, 2).is_none());
    assert_eq!(state.get_world().unwrap().entity_count(), 0);
    let mut unwired = ModState::new();
    assert!(host_handle_spawn_entities(&regs, &mut unwired, &mem, 64, 2).is_none());
}

#[test]
fn free_memory_zeroes_the_staging_region() {
    let mut bytes = vec![7u8; STAGING_OFFSET + 16];
    bytes[0] = 1;
    let mut mem = GuestMemory::new(bytes);
    assert_eq!(host_handle_free_memory(&mut mem, STAGING_OFFSET as i32, 8), FreeOutcome::Cleared);
    let b = mem.bytes().unwrap();
    assert_eq!(&b[STAGING_OFFSET..STAGING_OFFSET + 8], &[0u8; 8]);
    assert_eq!(b[STAGING_OFFSET + 8], 7);
}

#[test]
fn free_memory_refuses_other_requests() {
    let mut mem = GuestMemory::new(vec![7u8; STAGING_OFFSET + 16]);
    assert_eq!(host_handle_free_memory(&mut mem, 0, 8), FreeOutcome::InvalidParameters);
    assert_eq!(host_handle_free_memory(&mut mem, STAGING_OFFSET as i32, 0), FreeOutcome::InvalidParameters);
    assert_eq!(host_handle_free_memory(&mut mem, 64, 8), FreeOutcome::UnexpectedLocation);
    assert_eq!(host_handle_free_memory(&mut mem, STAGING_OFFSET as i32, 64), FreeOutcome::Failed);
    assert!(mem.bytes().unwrap().iter().all(|&b| b == 7));
}

fn asset_memory() -> GuestMemory {
    let mut bytes = vec![0u8; 512];
    bytes[16..18].copy_from_slice(b"m1");
    bytes[32..37].copy_from_slice(b"image");
    bytes[64..68].copy_from_slice(&[1, 2, 3, 4]);
    GuestMemory::new(bytes)
}

#[test]
fn define_asset_returns_an_id() {
    let mut state = wired(StateStore::new());
    let mut mem = asset_memory();
    let n = host_handle_define_asset(&mut state, &mut mem, 16, 2, 32, 5, 64, 4, 128, 64);
    assert_eq!(n, 10);
    assert_eq!(&mem.bytes().unwrap()[128..138], b"m1/image/0");
    let again = host_handle_define_asset(&mut state, &mut mem, 16, 2, 32, 5, 64, 4, 200, 64);
    assert_eq!(again, 10);
    assert_eq!(&mem.bytes().unwrap()[200..210], b"m1/image/0");
    let other = host_handle_define_asset(&mut state, &mut mem, 16, 2, 32, 5, 64, 3, 300, 64);
    assert_eq!(other, 10);
    assert_eq!(&mem.bytes().unwrap()[300..310], b"m1/image/1");
}

#[test]
fn define_asset_truncates_the_written_id() {
    let mut state = wired(StateStore::new());
    let mut mem = asset_memory();
    let n = host_handle_define_asset(&mut state, &mut mem, 16, 2, 32, 5, 64, 4, 128, 4);
    assert_eq!(n, 10);
    assert_eq!(&mem.bytes().unwrap()[128..133], b"m1/i\0");
}

#[test]
fn define_asset_rejects_non_positive_arguments() {
    let mut state = wired(StateStore::new());
    let mut mem = asset_memory();
    assert_eq!(host_handle_define_asset(&mut state, &mut mem, 16, 0, 32, 5, 64, 4, 128, 64), 0);
    assert_eq!(host_handle_define_asset(&mut state, &mut mem, 16, 2, 32, 5, 0, 4, 128, 64), 0);
    assert_eq!(host_handle_define_asset(&mut state, &mut mem, 16, 2, 32, 5, 64, 4, 128, -1), 0);
    assert!(mem.bytes().unwrap()[128..200].iter().all(|&b| b == 0));
}

#[test]
fn define_asset_without_wired_state_returns_zero() {
    let mut state = ModState::new();
    let mut mem = asset_memory();
    assert_eq!(host_handle_define_asset(&mut state, &mut mem, 16, 2, 32, 5, 64, 4, 128, 64), 0);
}

#[test]
fn log_levels_and_text() {
    let mut bytes = vec![0u8; 64];
    bytes[8..13].copy_from_slice(b"hello");
    let mem = GuestMemory::new(bytes);
    let rec = host_handle_log(&mem, 8, 5, 2).unwrap();
    assert_eq!(rec.level, LogLevel::Warn);
    assert_eq!(rec.text, "hello");
    assert_eq!(host_handle_log(&mem, 8, 5, 0).unwrap().level, LogLevel::Debug);
    assert_eq!(host_handle_log(&mem, 8, 5, 1).unwrap().level, LogLevel::Info);
    assert_eq!(host_handle_log(&mem, 8, 5, 3).unwrap().level, LogLevel::Error);
    assert_eq!(host_handle_log(&mem, 8, 5, 9).unwrap().level, LogLevel::Info);
    assert!(host_handle_log(&mem, 60, 5, 1).is_none());
}

#[test]
fn result_record_layout() {
    let r = HostModResult::new(0x100000, 0x0102);
    assert_eq!(r.to_bytes(), vec![0, 0, 0x10, 0, 2, 1, 0, 0]);
    assert_eq!(HostModResult::from_bytes(&r.to_bytes()), r);
    assert!(HostModResult::new(0, 5).is_absent());
    assert!(!r.is_absent());
}
