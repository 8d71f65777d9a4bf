use modruntime::loader::{
    read_mod_name, read_system_info, read_system_names, system_info_export_name_str, LoadPhase,
    LoaderAction, LoaderEvent, ModLoader, ReadError, SystemInfo, WasmModPlugin,
};
use modruntime::memory::GuestMemory;
use modruntime::system::ModSystemSchedule;

fn info(name: &str, schedule: u8) -> SystemInfo {
    let mut export_name = [0u8; 64];
    export_name[..name.len()].copy_from_slice(name.as_bytes());
    SystemInfo { export_name, schedule }
}

#[test]
fn export_name_stops_at_nul() {
    assert_eq!(system_info_export_name_str(&info("__mod_export_system_tick", 0)), "__mod_export_system_tick");
    let full = SystemInfo { export_name: [b'a'; 64], schedule: 1 };
    assert_eq!(system_info_export_name_str(&full), "a".repeat(64));
}

#[test]
fn export_name_with_all_64_bytes_ascii() {
    let mut export_name = [b'x'; 64];
    export_name[0] = b'_';
    let s = system_info_export_name_str(&SystemInfo { export_name, schedule: 0 });
    assert_eq!(s.len(), 64);
    assert_eq!(s.as_bytes(), &export_name[..]);
}

#[test]
fn system_info_from_memory() {
    let mut bytes = vec![0u8; 200];
    bytes[100..103].copy_from_slice(b"run");
    bytes[164] = 1;
    let mem = GuestMemory::new(bytes);
    let i = read_system_info(&mem, 100).unwrap();
    assert_eq!(system_info_export_name_str(&i), "run");
    assert_eq!(i.schedule(), ModSystemSchedule::Startup);
    assert!(read_system_info(&mem, 136).is_err());
}

#[test]
fn schedule_byte() {
    assert_eq!(ModSystemSchedule::from(0u8), ModSystemSchedule::Update);
    assert_eq!(ModSystemSchedule::from(1u8), ModSystemSchedule::Startup);
    assert_eq!(ModSystemSchedule::from(7u8), ModSystemSchedule::Update);
}

#[test]
fn mod_name_reads_to_nul() {
    let mut bytes = vec![0u8; 64];
    bytes[10..15].copy_from_slice(b"game1");
    let mem = GuestMemory::new(bytes);
    assert_eq!(read_mod_name(&mem, 10), Ok("game1".to_string()));
    assert_eq!(read_mod_name(&mem, 9), Ok(String::new()));
}

#[test]
fn mod_name_scan_is_bounded() {
    let mem = GuestMemory::new(vec![b'n'; 300]);
    assert_eq!(read_mod_name(&mem, 0), Ok("n".repeat(256)));
    let short = GuestMemory::new(vec![b'n'; 100]);
    assert_eq!(read_mod_name(&short, 0), Err(ReadError::Memory));
    let bad = GuestMemory::new(vec![0xff, 0]);
    assert_eq!(read_mod_name(&bad, 0), Err(ReadError::InvalidUtf8));
    assert_eq!(read_mod_name(&GuestMemory::absent(), 0), Err(ReadError::Memory));
}

#[test]
fn system_names_from_records() {
    let mut bytes = vec![0u8; 128];
    bytes[0..4].copy_from_slice(&64u32.to_le_bytes());
    bytes[4..8].copy_from_slice(&4u32.to_le_bytes());
    bytes[8..12].copy_from_slice(&0u32.to_le_bytes());
    bytes[12..16].copy_from_slice(&0u32.to_le_bytes());
    bytes[16..20].copy_from_slice(&70u32.to_le_bytes());
    bytes[20..24].copy_from_slice(&5u32.to_le_bytes());
    bytes[64..68].copy_from_slice(b"tick");
    bytes[70..75].copy_from_slice(b"setup");
    let mem = GuestMemory::new(bytes);
    assert_eq!(
        read_system_names(&mem, 0, 3),
        Ok(vec!["tick".to_string(), String::new(), "setup".to_string()])
    );
    assert_eq!(read_system_names(&GuestMemory::absent(), 0, 0), Ok(vec![]));
    assert_eq!(read_system_names(&mem, 120, 2), Err(ReadError::Memory));
    assert_eq!(read_system_names(&mem, 0, usize::MAX), Err(ReadError::TooLarge));
}

fn is_instantiate(a: &LoaderAction, i: usize) -> bool {
    matches!(a, LoaderAction::Instantiate(j) if *j == i)
}

#[test]
fn failing_module_does_not_stop_the_next() {
    let (mut l, a) = ModLoader::new(2);
    assert!(is_instantiate(&a, 0));
    let a = l.step(LoaderEvent::Instantiated(false));
    assert!(is_instantiate(&a, 1));
    let a = l.step(LoaderEvent::Instantiated(true));
    assert!(matches!(a, LoaderAction::ReadName));
    let a = l.step(LoaderEvent::NameRead(Some("good".to_string())));
    assert!(matches!(a, LoaderAction::ListSystems));
    let a = l.step(LoaderEvent::SystemsListed(Some(vec!["tick".to_string()])));
    assert!(matches!(&a, LoaderAction::ReadInfo(n) if n == "tick"));
    let a = l.step(LoaderEvent::InfoRead(Some(info("__mod_export_system_tick", 0))));
    assert!(matches!(&a, LoaderAction::Resolve(n) if n == "__mod_export_system_tick"));
    let a = l.step(LoaderEvent::Resolved(true));
    assert!(matches!(a, LoaderAction::Done));
    let (systems, loaded) = l.into_parts();
    assert_eq!(loaded, vec![(1usize, "good".to_string())]);
    assert_eq!(systems.len(), 1);
    let s = systems.get(0);
    assert_eq!(s.mod_index, 1);
    assert_eq!(s.mod_name, "good");
    assert_eq!(s.system_name, "tick");
    assert_eq!(s.export_name, "__mod_export_system_tick");
    assert_eq!(s.schedule, ModSystemSchedule::Update);
}

#[test]
fn unlisted_systems_skip_the_module_and_bad_systems_are_skipped() {
    let (mut l, _) = ModLoader::new(2);
    l.step(LoaderEvent::Instantiated(true));
    l.step(LoaderEvent::NameRead(None));
    let a = l.step(LoaderEvent::SystemsListed(None));
    assert!(is_instantiate(&a, 1));
    l.step(LoaderEvent::Instantiated(true));
    l.step(LoaderEvent::NameRead(None));
    l.step(LoaderEvent::SystemsListed(Some(vec!["a".to_string(), "b".to_string(), "c".to_string()])));
    let a = l.step(LoaderEvent::InfoRead(None));
    assert!(matches!(&a, LoaderAction::ReadInfo(n) if n == "b"));
    l.step(LoaderEvent::InfoRead(Some(info("eb", 1))));
    let a = l.step(LoaderEvent::Resolved(false));
    assert!(matches!(&a, LoaderAction::ReadInfo(n) if n == "c"));
    l.step(LoaderEvent::InfoRead(Some(info("ec", 1))));
    let a = l.step(LoaderEvent::Resolved(true));
    assert!(matches!(a, LoaderAction::Done));
    let (systems, loaded) = l.into_parts();
    assert_eq!(loaded, vec![(1usize, "unnamed_mod".to_string())]);
    assert_eq!(systems.len(), 1);
    assert_eq!(systems.get(0).system_name, "c");
    assert_eq!(systems.get(0).schedule, ModSystemSchedule::Startup);
}

#[test]
fn out_of_place_events_change_nothing() {
    let (mut l, _) = ModLoader::new(1);
    let a = l.step(LoaderEvent::Resolved(true));
    assert!(is_instantiate(&a, 0));
    l.step(LoaderEvent::Instantiated(true));
    let a = l.step(LoaderEvent::Instantiated(true));
    assert!(matches!(a, LoaderAction::ReadName));
}

#[test]
fn empty_module_list_is_done_at_once() {
    let (l, a) = ModLoader::new(0);
    assert!(matches!(a, LoaderAction::Done));
    let (systems, loaded) = l.into_parts();
    assert_eq!(systems.len(), 0);
    assert!(loaded.is_empty());
    let _ = LoadPhase::Finished;
}

#[test]
fn module_list_builder() {
    let p = WasmModPlugin::default().add_mod_path("a.wasm".to_string()).add_mod_path("b.wasm".to_string());
    assert_eq!(p.mod_paths, vec!["a.wasm".to_string(), "b.wasm".to_string()]);
    let p = p.set_mod_paths(vec!["c.wasm".to_string()]);
    assert_eq!(p.mod_paths, vec!["c.wasm".to_string()]);
    assert!(WasmModPlugin::new().mod_paths.is_empty());
}
