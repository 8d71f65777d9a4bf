use modruntime::system::{ModSystemInfo, ModSystemSchedule, ModSystems, PhaseRun};

fn sys(name: &str, schedule: ModSystemSchedule) -> ModSystemInfo {
    ModSystemInfo {
        mod_index: 0,
        mod_name: "m".to_string(),
        system_name: name.to_string(),
        export_name: format!("__mod_export_system_{}", name),
        schedule,
    }
}

fn systems() -> ModSystems {
    let mut s = ModSystems::new();
    s.push(sys("u0", ModSystemSchedule::Update));
    s.push(sys("s1", ModSystemSchedule::Startup));
    s.push(sys("u2", ModSystemSchedule::Update));
    s.push(sys("s3", ModSystemSchedule::Startup));
    s
}

#[test]
fn startup_systems_run_exactly_once() {
    let mut s = systems();
    assert_eq!(s.startup_plan(), vec![1, 3]);
    assert_eq!(s.startup_plan(), Vec::<usize>::new());
    assert_eq!(s.startup_plan(), Vec::<usize>::new());
}

#[test]
fn update_systems_run_every_tick_in_discovery_order() {
    let mut s = systems();
    s.startup_plan();
    for _tick in 0..3 {
        assert_eq!(s.update_plan(), vec![0, 2]);
    }
}

#[test]
fn a_trap_does_not_stop_the_phase_or_the_next_tick() {
    let s = systems();
    let mut run = PhaseRun::new(s.update_plan());
    let mut invoked = Vec::new();
    while let Some(i) = run.next() {
        invoked.push(i);
        run.report(i != 0);
    }
    assert_eq!(invoked, vec![0, 2]);
    assert_eq!(run.failed(), &vec![0]);
    let mut next_tick = PhaseRun::new(s.update_plan());
    let mut invoked = Vec::new();
    while let Some(i) = next_tick.next() {
        invoked.push(i);
        next_tick.report(true);
    }
    assert_eq!(invoked, vec![0, 2]);
    assert!(next_tick.failed().is_empty());
}
