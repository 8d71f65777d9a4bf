//! Module systems and the phase scheduler that runs them.

use vstd::prelude::*;

verus! {

/// The phase at which a module system runs.
#[derive(Debug, Clone, Copy, PartialEq, Eq, Structural)]
pub enum ModSystemSchedule {
    /// Once, after every module is loaded and the store is wired.
    Startup,
    /// Once per host tick, after the host's own update.
    Update,
}

/// The phase that a schedule byte names: 1 is startup, anything else update.
pub open spec fn schedule_of(b: u8) -> ModSystemSchedule {
    if b == 1 {
        ModSystemSchedule::Startup
    } else {
        ModSystemSchedule::Update
    }
}

impl From<u8> for ModSystemSchedule {
    fn from(schedule: u8) -> (r: ModSystemSchedule)
        ensures
            r == schedule_of(schedule),
    {
        match schedule {
            1 => ModSystemSchedule::Startup,
            _ => ModSystemSchedule::Update,
        }
    }
}

impl vstd::std_specs::convert::FromSpecImpl<u8> for ModSystemSchedule {
    open spec fn obeys_from_spec() -> bool {
        true
    }

    open spec fn from_spec(v: u8) -> ModSystemSchedule {
        schedule_of(v)
    }
}


/// A system discovered in a module: where it comes from, the export that runs
/// it, and its phase.
pub struct ModSystemInfo {
    pub mod_index: usize,
    pub mod_name: String,
    pub system_name: String,
    pub export_name: String,
    pub schedule: ModSystemSchedule,
}

/// A system as (module position, module name, system name, export name,
/// phase).
pub open spec fn system_view(i: ModSystemInfo) -> (usize, Seq<char>, Seq<char>, Seq<char>, ModSystemSchedule) {
    (i.mod_index, i.mod_name@, i.system_name@, i.export_name@, i.schedule)
}

/// The positions in `s` whose phase is `p`, in increasing order.
pub open spec fn phase_indices(s: Seq<ModSystemSchedule>, p: ModSystemSchedule) -> Seq<int>
    decreases s.len(),
{
    if s.len() == 0 {
        seq![]
    } else {
        let prev = phase_indices(s.drop_last(), p);
        if s.last() == p {
            prev.push(s.len() - 1)
        } else {
            prev
        }
    }
}

/// A phase's run order names each system of that phase exactly once, and in
/// the order in which the systems were discovered.
pub proof fn lemma_phase_order(s: Seq<ModSystemSchedule>, p: ModSystemSchedule)
    ensures
        forall|j: int, k: int|
            0 <= j < k < phase_indices(s, p).len() ==> phase_indices(s, p)[j] < phase_indices(
                s,
                p,
            )[k],
        forall|j: int|
            0 <= j < phase_indices(s, p).len() ==> 0 <= #[trigger] phase_indices(s, p)[j] < s.len()
                && s[phase_indices(s, p)[j]] == p,
        forall|i: int|
            0 <= i < s.len() && s[i] == p ==> exists|j: int|
                0 <= j < phase_indices(s, p).len() && #[trigger] phase_indices(s, p)[j] == i,
    decreases s.len(),
{
    if s.len() > 0 {
        let t = s.drop_last();
        lemma_phase_order(t, p);
        let prev = phase_indices(t, p);
        assert forall|j: int| 0 <= j < prev.len() implies 0 <= #[trigger] prev[j] < s.len() && s[prev[j]] == p by {
            assert(t[prev[j]] == s[prev[j]]);
        }
        assert forall|i: int| 0 <= i < s.len() && s[i] == p implies exists|j: int|
            0 <= j < phase_indices(s, p).len() && #[trigger] phase_indices(s, p)[j] == i by {
            if i < s.len() - 1 {
                assert(t[i] == s[i]);
                let j = choose|j: int| 0 <= j < prev.len() && #[trigger] prev[j] == i;
                assert(phase_indices(s, p)[j] == i);
            } else {
                assert(phase_indices(s, p)[prev.len() as int] == i);
            }
        }
    }
}

/// The systems of every module, in discovery order, and whether the startup
/// phase has run.
pub struct ModSystems {
    systems: Vec<ModSystemInfo>,
    startup_done: bool,
}

impl ModSystems {
    /// The phase of each system, in discovery order.
    pub closed spec fn schedules(&self) -> Seq<ModSystemSchedule> {
        self.systems@.map_values(|i: ModSystemInfo| i.schedule)
    }

    /// The systems, in discovery order.
    pub closed spec fn spec_systems(&self) -> Seq<ModSystemInfo> {
        self.systems@
    }

    /// The systems as views, in discovery order.
    pub open spec fn views(&self) -> Seq<(usize, Seq<char>, Seq<char>, Seq<char>, ModSystemSchedule)> {
        self.spec_systems().map_values(|i: ModSystemInfo| system_view(i))
    }

    /// Whether the startup phase has run.
    pub closed spec fn spec_startup_done(&self) -> bool {
        self.startup_done
    }

    /// No systems; startup not yet run.
    pub fn new() -> (r: ModSystems)
        ensures
            r.spec_systems().len() == 0,
            !r.spec_startup_done(),
    {
        ModSystems { systems: Vec::new(), startup_done: false }
    }

    /// Records a newly discovered system.
    pub fn push(&mut self, info: ModSystemInfo)
        ensures
            final(self).spec_systems() == old(self).spec_systems().push(info),
            final(self).spec_startup_done() == old(self).spec_startup_done(),
    {
        self.systems.push(info);
    }

    /// The number of systems.
    pub fn len(&self) -> (r: usize)
        ensures
            r == self.spec_systems().len(),
    {
        self.systems.len()
    }

    /// The system at position `i`.
    pub fn get(&self, i: usize) -> (r: &ModSystemInfo)
        requires
            i < self.spec_systems().len(),
        ensures
            *r == self.spec_systems()[i as int],
    {
        &self.systems[i]
    }

    fn phase_plan(&self, p: ModSystemSchedule) -> (r: Vec<usize>)
        ensures
            r@.map_values(|i: usize| i as int) == phase_indices(self.schedules(), p),
    {
        let ghost s = self.schedules();
        let mut out: Vec<usize> = Vec::new();
        let mut i: usize = 0;
        while i < self.systems.len()
            invariant
                s == self.schedules(),
                s.len() == self.systems@.len(),
                i <= s.len(),
                out@.map_values(|i: usize| i as int) == phase_indices(s.take(i as int), p),
            decreases self.systems.len() - i,
        {
            assert(s.take(i + 1).drop_last() =~= s.take(i as int));
            assert(s[i as int] == self.systems@[i as int].schedule);
            let ghost prev = out@;
            if self.systems[i].schedule == p {
                out.push(i);
                assert(out@.map_values(|i: usize| i as int) =~= prev.map_values(|i: usize| i as int).push(i as int));
            }
            i += 1;
        }
        assert(s.take(s.len() as int) =~= s);
        out
    }

    /// The systems to run in the startup phase, in discovery order: every
    /// startup system the first time, none ever after.
    pub fn startup_plan(&mut self) -> (r: Vec<usize>)
        ensures
            final(self).spec_systems() == old(self).spec_systems(),
            final(self).spec_startup_done(),
            old(self).spec_startup_done() ==> r@.len() == 0,
            !old(self).spec_startup_done() ==> r@.map_values(|i: usize| i as int) == phase_indices(
                old(self).schedules(),
                ModSystemSchedule::Startup,
            ),
    {
        if self.startup_done {
            return Vec::new();
        }
        let r = self.phase_plan(ModSystemSchedule::Startup);
        self.startup_done = true;
        r
    }

    /// The systems to run in this tick's update phase, in discovery order:
    /// every update system, whatever happened in earlier ticks.
    pub fn update_plan(&self) -> (r: Vec<usize>)
        ensures
            r@.map_values(|i: usize| i as int) == phase_indices(self.schedules(), ModSystemSchedule::Update),
    {
        self.phase_plan(ModSystemSchedule::Update)
    }
}


/// One run of a phase: the systems of its plan are invoked one after another,
/// each exactly once, whether or not the ones before it failed.
pub struct PhaseRun {
    plan: Vec<usize>,
    pos: usize,
    failed: Vec<usize>,
}

impl PhaseRun {
    /// The systems of the phase, in the order they are invoked.
    pub closed spec fn plan(&self) -> Seq<usize> {
        self.plan@
    }

    /// How many of them have been invoked.
    pub closed spec fn pos(&self) -> int {
        self.pos as int
    }

    /// The systems that failed, in order.
    pub closed spec fn failures(&self) -> Seq<usize> {
        self.failed@
    }

    /// A run of `plan` in which nothing has been invoked yet.
    pub fn new(plan: Vec<usize>) -> (r: PhaseRun)
        ensures
            r.plan() == plan@,
            r.pos() == 0,
            r.failures().len() == 0,
    {
        PhaseRun { plan, pos: 0, failed: Vec::new() }
    }

    /// The system to invoke now, or `None` when the run is over.
    pub fn next(&self) -> (r: Option<usize>)
        requires
            0 <= self.pos() <= self.plan().len(),
        ensures
            self.pos() < self.plan().len() ==> r == Some(self.plan()[self.pos()]),
            self.pos() == self.plan().len() ==> r is None,
    {
        if self.pos < self.plan.len() {
            Some(self.plan[self.pos])
        } else {
            None
        }
    }

    /// Records how the current system's invocation ended and moves on to
    /// the next system either way.
    pub fn report(&mut self, ok: bool)
        requires
            0 <= old(self).pos() < old(self).plan().len(),
        ensures
            final(self).plan() == old(self).plan(),
            final(self).pos() == old(self).pos() + 1,
            final(self).failures() == if ok {
                old(self).failures()
            } else {
                old(self).failures().push(old(self).plan()[old(self).pos()])
            },
    {
        let n = self.plan.len();
        if !ok {
            self.failed.push(self.plan[self.pos]);
        }
        assert(self.pos < n);
        self.pos = self.pos + 1;
    }

    /// The systems that failed, in order.
    pub fn failed(&self) -> (r: &Vec<usize>)
        ensures
            r@ == self.failures(),
    {
        &self.failed
    }
}

} // verus!
