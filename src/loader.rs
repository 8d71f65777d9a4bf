//! Reading what a module declares about itself, and the decisions of loading
//! a list of modules.

use vstd::prelude::*;
use vstd::utf8::*;
use crate::codec::{le_bytes, le_value, lemma_le_round_trip, lossy_utf8, utf8_lossy, utf8_string, pow256};
use crate::host::read_le_u32;
use crate::memory::{GuestMemory, MemoryError, in_bounds, spec_read};
use crate::system::{ModSystemInfo, ModSystemSchedule, ModSystems, schedule_of, system_view};

verus! {

/// The size of a system info record: a 64-byte export name, then a schedule
/// byte.
pub const SYSTEM_INFO_SIZE: usize = 65;

/// How many bytes of a module name are scanned at most.
pub const NAME_SCAN_LIMIT: usize = 256;

/// A module's description of one of its systems.
#[derive(Debug)]
pub struct SystemInfo {
    /// The export that runs the system, NUL-padded.
    pub export_name: [u8; 64],
    /// 1 for startup; anything else for update.
    pub schedule: u8,
}

/// Whether position `i` holds the first NUL byte of `s`.
pub open spec fn is_first_nul(s: Seq<u8>, i: int) -> bool {
    0 <= i < s.len() && s[i] == 0 && forall|j: int| 0 <= j < i ==> #[trigger] s[j] != 0
}

/// The length of `s` up to its first NUL byte, or all of it without one.
pub open spec fn nul_prefix_len(s: Seq<u8>) -> int {
    if exists|i: int| is_first_nul(s, i) {
        choose|i: int| is_first_nul(s, i)
    } else {
        s.len() as int
    }
}

proof fn lemma_first_nul_unique(s: Seq<u8>, i: int)
    requires
        is_first_nul(s, i),
    ensures
        nul_prefix_len(s) == i,
{
    let k = choose|k: int| is_first_nul(s, k);
    if k < i {
        assert(s[k] != 0);
    } else if i < k {
        assert(s[i] != 0);
    }
}

proof fn lemma_no_nul(s: Seq<u8>)
    requires
        forall|j: int| 0 <= j < s.len() ==> #[trigger] s[j] != 0,
    ensures
        nul_prefix_len(s) == s.len(),
{
    if exists|i: int| is_first_nul(s, i) {
        let i = choose|i: int| is_first_nul(s, i);
        assert(s[i] != 0);
    }
}

/// Finds the first NUL byte of `s`, or its length without one.
fn find_nul(s: &[u8]) -> (r: usize)
    ensures
        r == nul_prefix_len(s@),
        r <= s@.len(),
{
    let mut i: usize = 0;
    while i < s.len()
        invariant
            i <= s@.len(),
            forall|j: int| 0 <= j < i ==> #[trigger] s@[j] != 0,
        decreases s.len() - i,
    {
        if s[i] == 0 {
            proof {
                lemma_first_nul_unique(s@, i as int);
            }
            return i;
        }
        i += 1;
    }
    proof {
        lemma_no_nul(s@);
    }
    i
}

impl SystemInfo {
    /// Reads a record from its bytes.
    pub fn from_bytes(b: &[u8]) -> (r: SystemInfo)
        requires
            b@.len() == SYSTEM_INFO_SIZE,
        ensures
            r.export_name@ == b@.take(64),
            r.schedule == b@[64],
    {
        let mut name: [u8; 64] = [0u8; 64];
        let mut i: usize = 0;
        while i < 64
            invariant
                b@.len() == SYSTEM_INFO_SIZE,
                i <= 64,
                name@.len() == 64,
                forall|j: int| 0 <= j < i ==> #[trigger] name@[j] == b@[j],
            decreases 64 - i,
        {
            name[i] = b[i];
            i += 1;
        }
        assert(name@ =~= b@.take(64));
        SystemInfo { export_name: name, schedule: b[64] }
    }

    /// The phase that the record names.
    pub fn schedule(&self) -> (r: ModSystemSchedule)
        ensures
            r == schedule_of(self.schedule),
    {
        ModSystemSchedule::from(self.schedule)
    }
}

/// The export name of a record: its bytes up to the first NUL, decoded
/// leniently.
pub fn system_info_export_name_str(system_info: &SystemInfo) -> (r: String)
    ensures
        r@ == lossy_utf8(system_info.export_name@.take(nul_prefix_len(system_info.export_name@))),
        valid_utf8(system_info.export_name@.take(nul_prefix_len(system_info.export_name@))) ==> r@
            == decode_utf8(system_info.export_name@.take(nul_prefix_len(system_info.export_name@))),
{
    let s = system_info.export_name.as_slice();
    let n = find_nul(s);
    let mut prefix: Vec<u8> = Vec::new();
    let mut i: usize = 0;
    while i < n
        invariant
            n <= s@.len(),
            i <= n,
            prefix@ == s@.take(i as int),
        decreases n - i,
    {
        prefix.push(s[i]);
        i += 1;
        assert(prefix@ =~= s@.take(i as int));
    }
    utf8_lossy(prefix.as_slice())
}

/// Reads the system info record at `ptr`.
pub fn read_system_info(mem: &GuestMemory, ptr: usize) -> (r: Result<SystemInfo, MemoryError>)
    ensures
        match mem.spec_data() {
            None => r == Err::<SystemInfo, MemoryError>(MemoryError::NoMemoryExport),
            Some(m) => if in_bounds(m.len() as int, ptr as int, SYSTEM_INFO_SIZE as int) {
                r is Ok && r->Ok_0.export_name@ == spec_read(m, ptr as int, 64) && r->Ok_0.schedule
                    == m[ptr + 64]
            } else {
                r == Err::<SystemInfo, MemoryError>(MemoryError::OutOfBounds)
            },
        },
{
    let b = mem.read_bytes(ptr, SYSTEM_INFO_SIZE)?;
    let info = SystemInfo::from_bytes(b.as_slice());
    proof {
        let m = mem.spec_data()->Some_0;
        assert(b@.take(64) =~= spec_read(m, ptr as int, 64));
    }
    Ok(info)
}


/// Why a module's declarations could not be read.
#[derive(Debug, Clone, Copy, PartialEq, Eq, Structural)]
pub enum ReadError {
    /// A read left the module's memory, or there is none.
    Memory,
    /// A name is not valid UTF-8.
    InvalidUtf8,
    /// The table of names is too large to address.
    TooLarge,
}

/// The bytes of a module name at `ptr` of `m`: up to the first NUL among the
/// first `NAME_SCAN_LIMIT` bytes, every byte read (the one that stops the scan
/// included) lying inside the memory.
pub open spec fn spec_mod_name_bytes(m: Seq<u8>, ptr: int) -> Option<Seq<u8>> {
    if 0 <= ptr <= m.len() {
        let w = m.subrange(ptr, m.len() as int);
        let t = w.take(if w.len() < NAME_SCAN_LIMIT { w.len() as int } else { NAME_SCAN_LIMIT as int });
        let n = nul_prefix_len(t);
        if n < w.len() {
            Some(t.take(n))
        } else {
            None
        }
    } else {
        None
    }
}

/// Reads the NUL-terminated name of a module at `ptr`, scanning at most
/// `NAME_SCAN_LIMIT` bytes.
pub fn read_mod_name(mem: &GuestMemory, ptr: usize) -> (r: Result<String, ReadError>)
    ensures
        match mem.spec_data() {
            Some(m) => match spec_mod_name_bytes(m, ptr as int) {
                Some(b) => if valid_utf8(b) {
                    r is Ok && r->Ok_0@ == decode_utf8(b)
                } else {
                    r == Err::<String, ReadError>(ReadError::InvalidUtf8)
                },
                None => r == Err::<String, ReadError>(ReadError::Memory),
            },
            None => r == Err::<String, ReadError>(ReadError::Memory),
        },
{
    let size = mem.size();
    if !mem.is_present() || ptr > size {
        return Err(ReadError::Memory);
    }
    let ghost m = mem.spec_data()->Some_0;
    let ghost w = m.subrange(ptr as int, m.len() as int);
    let ghost t = w.take(if w.len() < NAME_SCAN_LIMIT { w.len() as int } else { NAME_SCAN_LIMIT as int });
    let mut buffer: Vec<u8> = Vec::new();
    let mut offset: usize = 0;
    loop
        invariant
            mem.spec_data() == Some(m),
            size == m.len(),
            ptr <= size,
            w == m.subrange(ptr as int, m.len() as int),
            t == w.take(if w.len() < NAME_SCAN_LIMIT { w.len() as int } else { NAME_SCAN_LIMIT as int }),
            offset <= NAME_SCAN_LIMIT,
            offset <= w.len(),
            buffer@ == w.take(offset as int),
            forall|j: int| 0 <= j < offset ==> #[trigger] w[j] != 0,
        ensures
            mem.spec_data() == Some(m),
            buffer@ == t.take(nul_prefix_len(t)),
            nul_prefix_len(t) < w.len(),
        decreases NAME_SCAN_LIMIT - offset,
    {
        if offset >= size - ptr {
            proof {
                assert(forall|j: int| 0 <= j < t.len() ==> #[trigger] t[j] == w[j]);
                lemma_no_nul(t);
            }
            return Err(ReadError::Memory);
        }
        let byte = match mem.read_bytes(ptr + offset, 1) {
            Ok(b) => b[0],
            Err(_) => return Err(ReadError::Memory),
        };
        assert(byte == w[offset as int]);
        if byte == 0 || offset >= NAME_SCAN_LIMIT {
            proof {
                assert(forall|j: int| 0 <= j < t.len() ==> #[trigger] t[j] == w[j]);
                if offset >= NAME_SCAN_LIMIT {
                    lemma_no_nul(t);
                } else {
                    assert(is_first_nul(t, offset as int));
                    lemma_first_nul_unique(t, offset as int);
                }
                assert(t.take(offset as int) =~= w.take(offset as int));
                assert(nul_prefix_len(t) == offset);
            }
            break;
        }
        buffer.push(byte);
        offset += 1;
        assert(buffer@ =~= w.take(offset as int));
    }
    match utf8_string(buffer) {
        Some(s) => Ok(s),
        None => Err(ReadError::InvalidUtf8),
    }
}

/// The (pointer, length) of the `i`-th name record of a table at `ptr`.
pub open spec fn name_record(m: Seq<u8>, ptr: int, i: int) -> (int, int) {
    (
        le_value(m.subrange(ptr + 8 * i, ptr + 8 * i + 4)) as int,
        le_value(m.subrange(ptr + 8 * i + 4, ptr + 8 * i + 8)) as int,
    )
}

/// Whether the `i`-th name of the table at `ptr` can be read: it is empty, or
/// lies inside the memory and is valid UTF-8.
pub open spec fn name_readable(m: Seq<u8>, ptr: int, i: int) -> bool {
    let (p, l) = name_record(m, ptr, i);
    l == 0 || (in_bounds(m.len() as int, p, l) && valid_utf8(m.subrange(p, p + l)))
}

/// The `i`-th name of the table at `ptr`.
pub open spec fn name_at(m: Seq<u8>, ptr: int, i: int) -> Seq<char> {
    let (p, l) = name_record(m, ptr, i);
    if l == 0 {
        seq![]
    } else {
        decode_utf8(m.subrange(p, p + l))
    }
}

/// The names that a table of `count` 8-byte (pointer, length) records at
/// `ptr` describes, when all of them can be read.
pub open spec fn spec_system_names(m: Option<Seq<u8>>, ptr: int, count: int) -> Option<Seq<Seq<char>>> {
    if count == 0 {
        Some(seq![])
    } else {
        match m {
            Some(m) => if in_bounds(m.len() as int, ptr, 8 * count) && forall|i: int|
                0 <= i < count ==> #[trigger] name_readable(m, ptr, i) {
                Some(Seq::new(count as nat, |i: int| name_at(m, ptr, i)))
            } else {
                None
            },
            None => None,
        }
    }
}

/// Reads the names of a module's systems from the table of `count` records
/// at `ptr`.
pub fn read_system_names(mem: &GuestMemory, ptr: usize, count: usize) -> (r: Result<Vec<String>, ReadError>)
    ensures
        match spec_system_names(mem.spec_data(), ptr as int, count as int) {
            Some(names) => r is Ok && r->Ok_0.deep_view() == names,
            None => r is Err,
        },
{
    let size = mem.size();
    if count == 0 {
        let v: Vec<String> = Vec::new();
        assert(v.deep_view() =~= Seq::<Seq<char>>::empty());
        return Ok(v);
    }
    if count > usize::MAX / 8 {
        assert(spec_system_names(mem.spec_data(), ptr as int, count as int) is None) by {
            if mem.spec_data() is Some {
                let m = mem.spec_data()->Some_0;
                assert(m.len() == size);
            }
        }
        return Err(ReadError::TooLarge);
    }
    let table = match mem.read_bytes(ptr, count * 8) {
        Ok(t) => t,
        Err(_) => return Err(ReadError::Memory),
    };
    let ghost m = mem.spec_data()->Some_0;
    let mut out: Vec<String> = Vec::new();
    let mut i: usize = 0;
    while i < count
        invariant
            mem.spec_data() == Some(m),
            in_bounds(m.len() as int, ptr as int, 8 * count),
            table@ == spec_read(m, ptr as int, 8 * count),
            count <= usize::MAX / 8,
            i <= count,
            out@.len() == i,
            forall|j: int| 0 <= j < i ==> #[trigger] name_readable(m, ptr as int, j),
            forall|j: int| 0 <= j < i ==> #[trigger] out@[j]@ == name_at(m, ptr as int, j),
        decreases count - i,
    {
        let np = read_le_u32(table.as_slice(), 8 * i);
        let nl = read_le_u32(table.as_slice(), 8 * i + 4);
        proof {
            assert(table@.subrange(8 * i, 8 * i + 4) =~= m.subrange(ptr + 8 * i, ptr + 8 * i + 4));
            assert(table@.subrange(8 * i + 4, 8 * i + 8) =~= m.subrange(ptr + 8 * i + 4, ptr + 8 * i + 8));
            reveal_with_fuel(pow256, 5);
            lemma_le_round_trip(np as nat, 4);
            lemma_le_round_trip(nl as nat, 4);
            assert(name_record(m, ptr as int, i as int) == (np as int, nl as int));
        }
        if nl == 0 {
            out.push(String::new());
            assert(out@[i as int]@ =~= name_at(m, ptr as int, i as int));
        } else {
            let bytes = match mem.read_bytes(np as usize, nl as usize) {
                Ok(b) => b,
                Err(_) => {
                    assert(!name_readable(m, ptr as int, i as int));
                    return Err(ReadError::Memory);
                },
            };
            match utf8_string(bytes) {
                Some(s) => out.push(s),
                None => {
                    assert(!name_readable(m, ptr as int, i as int));
                    return Err(ReadError::InvalidUtf8);
                },
            }
        }
        i += 1;
    }
    let ghost names = Seq::new(count as nat, |j: int| name_at(m, ptr as int, j));
    assert(out.deep_view() =~= names);
    Ok(out)
}


/// The list of modules to load, in order.
pub struct WasmModPlugin {
    pub mod_paths: Vec<String>,
}

impl WasmModPlugin {
    /// An empty list.
    pub fn new() -> (r: WasmModPlugin)
        ensures
            r.mod_paths@.len() == 0,
    {
        WasmModPlugin { mod_paths: Vec::new() }
    }

    /// Adds a module to load after the others.
    pub fn add_mod_path(self, path: String) -> (r: WasmModPlugin)
        ensures
            r.mod_paths@ == self.mod_paths@.push(path),
    {
        let mut s = self;
        s.mod_paths.push(path);
        s
    }

    /// Replaces the list.
    pub fn set_mod_paths(self, paths: Vec<String>) -> (r: WasmModPlugin)
        ensures
            r.mod_paths@ == paths@,
    {
        WasmModPlugin { mod_paths: paths }
    }
}

impl Default for WasmModPlugin {
    fn default() -> (r: WasmModPlugin)
        ensures
            r.mod_paths@.len() == 0,
    {
        WasmModPlugin::new()
    }
}

/// Where the loading of the module list stands.
#[derive(Debug, Clone, Copy, PartialEq, Eq, Structural)]
pub enum LoadPhase {
    /// Waiting for the current module to be compiled, linked and instantiated.
    Instantiating,
    /// Waiting for the current module's name.
    Naming,
    /// Waiting for the names of the current module's systems.
    Listing,
    /// Waiting for the info record of the current system.
    Describing,
    /// Waiting for the current system's export to be resolved.
    Resolving,
    /// Every module has been tried.
    Finished,
}

/// What the loader asks its driver to do next.
pub enum LoaderAction {
    /// Compile, link and instantiate the module at this position of the list.
    Instantiate(usize),
    /// Call the module's name export and read the name.
    ReadName,
    /// Call the module's system count and names exports and read the names.
    ListSystems,
    /// Call the info export of the system with this name and read the record.
    ReadInfo(String),
    /// Resolve this export as a function without arguments or results.
    Resolve(String),
    /// Loading is over.
    Done,
}

/// What the driver reports back.
pub enum LoaderEvent {
    Instantiated(bool),
    NameRead(Option<String>),
    SystemsListed(Option<Vec<String>>),
    InfoRead(Option<SystemInfo>),
    Resolved(bool),
}

/// The name given to a module whose own name cannot be read.
pub open spec fn default_mod_name() -> Seq<char> {
    "unnamed_mod"@
}

/// The decisions of loading a list of modules: a module that fails to
/// instantiate or to list its systems is skipped, a system whose info or
/// export cannot be had is skipped, and everything else is recorded.
pub struct ModLoader {
    module_count: usize,
    current: usize,
    phase: LoadPhase,
    mod_name: String,
    names: Vec<String>,
    next: usize,
    export_name: String,
    schedule: ModSystemSchedule,
    systems: ModSystems,
    loaded: Vec<(usize, String)>,
}

impl ModLoader {
    /// How many modules the list holds.
    pub closed spec fn module_count(&self) -> int {
        self.module_count as int
    }

    /// The position of the module being loaded.
    pub closed spec fn current(&self) -> int {
        self.current as int
    }

    /// What the loader waits for.
    pub closed spec fn phase(&self) -> LoadPhase {
        self.phase
    }

    /// The name of the module being loaded.
    pub closed spec fn mod_name(&self) -> Seq<char> {
        self.mod_name@
    }

    /// The names of the systems of the module being loaded.
    pub closed spec fn names(&self) -> Seq<Seq<char>> {
        self.names.deep_view()
    }

    /// The position of the system being described or resolved.
    pub closed spec fn next(&self) -> int {
        self.next as int
    }

    /// The export name of the system being resolved.
    pub closed spec fn export_name(&self) -> Seq<char> {
        self.export_name@
    }

    /// The phase of the system being resolved.
    pub closed spec fn schedule(&self) -> ModSystemSchedule {
        self.schedule
    }

    /// The systems recorded so far, in discovery order.
    pub closed spec fn systems(&self) -> Seq<(usize, Seq<char>, Seq<char>, Seq<char>, ModSystemSchedule)> {
        self.systems.views()
    }

    /// The modules that loaded, as (position, name), in order.
    pub closed spec fn loaded(&self) -> Seq<(usize, Seq<char>)> {
        self.loaded@.map_values(|p: (usize, String)| (p.0, p.1@))
    }

    /// The position, phase and system counters agree with one another.
    pub closed spec fn wf(&self) -> bool {
        &&& self.current <= self.module_count
        &&& (self.phase == LoadPhase::Finished <==> self.current == self.module_count)
        &&& self.next <= self.names@.len()
        &&& (self.phase == LoadPhase::Describing || self.phase == LoadPhase::Resolving) ==> self.next
            < self.names@.len()
        &&& !self.systems.spec_startup_done()
    }

    /// Whether `a` is what the loader waits for.
    pub open spec fn awaits(&self, a: LoaderAction) -> bool {
        match self.phase() {
            LoadPhase::Instantiating => a == LoaderAction::Instantiate(self.current() as usize),
            LoadPhase::Naming => a is ReadName,
            LoadPhase::Listing => a is ListSystems,
            LoadPhase::Describing => a is ReadInfo && a->ReadInfo_0@ == self.names()[self.next()],
            LoadPhase::Resolving => a is Resolve && a->Resolve_0@ == self.export_name(),
            LoadPhase::Finished => a is Done,
        }
    }

    /// The module at position `cur` is over: the next one is up, with
    /// `systems` and `loaded` recorded.
    pub open spec fn moved_on(
        &self,
        cur: int,
        systems: Seq<(usize, Seq<char>, Seq<char>, Seq<char>, ModSystemSchedule)>,
        loaded: Seq<(usize, Seq<char>)>,
    ) -> bool {
        &&& self.current() == cur + 1
        &&& self.phase() == if cur + 1 == self.module_count() {
            LoadPhase::Finished
        } else {
            LoadPhase::Instantiating
        }
        &&& self.systems() == systems
        &&& self.loaded() == loaded
    }

    /// After the systems before position `next` of module `cur` are dealt
    /// with: the next system is up, or the module is recorded and over.
    pub open spec fn at_system(
        &self,
        cur: int,
        name: Seq<char>,
        names: Seq<Seq<char>>,
        next: int,
        systems: Seq<(usize, Seq<char>, Seq<char>, Seq<char>, ModSystemSchedule)>,
        loaded: Seq<(usize, Seq<char>)>,
    ) -> bool {
        if next < names.len() {
            &&& self.phase() == LoadPhase::Describing
            &&& self.current() == cur
            &&& self.mod_name() == name
            &&& self.names() == names
            &&& self.next() == next
            &&& self.systems() == systems
            &&& self.loaded() == loaded
        } else {
            self.moved_on(cur, systems, loaded.push((cur as usize, name)))
        }
    }

    /// A loader for `module_count` modules, and its first request.
    pub fn new(module_count: usize) -> (r: (ModLoader, LoaderAction))
        ensures
            r.0.wf(),
            r.0.awaits(r.1),
            r.0.module_count() == module_count,
            r.0.current() == 0,
            r.0.systems().len() == 0,
            r.0.loaded().len() == 0,
    {
        let l = ModLoader {
            module_count,
            current: 0,
            phase: if module_count == 0 {
                LoadPhase::Finished
            } else {
                LoadPhase::Instantiating
            },
            mod_name: String::new(),
            names: Vec::new(),
            next: 0,
            export_name: String::new(),
            schedule: ModSystemSchedule::Update,
            systems: ModSystems::new(),
            loaded: Vec::new(),
        };
        assert(l.systems() =~= Seq::empty());
        assert(l.loaded() =~= Seq::empty());
        let a = l.action();
        (l, a)
    }

    /// What the loader waits for.
    pub fn action(&self) -> (r: LoaderAction)
        requires
            self.wf(),
        ensures
            self.awaits(r),
    {
        match self.phase {
            LoadPhase::Instantiating => LoaderAction::Instantiate(self.current),
            LoadPhase::Naming => LoaderAction::ReadName,
            LoadPhase::Listing => LoaderAction::ListSystems,
            LoadPhase::Describing => LoaderAction::ReadInfo(self.names[self.next].clone()),
            LoadPhase::Resolving => LoaderAction::Resolve(self.export_name.clone()),
            LoadPhase::Finished => LoaderAction::Done,
        }
    }

    fn next_module(&mut self)
        requires
            old(self).wf(),
            old(self).phase() != LoadPhase::Finished,
        ensures
            final(self).wf(),
            final(self).module_count() == old(self).module_count(),
            final(self).moved_on(old(self).current(), old(self).systems(), old(self).loaded()),
    {
        self.current = self.current + 1;
        self.phase = if self.current == self.module_count {
            LoadPhase::Finished
        } else {
            LoadPhase::Instantiating
        };
        self.next = 0;
    }

    fn next_system(&mut self)
        requires
            old(self).wf(),
            old(self).phase() != LoadPhase::Finished,
        ensures
            final(self).wf(),
            final(self).module_count() == old(self).module_count(),
            final(self).at_system(
                old(self).current(),
                old(self).mod_name(),
                old(self).names(),
                old(self).next(),
                old(self).systems(),
                old(self).loaded(),
            ),
    {
        if self.next < self.names.len() {
            self.phase = LoadPhase::Describing;
        } else {
            let ghost l0 = self.loaded();
            self.loaded.push((self.current, self.mod_name.clone()));
            assert(self.loaded() =~= l0.push((self.current, self.mod_name@)));
            self.next_module();
        }
    }

    /// Takes the driver's report on the last request and returns the next
    /// request. A report that does not answer the request leaves the loader
    /// as it was.
    pub fn step(&mut self, ev: LoaderEvent) -> (r: LoaderAction)
        requires
            old(self).wf(),
        ensures
            final(self).wf(),
            final(self).awaits(r),
            final(self).module_count() == old(self).module_count(),
            match (old(self).phase(), ev) {
                (LoadPhase::Instantiating, LoaderEvent::Instantiated(false)) => final(self).moved_on(
                    old(self).current(),
                    old(self).systems(),
                    old(self).loaded(),
                ),
                (LoadPhase::Instantiating, LoaderEvent::Instantiated(true)) => final(self).phase()
                    == LoadPhase::Naming && final(self).current() == old(self).current()
                    && final(self).systems() == old(self).systems() && final(self).loaded() == old(
                    self,
                ).loaded(),
                (LoadPhase::Naming, LoaderEvent::NameRead(n)) => final(self).phase() == LoadPhase::Listing
                    && final(self).current() == old(self).current() && final(self).mod_name() == match n {
                    Some(s) => s@,
                    None => default_mod_name(),
                } && final(self).systems() == old(self).systems() && final(self).loaded() == old(
                    self,
                ).loaded(),
                (LoadPhase::Listing, LoaderEvent::SystemsListed(None)) => final(self).moved_on(
                    old(self).current(),
                    old(self).systems(),
                    old(self).loaded(),
                ),
                (LoadPhase::Listing, LoaderEvent::SystemsListed(Some(v))) => final(self).at_system(
                    old(self).current(),
                    old(self).mod_name(),
                    v.deep_view(),
                    0,
                    old(self).systems(),
                    old(self).loaded(),
                ),
                (LoadPhase::Describing, LoaderEvent::InfoRead(None)) => final(self).at_system(
                    old(self).current(),
                    old(self).mod_name(),
                    old(self).names(),
                    old(self).next() + 1,
                    old(self).systems(),
                    old(self).loaded(),
                ),
                (LoadPhase::Describing, LoaderEvent::InfoRead(Some(info))) => {
                    let prefix = info.export_name@.take(nul_prefix_len(info.export_name@));
                    &&& final(self).phase() == LoadPhase::Resolving
                    &&& final(self).current() == old(self).current()
                    &&& final(self).next() == old(self).next()
                    &&& final(self).export_name() == lossy_utf8(prefix)
                    &&& valid_utf8(prefix) ==> final(self).export_name() == decode_utf8(prefix)
                    &&& final(self).schedule() == schedule_of(info.schedule)
                    &&& final(self).systems() == old(self).systems()
                    &&& final(self).loaded() == old(self).loaded()
                },
                (LoadPhase::Resolving, LoaderEvent::Resolved(ok)) => final(self).at_system(
                    old(self).current(),
                    old(self).mod_name(),
                    old(self).names(),
                    old(self).next() + 1,
                    if ok {
                        old(self).systems().push(
                            (
                                old(self).current() as usize,
                                old(self).mod_name(),
                                old(self).names()[old(self).next()],
                                old(self).export_name(),
                                old(self).schedule(),
                            ),
                        )
                    } else {
                        old(self).systems()
                    },
                    old(self).loaded(),
                ),
                _ => *final(self) == *old(self),
            },
    {
        match (self.phase, ev) {
            (LoadPhase::Instantiating, LoaderEvent::Instantiated(ok)) => {
                if ok {
                    self.phase = LoadPhase::Naming;
                } else {
                    self.next_module();
                }
            },
            (LoadPhase::Naming, LoaderEvent::NameRead(n)) => {
                self.mod_name = match n {
                    Some(s) => s,
                    None => "unnamed_mod".to_owned(),
                };
                self.phase = LoadPhase::Listing;
            },
            (LoadPhase::Listing, LoaderEvent::SystemsListed(v)) => {
                match v {
                    Some(v) => {
                        self.names = v;
                        self.next = 0;
                        self.next_system();
                    },
                    None => self.next_module(),
                }
            },
            (LoadPhase::Describing, LoaderEvent::InfoRead(info)) => {
                match info {
                    Some(info) => {
                        self.export_name = system_info_export_name_str(&info);
                        self.schedule = info.schedule();
                        self.phase = LoadPhase::Resolving;
                    },
                    None => {
                        let n = self.names.len();
                        assert(self.next < n);
                        self.phase = LoadPhase::Listing;
                        self.next = self.next + 1;
                        self.next_system();
                    },
                }
            },
            (LoadPhase::Resolving, LoaderEvent::Resolved(ok)) => {
                if ok {
                    let ghost s0 = self.systems();
                    let d = ModSystemInfo {
                        mod_index: self.current,
                        mod_name: self.mod_name.clone(),
                        system_name: self.names[self.next].clone(),
                        export_name: self.export_name.clone(),
                        schedule: self.schedule,
                    };
                    self.systems.push(d);
                    assert(self.systems() =~= s0.push(system_view(d)));
                }
                let n = self.names.len();
                assert(self.next < n);
                self.phase = LoadPhase::Listing;
                self.next = self.next + 1;
                self.next_system();
            },
            _ => {},
        }
        self.action()
    }

    /// The name of the module being loaded.
    pub fn current_mod_name(&self) -> (r: &String)
        ensures
            r@ == self.mod_name(),
    {
        &self.mod_name
    }

    /// How many modules have loaded so far.
    pub fn loaded_count(&self) -> (r: usize)
        ensures
            r == self.loaded().len(),
    {
        self.loaded.len()
    }

    /// The recorded systems and the modules that loaded, as (position,
    /// name).
    pub fn into_parts(self) -> (r: (ModSystems, Vec<(usize, String)>))
        requires
            self.wf(),
        ensures
            r.0.views() == self.systems(),
            !r.0.spec_startup_done(),
            r.1@.map_values(|p: (usize, String)| (p.0, p.1@)) == self.loaded(),
    {
        (self.systems, self.loaded)
    }
}

} // verus!
