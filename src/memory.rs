//! Bounds-checked access to a module's linear memory.

use vstd::prelude::*;

verus! {

/// Why an access to linear memory failed.
#[derive(Debug, Clone, Copy, PartialEq, Eq, Structural)]
pub enum MemoryError {
    /// The range does not lie inside the memory.
    OutOfBounds,
    /// The module instance exports no memory.
    NoMemoryExport,
}

/// The linear memory of one module instance, or its absence.
pub struct GuestMemory {
    data: Option<Vec<u8>>,
}

/// The bytes `[ptr, ptr + len)` of `m`; nothing when `len` is zero.
pub open spec fn spec_read(m: Seq<u8>, ptr: int, len: int) -> Seq<u8> {
    if len <= 0 {
        Seq::empty()
    } else {
        m.subrange(ptr, ptr + len)
    }
}

/// `m` with the bytes from `ptr` on replaced by `d`; `m` itself when `d` is
/// empty.
pub open spec fn spec_write(m: Seq<u8>, ptr: int, d: Seq<u8>) -> Seq<u8> {
    if d.len() == 0 {
        m
    } else {
        m.subrange(0, ptr) + d + m.subrange(ptr + d.len(), m.len() as int)
    }
}

/// Whether `[ptr, ptr + len)` lies inside a memory of `size` bytes.
pub open spec fn in_bounds(size: int, ptr: int, len: int) -> bool {
    0 <= ptr && 0 <= len && ptr + len <= size
}

/// Whether an access of `len` bytes at `ptr` succeeds on a memory of `size`
/// bytes: an empty one always does, any other must lie inside.
pub open spec fn accessible(size: int, ptr: int, len: int) -> bool {
    0 <= ptr && (len == 0 || in_bounds(size, ptr, len))
}

impl GuestMemory {
    /// The bytes of the memory, or `None` when the instance exports none.
    pub closed spec fn spec_data(&self) -> Option<Seq<u8>> {
        match self.data {
            Some(v) => Some(v@),
            None => None,
        }
    }

    /// A memory holding `bytes`.
    pub fn new(bytes: Vec<u8>) -> (r: GuestMemory)
        ensures
            r.spec_data() == Some(bytes@),
    {
        GuestMemory { data: Some(bytes) }
    }

    /// The state of an instance that exports no memory.
    pub fn absent() -> (r: GuestMemory)
        ensures
            r.spec_data().is_none(),
    {
        GuestMemory { data: None }
    }

    /// Whether the instance exports a memory.
    pub fn is_present(&self) -> (r: bool)
        ensures
            r == self.spec_data() is Some,
    {
        self.data.is_some()
    }

    /// The size of the memory in bytes; zero when there is none.
    pub fn size(&self) -> (r: usize)
        ensures
            r == match self.spec_data() {
                Some(m) => m.len(),
                None => 0,
            },
    {
        match &self.data {
            Some(v) => v.len(),
            None => 0,
        }
    }

    /// The bytes of the memory, or `None` when there is none.
    pub fn bytes(&self) -> (r: Option<&Vec<u8>>)
        ensures
            match r {
                Some(v) => self.spec_data() == Some(v@),
                None => self.spec_data().is_none(),
            },
    {
        self.data.as_ref()
    }

    /// Gives the bytes back, or `None` when there is no memory.
    pub fn into_bytes(self) -> (r: Option<Vec<u8>>)
        ensures
            match r {
                Some(v) => self.spec_data() == Some(v@),
                None => self.spec_data().is_none(),
            },
    {
        self.data
    }

    /// Copies `len` bytes starting at `ptr`.
    pub fn read_bytes(&self, ptr: usize, len: usize) -> (r: Result<Vec<u8>, MemoryError>)
        ensures
            len == 0 && self.spec_data() is Some ==> r is Ok && r->Ok_0@.len() == 0,
            match self.spec_data() {
                None => r == Err::<Vec<u8>, MemoryError>(MemoryError::NoMemoryExport),
                Some(m) => if accessible(m.len() as int, ptr as int, len as int) {
                    r is Ok && r->Ok_0@ == spec_read(m, ptr as int, len as int)
                } else {
                    r == Err::<Vec<u8>, MemoryError>(MemoryError::OutOfBounds)
                },
            },
    {
        let m = match &self.data {
            Some(v) => v,
            None => return Err(MemoryError::NoMemoryExport),
        };
        if len == 0 {
            return Ok(Vec::new());
        }
        if ptr > m.len() || len > m.len() - ptr {
            return Err(MemoryError::OutOfBounds);
        }
        let mut out: Vec<u8> = Vec::with_capacity(len);
        let mut i: usize = 0;
        while i < len
            invariant
                ptr + len <= m.len(),
                i <= len,
                out@ == m@.subrange(ptr as int, ptr + i),
            decreases len - i,
        {
            out.push(m[ptr + i]);
            i += 1;
        }
        Ok(out)
    }

    /// Copies `d` into the memory starting at `ptr`; on failure nothing changes.
    pub fn write_bytes(&mut self, ptr: usize, d: &[u8]) -> (r: Result<(), MemoryError>)
        ensures
            d@.len() == 0 && old(self).spec_data() is Some ==> r is Ok && final(self).spec_data()
                == old(self).spec_data(),
            match old(self).spec_data() {
                None => r == Err::<(), MemoryError>(MemoryError::NoMemoryExport)
                    && final(self).spec_data() == old(self).spec_data(),
                Some(m) => if accessible(m.len() as int, ptr as int, d@.len() as int) {
                    r is Ok && final(self).spec_data() == Some(spec_write(m, ptr as int, d@))
                } else {
                    r == Err::<(), MemoryError>(MemoryError::OutOfBounds)
                        && final(self).spec_data() == old(self).spec_data()
                },
            },
    {
        match &mut self.data {
            None => Err(MemoryError::NoMemoryExport),
            Some(m) => {
                if d.len() == 0 {
                    return Ok(());
                }
                if ptr > m.len() || d.len() > m.len() - ptr {
                    return Err(MemoryError::OutOfBounds);
                }
                let ghost m0 = m@;
                let n: usize = m.len();
                let mut i: usize = 0;
                while i < d.len()
                    invariant
                        m0.len() == m@.len(),
                        n == m@.len(),
                        ptr + d@.len() <= n,
                        i <= d@.len(),
                        m@ == spec_write(m0, ptr as int, d@.subrange(0, i as int)),
                    decreases d.len() - i,
                {
                    m.set(ptr + i, d[i]);
                    i += 1;
                    assert(m@ =~= spec_write(m0, ptr as int, d@.subrange(0, i as int)));
                }
                assert(d@.subrange(0, d@.len() as int) =~= d@);
                assert(m@ =~= spec_write(m0, ptr as int, d@));
                Ok(())
            }
        }
    }
}

/// Writing back what was just read leaves the memory as it was.
pub proof fn lemma_write_back_read(m: Seq<u8>, ptr: int, len: int)
    requires
        in_bounds(m.len() as int, ptr, len),
    ensures
        spec_write(m, ptr, spec_read(m, ptr, len)) == m,
{
    assert(spec_write(m, ptr, spec_read(m, ptr, len)) =~= m);
}

} // verus!
