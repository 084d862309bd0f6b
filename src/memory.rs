//! The VM's address space as host byte buffers, with bounds-checked access.
use crate::layout::VmRegion;
use vstd::arithmetic::div_mod::lemma_fundamental_div_mod;
use vstd::prelude::*;

verus! {

/// How a syscall touches memory.
#[derive(Clone, Copy, PartialEq, Eq, Structural, Debug)]
pub enum AccessType {
    /// Read.
    Load,
    /// Write.
    Store,
}

/// Why a syscall failed.
#[derive(Clone, Copy, PartialEq, Eq, Structural, Debug)]
pub enum SyscallError {
    /// The address range is not mapped, or not writable for a store.
    MemoryFault { access: AccessType, vm_addr: u64, len: u64 },
    /// A log message is not valid UTF-8.
    InvalidText,
    /// The program called abort or panic, with these arguments.
    ProgramAborted { arg1: u64, arg2: u64, arg3: u64, arg4: u64, arg5: u64 },
}

/// A region of the address space with the host bytes behind it.
pub struct MappedRegion {
    pub vm_addr: u64,
    /// Zero for a contiguous region; otherwise the size of each mapped frame,
    /// followed by as many unmapped addresses.
    pub gap_size: u64,
    pub writable: bool,
    pub data: Vec<u8>,
}

/// What a region is, mathematically.
pub struct RegionView {
    pub vm_addr: u64,
    pub gap_size: u64,
    pub writable: bool,
    pub data: Seq<u8>,
}

impl View for MappedRegion {
    type V = RegionView;

    open spec fn view(&self) -> RegionView {
        RegionView {
            vm_addr: self.vm_addr,
            gap_size: self.gap_size,
            writable: self.writable,
            data: self.data@,
        }
    }
}

/// The whole address space: regions searched in order.
pub struct VmMemory {
    pub regions: Vec<MappedRegion>,
}

impl View for VmMemory {
    type V = Seq<RegionView>;

    open spec fn view(&self) -> Seq<RegionView> {
        self.regions@.map_values(|r: MappedRegion| r@)
    }
}

/// Offset into the region's host bytes of virtual address `addr`, if it is mapped.
pub open spec fn host_offset(r: RegionView, addr: int) -> Option<int> {
    if addr < r.vm_addr {
        None
    } else {
        let off = addr - r.vm_addr;
        if r.gap_size == 0 {
            Some(off)
        } else if (off / (r.gap_size as int)) % 2 == 1 {
            None
        } else {
            Some((off / (r.gap_size as int)) / 2 * r.gap_size + off % (r.gap_size as int))
        }
    }
}

/// The region maps `len` bytes at `addr` for this kind of access.
pub open spec fn region_maps(r: RegionView, addr: int, len: int, access: AccessType) -> bool {
    &&& access == AccessType::Load || r.writable
    &&& host_offset(r, addr) is Some
    &&& host_offset(r, addr).unwrap() + len <= r.data.len()
}

/// First region from `start` on that maps the range.
pub open spec fn find_mapping_from(
    m: Seq<RegionView>,
    addr: int,
    len: int,
    access: AccessType,
    start: int,
) -> Option<int>
    decreases m.len() - start,
{
    if start < 0 || start >= m.len() {
        None
    } else if region_maps(m[start], addr, len, access) {
        Some(start)
    } else {
        find_mapping_from(m, addr, len, access, start + 1)
    }
}

/// The region that an access resolves to, if any.
pub open spec fn find_mapping(m: Seq<RegionView>, addr: int, len: int, access: AccessType) -> Option<
    int,
> {
    find_mapping_from(m, addr, len, access, 0)
}

/// The `len` bytes that a load of `addr` reads.
pub open spec fn loaded_bytes(m: Seq<RegionView>, addr: int, len: int) -> Seq<u8> {
    let i = find_mapping(m, addr, len, AccessType::Load).unwrap();
    let h = host_offset(m[i], addr).unwrap();
    m[i].data.subrange(h, h + len)
}

/// `bytes` written over `data` from offset `off`.
pub open spec fn splice(data: Seq<u8>, off: int, bytes: Seq<u8>) -> Seq<u8> {
    data.take(off) + bytes + data.skip(off + bytes.len())
}

/// The address space after a store of `bytes` at `addr`.
pub open spec fn stored(m: Seq<RegionView>, addr: int, bytes: Seq<u8>) -> Seq<RegionView> {
    let i = find_mapping(m, addr, bytes.len() as int, AccessType::Store).unwrap();
    let h = host_offset(m[i], addr).unwrap();
    m.update(i, RegionView { data: splice(m[i].data, h, bytes), ..m[i] })
}

/// Last address, exclusive, that a region covers.
pub open spec fn region_end(r: RegionView) -> int {
    if r.gap_size == 0 {
        r.vm_addr + r.data.len()
    } else {
        r.vm_addr + 2 * r.data.len()
    }
}

proof fn lemma_host_offset_nonneg(r: RegionView, addr: int)
    ensures
        host_offset(r, addr) matches Some(h) ==> h >= 0,
{
    if addr >= r.vm_addr && r.gap_size != 0 {
        let off = addr - r.vm_addr;
        let g = r.gap_size as int;
        assert((off / g) / 2 * g + off % g >= 0) by (nonlinear_arith)
            requires
                off >= 0,
                g > 0,
        ;
    }
}

proof fn lemma_find_mapping_from(m: Seq<RegionView>, addr: int, len: int, access: AccessType, start: int)
    requires
        0 <= start,
    ensures
        find_mapping_from(m, addr, len, access, start) matches Some(i) ==> start <= i < m.len()
            && region_maps(m[i], addr, len, access) && host_offset(m[i], addr).unwrap() >= 0,
        find_mapping_from(m, addr, len, access, start) is None ==> forall|j: int|
            start <= j < m.len() ==> !region_maps(#[trigger] m[j], addr, len, access),
    decreases m.len() - start,
{
    if 0 <= start < m.len() {
        lemma_host_offset_nonneg(m[start], addr);
        lemma_find_mapping_from(m, addr, len, access, start + 1);
    }
}

/// A resolved access lies within the region's addresses.
pub proof fn lemma_mapped_within_region(r: RegionView, addr: int, len: int, access: AccessType)
    requires
        len >= 0,
        region_maps(r, addr, len, access),
    ensures
        r.vm_addr <= addr,
        addr + len <= region_end(r),
{
    let off = addr - r.vm_addr;
    if r.gap_size != 0 {
        let g = r.gap_size as int;
        let k = off / g;
        lemma_fundamental_div_mod(off, g);
        lemma_fundamental_div_mod(k, 2);
        let h = k / 2 * g + off % g;
        assert(off == 2 * (k / 2) * g + off % g) by (nonlinear_arith)
            requires
                off == g * k + off % g,
                k == 2 * (k / 2) + k % 2,
                k % 2 == 0,
        ;
        assert(k / 2 * g >= 0) by (nonlinear_arith)
            requires
                k >= 0,
                g > 0,
            {
            assert(k / 2 >= 0);
        }
        assert(k >= 0) by (nonlinear_arith)
            requires
                off >= 0,
                g > 0,
                k == off / g,
        ;
        let mg = k / 2 * g;
        let d = r.data.len() as int;
        assert(off == 2 * mg + off % g) by (nonlinear_arith)
            requires
                off == 2 * (k / 2) * g + off % g,
                mg == k / 2 * g,
        ;
        assert(0 <= off % g);
        assert(off + len <= 2 * d);
    }
}

/// An access whose end lies beyond every region's addresses resolves nowhere.
pub proof fn lemma_beyond_every_region(m: Seq<RegionView>, addr: int, len: int, access: AccessType)
    requires
        len >= 0,
        forall|i: int| 0 <= i < m.len() ==> addr + len > region_end(#[trigger] m[i]),
    ensures
        find_mapping(m, addr, len, access) is None,
{
    lemma_find_mapping_from(m, addr, len, access, 0);
    if find_mapping(m, addr, len, access) is Some {
        let i = find_mapping(m, addr, len, access).unwrap();
        lemma_mapped_within_region(m[i], addr, len, access);
    }
}

/// `bytes` written over `data` from offset `off`, in place.
fn overwrite(data: &mut Vec<u8>, off: usize, bytes: &[u8])
    requires
        off + bytes@.len() <= old(data)@.len(),
    ensures
        final(data)@ == splice(old(data)@, off as int, bytes@),
{
    let dlen = data.len();
    let mut k: usize = 0;
    while k < bytes.len()
        invariant
            off + bytes@.len() <= old(data)@.len(),
            data@.len() == old(data)@.len(),
            dlen == data@.len(),
            k <= bytes@.len(),
            forall|j: int| 0 <= j < off || off + k <= j < data@.len() ==> #[trigger] data@[j] == old(
                data,
            )@[j],
            forall|j: int| off <= j < off + k ==> #[trigger] data@[j] == bytes@[j - off],
        decreases bytes@.len() - k,
    {
        data[off + k] = bytes[k];
        k = k + 1;
    }
    assert(data@ =~= splice(old(data)@, off as int, bytes@));
}

/// `n` copies of `value` written over `data` from offset `off`, in place.
fn fill_range(data: &mut Vec<u8>, off: usize, n: usize, value: u8)
    requires
        off + n <= old(data)@.len(),
    ensures
        final(data)@ == splice(old(data)@, off as int, Seq::new(n as nat, |j: int| value)),
{
    let dlen = data.len();
    let mut k: usize = 0;
    while k < n
        invariant
            off + n <= old(data)@.len(),
            data@.len() == old(data)@.len(),
            dlen == data@.len(),
            k <= n,
            forall|j: int| 0 <= j < off || off + k <= j < data@.len() ==> #[trigger] data@[j] == old(
                data,
            )@[j],
            forall|j: int| off <= j < off + k ==> #[trigger] data@[j] == value,
        decreases n - k,
    {
        data[off + k] = value;
        k = k + 1;
    }
    assert(data@ =~= splice(old(data)@, off as int, Seq::new(n as nat, |j: int| value)));
}

impl MappedRegion {
    /// Offset into the host bytes of `len` bytes at `addr`, where this region
    /// maps them for `access`.
    fn host_range(&self, access: AccessType, addr: u64, len: u64) -> (res: Option<usize>)
        ensures
            region_maps(self@, addr as int, len as int, access) ==> res is Some && res.unwrap()
                == host_offset(self@, addr as int).unwrap(),
            !region_maps(self@, addr as int, len as int, access) ==> res is None,
    {
        if access == AccessType::Store && !self.writable {
            return None;
        }
        if addr < self.vm_addr {
            return None;
        }
        let off = addr - self.vm_addr;
        let h: u64;
        if self.gap_size == 0 {
            h = off;
        } else {
            let g = self.gap_size;
            let k = off / g;
            if k % 2 == 1 {
                return None;
            }
            proof {
                lemma_fundamental_div_mod(off as int, g as int);
                let ki = k as int;
                let gi = g as int;
                let ri = (off % g) as int;
                assert((ki / 2) * gi + ri <= off as int) by (nonlinear_arith)
                    requires
                        off as int == gi * ki + ri,
                        gi > 0,
                        ki >= 0,
                        ri >= 0,
                ;
                assert((ki / 2) * gi <= off as int);
            }
            h = k / 2 * g + off % g;
        }
        let dlen = self.data.len() as u64;
        if h > dlen || len > dlen - h {
            return None;
        }
        Some(h as usize)
    }
}

impl VmMemory {
    /// Resolves `len` bytes at `vm_addr` for `access`: the first region that
    /// maps them and the offset into its host bytes.
    pub fn resolve(&self, access: AccessType, vm_addr: u64, len: u64) -> (r: Result<
        (usize, usize),
        SyscallError,
    >)
        ensures
            match find_mapping(self@, vm_addr as int, len as int, access) {
                Some(i) => r is Ok && r.unwrap().0 == i && r.unwrap().1 == host_offset(
                    self@[i],
                    vm_addr as int,
                ).unwrap(),
                None => r == Err::<(usize, usize), SyscallError>(
                    SyscallError::MemoryFault { access, vm_addr, len },
                ),
            },
    {
        let mut i: usize = 0;
        while i < self.regions.len()
            invariant
                i <= self@.len(),
                self@.len() == self.regions@.len(),
                find_mapping(self@, vm_addr as int, len as int, access) == find_mapping_from(
                    self@,
                    vm_addr as int,
                    len as int,
                    access,
                    i as int,
                ),
            decreases self@.len() - i,
        {
            assert(self@[i as int] == self.regions@[i as int]@);
            match self.regions[i].host_range(access, vm_addr, len) {
                Some(h) => {
                    return Ok((i, h));
                },
                None => {},
            }
            i = i + 1;
        }
        Err(SyscallError::MemoryFault { access, vm_addr, len })
    }

    /// Reads `len` bytes at `vm_addr`.
    pub fn load(&self, vm_addr: u64, len: u64) -> (r: Result<Vec<u8>, SyscallError>)
        ensures
            find_mapping(self@, vm_addr as int, len as int, AccessType::Load) is Some ==> r is Ok
                && r.unwrap()@ == loaded_bytes(self@, vm_addr as int, len as int) && r.unwrap()@.len()
                == len,
            find_mapping(self@, vm_addr as int, len as int, AccessType::Load) is None ==> r
                == Err::<Vec<u8>, SyscallError>(
                SyscallError::MemoryFault { access: AccessType::Load, vm_addr, len },
            ),
    {
        match self.resolve(AccessType::Load, vm_addr, len) {
            Ok((i, h)) => {
                proof {
                    lemma_find_mapping_from(self@, vm_addr as int, len as int, AccessType::Load, 0);
                }
                let ghost fi = find_mapping(self@, vm_addr as int, len as int, AccessType::Load);
                assert(fi is Some);
                assert(fi.unwrap() == i);
                assert(self@[i as int] == self.regions@[i as int]@);
                assert(region_maps(self@[i as int], vm_addr as int, len as int, AccessType::Load));
                let ghost ho = host_offset(self@[i as int], vm_addr as int).unwrap();
                assert(ho >= 0);
                assert(ho + len <= self.regions@[i as int].data@.len());
                let data = &self.regions[i].data;
                let dlen = data.len();
                assert(h + len <= dlen);
                let n = len as usize;
                let mut out: Vec<u8> = Vec::new();
                let mut k: usize = 0;
                while k < n
                    invariant
                        h + n <= data@.len(),
                        dlen == data@.len(),
                        k <= n,
                        out@ == data@.subrange(h as int, h + k),
                    decreases n - k,
                {
                    out.push(data[h + k]);
                    k = k + 1;
                    assert(out@ =~= data@.subrange(h as int, h + k));
                }
                Ok(out)
            },
            Err(e) => Err(e),
        }
    }

    /// Writes `bytes` at `vm_addr`; nothing is written where the range is not
    /// mapped writable.
    pub fn store(&mut self, vm_addr: u64, bytes: &[u8]) -> (r: Result<(), SyscallError>)
        ensures
            find_mapping(old(self)@, vm_addr as int, bytes@.len() as int, AccessType::Store) is Some
                ==> r is Ok && final(self)@ == stored(old(self)@, vm_addr as int, bytes@),
            find_mapping(old(self)@, vm_addr as int, bytes@.len() as int, AccessType::Store) is None
                ==> r == Err::<(), SyscallError>(
                SyscallError::MemoryFault {
                    access: AccessType::Store,
                    vm_addr,
                    len: bytes@.len() as u64,
                },
            ) && final(self)@ == old(self)@,
    {
        match self.resolve(AccessType::Store, vm_addr, bytes.len() as u64) {
            Ok((i, h)) => {
                proof {
                    lemma_find_mapping_from(
                        self@,
                        vm_addr as int,
                        bytes@.len() as int,
                        AccessType::Store,
                        0,
                    );
                    assert(self@[i as int] == self.regions@[i as int]@);
                }
                assert(h + bytes@.len() <= self.regions@[i as int].data@.len());
                overwrite(&mut self.regions[i].data, h, bytes);
                assert(self@ =~= stored(old(self)@, vm_addr as int, bytes@));
                Ok(())
            },
            Err(e) => Err(e),
        }
    }

    /// Writes `n` copies of `value` at `vm_addr`; nothing is written where the
    /// range is not mapped writable.
    pub fn fill(&mut self, vm_addr: u64, n: u64, value: u8) -> (r: Result<(), SyscallError>)
        ensures
            find_mapping(old(self)@, vm_addr as int, n as int, AccessType::Store) is Some ==> r is Ok
                && final(self)@ == stored(
                old(self)@,
                vm_addr as int,
                Seq::new(n as nat, |j: int| value),
            ),
            find_mapping(old(self)@, vm_addr as int, n as int, AccessType::Store) is None ==> r
                == Err::<(), SyscallError>(
                SyscallError::MemoryFault { access: AccessType::Store, vm_addr, len: n },
            ) && final(self)@ == old(self)@,
    {
        match self.resolve(AccessType::Store, vm_addr, n) {
            Ok((i, h)) => {
                proof {
                    lemma_find_mapping_from(self@, vm_addr as int, n as int, AccessType::Store, 0);
                    assert(self@[i as int] == self.regions@[i as int]@);
                }
                assert(h + n <= self.regions@[i as int].data@.len());
                let dlen = self.regions[i].data.len();
                fill_range(&mut self.regions[i].data, h, n as usize, value);
                assert(self@ =~= stored(
                    old(self)@,
                    vm_addr as int,
                    Seq::new(n as nat, |j: int| value),
                ));
                Ok(())
            },
            Err(e) => Err(e),
        }
    }
}

} // verus!
