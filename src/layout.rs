//! Memory regions of the VM's virtual address space and their fixed bases.
use crate::aligned::{aligned_as_slice, aligned_bytes, HOST_ALIGN};
use crate::memory::{region_end, MappedRegion, RegionView, VmMemory};
use solana_sbpf::aligned_memory::AlignedMemory;
use vstd::prelude::*;

verus! {

/// Base address of the read-only code region.
pub const MM_BYTECODE_START: u64 = 0x1_0000_0000;

/// Base address of the stack region.
pub const MM_STACK_START: u64 = 0x2_0000_0000;

/// Base address of the heap region.
pub const MM_HEAP_START: u64 = 0x3_0000_0000;

/// Base address of the serialized input region.
pub const MM_INPUT_START: u64 = 0x4_0000_0000;

/// Size of the zero-filled heap region.
pub const HEAP_SIZE: u64 = 32 * 1024;

/// A contiguous range of virtual addresses bound to `len` bytes of host memory.
///
/// A gapped region (`gap_size > 0`) alternates `gap_size` mapped bytes with
/// `gap_size` unmapped ones, so it covers twice its length of addresses.
#[derive(Clone, Copy, PartialEq, Eq, Debug)]
pub struct VmRegion {
    pub vm_addr: u64,
    pub len: u64,
    pub writable: bool,
    pub gap_size: u64,
}

/// Why an address space could not be assembled.
#[derive(Clone, Copy, PartialEq, Eq, Structural, Debug)]
pub enum LayoutError {
    /// Two regions overlap, or are out of order, or one runs past the end of
    /// the address space.
    LayoutConflict,
}

/// Regions in order of address, no two overlapping, each within the address space.
pub open spec fn non_overlapping(m: Seq<RegionView>) -> bool {
    &&& forall|i: int| 0 <= i < m.len() ==> region_end(#[trigger] m[i]) <= u64::MAX
    &&& forall|i: int, j: int| 0 <= i < j < m.len() ==> region_end(#[trigger] m[i]) <= (
    #[trigger] m[j]).vm_addr
}

/// Each region ends before the next one starts.
pub open spec fn adjacent_ordered(m: Seq<RegionView>, n: int) -> bool {
    forall|i: int| 0 < i < n ==> region_end(#[trigger] m[i - 1]) <= m[i].vm_addr
}

proof fn lemma_adjacent_to_pairwise(m: Seq<RegionView>, n: int)
    requires
        0 <= n <= m.len(),
        adjacent_ordered(m, n),
        forall|i: int| 0 <= i < n ==> #[trigger] m[i].vm_addr <= region_end(m[i]),
    ensures
        forall|i: int, j: int| 0 <= i < j < n ==> region_end(#[trigger] m[i]) <= (#[trigger] m[j]).vm_addr,
    decreases n,
{
    if n > 0 {
        lemma_adjacent_to_pairwise(m, n - 1);
        assert forall|i: int, j: int| 0 <= i < j < n implies region_end(#[trigger] m[i]) <= (
        #[trigger] m[j]).vm_addr by {
            if j == n - 1 {
                assert(region_end(m[(n - 1) - 1]) <= m[n - 1].vm_addr);
                if i < n - 2 {
                    assert(region_end(m[i]) <= m[n - 2].vm_addr);
                    assert(m[n - 2].vm_addr <= region_end(m[n - 2]));
                }
            }
        }
    }
}

/// The address just past a region, where it lies within the address space.
fn region_end_checked(r: &MappedRegion) -> (e: Option<u64>)
    ensures
        region_end(r@) <= u64::MAX ==> e == Some(region_end(r@) as u64),
        region_end(r@) > u64::MAX ==> e is None,
{
    let len = r.data.len() as u64;
    let span = if r.gap_size == 0 {
        len
    } else {
        if len > u64::MAX / 2 {
            return None;
        }
        2 * len
    };
    if span > u64::MAX - r.vm_addr {
        None
    } else {
        Some(r.vm_addr + span)
    }
}

impl VmMemory {
    /// An address space of `regions`, which must be in order and not overlap.
    pub fn new(regions: Vec<MappedRegion>) -> (r: Result<VmMemory, LayoutError>)
        ensures
            non_overlapping(regions@.map_values(|x: MappedRegion| x@)) ==> r is Ok
                && r.unwrap()@ == regions@.map_values(|x: MappedRegion| x@),
            !non_overlapping(regions@.map_values(|x: MappedRegion| x@)) ==> r == Err::<
                VmMemory,
                LayoutError,
            >(LayoutError::LayoutConflict),
    {
        let ghost m = regions@.map_values(|x: MappedRegion| x@);
        let mut i: usize = 0;
        let mut prev_end: u64 = 0;
        while i < regions.len()
            invariant
                m == regions@.map_values(|x: MappedRegion| x@),
                i <= m.len(),
                m.len() == regions@.len(),
                adjacent_ordered(m, i as int),
                forall|j: int| 0 <= j < i ==> region_end(#[trigger] m[j]) <= u64::MAX,
                i > 0 ==> prev_end == region_end(m[i - 1]),
            decreases m.len() - i,
        {
            assert(m[i as int] == regions@[i as int]@);
            let end = match region_end_checked(&regions[i]) {
                Some(e) => e,
                None => {
                    return Err(LayoutError::LayoutConflict);
                },
            };
            if i > 0 && prev_end > regions[i].vm_addr {
                return Err(LayoutError::LayoutConflict);
            }
            prev_end = end;
            i = i + 1;
        }
        proof {
            lemma_adjacent_to_pairwise(m, m.len() as int);
        }
        Ok(VmMemory { regions })
    }
}

/// The regions of a run, at their fixed bases: read-only code, the stack
/// (gapped between frames where `stack_gap` is not zero), the zero-filled
/// heap, then the input regions.
pub open spec fn run_regions(
    code: RegionView,
    stack_size: int,
    stack_gap: u64,
    input: Seq<RegionView>,
) -> Seq<RegionView> {
    seq![
        code,
        RegionView {
            vm_addr: MM_STACK_START,
            gap_size: stack_gap,
            writable: true,
            data: Seq::new(stack_size as nat, |i: int| 0u8),
        },
        RegionView {
            vm_addr: MM_HEAP_START,
            gap_size: 0,
            writable: true,
            data: Seq::new(HEAP_SIZE as nat, |i: int| 0u8),
        },
    ] + input
}

/// Size of the unmapped gap between stack frames: one frame where the
/// bytecode version lays frames out with gaps and the configuration enables
/// them, none otherwise.
pub fn stack_frame_gap(version_has_gaps: bool, gaps_enabled: bool, frame_size: u64) -> (r: u64)
    ensures
        r == if version_has_gaps && gaps_enabled {
            frame_size
        } else {
            0
        },
{
    if version_has_gaps && gaps_enabled {
        frame_size
    } else {
        0
    }
}

/// `n` zero bytes, computed.
fn zeroed(n: usize) -> (v: Vec<u8>)
    ensures
        v@ == Seq::new(n as nat, |i: int| 0u8),
{
    let mut v: Vec<u8> = Vec::new();
    let mut k: usize = 0;
    while k < n
        invariant
            k <= n,
            v@ == Seq::new(k as nat, |i: int| 0u8),
        decreases n - k,
    {
        v.push(0u8);
        k = k + 1;
        assert(v@ =~= Seq::new(k as nat, |i: int| 0u8));
    }
    v
}

/// Assembles the address space of a run from the code region, a stack of
/// `stack_size` bytes and the input regions; fails where any two overlap.
pub fn assemble_memory(
    code: MappedRegion,
    stack_size: usize,
    stack_gap: u64,
    input: Vec<MappedRegion>,
) -> (r: Result<VmMemory, LayoutError>)
    ensures
        ({
            let all = run_regions(
                code@,
                stack_size as int,
                stack_gap,
                input@.map_values(|x: MappedRegion| x@),
            );
            &&& non_overlapping(all) ==> r is Ok && r.unwrap()@ == all
            &&& !non_overlapping(all) ==> r == Err::<VmMemory, LayoutError>(
                LayoutError::LayoutConflict,
            )
        }),
{
    let ghost code_view = code@;
    let ghost input_view = input@.map_values(|x: MappedRegion| x@);
    let mut regions: Vec<MappedRegion> = Vec::new();
    regions.push(code);
    regions.push(
        MappedRegion {
            vm_addr: MM_STACK_START,
            gap_size: stack_gap,
            writable: true,
            data: zeroed(stack_size),
        },
    );
    regions.push(
        MappedRegion {
            vm_addr: MM_HEAP_START,
            gap_size: 0,
            writable: true,
            data: zeroed(HEAP_SIZE as usize),
        },
    );
    let mut input = input;
    regions.append(&mut input);
    proof {
        let all = run_regions(code_view, stack_size as int, stack_gap, input_view);
        assert(regions@.map_values(|x: MappedRegion| x@).len() == all.len());
        assert(forall|k: int| 0 <= k < all.len() ==> regions@.map_values(|x: MappedRegion| x@)[k] == all[k]);
        assert(regions@.map_values(|x: MappedRegion| x@) =~= all);
    }
    VmMemory::new(regions)
}

/// The input region `r` of a buffer mapped at the input base, with its bytes.
pub open spec fn input_region_view(bytes: Seq<u8>, r: VmRegion) -> RegionView {
    RegionView {
        vm_addr: r.vm_addr,
        gap_size: 0,
        writable: r.writable,
        data: bytes.subrange(r.vm_addr - MM_INPUT_START, r.vm_addr - MM_INPUT_START + r.len),
    }
}

/// The region lies, contiguous, within a buffer of `n` bytes mapped at the input base.
pub open spec fn input_region_fits(r: VmRegion, n: int) -> bool {
    &&& r.gap_size == 0
    &&& MM_INPUT_START <= r.vm_addr
    &&& r.vm_addr - MM_INPUT_START + r.len <= n
}

/// Binds the serializer's input regions to copies of their bytes, ready to
/// join the address space.
pub fn map_input_regions(memory: &AlignedMemory<HOST_ALIGN>, regions: &Vec<VmRegion>) -> (r: Vec<
    MappedRegion,
>)
    requires
        forall|i: int|
            0 <= i < regions@.len() ==> input_region_fits(
                #[trigger] regions@[i],
                aligned_bytes(*memory).len() as int,
            ),
    ensures
        r@.map_values(|x: MappedRegion| x@) == regions@.map_values(
            |x: VmRegion| input_region_view(aligned_bytes(*memory), x),
        ),
{
    let bytes = aligned_as_slice(memory);
    let n = bytes.len();
    let mut out: Vec<MappedRegion> = Vec::new();
    let mut i: usize = 0;
    while i < regions.len()
        invariant
            bytes@ == aligned_bytes(*memory),
            n == bytes@.len(),
            i <= regions@.len(),
            forall|j: int|
                0 <= j < regions@.len() ==> input_region_fits(
                    #[trigger] regions@[j],
                    bytes@.len() as int,
                ),
            out@.len() == i,
            forall|j: int|
                0 <= j < i ==> (#[trigger] out@[j])@ == input_region_view(bytes@, regions@[j]),
        decreases regions@.len() - i,
    {
        let r = regions[i];
        assert(input_region_fits(regions@[i as int], bytes@.len() as int));
        let start = (r.vm_addr - MM_INPUT_START) as usize;
        let len = r.len as usize;
        let mut data: Vec<u8> = Vec::new();
        let mut k: usize = 0;
        while k < len
            invariant
                start + len <= bytes@.len(),
                n == bytes@.len(),
                k <= len,
                data@ == bytes@.subrange(start as int, start + k),
            decreases len - k,
        {
            data.push(bytes[start + k]);
            k = k + 1;
            assert(data@ =~= bytes@.subrange(start as int, start + k));
        }
        let m = MappedRegion { vm_addr: r.vm_addr, gap_size: 0, writable: r.writable, data };
        assert(m@ =~= input_region_view(bytes@, regions@[i as int]));
        out.push(m);
        i = i + 1;
    }
    assert(out@.map_values(|x: MappedRegion| x@) =~= regions@.map_values(
        |x: VmRegion| input_region_view(bytes@, x),
    ));
    out
}

} // verus!
