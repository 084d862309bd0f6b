use sbpf_guest::aligned::HOST_ALIGN;
use sbpf_guest::layout::{
    assemble_memory, map_input_regions, stack_frame_gap, VmRegion, LayoutError, HEAP_SIZE, MM_BYTECODE_START, MM_HEAP_START, MM_INPUT_START,
    MM_STACK_START,
};
use sbpf_guest::memory::{MappedRegion, VmMemory};

fn code() -> MappedRegion {
    MappedRegion { vm_addr: MM_BYTECODE_START, gap_size: 0, writable: false, data: vec![0x95; 16] }
}

fn input(len: usize) -> MappedRegion {
    MappedRegion { vm_addr: MM_INPUT_START, gap_size: 0, writable: true, data: vec![7; len] }
}

#[test]
fn run_layout_is_code_stack_heap_input() {
    let m = assemble_memory(code(), 4096 * 4, 4096, vec![input(48)]).unwrap();
    let starts: Vec<u64> = m.regions.iter().map(|r| r.vm_addr).collect();
    assert_eq!(starts, vec![MM_BYTECODE_START, MM_STACK_START, MM_HEAP_START, MM_INPUT_START]);
    assert_eq!(m.regions[1].data, vec![0u8; 4096 * 4]);
    assert_eq!(m.regions[1].gap_size, 4096);
    assert!(m.regions[1].writable);
    assert_eq!(m.regions[2].data.len() as u64, HEAP_SIZE);
    assert!(m.regions[2].data.iter().all(|b| *b == 0));
    assert!(!m.regions[0].writable);
    assert_eq!(m.regions[3].data, vec![7u8; 48]);
}

#[test]
fn overlapping_regions_are_a_conflict() {
    let big_code = MappedRegion {
        vm_addr: MM_STACK_START - 4,
        gap_size: 0,
        writable: false,
        data: vec![0; 5],
    };
    assert!(matches!(assemble_memory(big_code, 64, 0, Vec::new()), Err(LayoutError::LayoutConflict)));
    let misplaced = MappedRegion { vm_addr: MM_HEAP_START, gap_size: 0, writable: true, data: vec![1] };
    assert!(matches!(assemble_memory(code(), 64, 0, vec![misplaced]), Err(LayoutError::LayoutConflict)));
}

#[test]
fn region_running_past_the_address_space_is_a_conflict() {
    let last = MappedRegion { vm_addr: u64::MAX - 2, gap_size: 0, writable: true, data: vec![0; 4] };
    assert!(matches!(VmMemory::new(vec![last]), Err(LayoutError::LayoutConflict)));
    let fits = MappedRegion { vm_addr: u64::MAX - 4, gap_size: 0, writable: true, data: vec![0; 4] };
    assert!(VmMemory::new(vec![fits]).is_ok());
    let touching = MappedRegion { vm_addr: MM_STACK_START - 4, gap_size: 0, writable: false, data: vec![0; 4] };
    assert!(assemble_memory(touching, 64, 0, Vec::new()).is_ok());
    let gapped = assemble_memory(code(), 8, 4, vec![MappedRegion { vm_addr: MM_STACK_START + 15, gap_size: 0, writable: true, data: vec![0; 1] }]);
    assert!(matches!(gapped, Err(LayoutError::LayoutConflict)));
}

#[test]
fn fixed_bases_match_the_vm_engine() {
    assert_eq!(MM_BYTECODE_START, solana_sbpf::ebpf::MM_BYTECODE_START);
    assert_eq!(MM_STACK_START, solana_sbpf::ebpf::MM_STACK_START);
    assert_eq!(MM_HEAP_START, solana_sbpf::ebpf::MM_HEAP_START);
    assert_eq!(HEAP_SIZE, 32 * 1024);
}

#[test]
fn input_regions_carry_the_serialized_bytes() {
    let pid = sbpf_guest::pubkey::Pubkey::new_from_array([3; 32]);
    let (memory, regions, _) = sbpf_guest::serializer::Serializer::serialize_parameters(Vec::new(), &[4, 5], pid);
    let mapped = map_input_regions(&memory, &regions);
    assert_eq!(mapped.len(), 1);
    assert_eq!(mapped[0].vm_addr, MM_INPUT_START);
    assert!(mapped[0].writable);
    assert_eq!(mapped[0].data, memory.as_slice().to_vec());
    assert_eq!(mapped[0].data.len(), 8 + 8 + 2 + 32);
    let part = vec![VmRegion { vm_addr: MM_INPUT_START + 8, len: 10, writable: false, gap_size: 0 }];
    let mapped = map_input_regions(&memory, &part);
    assert_eq!(mapped[0].data, vec![2, 0, 0, 0, 0, 0, 0, 0, 4, 5]);
    assert!(!mapped[0].writable);
    let whole = assemble_memory(code(), 64, 0, map_input_regions(&memory, &regions)).unwrap();
    assert_eq!(whole.load(MM_INPUT_START + 16, 2), Ok(vec![4, 5]));
}

#[test]
fn host_alignment_matches_the_vm_engine() {
    assert_eq!(HOST_ALIGN, solana_sbpf::ebpf::HOST_ALIGN);
}

#[test]
fn stack_gap_only_where_both_version_and_config_ask() {
    assert_eq!(stack_frame_gap(true, true, 4096), 4096);
    assert_eq!(stack_frame_gap(true, false, 4096), 0);
    assert_eq!(stack_frame_gap(false, true, 4096), 0);
    assert_eq!(stack_frame_gap(false, false, 4096), 0);
}
