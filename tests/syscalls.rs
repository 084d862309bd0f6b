use sbpf_guest::context::SolanaContext;
use sbpf_guest::memory::{AccessType, MappedRegion, SyscallError, VmMemory};
use sbpf_guest::syscalls::{
    compare_bytes, sol_abort, sol_log, sol_memcmp, sol_memcpy, sol_memmove, sol_memset,
};

const RO: u64 = 0x1_0000_0000;
const RW: u64 = 0x3_0000_0000;

fn memory() -> VmMemory {
    VmMemory {
        regions: vec![
            MappedRegion { vm_addr: RO, gap_size: 0, writable: false, data: b"hello, world".to_vec() },
            MappedRegion { vm_addr: RW, gap_size: 0, writable: true, data: (0u8..32).collect() },
        ],
    }
}

fn snapshot(m: &VmMemory) -> Vec<Vec<u8>> {
    m.regions.iter().map(|r| r.data.clone()).collect()
}

#[test]
fn log_returns_the_message_and_charges_one() {
    let mut ctx = SolanaContext::new(10);
    let m = memory();
    assert_eq!(sol_log(&mut ctx, &m, RO, 5), Ok("hello".to_string()));
    assert_eq!(ctx.compute_units_remaining, 9);
    assert_eq!(ctx.compute_units_consumed, 1);
}

#[test]
fn log_of_invalid_utf8_fails() {
    let mut ctx = SolanaContext::new(10);
    let m = VmMemory {
        regions: vec![MappedRegion { vm_addr: RW, gap_size: 0, writable: true, data: vec![0x66, 0xff, 0xfe] }],
    };
    assert_eq!(sol_log(&mut ctx, &m, RW, 3), Err(SyscallError::InvalidText));
    assert_eq!(sol_log(&mut ctx, &m, RW, 1), Ok("f".to_string()));
}

#[test]
fn log_beyond_the_region_faults() {
    let mut ctx = SolanaContext::new(10);
    let m = memory();
    assert_eq!(
        sol_log(&mut ctx, &m, RO + 8, 5),
        Err(SyscallError::MemoryFault { access: AccessType::Load, vm_addr: RO + 8, len: 5 })
    );
    assert_eq!(ctx.compute_units_consumed, 1);
}

#[test]
fn abort_always_fails_with_its_arguments() {
    assert_eq!(
        sol_abort(1, 2, 3, 4, 5),
        Err(SyscallError::ProgramAborted { arg1: 1, arg2: 2, arg3: 3, arg4: 4, arg5: 5 })
    );
}

#[test]
fn memcpy_copies_between_regions() {
    let mut ctx = SolanaContext::new(100);
    let mut m = memory();
    assert_eq!(sol_memcpy(&mut ctx, &mut m, RW + 4, RO, 5), Ok(0));
    assert_eq!(&m.regions[1].data[4..9], b"hello");
    assert_eq!(m.regions[1].data[3], 3);
    assert_eq!(m.regions[1].data[9], 9);
    assert_eq!(ctx.compute_units_remaining, 95);
}

#[test]
fn memmove_handles_overlap() {
    let mut ctx = SolanaContext::new(100);
    let mut m = memory();
    assert_eq!(sol_memmove(&mut ctx, &mut m, RW + 2, RW, 6), Ok(0));
    assert_eq!(&m.regions[1].data[0..10], &[0, 1, 0, 1, 2, 3, 4, 5, 8, 9]);
    assert_eq!(sol_memmove(&mut ctx, &mut m, RW, RW + 2, 6), Ok(0));
    assert_eq!(&m.regions[1].data[0..8], &[0, 1, 2, 3, 4, 5, 4, 5]);
}

#[test]
fn memset_fills_with_the_low_byte() {
    let mut ctx = SolanaContext::new(100);
    let mut m = memory();
    assert_eq!(sol_memset(&mut ctx, &mut m, RW + 30, 0x1ab, 2), Ok(0));
    assert_eq!(&m.regions[1].data[28..32], &[28, 29, 0xab, 0xab]);
    assert_eq!(ctx.compute_units_consumed, 2);
}

#[test]
fn stores_into_read_only_memory_fault_without_writing() {
    let mut ctx = SolanaContext::new(100);
    let mut m = memory();
    let before = snapshot(&m);
    assert_eq!(
        sol_memset(&mut ctx, &mut m, RO, 0, 4),
        Err(SyscallError::MemoryFault { access: AccessType::Store, vm_addr: RO, len: 4 })
    );
    assert_eq!(
        sol_memcpy(&mut ctx, &mut m, RO, RW, 4),
        Err(SyscallError::MemoryFault { access: AccessType::Store, vm_addr: RO, len: 4 })
    );
    assert_eq!(snapshot(&m), before);
}

#[test]
fn ranges_past_every_region_fault_without_writing() {
    let mut ctx = SolanaContext::new(1000);
    let mut m = memory();
    let before = snapshot(&m);
    assert_eq!(
        sol_memcpy(&mut ctx, &mut m, RW + 30, RO, 3),
        Err(SyscallError::MemoryFault { access: AccessType::Store, vm_addr: RW + 30, len: 3 })
    );
    assert_eq!(
        sol_memmove(&mut ctx, &mut m, RW, RO + 10, 3),
        Err(SyscallError::MemoryFault { access: AccessType::Load, vm_addr: RO + 10, len: 3 })
    );
    assert_eq!(
        sol_memset(&mut ctx, &mut m, u64::MAX - 1, 7, 4),
        Err(SyscallError::MemoryFault { access: AccessType::Store, vm_addr: u64::MAX - 1, len: 4 })
    );
    assert_eq!(
        sol_memcmp(&mut ctx, &m, RW, 0x9_0000_0000, 1),
        Err(SyscallError::MemoryFault { access: AccessType::Load, vm_addr: 0x9_0000_0000, len: 1 })
    );
    assert_eq!(snapshot(&m), before);
    assert_eq!(ctx.compute_units_consumed, 11);
}

#[test]
fn memcmp_returns_sign_as_a_word() {
    let mut ctx = SolanaContext::new(1000);
    let m = VmMemory {
        regions: vec![
            MappedRegion { vm_addr: RO, gap_size: 0, writable: false, data: vec![0u8; 8] },
            MappedRegion { vm_addr: RW, gap_size: 0, writable: true, data: vec![0xffu8; 8] },
        ],
    };
    assert_eq!(sol_memcmp(&mut ctx, &m, RO, RW, 8), Ok(u64::MAX));
    assert_eq!(sol_memcmp(&mut ctx, &m, RW, RO, 8), Ok(1));
    assert_eq!(sol_memcmp(&mut ctx, &m, RO, RO + 2, 6), Ok(0));
    assert_eq!(sol_memcmp(&mut ctx, &m, RO, RW, 0), Ok(0));
    assert_eq!(ctx.compute_units_consumed, 22);
}

#[test]
fn compare_bytes_is_lexicographic() {
    assert_eq!(compare_bytes(b"abc", b"abc"), 0);
    assert_eq!(compare_bytes(b"abc", b"abd"), -1);
    assert_eq!(compare_bytes(b"abd", b"abc"), 1);
    assert_eq!(compare_bytes(&[0, 0, 0], &[0xff, 0xff, 0xff]), -1);
    assert_eq!(compare_bytes(&[1, 0xff], &[2, 0]), -1);
    assert_eq!(compare_bytes(b"ab", b"abc"), -1);
    assert_eq!(compare_bytes(b"", b""), 0);
    for (a, b) in [(&b"xyz"[..], &b"xya"[..]), (b"q", b"r"), (b"same", b"same")] {
        assert_eq!(compare_bytes(a, b) as i64, a.cmp(b) as i64);
    }
}

#[test]
fn gapped_region_maps_every_other_frame() {
    let mut ctx = SolanaContext::new(1000);
    let mut m = VmMemory {
        regions: vec![MappedRegion { vm_addr: RW, gap_size: 4, writable: true, data: vec![0u8; 8] }],
    };
    assert_eq!(sol_memset(&mut ctx, &mut m, RW, 1, 4), Ok(0));
    assert_eq!(sol_memset(&mut ctx, &mut m, RW + 8, 2, 4), Ok(0));
    assert_eq!(m.regions[0].data, vec![1, 1, 1, 1, 2, 2, 2, 2]);
    assert_eq!(
        sol_memset(&mut ctx, &mut m, RW + 4, 3, 1),
        Err(SyscallError::MemoryFault { access: AccessType::Store, vm_addr: RW + 4, len: 1 })
    );
    assert_eq!(
        sol_memset(&mut ctx, &mut m, RW + 16, 3, 1),
        Err(SyscallError::MemoryFault { access: AccessType::Store, vm_addr: RW + 16, len: 1 })
    );
    assert_eq!(m.regions[0].data, vec![1, 1, 1, 1, 2, 2, 2, 2]);
}

#[test]
fn resolve_reports_region_and_offset() {
    let m = memory();
    assert_eq!(m.resolve(AccessType::Load, RO + 3, 2), Ok((0, 3)));
    assert_eq!(m.resolve(AccessType::Store, RW + 31, 1), Ok((1, 31)));
    assert_eq!(m.resolve(AccessType::Load, RW + 32, 0), Ok((1, 32)));
    assert_eq!(
        m.resolve(AccessType::Store, RO, 1),
        Err(SyscallError::MemoryFault { access: AccessType::Store, vm_addr: RO, len: 1 })
    );
    assert_eq!(m.load(RO + 7, 5), Ok(b"world".to_vec()));
}
