//! Native syscalls that loaded bytecode can call.
use crate::context::SolanaContext;
use crate::memory::{find_mapping, loaded_bytes, stored, AccessType, SyscallError, VmMemory};
use vstd::prelude::*;
use vstd::utf8::{decode_utf8, valid_utf8};

verus! {

/// Lexicographic comparison of two byte strings: -1, 0 or 1.
pub open spec fn lex_compare(a: Seq<u8>, b: Seq<u8>) -> int
    decreases a.len(),
{
    if a.len() == 0 {
        if b.len() == 0 {
            0
        } else {
            -1
        }
    } else if b.len() == 0 {
        1
    } else if a[0] < b[0] {
        -1
    } else if a[0] > b[0] {
        1
    } else {
        lex_compare(a.drop_first(), b.drop_first())
    }
}

/// The return word of a comparison: the signed result widened to 64 bits.
pub open spec fn compare_word(c: int) -> u64 {
    if c < 0 {
        u64::MAX
    } else if c == 0 {
        0
    } else {
        1
    }
}

proof fn lemma_lex_compare_skip(a: Seq<u8>, b: Seq<u8>, i: int)
    requires
        0 <= i < a.len(),
        i < b.len(),
        a[i] == b[i],
    ensures
        lex_compare(a.skip(i), b.skip(i)) == lex_compare(a.skip(i + 1), b.skip(i + 1)),
{
    assert(a.skip(i).drop_first() =~= a.skip(i + 1));
    assert(b.skip(i).drop_first() =~= b.skip(i + 1));
}

/// Compares two byte strings lexicographically.
pub fn compare_bytes(a: &[u8], b: &[u8]) -> (r: i32)
    ensures
        r == lex_compare(a@, b@),
{
    let mut i: usize = 0;
    proof {
        assert(a@.skip(0) =~= a@);
        assert(b@.skip(0) =~= b@);
    }
    while i < a.len() && i < b.len()
        invariant
            i <= a@.len(),
            i <= b@.len(),
            lex_compare(a@, b@) == lex_compare(a@.skip(i as int), b@.skip(i as int)),
        decreases a@.len() - i,
    {
        if a[i] < b[i] {
            return -1;
        }
        if a[i] > b[i] {
            return 1;
        }
        proof {
            lemma_lex_compare_skip(a@, b@, i as int);
        }
        i = i + 1;
    }
    if i < a.len() {
        1
    } else if i < b.len() {
        -1
    } else {
        0
    }
}

/// A byte string compares equal to itself.
pub proof fn lemma_compare_reflexive(a: Seq<u8>)
    ensures
        lex_compare(a, a) == 0,
    decreases a.len(),
{
    if a.len() > 0 {
        lemma_compare_reflexive(a.drop_first());
    }
}

/// Swapping the operands negates the comparison.
pub proof fn lemma_compare_antisymmetric(a: Seq<u8>, b: Seq<u8>)
    ensures
        lex_compare(a, b) == -lex_compare(b, a),
    decreases a.len(),
{
    if a.len() > 0 && b.len() > 0 {
        lemma_compare_antisymmetric(a.drop_first(), b.drop_first());
    }
}

/// Between byte strings of equal length, the first byte that differs
/// decides the sign.
pub proof fn lemma_compare_first_difference(a: Seq<u8>, b: Seq<u8>, k: int)
    requires
        a.len() == b.len(),
        0 <= k < a.len(),
        a.take(k) == b.take(k),
        a[k] != b[k],
    ensures
        lex_compare(a, b) == if a[k] < b[k] {
            -1
        } else {
            1
        },
    decreases k,
{
    if k > 0 {
        assert(a[0] == a.take(k)[0]);
        assert(b[0] == b.take(k)[0]);
        assert(a.drop_first().take(k - 1) =~= a.take(k).drop_first());
        assert(b.drop_first().take(k - 1) =~= b.take(k).drop_first());
        lemma_compare_first_difference(a.drop_first(), b.drop_first(), k - 1);
    }
}

/// An all-zero byte string compares below an all-0xFF one of the same length.
pub proof fn lemma_zeros_below_ones(n: nat)
    requires
        n > 0,
    ensures
        lex_compare(Seq::new(n, |i: int| 0u8), Seq::new(n, |i: int| 0xffu8)) == -1,
{
    let a = Seq::new(n, |i: int| 0u8);
    let b = Seq::new(n, |i: int| 0xffu8);
    assert(a.take(0) =~= b.take(0));
    lemma_compare_first_difference(a, b, 0);
}

/// Relies on `String::from_utf8`: it succeeds exactly on valid UTF-8, and the
/// string then holds the characters those bytes encode.
#[verifier::external_body]
fn utf8_to_string(bytes: Vec<u8>) -> (r: Option<String>)
    ensures
        r is Some <==> valid_utf8(bytes@),
        r is Some ==> r.unwrap()@ == decode_utf8(bytes@),
{
    String::from_utf8(bytes).ok()
}

/// `sol_log_`: charges one unit and returns the UTF-8 message of `len`
/// bytes at `addr`, for the run's log.
pub fn sol_log(context: &mut SolanaContext, memory: &VmMemory, addr: u64, len: u64) -> (r: Result<
    String,
    SyscallError,
>)
    requires
        old(context).wf(),
    ensures
        final(context).wf(),
        *final(context) == old(context).after_charge(1),
        find_mapping(memory@, addr as int, len as int, AccessType::Load) is None ==> r == Err::<
            String,
            SyscallError,
        >(SyscallError::MemoryFault { access: AccessType::Load, vm_addr: addr, len }),
        find_mapping(memory@, addr as int, len as int, AccessType::Load) is Some ==> {
            let bytes = loaded_bytes(memory@, addr as int, len as int);
            &&& valid_utf8(bytes) ==> r is Ok && r.unwrap()@ == decode_utf8(bytes)
            &&& !valid_utf8(bytes) ==> r == Err::<String, SyscallError>(SyscallError::InvalidText)
        },
{
    context.consume_gas(1);
    match memory.load(addr, len) {
        Ok(bytes) => match utf8_to_string(bytes) {
            Some(message) => Ok(message),
            None => Err(SyscallError::InvalidText),
        },
        Err(e) => Err(e),
    }
}

/// `abort` and `sol_panic_`: always fails, with the call's arguments; no
/// memory access and no charge.
pub fn sol_abort(arg1: u64, arg2: u64, arg3: u64, arg4: u64, arg5: u64) -> (r: Result<
    u64,
    SyscallError,
>)
    ensures
        r == Err::<u64, SyscallError>(
            SyscallError::ProgramAborted { arg1, arg2, arg3, arg4, arg5 },
        ),
{
    Err(SyscallError::ProgramAborted { arg1, arg2, arg3, arg4, arg5 })
}

/// Copies `n` bytes from `src_addr` to `dst_addr` after both ranges resolve,
/// destination first.
fn copy_checked(memory: &mut VmMemory, dst_addr: u64, src_addr: u64, n: u64) -> (r: Result<
    u64,
    SyscallError,
>)
    ensures
        find_mapping(old(memory)@, dst_addr as int, n as int, AccessType::Store) is None ==> r
            == Err::<u64, SyscallError>(
            SyscallError::MemoryFault { access: AccessType::Store, vm_addr: dst_addr, len: n },
        ) && final(memory)@ == old(memory)@,
        find_mapping(old(memory)@, dst_addr as int, n as int, AccessType::Store) is Some
            && find_mapping(old(memory)@, src_addr as int, n as int, AccessType::Load) is None ==> r
            == Err::<u64, SyscallError>(
            SyscallError::MemoryFault { access: AccessType::Load, vm_addr: src_addr, len: n },
        ) && final(memory)@ == old(memory)@,
        find_mapping(old(memory)@, dst_addr as int, n as int, AccessType::Store) is Some
            && find_mapping(old(memory)@, src_addr as int, n as int, AccessType::Load) is Some ==> r
            == Ok::<u64, SyscallError>(0) && final(memory)@ == stored(
            old(memory)@,
            dst_addr as int,
            loaded_bytes(old(memory)@, src_addr as int, n as int),
        ),
{
    match memory.resolve(AccessType::Store, dst_addr, n) {
        Ok(_) => {},
        Err(e) => {
            return Err(e);
        },
    }
    let bytes = match memory.load(src_addr, n) {
        Ok(b) => b,
        Err(e) => {
            return Err(e);
        },
    };
    match memory.store(dst_addr, bytes.as_slice()) {
        Ok(()) => Ok(0),
        Err(e) => Err(e),
    }
}

/// `sol_memcpy_`: charges `n` units and copies `n` bytes from `src_addr` to
/// `dst_addr`. The bytes copied are those the source held before the call.
pub fn sol_memcpy(
    context: &mut SolanaContext,
    memory: &mut VmMemory,
    dst_addr: u64,
    src_addr: u64,
    n: u64,
) -> (r: Result<u64, SyscallError>)
    requires
        old(context).wf(),
    ensures
        final(context).wf(),
        *final(context) == old(context).after_charge(n),
        find_mapping(old(memory)@, dst_addr as int, n as int, AccessType::Store) is None ==> r
            == Err::<u64, SyscallError>(
            SyscallError::MemoryFault { access: AccessType::Store, vm_addr: dst_addr, len: n },
        ) && final(memory)@ == old(memory)@,
        find_mapping(old(memory)@, dst_addr as int, n as int, AccessType::Store) is Some
            && find_mapping(old(memory)@, src_addr as int, n as int, AccessType::Load) is None ==> r
            == Err::<u64, SyscallError>(
            SyscallError::MemoryFault { access: AccessType::Load, vm_addr: src_addr, len: n },
        ) && final(memory)@ == old(memory)@,
        find_mapping(old(memory)@, dst_addr as int, n as int, AccessType::Store) is Some
            && find_mapping(old(memory)@, src_addr as int, n as int, AccessType::Load) is Some ==> r
            == Ok::<u64, SyscallError>(0) && final(memory)@ == stored(
            old(memory)@,
            dst_addr as int,
            loaded_bytes(old(memory)@, src_addr as int, n as int),
        ),
{
    context.consume_gas(n);
    copy_checked(memory, dst_addr, src_addr, n)
}

/// `sol_memmove_`: charges `n` units and copies `n` bytes from `src_addr` to
/// `dst_addr`, correct for overlapping ranges.
pub fn sol_memmove(
    context: &mut SolanaContext,
    memory: &mut VmMemory,
    dst_addr: u64,
    src_addr: u64,
    n: u64,
) -> (r: Result<u64, SyscallError>)
    requires
        old(context).wf(),
    ensures
        final(context).wf(),
        *final(context) == old(context).after_charge(n),
        find_mapping(old(memory)@, dst_addr as int, n as int, AccessType::Store) is None ==> r
            == Err::<u64, SyscallError>(
            SyscallError::MemoryFault { access: AccessType::Store, vm_addr: dst_addr, len: n },
        ) && final(memory)@ == old(memory)@,
        find_mapping(old(memory)@, dst_addr as int, n as int, AccessType::Store) is Some
            && find_mapping(old(memory)@, src_addr as int, n as int, AccessType::Load) is None ==> r
            == Err::<u64, SyscallError>(
            SyscallError::MemoryFault { access: AccessType::Load, vm_addr: src_addr, len: n },
        ) && final(memory)@ == old(memory)@,
        find_mapping(old(memory)@, dst_addr as int, n as int, AccessType::Store) is Some
            && find_mapping(old(memory)@, src_addr as int, n as int, AccessType::Load) is Some ==> r
            == Ok::<u64, SyscallError>(0) && final(memory)@ == stored(
            old(memory)@,
            dst_addr as int,
            loaded_bytes(old(memory)@, src_addr as int, n as int),
        ),
{
    context.consume_gas(n);
    copy_checked(memory, dst_addr, src_addr, n)
}

/// `sol_memset_`: charges `n` units and fills `n` bytes at `addr` with the
/// low byte of `c`.
pub fn sol_memset(context: &mut SolanaContext, memory: &mut VmMemory, addr: u64, c: u64, n: u64) -> (r:
    Result<u64, SyscallError>)
    requires
        old(context).wf(),
    ensures
        final(context).wf(),
        *final(context) == old(context).after_charge(n),
        find_mapping(old(memory)@, addr as int, n as int, AccessType::Store) is None ==> r == Err::<
            u64,
            SyscallError,
        >(SyscallError::MemoryFault { access: AccessType::Store, vm_addr: addr, len: n })
            && final(memory)@ == old(memory)@,
        find_mapping(old(memory)@, addr as int, n as int, AccessType::Store) is Some ==> r == Ok::<
            u64,
            SyscallError,
        >(0) && final(memory)@ == stored(
            old(memory)@,
            addr as int,
            Seq::new(n as nat, |j: int| c as u8),
        ),
{
    context.consume_gas(n);
    match memory.fill(addr, n, c as u8) {
        Ok(()) => Ok(0),
        Err(e) => Err(e),
    }
}

/// `sol_memcmp_`: charges `n` units and compares `n` bytes at `addr1` with
/// `n` bytes at `addr2`; the result is -1, 0 or 1 widened to 64 bits.
pub fn sol_memcmp(context: &mut SolanaContext, memory: &VmMemory, addr1: u64, addr2: u64, n: u64) -> (r:
    Result<u64, SyscallError>)
    requires
        old(context).wf(),
    ensures
        final(context).wf(),
        *final(context) == old(context).after_charge(n),
        find_mapping(memory@, addr1 as int, n as int, AccessType::Load) is None ==> r == Err::<
            u64,
            SyscallError,
        >(SyscallError::MemoryFault { access: AccessType::Load, vm_addr: addr1, len: n }),
        find_mapping(memory@, addr1 as int, n as int, AccessType::Load) is Some && find_mapping(
            memory@,
            addr2 as int,
            n as int,
            AccessType::Load,
        ) is None ==> r == Err::<u64, SyscallError>(
            SyscallError::MemoryFault { access: AccessType::Load, vm_addr: addr2, len: n },
        ),
        find_mapping(memory@, addr1 as int, n as int, AccessType::Load) is Some && find_mapping(
            memory@,
            addr2 as int,
            n as int,
            AccessType::Load,
        ) is Some ==> r == Ok::<u64, SyscallError>(
            compare_word(
                lex_compare(
                    loaded_bytes(memory@, addr1 as int, n as int),
                    loaded_bytes(memory@, addr2 as int, n as int),
                ),
            ),
        ),
{
    context.consume_gas(n);
    let first = match memory.load(addr1, n) {
        Ok(b) => b,
        Err(e) => {
            return Err(e);
        },
    };
    let second = match memory.load(addr2, n) {
        Ok(b) => b,
        Err(e) => {
            return Err(e);
        },
    };
    let result = compare_bytes(first.as_slice(), second.as_slice());
    if result < 0 {
        Ok(u64::MAX)
    } else if result == 0 {
        Ok(0)
    } else {
        Ok(1)
    }
}

} // verus!
