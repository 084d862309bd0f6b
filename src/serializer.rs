//! Serialization of accounts and instruction data into the VM's input buffer.
use crate::account::Account;
use crate::aligned::{
    aligned_bytes, aligned_capacity, aligned_fill_write, aligned_len, aligned_with_capacity,
    aligned_write, max_aligned_len, HOST_ALIGN,
};
use crate::bytes::{lemma_u64_le_round_trip, u64_from_le, u64_le, u64_to_le_bytes};
use crate::layout::{VmRegion, MM_INPUT_START};
use crate::pubkey::Pubkey;
use solana_sbpf::aligned_memory::AlignedMemory;
use vstd::prelude::*;

verus! {

/// Alignment that the field after each account's data segment starts at.
pub const BPF_ALIGN_OF_U128: usize = 8;

/// Marker byte of an account that is not a duplicate of an earlier one.
pub const NON_DUP_MARKER: u8 = 0xff;

/// Zero bytes reserved after each account's data so that it can grow.
pub const MAX_PERMITTED_DATA_INCREASE: usize = 10_240;

/// Bytes of an account record before its data: marker, three flags, four
/// reserved bytes, identifier, owner, lamports and data length.
pub const ACCOUNT_HEADER_LEN: usize = 88;

/// Virtual address in the VM.
pub type Address = u64;

/// Where the fields of one serialized account ended up.
pub struct VmSerializedAccount {
    pub public_key_addr: Address,
    pub owner_key_addr: Address,
    pub lamports_addr: Address,
    pub data_addr: Address,
    pub original_data_len: usize,
}

/// Bytes needed after `off` to reach a multiple of eight.
pub open spec fn align_padding(off: int) -> int {
    (8 - off % 8) % 8
}

/// The byte of a flag.
pub open spec fn flag_byte(b: bool) -> u8 {
    if b {
        1
    } else {
        0
    }
}

/// `n` zero bytes.
pub open spec fn zeros(n: int) -> Seq<u8> {
    Seq::new(n as nat, |i: int| 0u8)
}

/// Offset, within one account's record, of the rent epoch when the record starts at `off`.
pub open spec fn rent_epoch_offset(a: Account, off: int) -> int {
    ACCOUNT_HEADER_LEN + a.data@.len() + MAX_PERMITTED_DATA_INCREASE + align_padding(
        off + ACCOUNT_HEADER_LEN + a.data@.len(),
    )
}

/// The record of account `a` written at buffer offset `off`.
#[verifier::opaque]
pub open spec fn account_bytes(a: Account, off: int) -> Seq<u8> {
    seq![
        NON_DUP_MARKER,
        flag_byte(a.is_signer),
        flag_byte(a.is_writable),
        flag_byte(a.executable),
        0u8,
        0u8,
        0u8,
        0u8,
    ] + a.pubkey@ + a.owner@ + u64_le(a.lamports) + u64_le(a.data@.len() as u64) + a.data@ + zeros(
        MAX_PERMITTED_DATA_INCREASE + align_padding(off + ACCOUNT_HEADER_LEN + a.data@.len()),
    ) + u64_le(a.rent_epoch)
}

/// Length of the record of account `a` written at buffer offset `off`.
pub open spec fn account_len(a: Account, off: int) -> int {
    rent_epoch_offset(a, off) + 8
}

/// Buffer offset just after the records of `accs`.
pub open spec fn accounts_end(accs: Seq<Account>) -> int
    decreases accs.len(),
{
    if accs.len() == 0 {
        8
    } else {
        let p = accounts_end(accs.drop_last());
        p + account_len(accs.last(), p)
    }
}

/// Buffer offset where the record of the `i`-th account starts.
pub open spec fn account_start(accs: Seq<Account>, i: int) -> int {
    accounts_end(accs.take(i))
}

/// The records of `accs`, one after another.
pub open spec fn accounts_bytes(accs: Seq<Account>) -> Seq<u8>
    decreases accs.len(),
{
    if accs.len() == 0 {
        Seq::empty()
    } else {
        accounts_bytes(accs.drop_last()) + account_bytes(
            accs.last(),
            accounts_end(accs.drop_last()),
        )
    }
}

/// Total length that the size pass computes.
pub open spec fn serialized_len(accs: Seq<Account>, ix_len: int) -> int {
    accounts_end(accs) + 8 + ix_len + 32
}

/// The whole input buffer: account count, account records, instruction
/// data with its length, and the program identifier.
pub open spec fn serialized_input(accs: Seq<Account>, ix: Seq<u8>, program_id: Seq<u8>) -> Seq<
    u8,
> {
    u64_le(accs.len() as u64) + accounts_bytes(accs) + u64_le(ix.len() as u64) + ix + program_id
}

/// The recorded addresses of the `i`-th account are those of its fields.
pub open spec fn handle_matches(h: VmSerializedAccount, accs: Seq<Account>, i: int) -> bool {
    let a = MM_INPUT_START + account_start(accs, i);
    &&& h.public_key_addr == a + 8
    &&& h.owner_key_addr == a + 40
    &&& h.lamports_addr == a + 72
    &&& h.data_addr == a + ACCOUNT_HEADER_LEN
    &&& h.original_data_len == accs[i].data@.len()
}

/// A record's length, and that it keeps eight-byte alignment.
pub proof fn lemma_account_len(a: Account, off: int)
    ensures
        account_bytes(a, off).len() == account_len(a, off),
        account_len(a, off) >= ACCOUNT_HEADER_LEN + a.data@.len() + MAX_PERMITTED_DATA_INCREASE
            + 8,
        off % 8 == 0 ==> (off + account_len(a, off)) % 8 == 0,
{
    reveal(account_bytes);
}

/// Where each field lies within one account's record.
pub proof fn lemma_account_fields(a: Account, off: int)
    ensures
        ({
            let rec = account_bytes(a, off);
            let d = a.data@.len() as int;
            let r = rent_epoch_offset(a, off);
            &&& rec[0] == NON_DUP_MARKER
            &&& rec[1] == flag_byte(a.is_signer)
            &&& rec[2] == flag_byte(a.is_writable)
            &&& rec[3] == flag_byte(a.executable)
            &&& rec.subrange(8, 40) == a.pubkey@
            &&& rec.subrange(40, 72) == a.owner@
            &&& rec.subrange(72, 80) == u64_le(a.lamports)
            &&& rec.subrange(80, 88) == u64_le(d as u64)
            &&& rec.subrange(88, 88 + d) == a.data@
            &&& rec.subrange(r, r + 8) == u64_le(a.rent_epoch)
        }),
{
    reveal(account_bytes);
    let rec = account_bytes(a, off);
    let d = a.data@.len() as int;
    let r = rent_epoch_offset(a, off);
    assert(rec.subrange(8, 40) =~= a.pubkey@);
    assert(rec.subrange(40, 72) =~= a.owner@);
    assert(rec.subrange(72, 80) =~= u64_le(a.lamports));
    assert(rec.subrange(80, 88) =~= u64_le(d as u64));
    assert(rec.subrange(88, 88 + d) =~= a.data@);
    assert(rec.subrange(r, r + 8) =~= u64_le(a.rent_epoch));
}

/// Each record ends where the next starts, and every record starts at a multiple of eight.
pub proof fn lemma_accounts_end(accs: Seq<Account>)
    ensures
        accounts_bytes(accs).len() == accounts_end(accs) - 8,
        accounts_end(accs) % 8 == 0,
        accounts_end(accs) >= 8,
    decreases accs.len(),
{
    if accs.len() > 0 {
        lemma_accounts_end(accs.drop_last());
        lemma_account_len(accs.last(), accounts_end(accs.drop_last()));
    }
}

/// Records end no earlier for a longer prefix.
pub proof fn lemma_accounts_end_monotone(accs: Seq<Account>, i: int, j: int)
    requires
        0 <= i <= j <= accs.len(),
    ensures
        accounts_end(accs.take(i)) <= accounts_end(accs.take(j)),
    decreases j - i,
{
    if i < j {
        lemma_accounts_end_monotone(accs, i, j - 1);
        assert(accs.take(j).drop_last() =~= accs.take(j - 1));
        lemma_account_len(accs[j - 1], accounts_end(accs.take(j - 1)));
    }
}

/// The record of the `i`-th account sits, whole, at its start offset.
pub proof fn lemma_account_record_at(accs: Seq<Account>, i: int)
    requires
        0 <= i < accs.len(),
    ensures
        account_start(accs, i) + account_len(accs[i], account_start(accs, i)) <= accounts_end(accs),
        accounts_bytes(accs).subrange(
            account_start(accs, i) - 8,
            account_start(accs, i) - 8 + account_len(accs[i], account_start(accs, i)),
        ) == account_bytes(accs[i], account_start(accs, i)),
    decreases accs.len(),
{
    let p = accs.drop_last();
    let a = account_start(accs, i);
    let len = account_len(accs[i], a);
    let ab = accounts_bytes(accs);
    let pb = accounts_bytes(p);
    let last = account_bytes(accs.last(), accounts_end(p));
    lemma_accounts_end(p);
    lemma_accounts_end(accs.take(i));
    lemma_account_len(accs.last(), accounts_end(p));
    assert(ab == pb + last);
    assert(pb.len() == accounts_end(p) - 8);
    if i == accs.len() - 1 {
        assert(accs.take(i) =~= p);
        assert(ab.subrange(a - 8, a - 8 + len) =~= last);
    } else {
        lemma_account_record_at(p, i);
        assert(p.take(i) =~= accs.take(i));
        assert(p[i] == accs[i]);
        assert(account_start(p, i) == a);
        assert(a - 8 + len <= pb.len());
        assert(ab.subrange(a - 8, a - 8 + len) =~= pb.subrange(a - 8, a - 8 + len));
    }
}

/// The size pass and the write pass agree: the buffer written holds exactly
/// as many bytes as were computed, whatever the accounts and instruction data.
pub proof fn lemma_size_write_parity(accs: Seq<Account>, ix: Seq<u8>, program_id: Seq<u8>)
    requires
        program_id.len() == 32,
    ensures
        serialized_input(accs, ix, program_id).len() == serialized_len(accs, ix.len() as int),
{
    lemma_accounts_end(accs);
}

/// Every account's record starts at a multiple of eight, and the field after
/// its data and growth padding does too.
pub proof fn lemma_account_alignment(accs: Seq<Account>, i: int)
    requires
        0 <= i < accs.len(),
    ensures
        account_start(accs, i) % 8 == 0,
        (account_start(accs, i) + rent_epoch_offset(accs[i], account_start(accs, i))) % 8 == 0,
{
    lemma_accounts_end(accs.take(i));
}

proof fn lemma_subrange_of_subrange(s: Seq<u8>, i: int, j: int, k: int, l: int)
    requires
        0 <= i <= j <= s.len(),
        0 <= k <= l <= j - i,
    ensures
        s.subrange(i, j).subrange(k, l) == s.subrange(i + k, i + l),
{
    assert(s.subrange(i, j).subrange(k, l) =~= s.subrange(i + k, i + l));
}

/// Where the parts of the whole input buffer lie.
pub proof fn lemma_input_layout(accs: Seq<Account>, ix: Seq<u8>, program_id: Seq<u8>)
    requires
        program_id.len() == 32,
    ensures
        ({
            let s = serialized_input(accs, ix, program_id);
            let e = accounts_end(accs);
            &&& s.len() == e + 40 + ix.len()
            &&& s.subrange(0, 8) == u64_le(accs.len() as u64)
            &&& s.subrange(8, e) == accounts_bytes(accs)
            &&& s.subrange(e, e + 8) == u64_le(ix.len() as u64)
            &&& s.subrange(e + 8, e + 8 + ix.len()) == ix
            &&& s.subrange(e + 8 + ix.len(), e + 40 + ix.len()) == program_id
        }),
{
    let s = serialized_input(accs, ix, program_id);
    let e = accounts_end(accs);
    lemma_accounts_end(accs);
    assert(s.subrange(0, 8) =~= u64_le(accs.len() as u64));
    assert(s.subrange(8, e) =~= accounts_bytes(accs));
    assert(s.subrange(e, e + 8) =~= u64_le(ix.len() as u64));
    assert(s.subrange(e + 8, e + 8 + ix.len()) =~= ix);
    assert(s.subrange(e + 8 + ix.len(), e + 40 + ix.len()) =~= program_id);
}

/// Reading the buffer back field by field, in the documented order, gives
/// every account's flags, identifier, owner, lamports, data and rent epoch,
/// and then the instruction data and the program identifier.
pub proof fn lemma_round_trip(accs: Seq<Account>, ix: Seq<u8>, program_id: Seq<u8>, i: int)
    requires
        program_id.len() == 32,
        0 <= i < accs.len(),
        accs.len() <= u64::MAX,
        ix.len() <= u64::MAX,
        forall|j: int| 0 <= j < accs.len() ==> (#[trigger] accs[j]).data@.len() <= u64::MAX,
    ensures
        ({
            let s = serialized_input(accs, ix, program_id);
            let a = account_start(accs, i);
            let acc = accs[i];
            let d = acc.data@.len() as int;
            let r = a + rent_epoch_offset(acc, a);
            &&& u64_from_le(s.subrange(0, 8)) == accs.len()
            &&& s[a] == NON_DUP_MARKER
            &&& s[a + 1] == flag_byte(acc.is_signer)
            &&& s[a + 2] == flag_byte(acc.is_writable)
            &&& s[a + 3] == flag_byte(acc.executable)
            &&& s.subrange(a + 8, a + 40) == acc.pubkey@
            &&& s.subrange(a + 40, a + 72) == acc.owner@
            &&& u64_from_le(s.subrange(a + 72, a + 80)) == acc.lamports
            &&& u64_from_le(s.subrange(a + 80, a + 88)) == d
            &&& s.subrange(a + 88, a + 88 + d) == acc.data@
            &&& u64_from_le(s.subrange(r, r + 8)) == acc.rent_epoch
        }),
        ({
            let s = serialized_input(accs, ix, program_id);
            let e = accounts_end(accs);
            &&& u64_from_le(s.subrange(e, e + 8)) == ix.len()
            &&& s.subrange(e + 8, e + 8 + ix.len()) == ix
            &&& s.subrange(e + 8 + ix.len(), e + 40 + ix.len()) == program_id
            &&& s.len() == e + 40 + ix.len()
        }),
{
    let s = serialized_input(accs, ix, program_id);
    let a = account_start(accs, i);
    let acc = accs[i];
    let d = acc.data@.len() as int;
    let r = rent_epoch_offset(acc, a);
    let e = accounts_end(accs);
    let len = account_len(acc, a);
    let rec = account_bytes(acc, a);
    lemma_input_layout(accs, ix, program_id);
    lemma_accounts_end(accs);
    lemma_accounts_end(accs.take(i));
    lemma_account_record_at(accs, i);
    lemma_account_len(acc, a);
    lemma_account_fields(acc, a);
    lemma_u64_le_round_trip(accs.len() as u64);
    lemma_u64_le_round_trip(acc.lamports);
    lemma_u64_le_round_trip(d as u64);
    lemma_u64_le_round_trip(acc.rent_epoch);
    lemma_u64_le_round_trip(ix.len() as u64);
    lemma_subrange_of_subrange(s, 8, e, a - 8, a - 8 + len);
    let t = s.subrange(a, a + len);
    assert(t == rec);
    lemma_subrange_of_subrange(s, a, a + len, 8, 40);
    lemma_subrange_of_subrange(s, a, a + len, 40, 72);
    lemma_subrange_of_subrange(s, a, a + len, 72, 80);
    lemma_subrange_of_subrange(s, a, a + len, 80, 88);
    lemma_subrange_of_subrange(s, a, a + len, 88, 88 + d);
    lemma_subrange_of_subrange(s, a, a + len, r, r + 8);
    assert(s[a] == t[0]);
    assert(s[a + 1] == t[1]);
    assert(s[a + 2] == t[2]);
    assert(s[a + 3] == t[3]);
}

/// Bytes needed after `off` to reach a multiple of eight, computed.
fn padding_to_align(off: usize) -> (r: usize)
    ensures
        r == align_padding(off as int),
        r < BPF_ALIGN_OF_U128,
{
    (BPF_ALIGN_OF_U128 - off % BPF_ALIGN_OF_U128) % BPF_ALIGN_OF_U128
}

/// Serializes into a host-aligned buffer that starts at a fixed virtual address.
pub struct Serializer {
    buffer: AlignedMemory<HOST_ALIGN>,
    regions: Vec<VmRegion>,
    vaddr: Address,
    region_start: usize,
}

impl Serializer {
    /// The bytes written so far.
    pub closed spec fn written(&self) -> Seq<u8> {
        aligned_bytes(self.buffer)
    }

    /// The number of bytes the buffer was created for.
    pub closed spec fn capacity(&self) -> nat {
        aligned_capacity(self.buffer)
    }

    /// Virtual address of the buffer's first byte.
    pub closed spec fn base(&self) -> int {
        self.vaddr - self.region_start
    }

    /// The regions closed so far.
    pub closed spec fn regions(&self) -> Seq<VmRegion> {
        self.regions@
    }

    /// Addresses of every byte the buffer can take fit in 64 bits, and the open
    /// region starts within what was written.
    pub closed spec fn wf(&self) -> bool {
        &&& self.region_start <= aligned_bytes(self.buffer).len()
        &&& aligned_bytes(self.buffer).len() <= aligned_capacity(self.buffer)
        &&& self.region_start <= self.vaddr
        &&& self.vaddr - self.region_start + aligned_capacity(self.buffer) <= u64::MAX
    }

    /// A serializer for a buffer of `size` bytes mapped at `start_addr`.
    pub fn new(size: usize, start_addr: Address) -> (s: Serializer)
        requires
            size <= max_aligned_len(),
            start_addr + size <= u64::MAX,
        ensures
            s.wf(),
            s.written() == Seq::<u8>::empty(),
            s.capacity() == size,
            s.base() == start_addr,
            s.regions() == Seq::<VmRegion>::empty(),
    {
        Serializer {
            buffer: aligned_with_capacity(size),
            regions: Vec::new(),
            vaddr: start_addr,
            region_start: 0,
        }
    }

    /// Appends `num` copies of `value`.
    fn fill(&mut self, num: usize, value: u8)
        requires
            old(self).wf(),
            old(self).written().len() + num <= old(self).capacity(),
        ensures
            final(self).wf(),
            final(self).written() == old(self).written() + Seq::new(num as nat, |i: int| value),
            final(self).capacity() == old(self).capacity(),
            final(self).base() == old(self).base(),
            final(self).regions() == old(self).regions(),
            final(self).region_start == old(self).region_start,
    {
        aligned_fill_write(&mut self.buffer, num, value);
    }

    /// Appends `value` and returns the virtual address it was written at.
    fn write_all(&mut self, value: &[u8]) -> (r: Address)
        requires
            old(self).wf(),
            old(self).written().len() + value@.len() <= old(self).capacity(),
        ensures
            final(self).wf(),
            r == old(self).base() + old(self).written().len(),
            final(self).written() == old(self).written() + value@,
            final(self).capacity() == old(self).capacity(),
            final(self).base() == old(self).base(),
            final(self).regions() == old(self).regions(),
            final(self).region_start == old(self).region_start,
    {
        let len = aligned_len(&self.buffer);
        let vaddr = self.vaddr + (len - self.region_start) as u64;
        aligned_write(&mut self.buffer, value);
        vaddr
    }

    /// Appends one byte and returns the virtual address it was written at.
    fn write_u8(&mut self, value: u8) -> (r: Address)
        requires
            old(self).wf(),
            old(self).written().len() + 1 <= old(self).capacity(),
        ensures
            final(self).wf(),
            r == old(self).base() + old(self).written().len(),
            final(self).written() == old(self).written().push(value),
            final(self).capacity() == old(self).capacity(),
            final(self).base() == old(self).base(),
            final(self).regions() == old(self).regions(),
            final(self).region_start == old(self).region_start,
    {
        let len = aligned_len(&self.buffer);
        let vaddr = self.vaddr + (len - self.region_start) as u64;
        aligned_fill_write(&mut self.buffer, 1, value);
        assert(self.written() =~= old(self).written().push(value));
        vaddr
    }

    /// Appends the little-endian bytes of `value` and returns the virtual
    /// address they were written at.
    fn write_u64(&mut self, value: u64) -> (r: Address)
        requires
            old(self).wf(),
            old(self).written().len() + 8 <= old(self).capacity(),
        ensures
            final(self).wf(),
            r == old(self).base() + old(self).written().len(),
            final(self).written() == old(self).written() + u64_le(value),
            final(self).capacity() == old(self).capacity(),
            final(self).base() == old(self).base(),
            final(self).regions() == old(self).regions(),
            final(self).region_start == old(self).region_start,
    {
        let bytes = u64_to_le_bytes(value);
        self.write_all(bytes.as_slice())
    }

    /// Closes the region of everything written since the last one.
    fn push_region(&mut self)
        requires
            old(self).wf(),
        ensures
            final(self).wf(),
            final(self).written() == old(self).written(),
            final(self).capacity() == old(self).capacity(),
            final(self).base() == old(self).base(),
            final(self).regions() == old(self).regions().push(
                VmRegion {
                    vm_addr: (old(self).base() + old(self).region_start) as u64,
                    len: (old(self).written().len() - old(self).region_start) as u64,
                    writable: true,
                    gap_size: 0,
                },
            ),
            final(self).region_start == old(self).written().len(),
    {
        let end = aligned_len(&self.buffer);
        let len = (end - self.region_start) as u64;
        self.regions.push(VmRegion { vm_addr: self.vaddr, len, writable: true, gap_size: 0 });
        self.region_start = end;
        self.vaddr = self.vaddr + len;
    }

    /// Closes the last region and hands out the buffer with its regions.
    fn finish(self) -> (r: (AlignedMemory<HOST_ALIGN>, Vec<VmRegion>))
        requires
            self.wf(),
        ensures
            aligned_bytes(r.0) == self.written(),
            aligned_capacity(r.0) == self.capacity(),
            r.1@ == self.regions().push(
                VmRegion {
                    vm_addr: (self.base() + self.region_start) as u64,
                    len: (self.written().len() - self.region_start) as u64,
                    writable: true,
                    gap_size: 0,
                },
            ),
    {
        let mut s = self;
        s.push_region();
        (s.buffer, s.regions)
    }

    /// Appends the account's data followed by the growth padding, sized so
    /// that the next field starts at a multiple of eight; returns the data's
    /// virtual address.
    fn write_account(&mut self, account: &Account) -> (r: Address)
        requires
            old(self).wf(),
            old(self).written().len() + account.data@.len() + MAX_PERMITTED_DATA_INCREASE
                + align_padding((old(self).written().len() + account.data@.len()) as int)
                <= old(self).capacity(),
        ensures
            final(self).wf(),
            r == old(self).base() + old(self).written().len(),
            final(self).written() == old(self).written() + account.data@ + zeros(
                MAX_PERMITTED_DATA_INCREASE + align_padding(
                    (old(self).written().len() + account.data@.len()) as int,
                ),
            ),
            final(self).capacity() == old(self).capacity(),
            final(self).base() == old(self).base(),
            final(self).regions() == old(self).regions(),
            final(self).region_start == old(self).region_start,
    {
        let vm_data_addr = self.write_all(account.data.as_slice());
        let align_offset = padding_to_align(aligned_len(&self.buffer));
        self.fill(MAX_PERMITTED_DATA_INCREASE + align_offset, 0);
        assert(self.written() =~= old(self).written() + account.data@ + zeros(
            MAX_PERMITTED_DATA_INCREASE + align_padding(
                (old(self).written().len() + account.data@.len()) as int,
            ),
        ));
        vm_data_addr
    }

    /// Appends the whole record of one account and returns where its fields went.
    fn write_account_record(&mut self, account: &Account) -> (h: VmSerializedAccount)
        requires
            old(self).wf(),
            old(self).written().len() + account_len(*account, old(self).written().len() as int)
                <= old(self).capacity(),
        ensures
            final(self).wf(),
            final(self).written() == old(self).written() + account_bytes(
                *account,
                old(self).written().len() as int,
            ),
            final(self).capacity() == old(self).capacity(),
            final(self).base() == old(self).base(),
            final(self).regions() == old(self).regions(),
            final(self).region_start == old(self).region_start,
            h.public_key_addr == old(self).base() + old(self).written().len() + 8,
            h.owner_key_addr == old(self).base() + old(self).written().len() + 40,
            h.lamports_addr == old(self).base() + old(self).written().len() + 72,
            h.data_addr == old(self).base() + old(self).written().len() + ACCOUNT_HEADER_LEN,
            h.original_data_len == account.data@.len(),
    {
        self.write_u8(NON_DUP_MARKER);
        self.write_u8(account.is_signer as u8);
        self.write_u8(account.is_writable as u8);
        self.write_u8(account.executable as u8);
        self.fill(4, 0);
        let public_key_addr = self.write_all(account.pubkey.as_ref());
        let owner_key_addr = self.write_all(account.owner.as_ref());
        let lamports_addr = self.write_u64(account.lamports);
        self.write_u64(account.data.len() as u64);
        let data_addr = self.write_account(account);
        self.write_u64(account.rent_epoch);
        reveal(account_bytes);
        assert(self.written() =~= old(self).written() + account_bytes(
            *account,
            old(self).written().len() as int,
        ));
        VmSerializedAccount {
            public_key_addr,
            owner_key_addr,
            lamports_addr,
            data_addr,
            original_data_len: account.data.len(),
        }
    }

    /// The size pass: the length of the input buffer for `accounts` and
    /// `instruction_data_len` bytes of instruction data, where an aligned
    /// buffer can be that long.
    pub fn serialized_size(accounts: &Vec<Account>, instruction_data_len: usize) -> (r: Option<
        usize,
    >)
        ensures
            serialized_len(accounts@, instruction_data_len as int) <= max_aligned_len() ==> r
                == Some(serialized_len(accounts@, instruction_data_len as int) as usize),
            serialized_len(accounts@, instruction_data_len as int) > max_aligned_len() ==> r
                == None::<usize>,
    {
        let ghost accs = accounts@;
        let limit: usize = (isize::MAX as usize) - 15;
        let mut size: usize = 8;
        let mut i: usize = 0;
        proof {
            lemma_accounts_end(accs);
            assert(accs.take(accs.len() as int) =~= accs);
        }
        while i < accounts.len()
            invariant
                accs == accounts@,
                limit == max_aligned_len(),
                i <= accs.len(),
                size == accounts_end(accs.take(i as int)),
                size <= limit,
                accs.take(accs.len() as int) == accs,
                accounts_end(accs) >= 8,
            decreases accs.len() - i,
        {
            let d = accounts[i].data.len();
            proof {
                assert(accs.take(i + 1).drop_last() =~= accs.take(i as int));
                assert(accs.take(i + 1).last() == accs[i as int]);
                lemma_accounts_end_monotone(accs, i + 1, accs.len() as int);
            }
            if limit - size < ACCOUNT_HEADER_LEN {
                return None;
            }
            let header_end = size + ACCOUNT_HEADER_LEN;
            if limit - header_end < d {
                return None;
            }
            let data_end = header_end + d;
            let rest = MAX_PERMITTED_DATA_INCREASE + padding_to_align(data_end) + 8;
            if limit - data_end < rest {
                return None;
            }
            size = data_end + rest;
            i = i + 1;
        }
        if limit - size < 40 {
            return None;
        }
        if limit - size - 40 < instruction_data_len {
            return None;
        }
        Some(size + 40 + instruction_data_len)
    }

    /// Serializes `accounts`, `instruction_data` and `program_id` into one
    /// buffer mapped at the input region's base, as one writable region, and
    /// records where each account's fields went.
    pub fn serialize_parameters(
        accounts: Vec<Account>,
        instruction_data: &[u8],
        program_id: Pubkey,
    ) -> (r: (AlignedMemory<HOST_ALIGN>, Vec<VmRegion>, Vec<VmSerializedAccount>))
        requires
            serialized_len(accounts@, instruction_data@.len() as int) <= max_aligned_len(),
        ensures
            aligned_bytes(r.0) == serialized_input(accounts@, instruction_data@, program_id@),
            aligned_capacity(r.0) == serialized_len(accounts@, instruction_data@.len() as int),
            r.1@ == seq![
                VmRegion {
                    vm_addr: MM_INPUT_START,
                    len: serialized_len(accounts@, instruction_data@.len() as int) as u64,
                    writable: true,
                    gap_size: 0,
                },
            ],
            r.2@.len() == accounts@.len(),
            forall|i: int| 0 <= i < accounts@.len() ==> handle_matches(#[trigger] r.2@[i], accounts@, i),
    {
        let ghost accs = accounts@;
        proof {
            lemma_accounts_end(accs);
        }
        let size_opt = Serializer::serialized_size(&accounts, instruction_data.len());
        let size = match size_opt {
            Some(n) => n,
            None => 0,
        };
        assert(size == serialized_len(accs, instruction_data@.len() as int));
        let mut serialized_accounts: Vec<VmSerializedAccount> = Vec::new();
        let mut s = Serializer::new(size, MM_INPUT_START);
        s.write_u64(accounts.len() as u64);
        proof {
            lemma_accounts_end(accs);
            assert(accs.take(0) =~= Seq::<Account>::empty());
            assert(s.written() =~= u64_le(accs.len() as u64) + accounts_bytes(accs.take(0)));
            assert(accs.take(accs.len() as int) =~= accs);
        }
        let mut i: usize = 0;
        while i < accounts.len()
            invariant
                accs == accounts@,
                i <= accs.len(),
                s.wf(),
                s.base() == MM_INPUT_START,
                s.region_start == 0,
                s.regions() == Seq::<VmRegion>::empty(),
                s.capacity() == serialized_len(accs, instruction_data@.len() as int),
                s.written() == u64_le(accs.len() as u64) + accounts_bytes(accs.take(i as int)),
                serialized_accounts@.len() == i,
                forall|j: int| 0 <= j < i ==> handle_matches(#[trigger] serialized_accounts@[j], accs, j),
                accs.take(accs.len() as int) == accs,
            decreases accs.len() - i,
        {
            let ghost prefix = accs.take(i as int);
            proof {
                lemma_accounts_end(prefix);
                assert(accs.take(i + 1).drop_last() =~= prefix);
                assert(accs.take(i + 1).last() == accs[i as int]);
                lemma_accounts_end_monotone(accs, i + 1, accs.len() as int);
            }
            let h = s.write_account_record(&accounts[i]);
            proof {
                assert(s.written() =~= u64_le(accs.len() as u64) + accounts_bytes(accs.take(i + 1)));
            }
            serialized_accounts.push(h);
            i = i + 1;
        }
        proof {
            lemma_accounts_end(accs);
        }
        s.write_u64(instruction_data.len() as u64);
        s.write_all(instruction_data);
        s.write_all(program_id.as_ref());
        let (memory, regions) = s.finish();
        proof {
            assert(aligned_bytes(memory) =~= serialized_input(accs, instruction_data@, program_id@));
            assert(regions@ =~= seq![
                VmRegion {
                    vm_addr: MM_INPUT_START,
                    len: serialized_len(accs, instruction_data@.len() as int) as u64,
                    writable: true,
                    gap_size: 0,
                },
            ]);
        }
        (memory, regions, serialized_accounts)
    }
}

} // verus!
