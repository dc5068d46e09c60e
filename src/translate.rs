//! Page-table walks that turn a virtual address into a physical one.

use vstd::prelude::*;

use crate::address::{Address, Length};
use crate::arch::{Architecture, ByteOrder, InstructionSet};
use crate::codec::{decode_uint, le_value};
use crate::mem::{phys_range, Error, PhysicalRead};

verus! {

/// Number of table levels from the root to the page table.
pub open spec fn levels(isa: InstructionSet) -> nat {
    match isa {
        InstructionSet::X64 => 4,
        InstructionSet::X86Pae => 3,
        InstructionSet::X86 => 2,
    }
}

/// Bytes in one page-table entry.
pub open spec fn entry_size(isa: InstructionSet) -> nat {
    match isa {
        InstructionSet::X64 => 8,
        InstructionSet::X86Pae => 8,
        InstructionSet::X86 => 4,
    }
}

/// Position of the lowest bit of the table index at `level`.
pub open spec fn level_shift(isa: InstructionSet, level: nat) -> u64 {
    match isa {
        InstructionSet::X64 => if level == 0 {
            39
        } else if level == 1 {
            30
        } else if level == 2 {
            21
        } else {
            12
        },
        InstructionSet::X86Pae => if level == 0 {
            30
        } else if level == 1 {
            21
        } else {
            12
        },
        InstructionSet::X86 => if level == 0 {
            22
        } else {
            12
        },
    }
}

/// Mask of the table index at `level`, once shifted down.
pub open spec fn index_mask(isa: InstructionSet, level: nat) -> u64 {
    match isa {
        InstructionSet::X64 => 0x1ff,
        InstructionSet::X86Pae => if level == 0 {
            0x3
        } else {
            0x1ff
        },
        InstructionSet::X86 => 0x3ff,
    }
}

/// Bits of an entry that hold a physical frame address.
pub open spec fn frame_mask(isa: InstructionSet) -> u64 {
    match isa {
        InstructionSet::X64 => 0x000f_ffff_ffff_f000,
        InstructionSet::X86Pae => 0x000f_ffff_ffff_f000,
        InstructionSet::X86 => 0xffff_f000,
    }
}

/// Physical base of the root table named by a directory table base.
pub open spec fn root_table(isa: InstructionSet, dtb: u64) -> u64 {
    match isa {
        InstructionSet::X64 => dtb & 0x000f_ffff_ffff_f000,
        InstructionSet::X86Pae => dtb & 0xffff_ffe0,
        InstructionSet::X86 => dtb & 0xffff_f000,
    }
}

/// Whether an entry at `level` may map a large page.
pub open spec fn large_allowed(isa: InstructionSet, level: nat) -> bool {
    match isa {
        InstructionSet::X64 => level == 1 || level == 2,
        InstructionSet::X86Pae => level == 1,
        InstructionSet::X86 => level == 0,
    }
}

/// Low bits of the virtual address kept as the offset into a page mapped at
/// `level`.
pub open spec fn offset_mask(isa: InstructionSet, level: nat) -> u64 {
    if level_shift(isa, level) == 39 {
        0x7f_ffff_ffff
    } else if level_shift(isa, level) == 30 {
        0x3fff_ffff
    } else if level_shift(isa, level) == 22 {
        0x3f_ffff
    } else if level_shift(isa, level) == 21 {
        0x1f_ffff
    } else {
        0xfff
    }
}

pub open spec fn present(entry: u64) -> bool {
    entry & 1 != 0
}

pub open spec fn large(entry: u64) -> bool {
    entry & 0x80 != 0
}

/// Physical address of the entry for `vaddr` in the table at `table`.
pub open spec fn entry_addr(isa: InstructionSet, level: nat, table: u64, vaddr: u64) -> int {
    table + ((vaddr >> level_shift(isa, level)) & index_mask(isa, level)) * entry_size(isa)
}

/// Whether a present entry at `level` ends the walk.
pub open spec fn terminal(isa: InstructionSet, level: nat, entry: u64) -> bool {
    level + 1 == levels(isa) || (large_allowed(isa, level) && large(entry))
}

/// The physical address that a terminal entry maps `vaddr` to.
pub open spec fn mapped_addr(isa: InstructionSet, level: nat, entry: u64, vaddr: u64) -> u64 {
    (entry & frame_mask(isa) & !offset_mask(isa, level)) | (vaddr & offset_mask(isa, level))
}

/// The entry stored at physical address `at`.
pub open spec fn entry_at(isa: InstructionSet, mem: Seq<u8>, at: int) -> u64 {
    le_value(phys_range(mem, at, entry_size(isa) as int)) as u64
}

/// The walk from the table at `table`, on `level`, down to the mapping of
/// `vaddr`, over the physical memory `mem`.
pub open spec fn walk(
    isa: InstructionSet,
    mem: Seq<u8>,
    table: u64,
    level: nat,
    vaddr: u64,
) -> Result<u64, Error>
    decreases levels(isa) - level,
{
    if level >= levels(isa) {
        Err(Error::TranslationFault(level as usize))
    } else {
        let at = entry_addr(isa, level, table, vaddr);
        if at + entry_size(isa) > mem.len() {
            Err(Error::Io)
        } else {
            let e = entry_at(isa, mem, at);
            if !present(e) {
                Err(Error::TranslationFault(level as usize))
            } else if terminal(isa, level, e) {
                Ok(mapped_addr(isa, level, e, vaddr))
            } else {
                walk(isa, mem, e & frame_mask(isa), level + 1, vaddr)
            }
        }
    }
}

/// The physical address of `vaddr` in the address space rooted at `dtb`.
pub open spec fn translation(isa: InstructionSet, mem: Seq<u8>, dtb: u64, vaddr: u64) -> Result<
    u64,
    Error,
> {
    walk(isa, mem, root_table(isa, dtb), 0, vaddr)
}

/// The physical addresses of the entries that the walk reads, in order.
pub open spec fn walk_reads(
    isa: InstructionSet,
    mem: Seq<u8>,
    table: u64,
    level: nat,
    vaddr: u64,
) -> Seq<int>
    decreases levels(isa) - level,
{
    if level >= levels(isa) {
        Seq::empty()
    } else {
        let at = entry_addr(isa, level, table, vaddr);
        if at + entry_size(isa) > mem.len() {
            Seq::empty()
        } else {
            let e = entry_at(isa, mem, at);
            if !present(e) || terminal(isa, level, e) {
                seq![at]
            } else {
                seq![at] + walk_reads(isa, mem, e & frame_mask(isa), level + 1, vaddr)
            }
        }
    }
}

/// Translating the same address twice over the same page tables gives the
/// same result.
pub proof fn lemma_translation_deterministic(
    isa: InstructionSet,
    mem1: Seq<u8>,
    mem2: Seq<u8>,
    dtb: u64,
    vaddr: u64,
)
    requires
        mem1 == mem2,
    ensures
        translation(isa, mem1, dtb, vaddr) == translation(isa, mem2, dtb, vaddr),
{
}

/// A walk from `level` that meets a not-present entry at level `k` fails
/// with a translation fault for level `k`, having read one entry on each level
/// from `level` to `k` and none below.
pub proof fn lemma_fault_stops_walk(
    isa: InstructionSet,
    mem: Seq<u8>,
    table: u64,
    level: nat,
    vaddr: u64,
    k: usize,
)
    requires
        walk(isa, mem, table, level, vaddr) == Err::<u64, Error>(Error::TranslationFault(k)),
        level < levels(isa),
    ensures
        k < levels(isa),
        level <= k,
        walk_reads(isa, mem, table, level, vaddr).len() == k - level + 1,
    decreases levels(isa) - level,
{
    let at = entry_addr(isa, level, table, vaddr);
    let e = entry_at(isa, mem, at);
    if !present(e) {
        assert(k == level);
    } else {
        lemma_fault_stops_walk(isa, mem, e & frame_mask(isa), level + 1, vaddr, k);
    }
}

/// A walk that does not fail for want of memory depends only on the entries
/// it reads: any memory that holds the same bytes there gives the same result.
pub proof fn lemma_walk_decided_by_reads(
    isa: InstructionSet,
    mem1: Seq<u8>,
    mem2: Seq<u8>,
    table: u64,
    level: nat,
    vaddr: u64,
)
    requires
        walk(isa, mem1, table, level, vaddr) != Err::<u64, Error>(Error::Io),
        forall|j: int|
            0 <= j < walk_reads(isa, mem1, table, level, vaddr).len() ==> {
                let at = #[trigger] walk_reads(isa, mem1, table, level, vaddr)[j];
                &&& at + entry_size(isa) <= mem2.len()
                &&& phys_range(mem2, at, entry_size(isa) as int) == phys_range(
                    mem1,
                    at,
                    entry_size(isa) as int,
                )
            },
    ensures
        walk(isa, mem2, table, level, vaddr) == walk(isa, mem1, table, level, vaddr),
    decreases levels(isa) - level,
{
    if level < levels(isa) {
        let at = entry_addr(isa, level, table, vaddr);
        let reads = walk_reads(isa, mem1, table, level, vaddr);
        assert(reads[0] == at);
        let e = entry_at(isa, mem1, at);
        assert(entry_at(isa, mem2, at) == e);
        if present(e) && !terminal(isa, level, e) {
            let next = e & frame_mask(isa);
            let rest = walk_reads(isa, mem1, next, level + 1, vaddr);
            assert forall|j: int| 0 <= j < rest.len() implies {
                let a = #[trigger] rest[j];
                &&& a + entry_size(isa) <= mem2.len()
                &&& phys_range(mem2, a, entry_size(isa) as int) == phys_range(
                    mem1,
                    a,
                    entry_size(isa) as int,
                )
            } by {
                assert(reads[j + 1] == rest[j]);
            }
            lemma_walk_decided_by_reads(isa, mem1, mem2, next, level + 1, vaddr);
        }
    }
}

fn levels_exec(isa: InstructionSet) -> (r: usize)
    ensures
        r == levels(isa),
{
    match isa {
        InstructionSet::X64 => 4,
        InstructionSet::X86Pae => 3,
        InstructionSet::X86 => 2,
    }
}

fn entry_size_exec(isa: InstructionSet) -> (r: usize)
    ensures
        r == entry_size(isa),
{
    match isa {
        InstructionSet::X64 => 8,
        InstructionSet::X86Pae => 8,
        InstructionSet::X86 => 4,
    }
}

fn level_shift_exec(isa: InstructionSet, level: usize) -> (r: u64)
    ensures
        r == level_shift(isa, level as nat),
        r <= 39,
{
    match isa {
        InstructionSet::X64 => if level == 0 {
            39
        } else if level == 1 {
            30
        } else if level == 2 {
            21
        } else {
            12
        },
        InstructionSet::X86Pae => if level == 0 {
            30
        } else if level == 1 {
            21
        } else {
            12
        },
        InstructionSet::X86 => if level == 0 {
            22
        } else {
            12
        },
    }
}

fn index_mask_exec(isa: InstructionSet, level: usize) -> (r: u64)
    ensures
        r == index_mask(isa, level as nat),
        r <= 0x3ff,
{
    match isa {
        InstructionSet::X64 => 0x1ff,
        InstructionSet::X86Pae => if level == 0 {
            0x3
        } else {
            0x1ff
        },
        InstructionSet::X86 => 0x3ff,
    }
}

fn frame_mask_exec(isa: InstructionSet) -> (r: u64)
    ensures
        r == frame_mask(isa),
{
    match isa {
        InstructionSet::X64 => 0x000f_ffff_ffff_f000,
        InstructionSet::X86Pae => 0x000f_ffff_ffff_f000,
        InstructionSet::X86 => 0xffff_f000,
    }
}

fn root_table_exec(isa: InstructionSet, dtb: u64) -> (r: u64)
    ensures
        r == root_table(isa, dtb),
        r <= 0x000f_ffff_ffff_ffff,
{
    match isa {
        InstructionSet::X64 => {
            assert(dtb & 0x000f_ffff_ffff_f000 <= 0x000f_ffff_ffff_ffff) by (bit_vector);
            dtb & 0x000f_ffff_ffff_f000
        },
        InstructionSet::X86Pae => {
            assert(dtb & 0xffff_ffe0 <= 0x000f_ffff_ffff_ffff) by (bit_vector);
            dtb & 0xffff_ffe0
        },
        InstructionSet::X86 => {
            assert(dtb & 0xffff_f000 <= 0x000f_ffff_ffff_ffff) by (bit_vector);
            dtb & 0xffff_f000
        },
    }
}

fn large_allowed_exec(isa: InstructionSet, level: usize) -> (r: bool)
    ensures
        r == large_allowed(isa, level as nat),
{
    match isa {
        InstructionSet::X64 => level == 1 || level == 2,
        InstructionSet::X86Pae => level == 1,
        InstructionSet::X86 => level == 0,
    }
}

fn offset_mask_exec(isa: InstructionSet, level: usize) -> (r: u64)
    ensures
        r == offset_mask(isa, level as nat),
{
    let shift = level_shift_exec(isa, level);
    if shift == 39 {
        0x7f_ffff_ffff
    } else if shift == 30 {
        0x3fff_ffff
    } else if shift == 22 {
        0x3f_ffff
    } else if shift == 21 {
        0x1f_ffff
    } else {
        0xfff
    }
}

/// A result that holds an address, with the address as a plain number.
pub open spec fn raw_result(r: Result<Address, Error>) -> Result<u64, Error> {
    match r {
        Ok(a) => Ok(a.addr),
        Err(e) => Err(e),
    }
}

/// Translates the virtual address `addr` of the address space rooted at `dtb`
/// to a physical address, by walking the page tables of the architecture.
pub fn vtop<T: PhysicalRead>(arch: Architecture, mem: &mut T, dtb: Address, addr: Address) -> (r:
    Result<Address, Error>)
    ensures
        final(mem).phys_view() == old(mem).phys_view(),
        raw_result(r) == translation(arch.instruction_set, old(mem).phys_view(), dtb.addr, addr.addr),
{
    let isa = arch.instruction_set;
    let ghost view = mem.phys_view();
    let nlevels = levels_exec(isa);
    let esize = entry_size_exec(isa);
    let fmask = frame_mask_exec(isa);
    let vaddr = addr.addr;
    let mut table = root_table_exec(isa, dtb.addr);
    let mut level: usize = 0;
    loop
        invariant
            level < nlevels,
            isa == arch.instruction_set,
            vaddr == addr.addr,
            nlevels == levels(isa),
            esize == entry_size(isa),
            esize <= 8,
            fmask == frame_mask(isa),
            table <= 0x000f_ffff_ffff_ffff,
            mem.phys_view() == view,
            view == old(mem).phys_view(),
            walk(isa, view, table, level as nat, vaddr) == translation(isa, view, dtb.addr, vaddr),
        decreases nlevels - level,
    {
        let shift = level_shift_exec(isa, level);
        let imask = index_mask_exec(isa, level);
        let index = (vaddr >> shift) & imask;
        assert(index <= 0x3ff) by (bit_vector)
            requires index == (vaddr >> shift) & imask, imask <= 0x3ff;
        assert(index * (esize as u64) <= 0x3ff * 8) by (nonlinear_arith)
            requires index <= 0x3ff, esize <= 8;
        let at = table + index * (esize as u64);
        assert(at as int == entry_addr(isa, level as nat, table, vaddr));
        let bytes = match mem.phys_read(Address { addr: at }, Length { len: esize }) {
            Ok(b) => b,
            Err(e) => {
                return Err(e);
            },
        };
        let entry = decode_uint(ByteOrder::LittleEndian, bytes.as_slice(), esize);
        assert(bytes@.subrange(0, esize as int) =~= bytes@);
        assert(entry == entry_at(isa, view, at as int));
        if entry & 1 == 0 {
            return Err(Error::TranslationFault(level));
        }
        if level + 1 == nlevels || (large_allowed_exec(isa, level) && entry & 0x80 != 0) {
            let omask = offset_mask_exec(isa, level);
            return Ok(Address { addr: (entry & fmask & !omask) | (vaddr & omask) });
        }
        assert(entry & fmask <= 0x000f_ffff_ffff_ffff) by (bit_vector)
            requires fmask == 0x000f_ffff_ffff_f000u64 || fmask == 0xffff_f000u64;
        table = entry & fmask;
        level = level + 1;
    }
}

} // verus!
