//! Reads and writes through virtual addresses: each page-bounded piece of a
//! request is translated, then moved with one physical transfer.

use vstd::prelude::*;

use crate::address::{Address, Length};
use crate::arch::{Architecture, InstructionSet, PAGE_SIZE};
use crate::mem::{phys_range, Error, PhysicalRead, PhysicalWrite};
use crate::page_chunks::{chunks, first_chunk_len_exec};
use crate::translate::{translation, vtop};

verus! {

/// The bytes behind the pieces `cs`, in order, or the first failure.
pub open spec fn read_chunks(
    isa: InstructionSet,
    mem: Seq<u8>,
    dtb: u64,
    cs: Seq<(int, int)>,
) -> Result<Seq<u8>, Error>
    decreases cs.len(),
{
    if cs.len() == 0 {
        Ok(Seq::empty())
    } else {
        match translation(isa, mem, dtb, cs[0].0 as u64) {
            Err(e) => Err(e),
            Ok(p) => if p + cs[0].1 > mem.len() {
                Err(Error::Io)
            } else {
                match read_chunks(isa, mem, dtb, cs.drop_first()) {
                    Err(e) => Err(e),
                    Ok(rest) => Ok(phys_range(mem, p as int, cs[0].1) + rest),
                }
            },
        }
    }
}

/// The `len` bytes at virtual address `addr` of the address space rooted at
/// `dtb`, or the first failure met while reading them.
pub open spec fn virt_bytes(
    isa: InstructionSet,
    mem: Seq<u8>,
    dtb: u64,
    addr: u64,
    len: nat,
) -> Result<Seq<u8>, Error> {
    read_chunks(isa, mem, dtb, chunks(addr as int, len as int, PAGE_SIZE as int))
}

/// The memory after writing `data` piece by piece over `cs`, and the failure
/// that stopped the writes, if any. Each piece is translated over the memory
/// as the writes before it left it.
pub open spec fn write_chunks(
    isa: InstructionSet,
    mem: Seq<u8>,
    dtb: u64,
    cs: Seq<(int, int)>,
    data: Seq<u8>,
) -> (Seq<u8>, Option<Error>)
    decreases cs.len(),
{
    if cs.len() == 0 {
        (mem, None)
    } else {
        match translation(isa, mem, dtb, cs[0].0 as u64) {
            Err(e) => (mem, Some(e)),
            Ok(p) => if p + cs[0].1 > mem.len() {
                (mem, Some(Error::Io))
            } else {
                let piece = data.subrange(0, cs[0].1);
                let next = mem.subrange(0, p as int) + piece + mem.subrange(
                    p + cs[0].1,
                    mem.len() as int,
                );
                write_chunks(isa, next, dtb, cs.drop_first(), data.subrange(cs[0].1, data.len() as int))
            },
        }
    }
}

pub open spec fn bytes_result(r: Result<Vec<u8>, Error>) -> Result<Seq<u8>, Error> {
    match r {
        Ok(v) => Ok(v@),
        Err(e) => Err(e),
    }
}

fn append_bytes(out: &mut Vec<u8>, b: &Vec<u8>)
    ensures
        final(out)@ == old(out)@ + b@,
{
    let ghost start = out@;
    let mut i: usize = 0;
    while i < b.len()
        invariant
            i <= b@.len(),
            out@ == start + b@.subrange(0, i as int),
        decreases b@.len() - i,
    {
        out.push(b[i]);
        i = i + 1;
        proof {
            assert(out@ =~= start + b@.subrange(0, i as int));
        }
    }
    proof {
        assert(b@.subrange(0, b@.len() as int) =~= b@);
    }
}

fn copy_range(b: &Vec<u8>, from: usize, to: usize) -> (r: Vec<u8>)
    requires
        from <= to <= b@.len(),
    ensures
        r@ == b@.subrange(from as int, to as int),
{
    let mut out: Vec<u8> = Vec::new();
    let mut i: usize = from;
    while i < to
        invariant
            from <= i <= to,
            to <= b@.len(),
            out@ == b@.subrange(from as int, i as int),
        decreases to - i,
    {
        out.push(b[i]);
        i = i + 1;
        proof {
            assert(out@ =~= b@.subrange(from as int, i as int));
        }
    }
    out
}

/// Reads `len` bytes at virtual address `addr`: each page-bounded piece is
/// translated and read at its physical address, and the pieces are joined in
/// order. Any failure fails the whole read.
pub fn virt_read_phys<T: PhysicalRead>(
    mem: &mut T,
    arch: Architecture,
    dtb: Address,
    addr: Address,
    len: Length,
) -> (r: Result<Vec<u8>, Error>)
    requires
        addr.addr + len.len <= u64::MAX,
    ensures
        final(mem).phys_view() == old(mem).phys_view(),
        bytes_result(r) == virt_bytes(
            arch.instruction_set,
            old(mem).phys_view(),
            dtb.addr,
            addr.addr,
            len.len as nat,
        ),
{
    let ghost view = mem.phys_view();
    let ghost isa = arch.instruction_set;
    let page_size = Length { len: PAGE_SIZE };
    let mut out: Vec<u8> = Vec::new();
    let mut cur = addr;
    let mut rem: usize = len.len;
    loop
        invariant
            cur.addr + rem <= u64::MAX,
            isa == arch.instruction_set,
            page_size.len == PAGE_SIZE,
            mem.phys_view() == view,
            view == old(mem).phys_view(),
            read_chunks(isa, view, dtb.addr, chunks(addr.addr as int, len.len as int, PAGE_SIZE as int))
                == match read_chunks(isa, view, dtb.addr, chunks(cur.addr as int, rem as int, PAGE_SIZE as int)) {
                    Ok(t) => Ok(out@ + t),
                    Err(e) => Err(e),
                },
        decreases rem,
    {
        if rem == 0 {
            proof {
                assert(out@ + Seq::<u8>::empty() =~= out@);
            }
            return Ok(out);
        }
        let k = first_chunk_len_exec(cur, rem, page_size);
        let ghost cs = chunks(cur.addr as int, rem as int, PAGE_SIZE as int);
        assert(cs.drop_first() =~= chunks(cur.addr + k, rem - k, PAGE_SIZE as int));
        let p = match vtop(arch, mem, dtb, cur) {
            Ok(p) => p,
            Err(e) => {
                return Err(e);
            },
        };
        let bytes = match mem.phys_read(p, Length { len: k }) {
            Ok(b) => b,
            Err(e) => {
                return Err(e);
            },
        };
        let ghost before = out@;
        append_bytes(&mut out, &bytes);
        proof {
            let rest = read_chunks(isa, view, dtb.addr, cs.drop_first());
            if rest is Ok {
                assert(out@ + rest->Ok_0 =~= before + (bytes@ + rest->Ok_0));
            }
        }
        cur = Address { addr: cur.addr + k as u64 };
        rem = rem - k;
    }
}

/// Writes `data` at virtual address `addr`: each page-bounded piece is
/// translated and written at its physical address, in order. A failure stops
/// the writes; the pieces before it stay written.
pub fn virt_write_phys<T: PhysicalWrite>(
    mem: &mut T,
    arch: Architecture,
    dtb: Address,
    addr: Address,
    data: &Vec<u8>,
) -> (r: Result<Length, Error>)
    requires
        addr.addr + data@.len() <= u64::MAX,
    ensures
        ({
            let w = write_chunks(
                arch.instruction_set,
                old(mem).phys_view(),
                dtb.addr,
                chunks(addr.addr as int, data@.len() as int, PAGE_SIZE as int),
                data@,
            );
            &&& final(mem).phys_view() == w.0
            &&& r matches Ok(n) ==> n.len == data@.len() && w.1 is None
            &&& r matches Err(e) ==> w.1 == Some(e)
        }),
{
    let ghost isa = arch.instruction_set;
    let page_size = Length { len: PAGE_SIZE };
    let ghost whole = write_chunks(
        isa,
        mem.phys_view(),
        dtb.addr,
        chunks(addr.addr as int, data@.len() as int, PAGE_SIZE as int),
        data@,
    );
    let mut cur = addr;
    let mut off: usize = 0;
    assert(data@.subrange(0, data@.len() as int) =~= data@);
    loop
        invariant
            off <= data@.len(),
            cur.addr + (data@.len() - off) <= u64::MAX,
            isa == arch.instruction_set,
            page_size.len == PAGE_SIZE,
            whole == write_chunks(
                isa,
                mem.phys_view(),
                dtb.addr,
                chunks(cur.addr as int, data@.len() - off, PAGE_SIZE as int),
                data@.subrange(off as int, data@.len() as int),
            ),
            whole == write_chunks(
                arch.instruction_set,
                old(mem).phys_view(),
                dtb.addr,
                chunks(addr.addr as int, data@.len() as int, PAGE_SIZE as int),
                data@,
            ),
        decreases data@.len() - off,
    {
        let rem = data.len() - off;
        if rem == 0 {
            return Ok(Length { len: data.len() });
        }
        let k = first_chunk_len_exec(cur, rem, page_size);
        let ghost cs = chunks(cur.addr as int, rem as int, PAGE_SIZE as int);
        assert(cs.drop_first() =~= chunks(cur.addr + k, rem - k, PAGE_SIZE as int));
        let p = match vtop(arch, mem, dtb, cur) {
            Ok(p) => p,
            Err(e) => {
                return Err(e);
            },
        };
        let piece = copy_range(data, off, off + k);
        let ghost tail = data@.subrange(off as int, data@.len() as int);
        assert(piece@ =~= tail.subrange(0, k as int));
        assert(data@.subrange(off + k, data@.len() as int) =~= tail.subrange(k as int, tail.len() as int));
        match mem.phys_write(p, &piece) {
            Ok(_) => {},
            Err(e) => {
                return Err(e);
            },
        }
        cur = Address { addr: cur.addr + k as u64 };
        off = off + k;
    }
}

} // verus!
