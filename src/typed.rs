//! Virtual reads and writes of whole scalars and strings, in the target's
//! byte order.

use vstd::prelude::*;

use crate::address::{Address, Length};
use crate::arch::{spec_addr_width, spec_byte_order, Architecture};
use crate::codec::{
    bytes_of, decode_i32, decode_i64, decode_u32, decode_u64, decode_uint, encode_i32, encode_i64,
    encode_u32, encode_u64, encode_uint, pow256, to_signed, to_unsigned, value_of,
};
use crate::mem::{Error, MemoryImage};
use crate::page_chunks::{chunks, lemma_chunk_coverage, total_len};
use crate::virt::{
    bytes_result, read_chunks, virt_bytes, virt_read_phys, virt_write_phys, write_chunks,
};

verus! {

/// What `String::from_utf8_lossy` makes of the bytes `b`.
pub uninterp spec fn utf8_lossy(b: Seq<u8>) -> Seq<char>;

/// Relies on std's `String::from_utf8_lossy`: the text that the bytes encode,
/// with invalid sequences replaced; bytes that are all ASCII are valid UTF-8
/// and come out as the same characters.
#[verifier::external_body]
fn lossy_text(b: &[u8]) -> (r: String)
    ensures
        r@ == utf8_lossy(b@),
        (forall|i: int| 0 <= i < b@.len() ==> b@[i] < 128) ==> r@ == b@.map_values(
            |c: u8| c as char,
        ),
{
    String::from_utf8_lossy(b).into_owned()
}

/// The bytes before the first zero byte, or all of them if none is zero.
pub open spec fn until_nul(b: Seq<u8>) -> Seq<u8>
    decreases b.len(),
{
    if b.len() == 0 || b[0] == 0 {
        Seq::empty()
    } else {
        seq![b[0]] + until_nul(b.drop_first())
    }
}

/// `b` cut at its first zero byte.
pub fn truncate_at_nul(b: &[u8]) -> (r: Vec<u8>)
    ensures
        r@ == until_nul(b@),
{
    let mut out: Vec<u8> = Vec::new();
    let mut i: usize = 0;
    assert(b@.subrange(0, b@.len() as int) =~= b@);
    assert(out@ + until_nul(b@) =~= until_nul(b@));
    while i < b.len() && b[i] != 0
        invariant
            i <= b@.len(),
            forall|j: int| 0 <= j < i ==> b@[j] != 0,
            until_nul(b@) == out@ + until_nul(b@.subrange(i as int, b@.len() as int)),
        decreases b@.len() - i,
    {
        let ghost s = b@.subrange(i as int, b@.len() as int);
        assert(s.drop_first() =~= b@.subrange(i + 1, b@.len() as int));
        out.push(b[i]);
        i = i + 1;
        assert(until_nul(b@) =~= out@ + until_nul(b@.subrange(i as int, b@.len() as int)));
    }
    let ghost s = b@.subrange(i as int, b@.len() as int);
    assert(until_nul(s) =~= Seq::<u8>::empty());
    assert(out@ + Seq::<u8>::empty() =~= out@);
    out
}

/// The text held in `b` up to its first zero byte, decoded lossily.
pub fn decode_cstr(b: &[u8]) -> (r: String)
    ensures
        r@ == utf8_lossy(until_nul(b@)),
{
    let t = truncate_at_nul(b);
    lossy_text(t.as_slice())
}

proof fn lemma_read_chunks_len(
    isa: crate::arch::InstructionSet,
    mem: Seq<u8>,
    dtb: u64,
    cs: Seq<(int, int)>,
)
    requires
        forall|i: int| 0 <= i < cs.len() ==> #[trigger] cs[i].1 > 0,
    ensures
        read_chunks(isa, mem, dtb, cs) matches Ok(b) ==> b.len() == total_len(cs),
    decreases cs.len(),
{
    if cs.len() > 0 {
        assert forall|i: int| 0 <= i < cs.drop_first().len() implies #[trigger] cs.drop_first()[i].1
            > 0 by {
            assert(cs.drop_first()[i] == cs[i + 1]);
        }
        assert(cs[0].1 > 0);
        lemma_read_chunks_len(isa, mem, dtb, cs.drop_first());
    }
}

/// A virtual read that succeeds returns as many bytes as were asked for.
proof fn lemma_virt_bytes_len(
    isa: crate::arch::InstructionSet,
    mem: Seq<u8>,
    dtb: u64,
    addr: u64,
    len: nat,
)
    ensures
        virt_bytes(isa, mem, dtb, addr, len) matches Ok(b) ==> b.len() == len,
{
    lemma_chunk_coverage(addr as int, len as int, crate::arch::PAGE_SIZE as int);
    lemma_read_chunks_len(
        isa,
        mem,
        dtb,
        chunks(addr as int, len as int, crate::arch::PAGE_SIZE as int),
    );
}

/// Reading through virtual addresses.
pub trait VirtualRead {
    /// Physical memory behind the reads, starting at address 0.
    spec fn virt_mem(&self) -> Seq<u8>;

    /// Reads `len` bytes at virtual address `addr`.
    fn virt_read(&mut self, arch: Architecture, dtb: Address, addr: Address, len: Length) -> (r:
        Result<Vec<u8>, Error>)
        requires
            addr.addr + len.len <= u64::MAX,
        ensures
            final(self).virt_mem() == old(self).virt_mem(),
            bytes_result(r) == virt_bytes(
                arch.instruction_set,
                old(self).virt_mem(),
                dtb.addr,
                addr.addr,
                len.len as nat,
            ),
    ;

    /// Reads a pointer of the target's width.
    fn virt_read_addr(&mut self, arch: Architecture, dtb: Address, addr: Address) -> (r: Result<
        Address,
        Error,
    >)
        requires
            addr.addr + 8 <= u64::MAX,
        ensures
            final(self).virt_mem() == old(self).virt_mem(),
            ({
                let vb = virt_bytes(
                    arch.instruction_set,
                    old(self).virt_mem(),
                    dtb.addr,
                    addr.addr,
                    spec_addr_width(arch.instruction_set) as nat,
                );
                &&& r is Ok <==> vb is Ok
                &&& r matches Ok(a) ==> a.addr == value_of(
                    spec_byte_order(arch.instruction_set),
                    vb->Ok_0,
                )
                &&& r matches Err(e) ==> vb == Err::<Seq<u8>, Error>(e)
            }),
    {
        let width = arch.instruction_set.len_addr();
        let r = self.virt_read(arch, dtb, addr, width);
        proof {
            lemma_virt_bytes_len(arch.instruction_set, old(self).virt_mem(), dtb.addr, addr.addr, width.len as nat);
        }
        match r {
            Ok(b) => {
                assert(b@.subrange(0, width.len as int) =~= b@);
                Ok(Address { addr: decode_uint(arch.instruction_set.byte_order(), b.as_slice(), width.len) })
            },
            Err(e) => Err(e),
        }
    }

    fn virt_read_u64(&mut self, arch: Architecture, dtb: Address, addr: Address) -> (r: Result<
        u64,
        Error,
    >)
        requires
            addr.addr + 8 <= u64::MAX,
        ensures
            final(self).virt_mem() == old(self).virt_mem(),
            ({
                let vb = virt_bytes(arch.instruction_set, old(self).virt_mem(), dtb.addr, addr.addr, 8);
                &&& r is Ok <==> vb is Ok
                &&& r matches Ok(v) ==> v == value_of(spec_byte_order(arch.instruction_set), vb->Ok_0)
                &&& r matches Err(e) ==> vb == Err::<Seq<u8>, Error>(e)
            }),
    {
        let r = self.virt_read(arch, dtb, addr, arch.instruction_set.len_u64());
        proof {
            lemma_virt_bytes_len(arch.instruction_set, old(self).virt_mem(), dtb.addr, addr.addr, 8);
        }
        match r {
            Ok(b) => {
                assert(b@.subrange(0, 8) =~= b@);
                Ok(decode_u64(arch.instruction_set.byte_order(), b.as_slice()))
            },
            Err(e) => Err(e),
        }
    }

    fn virt_read_u32(&mut self, arch: Architecture, dtb: Address, addr: Address) -> (r: Result<
        u32,
        Error,
    >)
        requires
            addr.addr + 4 <= u64::MAX,
        ensures
            final(self).virt_mem() == old(self).virt_mem(),
            ({
                let vb = virt_bytes(arch.instruction_set, old(self).virt_mem(), dtb.addr, addr.addr, 4);
                &&& r is Ok <==> vb is Ok
                &&& r matches Ok(v) ==> v == value_of(spec_byte_order(arch.instruction_set), vb->Ok_0)
                &&& r matches Err(e) ==> vb == Err::<Seq<u8>, Error>(e)
            }),
    {
        let r = self.virt_read(arch, dtb, addr, arch.instruction_set.len_u32());
        proof {
            lemma_virt_bytes_len(arch.instruction_set, old(self).virt_mem(), dtb.addr, addr.addr, 4);
        }
        match r {
            Ok(b) => {
                assert(b@.subrange(0, 4) =~= b@);
                Ok(decode_u32(arch.instruction_set.byte_order(), b.as_slice()))
            },
            Err(e) => Err(e),
        }
    }

    fn virt_read_i64(&mut self, arch: Architecture, dtb: Address, addr: Address) -> (r: Result<
        i64,
        Error,
    >)
        requires
            addr.addr + 8 <= u64::MAX,
        ensures
            final(self).virt_mem() == old(self).virt_mem(),
            ({
                let vb = virt_bytes(arch.instruction_set, old(self).virt_mem(), dtb.addr, addr.addr, 8);
                &&& r is Ok <==> vb is Ok
                &&& r matches Ok(v) ==> v == to_signed(value_of(spec_byte_order(arch.instruction_set), vb->Ok_0), 64)
                &&& r matches Err(e) ==> vb == Err::<Seq<u8>, Error>(e)
            }),
    {
        let r = self.virt_read(arch, dtb, addr, arch.instruction_set.len_i64());
        proof {
            lemma_virt_bytes_len(arch.instruction_set, old(self).virt_mem(), dtb.addr, addr.addr, 8);
        }
        match r {
            Ok(b) => {
                assert(b@.subrange(0, 8) =~= b@);
                Ok(decode_i64(arch.instruction_set.byte_order(), b.as_slice()))
            },
            Err(e) => Err(e),
        }
    }

    fn virt_read_i32(&mut self, arch: Architecture, dtb: Address, addr: Address) -> (r: Result<
        i32,
        Error,
    >)
        requires
            addr.addr + 4 <= u64::MAX,
        ensures
            final(self).virt_mem() == old(self).virt_mem(),
            ({
                let vb = virt_bytes(arch.instruction_set, old(self).virt_mem(), dtb.addr, addr.addr, 4);
                &&& r is Ok <==> vb is Ok
                &&& r matches Ok(v) ==> v == to_signed(value_of(spec_byte_order(arch.instruction_set), vb->Ok_0), 32)
                &&& r matches Err(e) ==> vb == Err::<Seq<u8>, Error>(e)
            }),
    {
        let r = self.virt_read(arch, dtb, addr, arch.instruction_set.len_i32());
        proof {
            lemma_virt_bytes_len(arch.instruction_set, old(self).virt_mem(), dtb.addr, addr.addr, 4);
        }
        match r {
            Ok(b) => {
                assert(b@.subrange(0, 4) =~= b@);
                Ok(decode_i32(arch.instruction_set.byte_order(), b.as_slice()))
            },
            Err(e) => Err(e),
        }
    }

    /// Reads `len` bytes and returns the text before the first zero byte,
    /// decoded lossily.
    fn virt_read_cstr(&mut self, arch: Architecture, dtb: Address, addr: Address, len: Length) -> (r:
        Result<String, Error>)
        requires
            addr.addr + len.len <= u64::MAX,
        ensures
            final(self).virt_mem() == old(self).virt_mem(),
            ({
                let vb = virt_bytes(arch.instruction_set, old(self).virt_mem(), dtb.addr, addr.addr, len.len as nat);
                &&& r is Ok <==> vb is Ok
                &&& r matches Ok(s) ==> s@ == utf8_lossy(until_nul(vb->Ok_0))
                &&& r matches Err(e) ==> vb == Err::<Seq<u8>, Error>(e)
            }),
    {
        match self.virt_read(arch, dtb, addr, len) {
            Ok(b) => Ok(decode_cstr(b.as_slice())),
            Err(e) => Err(e),
        }
    }
}

impl VirtualRead for MemoryImage {
    open spec fn virt_mem(&self) -> Seq<u8> {
        self.data@
    }

    fn virt_read(&mut self, arch: Architecture, dtb: Address, addr: Address, len: Length) -> (r:
        Result<Vec<u8>, Error>)
    {
        virt_read_phys(self, arch, dtb, addr, len)
    }
}

/// What a virtual write of `data` at `addr` leaves: the memory after it, and
/// the failure that stopped it, if any.
pub open spec fn virt_written(
    arch: Architecture,
    mem: Seq<u8>,
    dtb: Address,
    addr: Address,
    data: Seq<u8>,
) -> (Seq<u8>, Option<Error>) {
    write_chunks(
        arch.instruction_set,
        mem,
        dtb.addr,
        chunks(addr.addr as int, data.len() as int, crate::arch::PAGE_SIZE as int),
        data,
    )
}

/// Whether a write's result and the memory it left are those of writing
/// `data` at `addr`.
pub open spec fn write_outcome(
    r: Result<Length, Error>,
    arch: Architecture,
    before: Seq<u8>,
    after: Seq<u8>,
    dtb: Address,
    addr: Address,
    data: Seq<u8>,
) -> bool {
    let w = virt_written(arch, before, dtb, addr, data);
    &&& after == w.0
    &&& r matches Ok(n) ==> n.len == data.len() && w.1 is None
    &&& r matches Err(e) ==> w.1 == Some(e)
    &&& w.1 is None ==> r is Ok
}

/// Writing through virtual addresses.
pub trait VirtualWrite: VirtualRead {
    /// Writes `data` at virtual address `addr`; returns how many bytes were
    /// written.
    fn virt_write(&mut self, arch: Architecture, dtb: Address, addr: Address, data: &Vec<u8>) -> (r:
        Result<Length, Error>)
        requires
            addr.addr + data@.len() <= u64::MAX,
        ensures
            write_outcome(r, arch, old(self).virt_mem(), final(self).virt_mem(), dtb, addr, data@),
    ;

    /// Writes a pointer of the target's width; the value must fit in it.
    fn virt_write_addr(&mut self, arch: Architecture, dtb: Address, addr: Address, val: Address) -> (r:
        Result<Length, Error>)
        requires
            addr.addr + 8 <= u64::MAX,
            val.addr < pow256(spec_addr_width(arch.instruction_set) as nat),
        ensures
            write_outcome(r, arch, old(self).virt_mem(), final(self).virt_mem(), dtb, addr,
                bytes_of(spec_byte_order(arch.instruction_set), val.addr as nat,
                spec_addr_width(arch.instruction_set) as nat)),
    {
        let width = arch.instruction_set.len_addr();
        let buf = encode_uint(arch.instruction_set.byte_order(), val.addr, width.len);
        self.virt_write(arch, dtb, addr, &buf)
    }

    fn virt_write_u64(&mut self, arch: Architecture, dtb: Address, addr: Address, val: u64) -> (r:
        Result<Length, Error>)
        requires
            addr.addr + 8 <= u64::MAX,
        ensures
            write_outcome(r, arch, old(self).virt_mem(), final(self).virt_mem(), dtb, addr,
                bytes_of(spec_byte_order(arch.instruction_set), val as nat, 8)),
    {
        let buf = encode_u64(arch.instruction_set.byte_order(), val);
        self.virt_write(arch, dtb, addr, &buf)
    }

    fn virt_write_u32(&mut self, arch: Architecture, dtb: Address, addr: Address, val: u32) -> (r:
        Result<Length, Error>)
        requires
            addr.addr + 4 <= u64::MAX,
        ensures
            write_outcome(r, arch, old(self).virt_mem(), final(self).virt_mem(), dtb, addr,
                bytes_of(spec_byte_order(arch.instruction_set), val as nat, 4)),
    {
        let buf = encode_u32(arch.instruction_set.byte_order(), val);
        self.virt_write(arch, dtb, addr, &buf)
    }

    fn virt_write_i64(&mut self, arch: Architecture, dtb: Address, addr: Address, val: i64) -> (r:
        Result<Length, Error>)
        requires
            addr.addr + 8 <= u64::MAX,
        ensures
            write_outcome(r, arch, old(self).virt_mem(), final(self).virt_mem(), dtb, addr,
                bytes_of(spec_byte_order(arch.instruction_set), to_unsigned(val as int, 64), 8)),
    {
        let buf = encode_i64(arch.instruction_set.byte_order(), val);
        self.virt_write(arch, dtb, addr, &buf)
    }

    fn virt_write_i32(&mut self, arch: Architecture, dtb: Address, addr: Address, val: i32) -> (r:
        Result<Length, Error>)
        requires
            addr.addr + 4 <= u64::MAX,
        ensures
            write_outcome(r, arch, old(self).virt_mem(), final(self).virt_mem(), dtb, addr,
                bytes_of(spec_byte_order(arch.instruction_set), to_unsigned(val as int, 32), 4)),
    {
        let buf = encode_i32(arch.instruction_set.byte_order(), val);
        self.virt_write(arch, dtb, addr, &buf)
    }
}

impl VirtualWrite for MemoryImage {
    fn virt_write(&mut self, arch: Architecture, dtb: Address, addr: Address, data: &Vec<u8>) -> (r:
        Result<Length, Error>)
    {
        virt_write_phys(self, arch, dtb, addr, data)
    }
}

} // verus!
