//! Raw physical-memory access, and an in-memory backend.

use vstd::prelude::*;

use crate::address::{Address, Length};

verus! {

/// The two failures of this library, never conflated.
#[derive(Clone, Copy, Debug, PartialEq, Eq, Structural)]
pub enum Error {
    /// The backend could not supply or accept the bytes.
    Io,
    /// The page-table entry at the given level (0 is the root) is not present.
    TranslationFault(usize),
}

/// The bytes `[addr, addr + len)` of a physical memory.
pub open spec fn phys_range(mem: Seq<u8>, addr: int, len: int) -> Seq<u8> {
    mem.subrange(addr, addr + len)
}

/// Reading raw bytes at physical addresses.
pub trait PhysicalRead {
    /// Physical memory as the backend presents it, starting at address 0.
    spec fn phys_view(&self) -> Seq<u8>;

    /// Reads `len` bytes at physical address `addr`.
    fn phys_read(&mut self, addr: Address, len: Length) -> (r: Result<Vec<u8>, Error>)
        ensures
            final(self).phys_view() == old(self).phys_view(),
            r is Ok <==> addr.addr + len.len <= old(self).phys_view().len(),
            r matches Ok(v) ==> v@ == phys_range(
                old(self).phys_view(),
                addr.addr as int,
                len.len as int,
            ),
            r matches Err(e) ==> e == Error::Io,
    ;
}

/// Writing raw bytes at physical addresses.
pub trait PhysicalWrite: PhysicalRead {
    /// Writes `data` at physical address `addr`; returns how many bytes were
    /// written.
    fn phys_write(&mut self, addr: Address, data: &Vec<u8>) -> (r: Result<Length, Error>)
        ensures
            r is Ok <==> addr.addr + data@.len() <= old(self).phys_view().len(),
            r matches Ok(n) ==> n.len == data@.len() && final(self).phys_view()
                == old(self).phys_view().subrange(0, addr.addr as int) + data@
                + old(self).phys_view().subrange(
                addr.addr + data@.len(),
                old(self).phys_view().len() as int,
            ),
            r matches Err(e) ==> e == Error::Io && final(self).phys_view() == old(
                self,
            ).phys_view(),
    ;
}

/// Physical memory held in a buffer: address `i` is byte `i`.
pub struct MemoryImage {
    pub data: Vec<u8>,
}

impl MemoryImage {
    pub fn new(data: Vec<u8>) -> (r: MemoryImage)
        ensures
            r.data@ == data@,
    {
        MemoryImage { data }
    }
}

impl PhysicalRead for MemoryImage {
    open spec fn phys_view(&self) -> Seq<u8> {
        self.data@
    }

    fn phys_read(&mut self, addr: Address, len: Length) -> (r: Result<Vec<u8>, Error>) {
        let size = self.data.len();
        if addr.addr > size as u64 || len.len > size - addr.addr as usize {
            return Err(Error::Io);
        }
        let start = addr.addr as usize;
        let mut out: Vec<u8> = Vec::new();
        let mut i: usize = 0;
        while i < len.len
            invariant
                i <= len.len,
                start + len.len <= size,
                size == self.data@.len(),
                out@ == self.data@.subrange(start as int, start + i),
            decreases len.len - i,
        {
            out.push(self.data[start + i]);
            i = i + 1;
            proof {
                assert(out@ =~= self.data@.subrange(start as int, start + i));
            }
        }
        Ok(out)
    }
}

impl PhysicalWrite for MemoryImage {
    fn phys_write(&mut self, addr: Address, data: &Vec<u8>) -> (r: Result<Length, Error>) {
        let size = self.data.len();
        if addr.addr > size as u64 || data.len() > size - addr.addr as usize {
            return Err(Error::Io);
        }
        let start = addr.addr as usize;
        let ghost before = self.data@;
        let mut i: usize = 0;
        while i < data.len()
            invariant
                i <= data@.len(),
                start + data@.len() <= size,
                size == self.data@.len(),
                before.len() == size,
                self.data@ == before.subrange(0, start as int) + data@.subrange(0, i as int)
                    + before.subrange(start + i, size as int),
            decreases data@.len() - i,
        {
            self.data.set(start + i, data[i]);
            i = i + 1;
            proof {
                assert(self.data@ =~= before.subrange(0, start as int) + data@.subrange(0, i as int)
                    + before.subrange(start + i, size as int));
            }
        }
        proof {
            assert(data@.subrange(0, data@.len() as int) =~= data@);
        }
        Ok(Length { len: data.len() })
    }
}

} // verus!
