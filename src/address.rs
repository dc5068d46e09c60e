//! Plain address and length values.

use vstd::prelude::*;

verus! {

/// A 64-bit location; whether it is physical or virtual depends on the call.
#[derive(Clone, Copy, Debug, PartialEq, Eq, Structural)]
pub struct Address {
    pub addr: u64,
}

/// A byte count.
#[derive(Clone, Copy, Debug, PartialEq, Eq, Structural)]
pub struct Length {
    pub len: usize,
}

/// `a` rounded down to a multiple of `page_size`.
pub open spec fn page_aligned(a: u64, page_size: usize) -> u64
    recommends
        page_size > 0,
{
    (a - a % (page_size as u64)) as u64
}

impl Address {
    pub fn from_u64(addr: u64) -> (r: Address)
        ensures
            r.addr == addr,
    {
        Address { addr }
    }

    pub fn as_u64(&self) -> (r: u64)
        ensures
            r == self.addr,
    {
        self.addr
    }

    /// The start of the page that holds this address.
    pub fn as_page_aligned(&self, page_size: Length) -> (r: Address)
        requires
            page_size.len > 0,
        ensures
            r.addr == page_aligned(self.addr, page_size.len),
            r.addr % (page_size.len as u64) == 0,
            r.addr <= self.addr,
    {
        let ps = page_size.len as u64;
        proof {
            vstd::arithmetic::div_mod::lemma_mod_decreases(self.addr as nat, ps as nat);
        }
        let r = self.addr - self.addr % ps;
        proof {
            let a = self.addr as int;
            let p = ps as int;
            vstd::arithmetic::div_mod::lemma_fundamental_div_mod(a, p);
            vstd::arithmetic::div_mod::lemma_mod_multiples_basic(a / p, p);
            assert(a - a % p == p * (a / p));
            assert((p * (a / p)) % p == 0) by (nonlinear_arith)
                requires p > 0;
        }
        Address { addr: r }
    }
}

impl Length {
    pub fn as_usize(&self) -> (r: usize)
        ensures
            r == self.len,
    {
        self.len
    }
}

impl From<usize> for Address {
    fn from(a: usize) -> (r: Address) {
        Address { addr: a as u64 }
    }
}

impl vstd::std_specs::convert::FromSpecImpl<usize> for Address {
    open spec fn obeys_from_spec() -> bool {
        true
    }

    open spec fn from_spec(a: usize) -> Address {
        Address { addr: a as u64 }
    }
}

impl From<usize> for Length {
    fn from(n: usize) -> (r: Length) {
        Length { len: n }
    }
}

impl vstd::std_specs::convert::FromSpecImpl<usize> for Length {
    open spec fn obeys_from_spec() -> bool {
        true
    }

    open spec fn from_spec(n: usize) -> Length {
        Length { len: n }
    }
}

} // verus!
