//! Splitting a byte range into pieces that each lie within one page.

use vstd::prelude::*;

use crate::address::{Address, Length};

verus! {

/// Length of the piece that starts at `base` when `len` bytes are left:
/// the rest of the page, or what is left if that is less.
pub open spec fn first_chunk_len(base: int, len: int, page_size: int) -> int {
    let room = page_size - base % page_size;
    if len < room {
        len
    } else {
        room
    }
}

/// The decomposition of `[base, base + len)` into `(start, length)` pieces,
/// each within one page, in ascending order.
pub open spec fn chunks(base: int, len: int, page_size: int) -> Seq<(int, int)>
    decreases len,
{
    let k = first_chunk_len(base, len, page_size);
    if len <= 0 || page_size <= 0 || k <= 0 {
        Seq::empty()
    } else {
        seq![(base, k)] + chunks(base + k, len - k, page_size)
    }
}

/// The number of pieces, computed without building them.
pub open spec fn chunk_count(base: int, len: int, page_size: int) -> int {
    if len <= 0 {
        0
    } else {
        1 + (base % page_size + len - 1) / page_size
    }
}

/// Sum of the lengths of the pieces.
pub open spec fn total_len(s: Seq<(int, int)>) -> int
    decreases s.len(),
{
    if s.len() == 0 {
        0
    } else {
        s[0].1 + total_len(s.drop_first())
    }
}

proof fn lemma_first_chunk(base: int, len: int, page_size: int)
    requires
        len > 0,
        page_size > 0,
    ensures
        0 < first_chunk_len(base, len, page_size) <= len,
        first_chunk_len(base, len, page_size) <= page_size,
        first_chunk_len(base, len, page_size) < len ==> (base + first_chunk_len(base, len,
            page_size)) % page_size == 0,
        base % page_size == 0 && len >= page_size ==> first_chunk_len(base, len, page_size)
            == page_size,
{
    let k = first_chunk_len(base, len, page_size);
    vstd::arithmetic::div_mod::lemma_fundamental_div_mod(base, page_size);
    vstd::arithmetic::div_mod::lemma_mod_bound(base, page_size);
    if k < len {
        assert(base + k == page_size * (base / page_size) + page_size);
        let q = base / page_size;
        assert(base + k == page_size * (q + 1)) by (nonlinear_arith)
            requires
                base + k == page_size * q + page_size,
        ;
        vstd::arithmetic::div_mod::lemma_mod_multiples_basic(base / page_size + 1, page_size);
        assert((q + 1) * page_size == page_size * (q + 1)) by (nonlinear_arith);
    }
}

/// All facts about the decomposition, proved in one induction.
proof fn lemma_chunks(base: int, len: int, page_size: int)
    requires
        page_size > 0,
        len >= 0,
    ensures
        ({
            let s = chunks(base, len, page_size);
            &&& s.len() == chunk_count(base, len, page_size)
            &&& total_len(s) == len
            &&& s.len() > 0 ==> s[0].0 == base && s[0].1 == first_chunk_len(base, len, page_size)
            &&& forall|i: int| 0 <= i < s.len() ==> 0 < #[trigger] s[i].1 <= page_size
            &&& forall|i: int| 0 <= i < s.len() - 1 ==> s[i].0 + s[i].1 == #[trigger] s[i + 1].0
            &&& forall|i: int| 0 < i < s.len() ==> #[trigger] s[i].0 % page_size == 0
            &&& forall|i: int| 0 < i < s.len() - 1 ==> #[trigger] s[i].1 == page_size
        }),
    decreases len,
{
    let s = chunks(base, len, page_size);
    if len > 0 {
        lemma_first_chunk(base, len, page_size);
        let k = first_chunk_len(base, len, page_size);
        let t = chunks(base + k, len - k, page_size);
        lemma_chunks(base + k, len - k, page_size);
        assert(s == seq![(base, k)] + t);
        assert(s.drop_first() == t);
        vstd::arithmetic::div_mod::lemma_mod_bound(base, page_size);
        if k < len {
            lemma_first_chunk(base + k, len - k, page_size);
            // the tail starts on a page boundary
            let c = (base % page_size + len - 1) / page_size;
            assert(base % page_size + len - 1 == page_size + (len - k - 1));
            vstd::arithmetic::div_mod::lemma_div_plus_one(len - k - 1, page_size);
            assert((base + k) % page_size == 0);
            assert(chunk_count(base + k, len - k, page_size) == 1 + (len - k - 1) / page_size);
            assert(c == 1 + (len - k - 1) / page_size);
        } else {
            assert(t.len() == 0);
            assert(base % page_size + len - 1 < page_size);
            vstd::arithmetic::div_mod::lemma_basic_div(base % page_size + len - 1, page_size);
        }
        assert forall|i: int| 0 < i < s.len() - 1 implies #[trigger] s[i].1 == page_size by {
            assert(s[i] == t[i - 1]);
            if i == 1 {
                assert(t.len() >= 2);
                let k2 = first_chunk_len(base + k, len - k, page_size);
                assert(t == seq![(base + k, k2)] + chunks(base + k + k2, len - k - k2, page_size));
                if k2 == len - k {
                    assert(chunks(base + k + k2, 0, page_size).len() == 0);
                }
                assert(t[0].1 < len - k);
                assert(len - k >= page_size);
            }
        }
        assert forall|i: int| 0 < i < s.len() implies #[trigger] s[i].0 % page_size == 0 by {
            assert(s[i] == t[i - 1]);
        }
        assert forall|i: int| 0 <= i < s.len() - 1 implies s[i].0 + s[i].1 == #[trigger] s[i
            + 1].0 by {
            assert(s[i + 1] == t[i]);
            if i > 0 {
                assert(s[i] == t[i - 1]);
            }
        }
        assert forall|i: int| 0 <= i < s.len() implies 0 < #[trigger] s[i].1 <= page_size by {
            if i > 0 {
                assert(s[i] == t[i - 1]);
            }
        }
    }
}

/// Concatenating the pieces in order gives back exactly `[base, base + len)`:
/// the first starts at `base`, each starts where the one before ends, none is
/// empty, and their lengths add up to `len`.
pub proof fn lemma_chunk_coverage(base: int, len: int, page_size: int)
    requires
        page_size > 0,
        len >= 0,
    ensures
        ({
            let s = chunks(base, len, page_size);
            &&& total_len(s) == len
            &&& (len == 0 <==> s.len() == 0)
            &&& s.len() > 0 ==> s[0].0 == base
            &&& s.len() > 0 ==> s.last().0 + s.last().1 == base + len
            &&& forall|i: int| 0 <= i < s.len() ==> 0 < #[trigger] s[i].1
            &&& forall|i: int| 0 <= i < s.len() - 1 ==> s[i].0 + s[i].1 == #[trigger] s[i + 1].0
        }),
{
    lemma_chunks(base, len, page_size);
    if len > 0 {
        lemma_chunk_ends(base, len, page_size);
    }
}

proof fn lemma_chunk_ends(base: int, len: int, page_size: int)
    requires
        page_size > 0,
        len > 0,
    ensures
        chunks(base, len, page_size).last().0 + chunks(base, len, page_size).last().1 == base
            + len,
    decreases len,
{
    lemma_first_chunk(base, len, page_size);
    let k = first_chunk_len(base, len, page_size);
    let s = chunks(base, len, page_size);
    let t = chunks(base + k, len - k, page_size);
    assert(s == seq![(base, k)] + t);
    if k < len {
        lemma_chunk_ends(base + k, len - k, page_size);
        lemma_chunks(base + k, len - k, page_size);
        assert(s.last() == t.last());
    } else {
        assert(t.len() == 0);
    }
}

/// Every piece but the first and the last is a whole page; the first starts at
/// `base`, every later one at a page boundary, and none is longer than a page.
pub proof fn lemma_chunk_shape(base: int, len: int, page_size: int)
    requires
        page_size > 0,
        len >= 0,
    ensures
        ({
            let s = chunks(base, len, page_size);
            &&& s.len() > 0 ==> s[0].0 == base
            &&& forall|i: int| 0 < i < s.len() - 1 ==> #[trigger] s[i].1 == page_size
            &&& forall|i: int| 0 < i < s.len() ==> #[trigger] s[i].0 % page_size == 0
            &&& forall|i: int| 0 <= i < s.len() ==> #[trigger] s[i].1 <= page_size
        }),
{
    lemma_chunks(base, len, page_size);
}

/// The count given without building the pieces is the number of pieces.
pub proof fn lemma_chunk_count(base: int, len: int, page_size: int)
    requires
        page_size > 0,
        len >= 0,
    ensures
        chunks(base, len, page_size).len() == chunk_count(base, len, page_size),
{
    lemma_chunks(base, len, page_size);
}

/// Walks a borrowed buffer that stands for memory at `addr` one page-bounded
/// piece at a time.
pub struct PageChunks<'a> {
    pub buf: &'a [u8],
    pub addr: Address,
    pub page_size: Length,
}

impl<'a> PageChunks<'a> {
    pub open spec fn wf(&self) -> bool {
        &&& self.page_size.len > 0
        &&& self.addr.addr + self.buf@.len() <= u64::MAX
    }

    /// The pieces still to come.
    pub open spec fn spec_chunks(&self) -> Seq<(int, int)> {
        chunks(self.addr.addr as int, self.buf@.len() as int, self.page_size.len as int)
    }

    pub fn create_from(buf: &'a [u8], addr: Address, page_size: Length) -> (r: PageChunks<'a>)
        requires
            page_size.len > 0,
            addr.addr + buf@.len() <= u64::MAX,
        ensures
            r.wf(),
            r.spec_chunks() == chunks(addr.addr as int, buf@.len() as int, page_size.len as int),
    {
        PageChunks { buf, addr, page_size }
    }

    /// The number of pieces still to come, as a lower and an upper bound.
    pub fn size_hint(&self) -> (r: (usize, Option<usize>))
        requires
            self.wf(),
        ensures
            r.0 == self.spec_chunks().len(),
            r.1 == Some(r.0),
    {
        let n = chunk_count_exec(self.addr, self.buf.len(), self.page_size);
        (n, Some(n))
    }

    /// The next piece: its address and the part of the buffer it covers.
    pub fn next(&mut self) -> (r: Option<(Address, &'a [u8])>)
        requires
            old(self).wf(),
        ensures
            final(self).wf(),
            final(self).page_size == old(self).page_size,
            old(self).buf@.len() == 0 ==> r is None && *final(self) == *old(self),
            old(self).buf@.len() > 0 ==> (r matches Some((a, c)) && a == old(self).addr
                && c@ == old(self).buf@.subrange(0, c@.len() as int)
                && final(self).buf@ == old(self).buf@.subrange(c@.len() as int, old(self).buf@.len() as int)
                && final(self).addr.addr == a.addr + c@.len()
                && old(self).spec_chunks() == seq![(a.addr as int, c@.len() as int)] + final(self).spec_chunks()),
    {
        if self.buf.len() == 0 {
            return None;
        }
        let k = first_chunk_len_exec(self.addr, self.buf.len(), self.page_size);
        let (head, tail) = self.buf.split_at(k);
        let a = self.addr;
        self.buf = tail;
        self.addr = Address { addr: a.addr + k as u64 };
        Some((a, head))
    }
}

/// Like `PageChunks`, over a buffer borrowed for writing: each piece is handed
/// out as its own disjoint mutable part of the buffer.
pub struct PageChunksMut<'a> {
    pub buf: &'a mut [u8],
    pub addr: Address,
    pub page_size: Length,
}

impl<'a> PageChunksMut<'a> {
    pub open spec fn wf(&self) -> bool {
        &&& self.page_size.len > 0
        &&& self.addr.addr + self.buf@.len() <= u64::MAX
    }

    /// The pieces still to come.
    pub open spec fn spec_chunks(&self) -> Seq<(int, int)> {
        chunks(self.addr.addr as int, self.buf@.len() as int, self.page_size.len as int)
    }

    pub fn create_from(buf: &'a mut [u8], addr: Address, page_size: Length) -> (r: PageChunksMut<'a>)
        requires
            page_size.len > 0,
            addr.addr + old(buf)@.len() <= u64::MAX,
        ensures
            r.wf(),
            r.spec_chunks() == chunks(addr.addr as int, old(buf)@.len() as int, page_size.len as int),
    {
        PageChunksMut { buf, addr, page_size }
    }

    /// The number of pieces still to come, as a lower and an upper bound.
    pub fn size_hint(&self) -> (r: (usize, Option<usize>))
        requires
            self.wf(),
        ensures
            r.0 == self.spec_chunks().len(),
            r.1 == Some(r.0),
    {
        let n = chunk_count_exec(self.addr, self.buf.len(), self.page_size);
        (n, Some(n))
    }

    /// The next piece: its address and the part of the buffer it covers.
    pub fn next(&mut self) -> (r: Option<(Address, &'a mut [u8])>)
        requires
            old(self).wf(),
        ensures
            final(self).wf(),
            final(self).page_size == old(self).page_size,
            old(self).buf@.len() == 0 ==> r is None,
            old(self).buf@.len() > 0 ==> (r matches Some((a, c)) && a == old(self).addr
                && c@ == old(self).buf@.subrange(0, c@.len() as int)
                && final(self).addr.addr == a.addr + c@.len()
                && old(self).spec_chunks() == seq![(a.addr as int, c@.len() as int)] + final(self).spec_chunks()),
    {
        let mut buf: &'a mut [u8] = &mut [];
        std::mem::swap(&mut buf, &mut self.buf);
        if buf.len() == 0 {
            return None;
        }
        let k = first_chunk_len_exec(self.addr, buf.len(), self.page_size);
        let (head, tail) = buf.split_at_mut(k);
        let a = self.addr;
        self.buf = tail;
        self.addr = Address { addr: a.addr + k as u64 };
        Some((a, head))
    }
}

pub(crate) fn first_chunk_len_exec(addr: Address, len: usize, page_size: Length) -> (k: usize)
    requires
        page_size.len > 0,
        len > 0,
        addr.addr + len <= u64::MAX,
    ensures
        k == first_chunk_len(addr.addr as int, len as int, page_size.len as int),
        0 < k <= len,
        chunks(addr.addr as int, len as int, page_size.len as int) == seq![(addr.addr as int, k as int)]
            + chunks(addr.addr + k, len - k, page_size.len as int),
{
    proof {
        lemma_first_chunk(addr.addr as int, len as int, page_size.len as int);
    }
    let off = (addr.addr % (page_size.len as u64)) as usize;
    let room = page_size.len - off;
    if len < room {
        len
    } else {
        room
    }
}

fn chunk_count_exec(addr: Address, len: usize, page_size: Length) -> (n: usize)
    requires
        page_size.len > 0,
    ensures
        n == chunks(addr.addr as int, len as int, page_size.len as int).len(),
{
    proof {
        lemma_chunks(addr.addr as int, len as int, page_size.len as int);
    }
    if len == 0 {
        return 0;
    }
    let ps = page_size.len as u128;
    let off = (addr.addr as u128) % ps;
    let c = 1 + (off + len as u128 - 1) / ps;
    proof {
        let s = chunks(addr.addr as int, len as int, page_size.len as int);
        assert(s.len() <= len) by {
            assert forall|i: int| 0 <= i < s.len() implies #[trigger] s[i].1 >= 1 by {}
            lemma_total_at_least_count(s);
        }
    }
    c as usize
}

proof fn lemma_total_at_least_count(s: Seq<(int, int)>)
    requires
        forall|i: int| 0 <= i < s.len() ==> #[trigger] s[i].1 >= 1,
    ensures
        total_len(s) >= s.len(),
    decreases s.len(),
{
    if s.len() > 0 {
        assert(s[0].1 >= 1);
        assert forall|i: int| 0 <= i < s.drop_first().len() implies #[trigger] s.drop_first()[i].1 >= 1 by {
            assert(s.drop_first()[i] == s[i + 1]);
        }
        lemma_total_at_least_count(s.drop_first());
    }
}

} // verus!
