//! Byte-addressed RAM regions and the uniform word-access capability that
//! the bus uses to talk to any device.

use vstd::prelude::*;

verus! {

use crate::isa::{le16, le32};
use vstd::string::StringExecFns;

/// The capability set every bus device offers: an address window test and
/// whole-word reads and writes. Each implementor defines, as spec
/// functions, its invariant, its window, when a word access is defined,
/// what a read returns and what a write rewrites.
pub trait MemIO {
    /// The structural invariant of the device.
    spec fn inv(&self) -> bool;

    /// Whether `addr` lies inside the device's address window.
    spec fn contains(&self, addr: u32) -> bool;

    /// Whether a word access at `addr` is defined.
    spec fn word_ok(&self, addr: u32) -> bool;

    /// The word a read at `addr` returns.
    spec fn word_at(&self, addr: u32) -> u32;

    /// How a word write at `addr` rewrites the device.
    spec fn wrote(&self, pre: &Self, data: u32, addr: u32) -> bool;

    /// Whether `dump` may be called at `addr`.
    spec fn dump_ok(&self, addr: u32) -> bool;

    fn in_range(&self, addr: u32) -> (r: bool)
        requires
            self.inv(),
        ensures
            r == self.contains(addr),
    ;

    fn read_u32(&self, addr: u32) -> (r: u32)
        requires
            self.inv(),
            self.word_ok(addr),
        ensures
            r == self.word_at(addr),
    ;

    fn write_u32(&mut self, data: u32, addr: u32)
        requires
            old(self).inv(),
            old(self).word_ok(addr),
        ensures
            final(self).inv(),
            final(self).wrote(old(self), data, addr),
    ;

    fn dump(&self, addr: u32) -> String
        requires
            self.inv(),
            self.dump_ok(addr),
    ;
}

/// How `fill` rewrites a region: a copy whose target range lies inside
/// the window lands byte for byte; one that starts below the window or
/// runs past its end leaves the bytes untouched.
pub open spec fn fill_rel(pre: &Mem, post: &Mem, data: Seq<u8>, addr: u32) -> bool {
    &&& post.same_shape(pre)
    &&& post.bytes().len() == pre.bytes().len()
    &&& if addr >= pre.base() && addr + data.len() <= pre.base() + pre.len_bytes() {
        forall|j: int|
            0 <= j < pre.bytes().len() ==> post.bytes()[j] == (if addr - pre.base() <= j < addr
                - pre.base() + data.len() {
                data[j - (addr - pre.base())]
            } else {
                pre.bytes()[j]
            })
    } else {
        post.bytes() == pre.bytes()
    }
}

/// A byte store followed by a byte read at the same region address gives
/// back the stored byte, and no other byte of the region moved.
pub proof fn lemma_byte_write_read(m0: &Mem, m1: &Mem, v: u8, addr: u32)
    requires
        m0.inv(),
        m0.contains(addr),
        m1.bytes() == m0.bytes().update(addr - m0.base(), v),
    ensures
        m1.bytes()[addr - m0.base()] == v,
        forall|j: int|
            0 <= j < m0.bytes().len() && j != addr - m0.base() ==> m1.bytes()[j]
                == m0.bytes()[j],
{
}

/// A word store followed by a word read at the same region address gives
/// back the stored word, and each of its four bytes holds the matching
/// eight bits, least significant at the lowest address.
pub proof fn lemma_word_write_read(m0: &Mem, m1: &Mem, v: u32, addr: u32)
    requires
        m0.inv(),
        m0.fits(addr, 4),
        m1.wrote(m0, v, addr),
    ensures
        m1.word_at(addr) == v,
        m1.bytes()[addr - m0.base()] as u32 == v & 0xff,
        m1.bytes()[addr - m0.base() + 1] as u32 == (v >> 8) & 0xff,
        m1.bytes()[addr - m0.base() + 2] as u32 == (v >> 16) & 0xff,
        m1.bytes()[addr - m0.base() + 3] as u32 == (v >> 24) & 0xff,
{
    crate::isa::lemma_word_bytes_round_trip(v);
    crate::isa::lemma_word_store_byte_values(v);
}

/// A contiguous little-endian RAM window at `[start, start + size)`.
pub struct Mem {
    data: Vec<u8>,
    start: u32,
    size: u32,
    name: String,
}

impl Mem {
    pub closed spec fn base(&self) -> u32 {
        self.start
    }

    pub closed spec fn len_bytes(&self) -> u32 {
        self.size
    }

    pub closed spec fn bytes(&self) -> Seq<u8> {
        self.data@
    }

    pub closed spec fn name_seq(&self) -> Seq<char> {
        self.name@
    }

    /// Everything outside the region's own window but structurally tied to
    /// it stays as constructed.
    pub open spec fn same_shape(&self, other: &Mem) -> bool {
        self.base() == other.base() && self.len_bytes() == other.len_bytes()
            && self.name_seq() == other.name_seq()
    }

    /// A byte access at `addr` (width 1) is inside the window; wider
    /// accesses must also not run off its end.
    pub open spec fn fits(&self, addr: u32, width: u32) -> bool {
        self.contains(addr) && addr + width <= self.base() + self.len_bytes()
    }

    pub fn new(name: String, start: u32, size: u32) -> (r: Self)
        requires
            start + size <= 0xffffffff,
        ensures
            r.inv(),
            r.base() == start,
            r.len_bytes() == size,
            r.name_seq() == name@,
            r.bytes() == Seq::new(size as nat, |i: int| 0u8),
    {
        let mut data: Vec<u8> = Vec::new();
        let mut i: usize = 0;
        let n = size as usize;
        while i < n
            invariant
                i <= n,
                data@ == Seq::new(i as nat, |j: int| 0u8),
            decreases n - i,
        {
            data.push(0);
            i += 1;
            proof {
                assert(data@ =~= Seq::new(i as nat, |j: int| 0u8));
            }
        }
        Mem { data, start, size, name }
    }

    /// Copy `data` into the region starting at absolute address `addr`.
    /// A copy whose target range exceeds the window is silently dropped.
    pub fn fill(&mut self, data: Vec<u8>, addr: u32)
        requires
            old(self).inv(),
        ensures
            final(self).inv(),
            fill_rel(old(self), final(self), data@, addr),
    {
        let dlen = data.len();
        let in_window = addr >= self.start && (dlen as u64) <= 0xffffffffu64 && (addr as u64)
            + (dlen as u64) <= (self.start as u64) + (self.size as u64);
        if in_window {
            let pos = (addr - self.start) as usize;
            let mut i: usize = 0;
            while i < dlen
                invariant
                    i <= dlen,
                    dlen == data@.len(),
                    pos == addr - self.base(),
                    addr >= self.base(),
                    addr + data@.len() <= self.base() + self.len_bytes(),
                    self.inv(),
                    self.same_shape(old(self)),
                    self.bytes().len() == old(self).bytes().len(),
                    forall|j: int|
                        0 <= j < self.bytes().len() ==> self.bytes()[j] == (if pos <= j < pos
                            + i {
                            data@[j - pos]
                        } else {
                            old(self).bytes()[j]
                        }),
                decreases dlen - i,
            {
                self.data[pos + i] = data[i];
                i += 1;
            }
        }
    }

    pub fn match_name(&self, name: &String) -> (r: bool)
        ensures
            r <==> self.name_seq() == name@,
    {
        crate::utils::str_eq(self.name.as_str(), name.as_str())
    }

    pub fn write_u8(&mut self, data: u8, addr: u32)
        requires
            old(self).inv(),
            old(self).contains(addr),
        ensures
            final(self).inv(),
            final(self).same_shape(old(self)),
            final(self).bytes() == old(self).bytes().update(addr - old(self).base(), data),
    {
        let pos = (addr - self.start) as usize;
        self.data[pos] = data;
    }

    pub fn read_u8(&self, addr: u32) -> (r: u8)
        requires
            self.inv(),
            self.contains(addr),
        ensures
            r == self.bytes()[addr - self.base()],
    {
        let pos = (addr - self.start) as usize;
        self.data[pos]
    }

    pub fn write_u16(&mut self, data: u16, addr: u32)
        requires
            old(self).inv(),
            old(self).fits(addr, 2),
        ensures
            final(self).inv(),
            final(self).same_shape(old(self)),
            final(self).bytes() == old(self).bytes().update(
                addr - old(self).base(),
                (data & 0xff) as u8,
            ).update(addr - old(self).base() + 1, ((data >> 8) & 0xff) as u8),
    {
        let pos = (addr - self.start) as usize;
        self.data[pos] = (data & 0xff) as u8;
        self.data[pos + 1] = ((data >> 8) & 0xff) as u8;
    }

    pub fn read_u16(&self, addr: u32) -> (r: u16)
        requires
            self.inv(),
            self.fits(addr, 2),
        ensures
            r == le16(
                self.bytes()[addr - self.base()],
                self.bytes()[addr - self.base() + 1],
            ),
    {
        let pos = (addr - self.start) as usize;
        ((self.data[pos + 1] as u16) << 8) | (self.data[pos] as u16)
    }
}

impl MemIO for Mem {
    open spec fn inv(&self) -> bool {
        self.bytes().len() == self.len_bytes() && self.base() + self.len_bytes() <= 0xffffffff
    }

    open spec fn contains(&self, addr: u32) -> bool {
        self.base() <= addr < self.base() + self.len_bytes()
    }

    open spec fn word_ok(&self, addr: u32) -> bool {
        self.fits(addr, 4)
    }

    open spec fn word_at(&self, addr: u32) -> u32 {
        le32(
            self.bytes()[addr - self.base()],
            self.bytes()[addr - self.base() + 1],
            self.bytes()[addr - self.base() + 2],
            self.bytes()[addr - self.base() + 3],
        )
    }

    open spec fn wrote(&self, pre: &Mem, data: u32, addr: u32) -> bool {
        self.same_shape(pre) && self.bytes() == pre.bytes().update(
            addr - pre.base(),
            (data & 0xff) as u8,
        ).update(addr - pre.base() + 1, ((data >> 8) & 0xff) as u8).update(
            addr - pre.base() + 2,
            ((data >> 16) & 0xff) as u8,
        ).update(addr - pre.base() + 3, ((data >> 24) & 0xff) as u8)
    }

    open spec fn dump_ok(&self, addr: u32) -> bool {
        self.contains(addr) && addr - self.base() + 128 <= self.len_bytes()
    }

    fn in_range(&self, addr: u32) -> (r: bool)
        ensures
            r == self.contains(addr),
    {
        addr >= self.start && addr < self.start + self.size
    }

    fn read_u32(&self, addr: u32) -> (r: u32)
        ensures
            r == self.word_at(addr),
    {
        let pos = (addr - self.start) as usize;
        ((self.data[pos + 3] as u32) << 24) | ((self.data[pos + 2] as u32) << 16) | ((self.data[pos
            + 1] as u32) << 8) | (self.data[pos] as u32)
    }

    fn write_u32(&mut self, data: u32, addr: u32)
        ensures
            final(self).inv(),
            final(self).wrote(old(self), data, addr),
    {
        let pos = (addr - self.start) as usize;
        self.data[pos] = (data & 0xff) as u8;
        self.data[pos + 1] = ((data >> 8) & 0xff) as u8;
        self.data[pos + 2] = ((data >> 16) & 0xff) as u8;
        self.data[pos + 3] = ((data >> 24) & 0xff) as u8;
    }

    /// Render 128 bytes starting at `addr` as a hex dump. The exact text is
    /// not part of any contract.
    fn dump(&self, addr: u32) -> String {
        let pos = (addr - self.start) as usize;
        let n = self.data.len();
        let mut res = String::new();
        let mut i: usize = 0;
        while i < 128
            invariant
                i <= 128,
                pos + 128 <= self.bytes().len(),
                self.bytes().len() == n,
            decreases 128 - i,
        {
            if i % 16 == 0 {
                res.append("\n");
                crate::utils::push_hex_u32(&mut res, #[verifier::truncate] ((pos + i) as u32));
                res.append(": ");
            }
            crate::utils::push_hex_u8(&mut res, self.data[pos + i]);
            res.append(" ");
            i += 1;
        }
        res
    }
}

} // verus!
