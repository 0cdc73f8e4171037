//! A flat byte-addressed RAM starting at address zero. All multi-byte
//! accesses are little-endian.

use vstd::prelude::*;

verus! {

use crate::isa::{le16, le32};
use vstd::string::StringExecFns;

pub struct Ram {
    data: Vec<u8>,
}

impl View for Ram {
    type V = Seq<u8>;

    closed spec fn view(&self) -> Seq<u8> {
        self.data@
    }
}

impl Ram {
    pub fn new_with_data(data: Vec<u8>) -> (r: Self)
        ensures
            r@ == data@,
    {
        Ram { data }
    }

    pub fn new(len: usize) -> (r: Self)
        ensures
            r@ == Seq::new(len as nat, |i: int| 0u8),
    {
        let mut data: Vec<u8> = Vec::new();
        let mut i: usize = 0;
        while i < len
            invariant
                i <= len,
                data@ == Seq::new(i as nat, |j: int| 0u8),
            decreases len - i,
        {
            data.push(0);
            i += 1;
            proof {
                assert(data@ =~= Seq::new(i as nat, |j: int| 0u8));
            }
        }
        Ram { data }
    }

    /// Copy `data` into the RAM starting at `pos`.
    pub fn fill(&mut self, data: Vec<u8>, pos: usize)
        requires
            pos + data@.len() <= old(self)@.len(),
        ensures
            final(self)@.len() == old(self)@.len(),
            forall|j: int|
                0 <= j < old(self)@.len() ==> final(self)@[j] == (if pos <= j < pos + data@.len() {
                    data@[j - pos]
                } else {
                    old(self)@[j]
                }),
    {
        let n = self.data.len();
        let mut i: usize = 0;
        while i < data.len()
            invariant
                i <= data@.len(),
                pos + data@.len() <= self@.len(),
                self@.len() == n,
                self@.len() == old(self)@.len(),
                forall|j: int|
                    0 <= j < self@.len() ==> self@[j] == (if pos <= j < pos + i {
                        data@[j - pos]
                    } else {
                        old(self)@[j]
                    }),
            decreases data@.len() - i,
        {
            self.data[pos + i] = data[i];
            i += 1;
        }
    }

    pub fn length(&self) -> (r: usize)
        ensures
            r == self@.len(),
    {
        self.data.len()
    }

    pub fn write_u8(&mut self, data: u8, pos: usize)
        requires
            pos < old(self)@.len(),
        ensures
            final(self)@ == old(self)@.update(pos as int, data),
    {
        self.data[pos] = data;
    }

    pub fn read_u8(&self, pos: usize) -> (r: u8)
        requires
            pos < self@.len(),
        ensures
            r == self@[pos as int],
    {
        self.data[pos]
    }

    pub fn write_u16(&mut self, data: u16, pos: usize)
        requires
            pos + 2 <= old(self)@.len(),
        ensures
            final(self)@ == old(self)@.update(pos as int, (data & 0xff) as u8).update(
                pos as int + 1,
                ((data >> 8) & 0xff) as u8,
            ),
    {
        let _n = self.data.len();
        self.data[pos] = (data & 0xff) as u8;
        self.data[pos + 1] = ((data >> 8) & 0xff) as u8;
    }

    pub fn read_u16(&self, pos: usize) -> (r: u16)
        requires
            pos + 2 <= self@.len(),
        ensures
            r == le16(self@[pos as int], self@[pos as int + 1]),
    {
        let _n = self.data.len();
        ((self.data[pos + 1] as u16) << 8) | (self.data[pos] as u16)
    }

    pub fn write_u32(&mut self, data: u32, pos: usize)
        requires
            pos + 4 <= old(self)@.len(),
        ensures
            final(self)@ == old(self)@.update(pos as int, (data & 0xff) as u8).update(
                pos as int + 1,
                ((data >> 8) & 0xff) as u8,
            ).update(pos as int + 2, ((data >> 16) & 0xff) as u8).update(
                pos as int + 3,
                ((data >> 24) & 0xff) as u8,
            ),
    {
        let _n = self.data.len();
        self.data[pos] = (data & 0xff) as u8;
        self.data[pos + 1] = ((data >> 8) & 0xff) as u8;
        self.data[pos + 2] = ((data >> 16) & 0xff) as u8;
        self.data[pos + 3] = ((data >> 24) & 0xff) as u8;
    }

    pub fn read_u32(&self, pos: usize) -> (r: u32)
        requires
            pos + 4 <= self@.len(),
        ensures
            r == le32(
                self@[pos as int],
                self@[pos as int + 1],
                self@[pos as int + 2],
                self@[pos as int + 3],
            ),
    {
        let _n = self.data.len();
        ((self.data[pos + 3] as u32) << 24) | ((self.data[pos + 2] as u32) << 16) | ((self.data[pos
            + 1] as u32) << 8) | (self.data[pos] as u32)
    }

    /// Render 128 bytes starting at `pos` as a hex dump. The exact text is
    /// not part of any contract.
    pub fn dump(&self, pos: usize) -> String
        requires
            pos + 128 <= self@.len(),
    {
        let n = self.data.len();
        let mut res = String::new();
        let mut i: usize = 0;
        while i < 128
            invariant
                i <= 128,
                pos + 128 <= self@.len(),
                self@.len() == n,
            decreases 128 - i,
        {
            if i % 16 == 0 {
                res.append("\n");
                crate::utils::push_hex_u32(&mut res, #[verifier::truncate] ((pos + i) as u32));
                res.append(": ");
            }
            crate::utils::push_hex_u8(&mut res, self.data[pos + i]);
            res.append(" ");
            i += 1;
        }
        res
    }
}

} // verus!
