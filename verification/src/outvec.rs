use vstd::prelude::*;

use crate::color::Color;
use crate::spec_u16_le;

verus! {

/// The four bytes of `x` in little-endian order.
pub open spec fn spec_u32_le(x: u32) -> Seq<u8> {
    seq![
        (x & 0xff) as u8,
        ((x >> 8) & 0xff) as u8,
        ((x >> 16) & 0xff) as u8,
        ((x >> 24) & 0xff) as u8,
    ]
}

/// The eight bytes of `x` in little-endian order.
pub open spec fn spec_u64_le(x: u64) -> Seq<u8> {
    seq![
        (x & 0xff) as u8,
        ((x >> 8) & 0xff) as u8,
        ((x >> 16) & 0xff) as u8,
        ((x >> 24) & 0xff) as u8,
        ((x >> 32) & 0xff) as u8,
        ((x >> 40) & 0xff) as u8,
        ((x >> 48) & 0xff) as u8,
        ((x >> 56) & 0xff) as u8,
    ]
}

/// An output byte vector with little-endian push helpers.
#[derive(Debug)]
pub struct OutVec {
    data: Vec<u8>,
}

impl OutVec {
    pub closed spec fn view(&self) -> Seq<u8> {
        self.data@
    }

    pub fn new() -> (r: OutVec)
        ensures
            r@ == Seq::<u8>::empty(),
    {
        OutVec { data: Vec::new() }
    }

    pub fn push_u8(&mut self, n: u8)
        ensures
            final(self)@ == old(self)@.push(n),
    {
        self.data.push(n);
    }

    pub fn push_u16(&mut self, n: u16)
        ensures
            final(self)@ == old(self)@ + spec_u16_le(n),
    {
        self.data.push(crate::u16_lo(n));
        self.data.push(crate::u16_hi(n));
        proof {
            assert(self@ =~= old(self)@ + spec_u16_le(n));
        }
    }

    pub fn push_u32(&mut self, n: u32)
        ensures
            final(self)@ == old(self)@ + spec_u32_le(n),
    {
        self.data.push((n & 0xff) as u8);
        self.data.push(((n >> 8) & 0xff) as u8);
        self.data.push(((n >> 16) & 0xff) as u8);
        self.data.push(((n >> 24) & 0xff) as u8);
        proof {
            assert(self@ =~= old(self)@ + spec_u32_le(n));
        }
    }

    pub fn push_u64(&mut self, n: u64)
        ensures
            final(self)@ == old(self)@ + spec_u64_le(n),
    {
        self.data.push((n & 0xff) as u8);
        self.data.push(((n >> 8) & 0xff) as u8);
        self.data.push(((n >> 16) & 0xff) as u8);
        self.data.push(((n >> 24) & 0xff) as u8);
        self.data.push(((n >> 32) & 0xff) as u8);
        self.data.push(((n >> 40) & 0xff) as u8);
        self.data.push(((n >> 48) & 0xff) as u8);
        self.data.push(((n >> 56) & 0xff) as u8);
        proof {
            assert(self@ =~= old(self)@ + spec_u64_le(n));
        }
    }

    pub fn push_slice(&mut self, slice: &Vec<u8>)
        ensures
            final(self)@ == old(self)@ + slice@,
    {
        crate::push_all(&mut self.data, slice);
    }

    pub fn push_color(&mut self, color: &Color)
        ensures
            final(self)@ == old(self)@ + seq![color.r, color.g, color.b],
    {
        self.data.push(color.r);
        self.data.push(color.g);
        self.data.push(color.b);
        proof {
            assert(self@ =~= old(self)@ + seq![color.r, color.g, color.b]);
        }
    }

    pub fn push_colors(&mut self, colors: &Vec<Color>)
        ensures
            final(self)@.len() == old(self)@.len() + 3 * colors@.len(),
            forall|i: int| 0 <= i < old(self)@.len() ==> final(self)@[i] == old(self)@[i],
            forall|k: int|
                0 <= k < colors@.len() ==> {
                    &&& final(self)@[old(self)@.len() + 3 * k] == colors@[k].r
                    &&& final(self)@[old(self)@.len() + 3 * k + 1] == colors@[k].g
                    &&& final(self)@[old(self)@.len() + 3 * k + 2] == colors@[k].b
                },
    {
        let mut i: usize = 0;
        while i < colors.len()
            invariant
                i <= colors@.len(),
                self@.len() == old(self)@.len() + 3 * i,
                forall|j: int| 0 <= j < old(self)@.len() ==> self@[j] == old(self)@[j],
                forall|k: int|
                    0 <= k < i ==> {
                        &&& self@[old(self)@.len() + 3 * k] == colors@[k].r
                        &&& self@[old(self)@.len() + 3 * k + 1] == colors@[k].g
                        &&& self@[old(self)@.len() + 3 * k + 2] == colors@[k].b
                    },
            decreases colors@.len() - i,
        {
            let c = colors[i];
            self.push_color(&c);
            i = i + 1;
        }
    }

    /// The accumulated bytes.
    pub fn vec(self) -> (r: Vec<u8>)
        ensures
            r@ == self@,
    {
        self.data
    }
}

} // verus!
