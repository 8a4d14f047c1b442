use vstd::prelude::*;

use crate::packed::GraphicPacked;
use crate::spec_u16_from_le;

verus! {

/// Post-render action for a frame's canvas region.
#[derive(Clone, Copy, Debug, PartialEq, Eq, Structural)]
pub enum DisposalMethod {
    NoAction,
    DoNotDispose,
    RestoreBackground,
    RestorePrevious,
}

impl DisposalMethod {
    /// The three-bit code this method is stored as.
    pub open spec fn spec_code(self) -> u8 {
        match self {
            DisposalMethod::NoAction => 0,
            DisposalMethod::DoNotDispose => 1,
            DisposalMethod::RestoreBackground => 2,
            DisposalMethod::RestorePrevious => 3,
        }
    }

    /// A short human-readable name for reports.
    pub fn name(&self) -> (r: &'static str)
    {
        match self {
            DisposalMethod::NoAction => "Dispose as Normal",
            DisposalMethod::DoNotDispose => "No Dispose",
            DisposalMethod::RestoreBackground => "Restore to background",
            DisposalMethod::RestorePrevious => "Restore previous image",
        }
    }
}

/// The disposal method a three-bit code names, if it is not one of the
/// reserved values `4..=7`.
pub open spec fn spec_disposal_from_code(code: u8) -> Option<DisposalMethod> {
    if code == 0 {
        Some(DisposalMethod::NoAction)
    } else if code == 1 {
        Some(DisposalMethod::DoNotDispose)
    } else if code == 2 {
        Some(DisposalMethod::RestoreBackground)
    } else if code == 3 {
        Some(DisposalMethod::RestorePrevious)
    } else {
        None
    }
}

/// The graphic control extension: how long the next image shows, how
/// it is disposed of, and which index is transparent.
#[derive(Clone, Copy, Debug, PartialEq, Eq, Structural)]
pub struct GraphicControl {
    pub packed: GraphicPacked,
    pub delay: u16,
    pub transparency_index: u8,
}

impl GraphicControl {
    pub open spec fn spec_packed(self) -> GraphicPacked {
        self.packed
    }

    pub open spec fn spec_delay(self) -> u16 {
        self.delay
    }

    pub open spec fn spec_transparency_index(self) -> u8 {
        self.transparency_index
    }

    pub fn new(
        disposal_method: DisposalMethod,
        user_input_flag: bool,
        transparency_flag: bool,
        delay: u16,
        transparency_index: u8,
    ) -> (r: Self)
        ensures
            r.packed.spec_disposal_method() == disposal_method.spec_code(),
            r.packed.spec_user_input() == user_input_flag,
            r.packed.spec_transparent_flag() == transparency_flag,
            r.packed.spec_reserved() == 0,
            r.delay == delay,
            r.transparency_index == transparency_index,
    {
        let mut ret = Self { packed: GraphicPacked { raw: 0 }, delay, transparency_index };
        ret.set_disposal_method(disposal_method);
        let ghost mid0 = ret.packed;
        ret.packed.set_user_input(user_input_flag);
        let ghost mid1 = ret.packed;
        ret.packed.set_transparent_flag(transparency_flag);
        proof {
            crate::packed::lemma_graphic_packed_setters(mid0, 0, user_input_flag);
            crate::packed::lemma_graphic_packed_setters(mid1, 0, transparency_flag);
            assert((0u8 & 0b1110_0000) >> 5 == 0 && (0u8 & 0b0001_1100) >> 2 == 0 && 0u8
                & 0b0000_0010 == 0 && 0u8 & 0b0000_0001 == 0) by (bit_vector);
        }
        ret
    }

    pub fn packed(&self) -> (r: &GraphicPacked)
        ensures
            r == self.packed,
    {
        &self.packed
    }

    /// The disposal method that should be used for the associated
    /// image, or `None` if the stored code is a reserved value.
    pub fn disposal_method(&self) -> (r: Option<DisposalMethod>)
        ensures
            r == spec_disposal_from_code(self.packed.spec_disposal_method()),
    {
        let code = self.packed.disposal_method();
        if code == 0 {
            Some(DisposalMethod::NoAction)
        } else if code == 1 {
            Some(DisposalMethod::DoNotDispose)
        } else if code == 2 {
            Some(DisposalMethod::RestoreBackground)
        } else if code == 3 {
            Some(DisposalMethod::RestorePrevious)
        } else {
            None
        }
    }

    pub fn set_disposal_method(&mut self, dispose: DisposalMethod)
        ensures
            final(self).packed.spec_disposal_method() == dispose.spec_code(),
            final(self).packed.spec_reserved() == old(self).packed.spec_reserved(),
            final(self).packed.spec_user_input() == old(self).packed.spec_user_input(),
            final(self).packed.spec_transparent_flag() == old(self).packed.spec_transparent_flag(),
            final(self).delay == old(self).delay,
            final(self).transparency_index == old(self).transparency_index,
    {
        let code: u8 = match dispose {
            DisposalMethod::NoAction => 0,
            DisposalMethod::DoNotDispose => 1,
            DisposalMethod::RestoreBackground => 2,
            DisposalMethod::RestorePrevious => 3,
        };
        let ghost before = self.packed;
        self.packed.set_disposal_method(code);
        proof {
            crate::packed::lemma_graphic_packed_setters(before, code, false);
            assert(code & 0b0000_0111 == code) by (bit_vector)
                requires
                    code < 8,
            ;
        }
    }

    /// The index that should be replaced by a fully transparent pixel
    /// if the transparency flag is set, or `None` if it is not.
    pub fn transparent_index(&self) -> (r: Option<u8>)
        ensures
            r == if self.packed.spec_transparent_flag() {
                Some(self.transparency_index)
            } else {
                Option::<u8>::None
            },
    {
        if self.packed.transparent_flag() {
            Some(self.transparency_index)
        } else {
            None
        }
    }

    /// The transparency index regardless of the transparency flag.
    /// You probably want [`GraphicControl::transparent_index`] instead.
    pub fn transparent_index_unchecked(&self) -> (r: u8)
        ensures
            r == self.transparency_index,
    {
        self.transparency_index
    }

    /// Sets the transparent index, raising or clearing the flag to
    /// match whether an index is present.
    pub fn set_transparent_index(&mut self, index: Option<u8>)
        ensures
            final(self).packed.spec_transparent_flag() == index.is_some(),
            final(self).packed.spec_disposal_method() == old(self).packed.spec_disposal_method(),
            final(self).packed.spec_reserved() == old(self).packed.spec_reserved(),
            final(self).packed.spec_user_input() == old(self).packed.spec_user_input(),
            final(self).delay == old(self).delay,
            final(self).transparency_index == match index {
                Some(i) => i,
                None => old(self).transparency_index,
            },
    {
        let ghost before = self.packed;
        self.packed.set_transparent_flag(index.is_some());
        proof {
            crate::packed::lemma_graphic_packed_setters(before, 0, index.is_some());
        }
        if let Some(index) = index {
            self.transparency_index = index;
        }
    }

    /// Time to wait before the associated image is drawn, in
    /// hundredths of a second.
    pub fn delay(&self) -> (r: u16)
        ensures
            r == self.delay,
    {
        self.delay
    }

    pub fn delay_mut(&mut self) -> (r: &mut u16)
        ensures
            *r == old(self).delay,
            final(self).delay == *final(r),
            final(self).packed == old(self).packed,
            final(self).transparency_index == old(self).transparency_index,
    {
        &mut self.delay
    }

    pub fn user_input(&self) -> (r: bool)
        ensures
            r == self.packed.spec_user_input(),
    {
        self.packed.user_input()
    }

    /// Reads a graphic control from its four data bytes: the packed
    /// byte, the little-endian delay, and the transparency index.
    pub fn from_bytes(bytes: &Vec<u8>) -> (r: Self)
        requires
            bytes@.len() == 4,
        ensures
            r.packed.raw == bytes@[0],
            r.delay == spec_u16_from_le(bytes@[1], bytes@[2]),
            r.transparency_index == bytes@[3],
    {
        Self {
            packed: GraphicPacked { raw: bytes[0] },
            delay: crate::u16_from_le(bytes[1], bytes[2]),
            transparency_index: bytes[3],
        }
    }
}

} // verus!
