use vstd::prelude::*;

verus! {

/// One sample of a pixel plane: an unsigned integer of 8 or 16 bits.
///
/// The plane's geometry and filtering logic is generic over the sample
/// width; this trait tells it the value a sample holds, the width of a
/// sample in bytes, and gives checked conversions through `u32`.
pub trait Pixel: Copy + Sized {
    /// The value this sample holds.
    spec fn spec_val(self) -> int;

    /// Width of one sample in bytes.
    spec fn spec_bytes() -> int;

    /// Largest value a sample can hold.
    spec fn spec_max() -> int;

    /// A sample is one or two bytes wide, and the largest value is the
    /// largest unsigned integer of that width.
    proof fn lemma_width()
        ensures
            Self::spec_bytes() == 1 || Self::spec_bytes() == 2,
            Self::spec_max() == if Self::spec_bytes() == 1 {
                255int
            } else {
                65535int
            },
    ;

    /// Every sample value lies between zero and the largest value.
    proof fn lemma_val(self)
        ensures
            0 <= self.spec_val() <= Self::spec_max(),
    ;

    fn from_u32(v: u32) -> (r: Self)
        requires
            v as int <= Self::spec_max(),
        ensures
            r.spec_val() == v as int,
    ;

    fn to_u32(self) -> (r: u32)
        ensures
            r as int == self.spec_val(),
    ;

    fn bytes() -> (r: usize)
        ensures
            r as int == Self::spec_bytes(),
    ;
}

impl Pixel for u8 {
    open spec fn spec_val(self) -> int {
        self as int
    }

    open spec fn spec_bytes() -> int {
        1
    }

    open spec fn spec_max() -> int {
        255
    }

    proof fn lemma_width() {
    }

    proof fn lemma_val(self) {
    }

    fn from_u32(v: u32) -> u8 {
        v as u8
    }

    fn to_u32(self) -> u32 {
        self as u32
    }

    fn bytes() -> usize {
        1
    }
}

impl Pixel for u16 {
    open spec fn spec_val(self) -> int {
        self as int
    }

    open spec fn spec_bytes() -> int {
        2
    }

    open spec fn spec_max() -> int {
        65535
    }

    proof fn lemma_width() {
    }

    proof fn lemma_val(self) {
    }

    fn from_u32(v: u32) -> u16 {
        v as u16
    }

    fn to_u32(self) -> u32 {
        self as u32
    }

    fn bytes() -> usize {
        2
    }
}

} // verus!
