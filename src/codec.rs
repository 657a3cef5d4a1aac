//! Conversions between values and the little-endian value bytes of a field.
use vstd::prelude::*;

verus! {

/// A type that can be read out of the value bytes of a field.
///
/// The impls below read the bytes least significant first; a type with
/// another byte order says so in the spec function of its own impl.
pub trait FromBitfield<Array: View<V = Seq<u8>>>: Sized {
    /// The value that the value bytes `bytes` decode to.
    spec fn from_bitfield_spec(bytes: Seq<u8>) -> Self;

    fn from_bitfield(array: Array) -> (r: Self)
        ensures
            r == Self::from_bitfield_spec(array@),
    ;
}

/// A type that can be written into the value bytes of a field.
pub trait IntoBitfield<Array: View<V = Seq<u8>>>: Sized {
    /// The value bytes that `self` encodes to.
    spec fn into_bitfield_spec(self) -> Seq<u8>;

    fn into_bitfield(self) -> (r: Array)
        ensures
            r@ == self.into_bitfield_spec(),
    ;
}

impl FromBitfield<[u8; 1]> for u8 {
    open spec fn from_bitfield_spec(bytes: Seq<u8>) -> u8 {
        bytes[0]
    }

    fn from_bitfield(array: [u8; 1]) -> (r: u8) {
        array[0]
    }
}

impl IntoBitfield<[u8; 1]> for u8 {
    open spec fn into_bitfield_spec(self) -> Seq<u8> {
        seq![self]
    }

    fn into_bitfield(self) -> (r: [u8; 1]) {
        let r = [self; 1];
        assert(r@ =~= seq![self]);
        r
    }
}

impl FromBitfield<[u8; 2]> for u16 {
    open spec fn from_bitfield_spec(bytes: Seq<u8>) -> u16 {
        (bytes[0] + 0x100 * bytes[1]) as u16
    }

    fn from_bitfield(array: [u8; 2]) -> (r: u16) {
        let r = (array[0] as u16) | (array[1] as u16) << 8;
        let (b0, b1) = (array[0], array[1]);
        assert(r == b0 + 0x100 * b1) by (bit_vector)
            requires
                r == (b0 as u16) | (b1 as u16) << 8,
        ;
        r
    }
}

impl IntoBitfield<[u8; 2]> for u16 {
    open spec fn into_bitfield_spec(self) -> Seq<u8> {
        seq![(self % 0x100) as u8, (self / 0x100) as u8]
    }

    fn into_bitfield(self) -> (r: [u8; 2]) {
        let r = [(self & 0xFF) as u8, (self >> 8 & 0xFF) as u8];
        assert(self & 0xFF == self % 0x100) by (bit_vector);
        assert(self >> 8 & 0xFF == self / 0x100) by (bit_vector);
        assert(r@ =~= self.into_bitfield_spec());
        r
    }
}

impl FromBitfield<[u8; 3]> for u32 {
    open spec fn from_bitfield_spec(bytes: Seq<u8>) -> u32 {
        (bytes[0] + 0x100 * bytes[1] + 0x1_0000 * bytes[2]) as u32
    }

    fn from_bitfield(array: [u8; 3]) -> (r: u32) {
        let r = (array[0] as u32) | (array[1] as u32) << 8 | (array[2] as u32) << 16;
        let (b0, b1, b2) = (array[0], array[1], array[2]);
        assert(r == b0 + 0x100 * b1 + 0x1_0000 * b2) by (bit_vector)
            requires
                r == (b0 as u32) | (b1 as u32) << 8 | (b2 as u32) << 16,
        ;
        r
    }
}

impl IntoBitfield<[u8; 3]> for u32 {
    /// Only the low three bytes are kept.
    open spec fn into_bitfield_spec(self) -> Seq<u8> {
        seq![(self % 0x100) as u8, (self / 0x100 % 0x100) as u8, (self / 0x1_0000 % 0x100) as u8]
    }

    fn into_bitfield(self) -> (r: [u8; 3]) {
        let r = [(self & 0xFF) as u8, (self >> 8 & 0xFF) as u8, (self >> 16 & 0xFF) as u8];
        assert(self & 0xFF == self % 0x100) by (bit_vector);
        assert(self >> 8 & 0xFF == self / 0x100 % 0x100) by (bit_vector);
        assert(self >> 16 & 0xFF == self / 0x1_0000 % 0x100) by (bit_vector);
        assert(r@ =~= <u32 as IntoBitfield<[u8; 3]>>::into_bitfield_spec(self));
        r
    }
}

impl FromBitfield<[u8; 4]> for u32 {
    open spec fn from_bitfield_spec(bytes: Seq<u8>) -> u32 {
        (bytes[0] + 0x100 * bytes[1] + 0x1_0000 * bytes[2] + 0x100_0000 * bytes[3]) as u32
    }

    fn from_bitfield(array: [u8; 4]) -> (r: u32) {
        let r = (array[0] as u32) | (array[1] as u32) << 8 | (array[2] as u32) << 16 | (
        array[3] as u32) << 24;
        let (b0, b1, b2, b3) = (array[0], array[1], array[2], array[3]);
        assert(r == b0 + 0x100 * b1 + 0x1_0000 * b2 + 0x100_0000 * b3) by (bit_vector)
            requires
                r == (b0 as u32) | (b1 as u32) << 8 | (b2 as u32) << 16 | (b3 as u32) << 24,
        ;
        r
    }
}

impl IntoBitfield<[u8; 4]> for u32 {
    open spec fn into_bitfield_spec(self) -> Seq<u8> {
        seq![
            (self % 0x100) as u8,
            (self / 0x100 % 0x100) as u8,
            (self / 0x1_0000 % 0x100) as u8,
            (self / 0x100_0000) as u8,
        ]
    }

    fn into_bitfield(self) -> (r: [u8; 4]) {
        let r = [
            (self & 0xFF) as u8,
            (self >> 8 & 0xFF) as u8,
            (self >> 16 & 0xFF) as u8,
            (self >> 24 & 0xFF) as u8,
        ];
        assert(self & 0xFF == self % 0x100) by (bit_vector);
        assert(self >> 8 & 0xFF == self / 0x100 % 0x100) by (bit_vector);
        assert(self >> 16 & 0xFF == self / 0x1_0000 % 0x100) by (bit_vector);
        assert(self >> 24 & 0xFF == self / 0x100_0000) by (bit_vector);
        assert(r@ =~= <u32 as IntoBitfield<[u8; 4]>>::into_bitfield_spec(self));
        r
    }
}

impl FromBitfield<[u8; 1]> for bool {
    /// Only the lowest bit counts.
    open spec fn from_bitfield_spec(bytes: Seq<u8>) -> bool {
        bytes[0] & 1 != 0
    }

    fn from_bitfield(array: [u8; 1]) -> (r: bool) {
        (array[0] & 1) != 0
    }
}

impl IntoBitfield<[u8; 1]> for bool {
    open spec fn into_bitfield_spec(self) -> Seq<u8> {
        seq![if self { 1u8 } else { 0u8 }]
    }

    fn into_bitfield(self) -> (r: [u8; 1]) {
        let r = [self as u8; 1];
        assert(r@ =~= self.into_bitfield_spec());
        r
    }
}

} // verus!
