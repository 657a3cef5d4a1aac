//! Registers: fixed-size byte buffers that hold bit fields.
use vstd::prelude::*;

use crate::codec::{FromBitfield, IntoBitfield};
use crate::field::{field_bytes, fits, read_field, write_field, written};
use crate::position::BitFieldPosition;

verus! {

/// A type that owns a register's bytes.
pub trait BitfieldRegister {
    type Data;

    const REGISTER_SIZE: usize;

    /// The whole buffer, read-only.
    fn data(&self) -> &Self::Data;
}

/// A register of `N` bytes. Bit 0 is the least significant bit of byte 0.
pub struct Register<const N: usize> {
    bytes: [u8; N],
}

impl<const N: usize> View for Register<N> {
    type V = Seq<u8>;

    closed spec fn view(&self) -> Seq<u8> {
        self.bytes@
    }
}

impl<const N: usize> Register<N> {
    /// A register that holds `bytes`.
    pub fn new(bytes: [u8; N]) -> (r: Self)
        ensures
            r@ == bytes@,
    {
        Register { bytes }
    }

    /// Reads the field at `pos` as a value of type `T`.
    pub fn get_field<T: FromBitfield<[u8; M]>, const M: usize>(&self, pos: &BitFieldPosition) -> (r: T)
        requires
            fits(*pos, N as nat),
            M == pos.byte_len_spec(),
        ensures
            r == T::from_bitfield_spec(field_bytes(self@, *pos)),
    {
        let value_array: [u8; M] = read_field(self.bytes.as_slice(), pos);
        T::from_bitfield(value_array)
    }

    /// Sets the field at `pos` to `value`, cut to the field's width; every bit
    /// outside the field is kept.
    ///
    /// A value wider than the field loses its high bits without any signal;
    /// a caller that needs to know can compare the value read back with the
    /// one written.
    pub fn set_field<T: IntoBitfield<[u8; M]>, const M: usize>(
        &mut self,
        pos: &BitFieldPosition,
        value: T,
    )
        requires
            fits(*pos, N as nat),
            M == pos.byte_len_spec(),
        ensures
            final(self)@ == written(old(self)@, *pos, value.into_bitfield_spec()),
    {
        let value_array: [u8; M] = value.into_bitfield();
        write_field(&mut self.bytes, pos, value_array.as_slice());
    }
}

impl<const N: usize> BitfieldRegister for Register<N> {
    type Data = [u8; N];

    const REGISTER_SIZE: usize = N;

    fn data(&self) -> (r: &[u8; N])
        ensures
            r@ == self@,
    {
        &self.bytes
    }
}

impl<const N: usize> Default for Register<N> {
    /// An all-zero register.
    fn default() -> (r: Self)
        ensures
            r@ == Seq::new(N as nat, |i: int| 0u8),
    {
        let r = Register { bytes: [0u8; N] };
        assert(r@ =~= Seq::new(N as nat, |i: int| 0u8));
        r
    }
}

impl<const N: usize> Clone for Register<N> {
    fn clone(&self) -> (r: Self)
        ensures
            r@ == self@,
    {
        Register { bytes: self.bytes }
    }
}

impl<const N: usize> From<[u8; N]> for Register<N> {
    fn from(bytes: [u8; N]) -> (r: Self)
        ensures
            r@ == bytes@,
    {
        Register { bytes }
    }
}

impl<const N: usize> vstd::std_specs::convert::FromSpecImpl<[u8; N]> for Register<N> {
    open spec fn obeys_from_spec() -> bool {
        true
    }

    closed spec fn from_spec(bytes: [u8; N]) -> Self {
        Register { bytes }
    }
}

} // verus!
