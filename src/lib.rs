//! Packing and unpacking of bit fields inside fixed-size byte buffers.
//!
//! A field is located by a [`BitFieldPosition`]: one bit, or a range of bits,
//! where bit 0 is the least significant bit of byte 0. Values move between a
//! field and a typed value through the little-endian codec of
//! [`FromBitfield`] / [`IntoBitfield`]. Writes never touch bits outside the
//! field.
pub mod codec;
pub mod field;
pub mod laws;
pub mod mask;
pub mod position;
pub mod register;

pub use codec::{FromBitfield, IntoBitfield};
pub use position::{register_size, BitFieldPosition, PositionError};
pub use register::{BitfieldRegister, Register};
