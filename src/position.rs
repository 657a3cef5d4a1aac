//! Where a field lies inside a register.
use vstd::prelude::*;

verus! {

/// The location of one field: a single bit, or the bits `start .. end`
/// (end exclusive). Bit 0 is the least significant bit of byte 0.
#[derive(Debug)]
pub enum BitFieldPosition {
    Single(u8),
    Range(std::ops::Range<u8>),
}

impl BitFieldPosition {
    /// A position describes at least one bit.
    pub open spec fn wf(&self) -> bool {
        match self {
            BitFieldPosition::Single(_) => true,
            BitFieldPosition::Range(r) => r.start < r.end,
        }
    }

    pub open spec fn first_bit_spec(&self) -> nat {
        match self {
            BitFieldPosition::Single(x) => *x as nat,
            BitFieldPosition::Range(r) => r.start as nat,
        }
    }

    pub open spec fn last_bit_spec(&self) -> nat {
        match self {
            BitFieldPosition::Single(x) => *x as nat,
            BitFieldPosition::Range(r) => (r.end - 1) as nat,
        }
    }

    /// Number of bits in the field.
    pub open spec fn len_spec(&self) -> nat {
        (self.last_bit_spec() - self.first_bit_spec() + 1) as nat
    }

    /// Number of bytes a value of the field needs: `len` rounded up to bytes.
    pub open spec fn byte_len_spec(&self) -> nat {
        (self.len_spec() + 7) as nat / 8
    }

    /// Whether absolute bit `i` belongs to the field.
    pub open spec fn covers(&self, i: int) -> bool {
        self.first_bit_spec() <= i <= self.last_bit_spec()
    }

    pub fn first_bit(&self) -> (r: usize)
        ensures
            r == self.first_bit_spec(),
    {
        match self {
            BitFieldPosition::Single(x) => *x as usize,
            BitFieldPosition::Range(range) => range.start as usize,
        }
    }

    pub fn last_bit(&self) -> (r: usize)
        requires
            self.wf(),
        ensures
            r == self.last_bit_spec(),
    {
        match self {
            BitFieldPosition::Single(x) => *x as usize,
            BitFieldPosition::Range(range) => (range.end - 1) as usize,
        }
    }

    pub fn len(&self) -> (r: usize)
        requires
            self.wf(),
        ensures
            r == self.len_spec(),
            1 <= r <= 255,
    {
        match self {
            BitFieldPosition::Single(_) => 1,
            BitFieldPosition::Range(range) => (range.end - range.start) as usize,
        }
    }

    pub fn byte_len(&self) -> (r: usize)
        requires
            self.wf(),
        ensures
            r == self.byte_len_spec(),
            1 <= r <= 32,
    {
        let len = self.len();
        if len % 8 == 0 {
            len / 8
        } else {
            len / 8 + 1
        }
    }
}

/// Why a field's position parameters describe no position.
#[derive(Debug, Clone, Copy, PartialEq, Eq)]
pub enum PositionError {
    /// Both a single bit and a range were given.
    BothForms,
    /// Only one end of a range was given.
    UnpairedRange,
    /// Neither a single bit nor a range was given.
    Missing,
    /// The range is empty or its end does not fit in a `u8`.
    InvalidRange,
}

impl BitFieldPosition {
    /// The position that a field's parameters describe: `at` names a single
    /// bit, `from` and `to` the first and the last bit (inclusive) of a range.
    pub fn from_params(at: Option<u8>, from: Option<u8>, to: Option<u8>) -> (r: Result<
        BitFieldPosition,
        PositionError,
    >)
        ensures
            (at is Some && (from is Some || to is Some)) ==> r == Err::<BitFieldPosition, PositionError>(PositionError::BothForms),
            (at is None && (from is Some) != (to is Some)) ==> r == Err::<BitFieldPosition, PositionError>(PositionError::UnpairedRange),
            (at is None && from is None && to is None) ==> r == Err::<BitFieldPosition, PositionError>(PositionError::Missing),
            (at is None && from is Some && to is Some) ==> {
                let (f, t) = (from->0, to->0);
                if f <= t && t < 255 {
                    (r matches Ok(BitFieldPosition::Range(range)) && range.start == f && range.end == t + 1)
                } else {
                    r == Err::<BitFieldPosition, PositionError>(PositionError::InvalidRange)
                }
            },
            (at is Some && from is None && to is None) ==> (r matches Ok(BitFieldPosition::Single(x)) && x == at->0),
            r matches Ok(p) ==> p.wf(),
    {
        match (at, from, to) {
            (Some(_), Some(_), _) | (Some(_), _, Some(_)) => Err(PositionError::BothForms),
            (Some(bit), None, None) => Ok(BitFieldPosition::Single(bit)),
            (None, Some(f), Some(t)) => {
                if f <= t && t < 255 {
                    Ok(BitFieldPosition::Range(std::ops::Range { start: f, end: t + 1 }))
                } else {
                    Err(PositionError::InvalidRange)
                }
            },
            (None, None, None) => Err(PositionError::Missing),
            (None, _, _) => Err(PositionError::UnpairedRange),
        }
    }
}

/// The highest last bit among `positions` (0 when there is none).
pub open spec fn max_last_bit(positions: Seq<BitFieldPosition>) -> nat
    decreases positions.len(),
{
    if positions.len() == 0 {
        0
    } else {
        let rest = max_last_bit(positions.drop_last());
        let last = positions.last().last_bit_spec();
        if last > rest {
            last
        } else {
            rest
        }
    }
}

/// The size in bytes of the smallest register that holds every field of
/// `positions`: the byte of the highest last bit, plus one.
pub fn register_size(positions: &[BitFieldPosition]) -> (r: usize)
    requires
        positions@.len() >= 1,
        forall|i: int| 0 <= i < positions@.len() ==> (#[trigger] positions@[i]).wf(),
    ensures
        r == max_last_bit(positions@) / 8 + 1,
        forall|i: int|
            0 <= i < positions@.len() ==> (#[trigger] positions@[i]).last_bit_spec() < 8 * r,
{
    let mut max_bit: usize = 0;
    let mut i: usize = 0;
    while i < positions.len()
        invariant
            i <= positions@.len(),
            forall|j: int| 0 <= j < positions@.len() ==> (#[trigger] positions@[j]).wf(),
            max_bit == max_last_bit(positions@.subrange(0, i as int)),
            max_bit < 256,
            forall|j: int| 0 <= j < i ==> (#[trigger] positions@[j]).last_bit_spec() <= max_bit,
        decreases positions@.len() - i,
    {
        assert(positions@.subrange(0, i + 1).drop_last() =~= positions@.subrange(0, i as int));
        let last = positions[i].last_bit();
        if last > max_bit {
            max_bit = last;
        }
        i = i + 1;
    }
    assert(positions@.subrange(0, i as int) =~= positions@);
    max_bit / 8 + 1
}

} // verus!
