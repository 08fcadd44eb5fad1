//! A wide-range integer scalar: the union of the 64-bit signed range and the
//! 64-bit unsigned range, compared by mathematical value.

use vstd::prelude::*;

verus! {

/// An integer in the range `-(2^63) ..= 2^64 - 1`: every value a 64-bit
/// signed integer can hold, together with every value a 64-bit unsigned
/// integer can hold.
///
/// The representation keeps a sign flag and a magnitude and is canonical:
/// the flag is set only for strictly negative values, so derived equality
/// coincides with equality of mathematical values.
#[derive(Clone, Copy, Debug, PartialEq, Eq, Hash)]
pub struct Integer {
    neg: bool,
    mag: u64,
}

impl Integer {
    /// The mathematical value this integer stands for.
    pub closed spec fn value(&self) -> int {
        if self.neg {
            -(self.mag as int)
        } else {
            self.mag as int
        }
    }

    /// The representation is canonical: a set sign flag means a strictly
    /// negative value no smaller than `-(2^63)`.
    pub closed spec fn wf(&self) -> bool {
        self.neg ==> 1 <= self.mag <= 0x8000_0000_0000_0000u64
    }

    /// The integer that `from_signed` builds from a 64-bit signed value.
    pub closed spec fn spec_from_signed(v: i64) -> Integer {
        Integer { neg: v < 0, mag: if v < 0 { (-(v as int)) as u64 } else { v as u64 } }
    }

    /// The integer that `from_unsigned` builds from a 64-bit unsigned value.
    pub closed spec fn spec_from_unsigned(v: u64) -> Integer {
        Integer { neg: false, mag: v }
    }

    /// Build an integer from a 64-bit signed value.
    pub fn from_signed(v: i64) -> (r: Integer)
        ensures
            r.wf(),
            r.value() == v as int,
            r == Integer::spec_from_signed(v),
    {
        if v < 0 {
            let mag: u64 = ((-(v as i128)) as u64);
            Integer { neg: true, mag }
        } else {
            Integer { neg: false, mag: v as u64 }
        }
    }

    /// Build an integer from a 64-bit unsigned value.
    pub fn from_unsigned(v: u64) -> (r: Integer)
        ensures
            r.wf(),
            r.value() == v as int,
            r == Integer::spec_from_unsigned(v),
    {
        Integer { neg: false, mag: v }
    }

    /// The value as an unsigned 64-bit integer, if it is in that range.
    pub fn as_unsigned(&self) -> (r: Option<u64>)
        ensures
            0 <= self.value() <= u64::MAX ==> r == Some((self.value() as u64)),
            !(0 <= self.value() <= u64::MAX) ==> r is None,
    {
        if !self.neg || self.mag == 0 {
            Some(self.mag)
        } else {
            None
        }
    }

    /// The value as a signed 64-bit integer, if it is in that range.
    pub fn as_signed(&self) -> (r: Option<i64>)
        ensures
            i64::MIN <= self.value() <= i64::MAX ==> r == Some((self.value() as i64)),
            !(i64::MIN <= self.value() <= i64::MAX) ==> r is None,
    {
        if self.neg {
            if self.mag <= 0x8000_0000_0000_0000u64 {
                Some((-(self.mag as i128)) as i64)
            } else {
                None
            }
        } else {
            if self.mag <= 0x7FFF_FFFF_FFFF_FFFFu64 {
                Some(self.mag as i64)
            } else {
                None
            }
        }
    }

    /// Whether the value is strictly negative.
    pub fn is_negative(&self) -> (r: bool)
        ensures
            r == (self.value() < 0),
    {
        self.neg && self.mag > 0
    }

    /// The magnitude of the value, as an unsigned 64-bit integer.
    pub fn magnitude(&self) -> (r: u64)
        ensures
            r as int == if self.value() < 0 {
                -self.value()
            } else {
                self.value()
            },
    {
        self.mag
    }
}

impl From<i64> for Integer {
    fn from(v: i64) -> (r: Integer) {
        Integer::from_signed(v)
    }
}

impl vstd::std_specs::convert::FromSpecImpl<i64> for Integer {
    open spec fn obeys_from_spec() -> bool {
        true
    }

    open spec fn from_spec(v: i64) -> Integer {
        Integer::spec_from_signed(v)
    }
}

impl From<u64> for Integer {
    fn from(v: u64) -> (r: Integer) {
        Integer::from_unsigned(v)
    }
}

impl vstd::std_specs::convert::FromSpecImpl<u64> for Integer {
    open spec fn obeys_from_spec() -> bool {
        true
    }

    open spec fn from_spec(v: u64) -> Integer {
        Integer::spec_from_unsigned(v)
    }
}

} // verus!
