//! The two-valued unit and its conversions from integers and booleans.

use core::cmp::Ordering;
use vstd::prelude::*;
use vstd::std_specs::convert::FromSpec;

verus! {

/// A single binary digit. `Zero` orders before `One`.
#[derive(Debug, Clone, Copy, PartialEq, Eq, Structural, Ord)]
pub enum Bit {
    Zero,
    One,
}

impl Bit {
    /// The bit that stands for an integer: `One` for a positive value,
    /// `Zero` for zero and for every negative value.
    pub open spec fn of_int(v: int) -> Bit {
        if v > 0 {
            Bit::One
        } else {
            Bit::Zero
        }
    }

    /// The bit that stands for a truth value.
    pub open spec fn of_bool(b: bool) -> Bit {
        if b {
            Bit::One
        } else {
            Bit::Zero
        }
    }

    /// The numeric value of the bit, 0 or 1.
    pub open spec fn weight(self) -> nat {
        match self {
            Bit::Zero => 0,
            Bit::One => 1,
        }
    }

    /// The bit as a byte, 0 or 1.
    pub fn value(self) -> (r: u8)
        ensures
            r == self.weight(),
    {
        match self {
            Bit::Zero => 0,
            Bit::One => 1,
        }
    }

    /// The digit the bit is written as: `"0"` or `"1"`.
    pub fn to_string(&self) -> (s: String)
        ensures
            s@ == (match *self {
                Bit::Zero => seq!['0'],
                Bit::One => seq!['1'],
            }),
    {
        proof {
            reveal_strlit("0");
            reveal_strlit("1");
        }
        match self {
            Bit::Zero => "0".to_owned(),
            Bit::One => "1".to_owned(),
        }
    }
}

impl PartialOrd for Bit {
    /// Compares by numeric value, so that `Zero` is less than `One`.
    fn partial_cmp(&self, other: &Bit) -> (r: Option<Ordering>) {
        match (self, other) {
            (Bit::Zero, Bit::One) => Some(Ordering::Less),
            (Bit::One, Bit::Zero) => Some(Ordering::Greater),
            _ => Some(Ordering::Equal),
        }
    }
}

impl vstd::std_specs::cmp::PartialOrdSpecImpl for Bit {
    open spec fn obeys_partial_cmp_spec() -> bool {
        true
    }

    open spec fn partial_cmp_spec(&self, other: &Bit) -> Option<Ordering> {
        if self.weight() < other.weight() {
            Some(Ordering::Less)
        } else if self.weight() > other.weight() {
            Some(Ordering::Greater)
        } else {
            Some(Ordering::Equal)
        }
    }
}

impl From<u8> for Bit {
    /// `One` for a positive number, `Zero` for any other.
    fn from(value: u8) -> (r: Bit) {
        if value > 0 {
            Bit::One
        } else {
            Bit::Zero
        }
    }
}

impl vstd::std_specs::convert::FromSpecImpl<u8> for Bit {
    open spec fn obeys_from_spec() -> bool {
        true
    }

    open spec fn from_spec(value: u8) -> Bit {
        Bit::of_int(value as int)
    }
}

impl From<u16> for Bit {
    /// `One` for a positive number, `Zero` for any other.
    fn from(value: u16) -> (r: Bit) {
        if value > 0 {
            Bit::One
        } else {
            Bit::Zero
        }
    }
}

impl vstd::std_specs::convert::FromSpecImpl<u16> for Bit {
    open spec fn obeys_from_spec() -> bool {
        true
    }

    open spec fn from_spec(value: u16) -> Bit {
        Bit::of_int(value as int)
    }
}

impl From<u32> for Bit {
    /// `One` for a positive number, `Zero` for any other.
    fn from(value: u32) -> (r: Bit) {
        if value > 0 {
            Bit::One
        } else {
            Bit::Zero
        }
    }
}

impl vstd::std_specs::convert::FromSpecImpl<u32> for Bit {
    open spec fn obeys_from_spec() -> bool {
        true
    }

    open spec fn from_spec(value: u32) -> Bit {
        Bit::of_int(value as int)
    }
}

impl From<u64> for Bit {
    /// `One` for a positive number, `Zero` for any other.
    fn from(value: u64) -> (r: Bit) {
        if value > 0 {
            Bit::One
        } else {
            Bit::Zero
        }
    }
}

impl vstd::std_specs::convert::FromSpecImpl<u64> for Bit {
    open spec fn obeys_from_spec() -> bool {
        true
    }

    open spec fn from_spec(value: u64) -> Bit {
        Bit::of_int(value as int)
    }
}

impl From<i8> for Bit {
    /// `One` for a positive number, `Zero` for any other.
    fn from(value: i8) -> (r: Bit) {
        if value > 0 {
            Bit::One
        } else {
            Bit::Zero
        }
    }
}

impl vstd::std_specs::convert::FromSpecImpl<i8> for Bit {
    open spec fn obeys_from_spec() -> bool {
        true
    }

    open spec fn from_spec(value: i8) -> Bit {
        Bit::of_int(value as int)
    }
}

impl From<i16> for Bit {
    /// `One` for a positive number, `Zero` for any other.
    fn from(value: i16) -> (r: Bit) {
        if value > 0 {
            Bit::One
        } else {
            Bit::Zero
        }
    }
}

impl vstd::std_specs::convert::FromSpecImpl<i16> for Bit {
    open spec fn obeys_from_spec() -> bool {
        true
    }

    open spec fn from_spec(value: i16) -> Bit {
        Bit::of_int(value as int)
    }
}

impl From<i32> for Bit {
    /// `One` for a positive number, `Zero` for any other.
    fn from(value: i32) -> (r: Bit) {
        if value > 0 {
            Bit::One
        } else {
            Bit::Zero
        }
    }
}

impl vstd::std_specs::convert::FromSpecImpl<i32> for Bit {
    open spec fn obeys_from_spec() -> bool {
        true
    }

    open spec fn from_spec(value: i32) -> Bit {
        Bit::of_int(value as int)
    }
}

impl From<i64> for Bit {
    /// `One` for a positive number, `Zero` for any other.
    fn from(value: i64) -> (r: Bit) {
        if value > 0 {
            Bit::One
        } else {
            Bit::Zero
        }
    }
}

impl vstd::std_specs::convert::FromSpecImpl<i64> for Bit {
    open spec fn obeys_from_spec() -> bool {
        true
    }

    open spec fn from_spec(value: i64) -> Bit {
        Bit::of_int(value as int)
    }
}

impl From<usize> for Bit {
    /// `One` for a positive number, `Zero` for any other.
    fn from(value: usize) -> (r: Bit) {
        if value > 0 {
            Bit::One
        } else {
            Bit::Zero
        }
    }
}

impl vstd::std_specs::convert::FromSpecImpl<usize> for Bit {
    open spec fn obeys_from_spec() -> bool {
        true
    }

    open spec fn from_spec(value: usize) -> Bit {
        Bit::of_int(value as int)
    }
}

impl From<bool> for Bit {
    /// `One` for `true`, `Zero` for `false`.
    fn from(value: bool) -> (r: Bit) {
        match value {
            false => Bit::Zero,
            true => Bit::One,
        }
    }
}

impl vstd::std_specs::convert::FromSpecImpl<bool> for Bit {
    open spec fn obeys_from_spec() -> bool {
        true
    }

    open spec fn from_spec(value: bool) -> Bit {
        Bit::of_bool(value)
    }
}

/// What converting gives, for every type that converts.  Zero becomes
/// `Zero` and a positive number becomes `One`; a negative number becomes
/// `Zero` as well.  `false` becomes `Zero` and `true` becomes `One`.
pub proof fn lemma_conversions(
    a: u8,
    b: u16,
    c: u32,
    d: u64,
    e: usize,
    f: i8,
    g: i16,
    h: i32,
    i: i64,
)
    ensures
        <Bit as FromSpec<u8>>::from_spec(a) == (if a == 0 { Bit::Zero } else { Bit::One }),
        <Bit as FromSpec<u16>>::from_spec(b) == (if b == 0 { Bit::Zero } else { Bit::One }),
        <Bit as FromSpec<u32>>::from_spec(c) == (if c == 0 { Bit::Zero } else { Bit::One }),
        <Bit as FromSpec<u64>>::from_spec(d) == (if d == 0 { Bit::Zero } else { Bit::One }),
        <Bit as FromSpec<usize>>::from_spec(e) == (if e == 0 { Bit::Zero } else { Bit::One }),
        <Bit as FromSpec<i8>>::from_spec(f) == (if f <= 0 { Bit::Zero } else { Bit::One }),
        <Bit as FromSpec<i16>>::from_spec(g) == (if g <= 0 { Bit::Zero } else { Bit::One }),
        <Bit as FromSpec<i32>>::from_spec(h) == (if h <= 0 { Bit::Zero } else { Bit::One }),
        <Bit as FromSpec<i64>>::from_spec(i) == (if i <= 0 { Bit::Zero } else { Bit::One }),
        <Bit as FromSpec<bool>>::from_spec(false) == Bit::Zero,
        <Bit as FromSpec<bool>>::from_spec(true) == Bit::One,
{
}

} // verus!
