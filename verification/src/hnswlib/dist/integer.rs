//! The integer element types that the metrics take.

use vstd::prelude::*;

verus! {

/// A machine integer of 64 bits at most.
pub trait Integer: Copy {
    /// The integer as a mathematical one.
    spec fn value(self) -> int;

    /// The least value of the type.
    spec fn lowest() -> int;

    /// The values of the type span `2^64` integers at most and fit a signed integer of
    /// 128 bits with room to spare.
    proof fn lemma_range(self)
        ensures
            -0x8000_0000_0000_0000 <= Self::lowest() <= 0,
            Self::lowest() <= self.value() <= Self::lowest() + 0xFFFF_FFFF_FFFF_FFFF,
    ;

    /// The integer in a type that holds every value of every type.
    fn widen(self) -> (wide: i128)
        ensures
            wide == self.value(),
    ;
}

/// An integer of 32 bits at most, signed or not.
pub trait Short: Integer {
    /// The value fits 32 bits.
    proof fn lemma_short(self)
        ensures
            -0x8000_0000 <= Self::lowest(),
            self.value() <= Self::lowest() + 0xFFFF_FFFF,
    ;
}

/// An integer whose square fits 62 bits: a signed one of 32 bits at most, or an
/// unsigned one of 16 bits at most.
pub trait Narrow: Short {
    /// The value lies between `-2^31` and `2^31`.
    proof fn lemma_narrow(self)
        ensures
            -0x8000_0000 <= self.value() <= 0x8000_0000,
    ;
}

/// An unsigned integer of 32 bits at most.
pub trait Natural: Short {
    /// The value is not negative.
    proof fn lemma_natural(self)
        ensures
            Self::lowest() == 0,
    ;
}

/// The values of a vector as mathematical integers.
pub open spec fn values<T: Integer>(v: Seq<T>) -> Seq<int> {
    v.map_values(|x: T| x.value())
}

impl Integer for u8 {
    open spec fn value(self) -> int {
        self as int
    }

    open spec fn lowest() -> int {
        0
    }

    proof fn lemma_range(self) {
    }

    fn widen(self) -> (wide: i128) {
        self as i128
    }
}

impl Short for u8 {
    proof fn lemma_short(self) {
    }
}

impl Narrow for u8 {
    proof fn lemma_narrow(self) {
    }
}

impl Natural for u8 {
    proof fn lemma_natural(self) {
    }
}

impl Integer for u16 {
    open spec fn value(self) -> int {
        self as int
    }

    open spec fn lowest() -> int {
        0
    }

    proof fn lemma_range(self) {
    }

    fn widen(self) -> (wide: i128) {
        self as i128
    }
}

impl Short for u16 {
    proof fn lemma_short(self) {
    }
}

impl Narrow for u16 {
    proof fn lemma_narrow(self) {
    }
}

impl Natural for u16 {
    proof fn lemma_natural(self) {
    }
}

impl Integer for u32 {
    open spec fn value(self) -> int {
        self as int
    }

    open spec fn lowest() -> int {
        0
    }

    proof fn lemma_range(self) {
    }

    fn widen(self) -> (wide: i128) {
        self as i128
    }
}

impl Short for u32 {
    proof fn lemma_short(self) {
    }
}

impl Natural for u32 {
    proof fn lemma_natural(self) {
    }
}

impl Integer for i16 {
    open spec fn value(self) -> int {
        self as int
    }

    open spec fn lowest() -> int {
        -0x8000
    }

    proof fn lemma_range(self) {
    }

    fn widen(self) -> (wide: i128) {
        self as i128
    }
}

impl Short for i16 {
    proof fn lemma_short(self) {
    }
}

impl Narrow for i16 {
    proof fn lemma_narrow(self) {
    }
}

impl Integer for i32 {
    open spec fn value(self) -> int {
        self as int
    }

    open spec fn lowest() -> int {
        -0x8000_0000
    }

    proof fn lemma_range(self) {
    }

    fn widen(self) -> (wide: i128) {
        self as i128
    }
}

impl Short for i32 {
    proof fn lemma_short(self) {
    }
}

impl Narrow for i32 {
    proof fn lemma_narrow(self) {
    }
}

impl Integer for i64 {
    open spec fn value(self) -> int {
        self as int
    }

    open spec fn lowest() -> int {
        -0x8000_0000_0000_0000
    }

    proof fn lemma_range(self) {
    }

    fn widen(self) -> (wide: i128) {
        self as i128
    }
}

} // verus!
