//! The combining class as an integer of any width, and back. A number that
//! is no class is cut to its low eight bits, as a cast cuts it.

use crate::codepoint::canonical_combining_class::CanonicalCombiningClass;
use vstd::prelude::*;

verus! {

impl From<u16> for CanonicalCombiningClass {
    fn from(value: u16) -> (r: Self) {
        CanonicalCombiningClass(#[verifier::truncate] (value as u8))
    }
}

impl vstd::std_specs::convert::FromSpecImpl<u16> for CanonicalCombiningClass {
    open spec fn obeys_from_spec() -> bool {
        true
    }

    open spec fn from_spec(value: u16) -> Self {
        CanonicalCombiningClass(value as u8)
    }
}

impl From<CanonicalCombiningClass> for u16 {
    fn from(value: CanonicalCombiningClass) -> (r: Self) {
        value.0 as u16
    }
}

impl vstd::std_specs::convert::FromSpecImpl<CanonicalCombiningClass> for u16 {
    open spec fn obeys_from_spec() -> bool {
        true
    }

    open spec fn from_spec(value: CanonicalCombiningClass) -> Self {
        value.0 as u16
    }
}

impl From<u32> for CanonicalCombiningClass {
    fn from(value: u32) -> (r: Self) {
        CanonicalCombiningClass(#[verifier::truncate] (value as u8))
    }
}

impl vstd::std_specs::convert::FromSpecImpl<u32> for CanonicalCombiningClass {
    open spec fn obeys_from_spec() -> bool {
        true
    }

    open spec fn from_spec(value: u32) -> Self {
        CanonicalCombiningClass(value as u8)
    }
}

impl From<CanonicalCombiningClass> for u32 {
    fn from(value: CanonicalCombiningClass) -> (r: Self) {
        value.0 as u32
    }
}

impl vstd::std_specs::convert::FromSpecImpl<CanonicalCombiningClass> for u32 {
    open spec fn obeys_from_spec() -> bool {
        true
    }

    open spec fn from_spec(value: CanonicalCombiningClass) -> Self {
        value.0 as u32
    }
}

impl From<u64> for CanonicalCombiningClass {
    fn from(value: u64) -> (r: Self) {
        CanonicalCombiningClass(#[verifier::truncate] (value as u8))
    }
}

impl vstd::std_specs::convert::FromSpecImpl<u64> for CanonicalCombiningClass {
    open spec fn obeys_from_spec() -> bool {
        true
    }

    open spec fn from_spec(value: u64) -> Self {
        CanonicalCombiningClass(value as u8)
    }
}

impl From<CanonicalCombiningClass> for u64 {
    fn from(value: CanonicalCombiningClass) -> (r: Self) {
        value.0 as u64
    }
}

impl vstd::std_specs::convert::FromSpecImpl<CanonicalCombiningClass> for u64 {
    open spec fn obeys_from_spec() -> bool {
        true
    }

    open spec fn from_spec(value: CanonicalCombiningClass) -> Self {
        value.0 as u64
    }
}

impl From<u128> for CanonicalCombiningClass {
    fn from(value: u128) -> (r: Self) {
        CanonicalCombiningClass(#[verifier::truncate] (value as u8))
    }
}

impl vstd::std_specs::convert::FromSpecImpl<u128> for CanonicalCombiningClass {
    open spec fn obeys_from_spec() -> bool {
        true
    }

    open spec fn from_spec(value: u128) -> Self {
        CanonicalCombiningClass(value as u8)
    }
}

impl From<CanonicalCombiningClass> for u128 {
    fn from(value: CanonicalCombiningClass) -> (r: Self) {
        value.0 as u128
    }
}

impl vstd::std_specs::convert::FromSpecImpl<CanonicalCombiningClass> for u128 {
    open spec fn obeys_from_spec() -> bool {
        true
    }

    open spec fn from_spec(value: CanonicalCombiningClass) -> Self {
        value.0 as u128
    }
}

impl From<i8> for CanonicalCombiningClass {
    fn from(value: i8) -> (r: Self) {
        CanonicalCombiningClass(#[verifier::truncate] (value as u8))
    }
}

impl vstd::std_specs::convert::FromSpecImpl<i8> for CanonicalCombiningClass {
    open spec fn obeys_from_spec() -> bool {
        true
    }

    open spec fn from_spec(value: i8) -> Self {
        CanonicalCombiningClass(value as u8)
    }
}

impl From<CanonicalCombiningClass> for i8 {
    fn from(value: CanonicalCombiningClass) -> (r: Self) {
        #[verifier::truncate] (value.0 as i8)
    }
}

impl vstd::std_specs::convert::FromSpecImpl<CanonicalCombiningClass> for i8 {
    open spec fn obeys_from_spec() -> bool {
        true
    }

    open spec fn from_spec(value: CanonicalCombiningClass) -> Self {
        value.0 as i8
    }
}

impl From<i16> for CanonicalCombiningClass {
    fn from(value: i16) -> (r: Self) {
        CanonicalCombiningClass(#[verifier::truncate] (value as u8))
    }
}

impl vstd::std_specs::convert::FromSpecImpl<i16> for CanonicalCombiningClass {
    open spec fn obeys_from_spec() -> bool {
        true
    }

    open spec fn from_spec(value: i16) -> Self {
        CanonicalCombiningClass(value as u8)
    }
}

impl From<CanonicalCombiningClass> for i16 {
    fn from(value: CanonicalCombiningClass) -> (r: Self) {
        value.0 as i16
    }
}

impl vstd::std_specs::convert::FromSpecImpl<CanonicalCombiningClass> for i16 {
    open spec fn obeys_from_spec() -> bool {
        true
    }

    open spec fn from_spec(value: CanonicalCombiningClass) -> Self {
        value.0 as i16
    }
}

impl From<i32> for CanonicalCombiningClass {
    fn from(value: i32) -> (r: Self) {
        CanonicalCombiningClass(#[verifier::truncate] (value as u8))
    }
}

impl vstd::std_specs::convert::FromSpecImpl<i32> for CanonicalCombiningClass {
    open spec fn obeys_from_spec() -> bool {
        true
    }

    open spec fn from_spec(value: i32) -> Self {
        CanonicalCombiningClass(value as u8)
    }
}

impl From<CanonicalCombiningClass> for i32 {
    fn from(value: CanonicalCombiningClass) -> (r: Self) {
        value.0 as i32
    }
}

impl vstd::std_specs::convert::FromSpecImpl<CanonicalCombiningClass> for i32 {
    open spec fn obeys_from_spec() -> bool {
        true
    }

    open spec fn from_spec(value: CanonicalCombiningClass) -> Self {
        value.0 as i32
    }
}

impl From<i64> for CanonicalCombiningClass {
    fn from(value: i64) -> (r: Self) {
        CanonicalCombiningClass(#[verifier::truncate] (value as u8))
    }
}

impl vstd::std_specs::convert::FromSpecImpl<i64> for CanonicalCombiningClass {
    open spec fn obeys_from_spec() -> bool {
        true
    }

    open spec fn from_spec(value: i64) -> Self {
        CanonicalCombiningClass(value as u8)
    }
}

impl From<CanonicalCombiningClass> for i64 {
    fn from(value: CanonicalCombiningClass) -> (r: Self) {
        value.0 as i64
    }
}

impl vstd::std_specs::convert::FromSpecImpl<CanonicalCombiningClass> for i64 {
    open spec fn obeys_from_spec() -> bool {
        true
    }

    open spec fn from_spec(value: CanonicalCombiningClass) -> Self {
        value.0 as i64
    }
}

impl From<i128> for CanonicalCombiningClass {
    fn from(value: i128) -> (r: Self) {
        CanonicalCombiningClass(#[verifier::truncate] (value as u8))
    }
}

impl vstd::std_specs::convert::FromSpecImpl<i128> for CanonicalCombiningClass {
    open spec fn obeys_from_spec() -> bool {
        true
    }

    open spec fn from_spec(value: i128) -> Self {
        CanonicalCombiningClass(value as u8)
    }
}

impl From<CanonicalCombiningClass> for i128 {
    fn from(value: CanonicalCombiningClass) -> (r: Self) {
        value.0 as i128
    }
}

impl vstd::std_specs::convert::FromSpecImpl<CanonicalCombiningClass> for i128 {
    open spec fn obeys_from_spec() -> bool {
        true
    }

    open spec fn from_spec(value: CanonicalCombiningClass) -> Self {
        value.0 as i128
    }
}

} // verus!
