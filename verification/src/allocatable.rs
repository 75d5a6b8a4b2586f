//! The capability that a type needs to be stored in the arena: a fixed layout
//! and a byte image from which the value can be read back.

use vstd::prelude::*;
use crate::codec::{
    decode, encode, le_bytes, le_value, lemma_le_bytes_len, lemma_le_round_trip,
    lemma_radix_values, lemma_signed_round_trip, to_signed, to_unsigned, unwrap_signed,
    wrap_signed,
};
use crate::layout::{is_power_of_two, Layout};

verus! {

/// A type whose values the arena can hold. Every value occupies the same
/// number of bytes, and is read back from the bytes that were written for it.
pub trait Allocatable: Sized {
    /// The size and alignment of the storage of one value.
    spec fn layout_spec() -> Layout;

    /// The bytes that stand for the value in storage.
    spec fn image(&self) -> Seq<u8>;

    /// The value that storage holding `bytes` is read as.
    spec fn from_image(bytes: Seq<u8>) -> Self;

    /// The layout describes storage, an image fills it exactly, and a value is
    /// read back from its own image.
    proof fn lemma_image(v: Self)
        ensures
            Self::layout_spec().valid(),
            v.image().len() == Self::layout_spec().size,
            Self::from_image(v.image()) == v,
    ;

    /// The size and alignment of the storage of one value.
    fn layout() -> (l: Layout)
        ensures
            l == Self::layout_spec(),
    ;

    /// The value's image.
    fn to_bytes(&self) -> (bytes: Vec<u8>)
        ensures
            bytes@ == self.image(),
    ;

    /// The value that `bytes` is read as.
    fn from_bytes(bytes: &Vec<u8>) -> (v: Self)
        requires
            bytes@.len() == Self::layout_spec().size,
        ensures
            v == Self::from_image(bytes@),
    ;
}

impl Layout {
    /// The layout of the values of `T`.
    pub fn new<T: Allocatable>() -> (l: Layout)
        ensures
            l == T::layout_spec(),
            l.valid(),
    {
        proof {
            lemma_layout_of::<T>();
        }
        T::layout()
    }
}

/// The layout of every storable type describes storage.
pub proof fn lemma_layout_of<T: Allocatable>()
    ensures
        T::layout_spec().valid(),
{
    let v: T = arbitrary();
    T::lemma_image(v);
}

/// The alignments that the integer types use are powers of two.
pub proof fn lemma_small_powers_of_two()
    ensures
        is_power_of_two(1),
        is_power_of_two(2),
        is_power_of_two(4),
        is_power_of_two(8),
        is_power_of_two(16),
{
    reveal_with_fuel(is_power_of_two, 6);
}

impl Allocatable for bool {
    open spec fn layout_spec() -> Layout {
        Layout { size: 1, align: 1 }
    }

    open spec fn image(&self) -> Seq<u8> {
        seq![if *self { 1u8 } else { 0u8 }]
    }

    open spec fn from_image(bytes: Seq<u8>) -> Self {
        bytes[0] != 0
    }

    proof fn lemma_image(v: Self) {
        lemma_small_powers_of_two();
    }

    fn layout() -> (l: Layout) {
        Layout { size: 1, align: 1 }
    }

    fn to_bytes(&self) -> (bytes: Vec<u8>) {
        let mut bytes: Vec<u8> = Vec::new();
        bytes.push(if *self { 1u8 } else { 0u8 });
        assert(bytes@ =~= self.image());
        bytes
    }

    fn from_bytes(bytes: &Vec<u8>) -> (v: Self) {
        bytes[0] != 0
    }
}

impl Allocatable for u8 {
    open spec fn layout_spec() -> Layout {
        Layout { size: 1, align: 1 }
    }

    open spec fn image(&self) -> Seq<u8> {
        le_bytes(*self as nat, 1)
    }

    open spec fn from_image(bytes: Seq<u8>) -> Self {
        le_value(bytes) as u8
    }

    proof fn lemma_image(v: Self) {
        lemma_small_powers_of_two();
        lemma_radix_values();
        lemma_le_bytes_len(v as nat, 1);
        lemma_le_round_trip(v as nat, 1);
    }

    fn layout() -> (l: Layout) {
        Layout { size: 1, align: 1 }
    }

    fn to_bytes(&self) -> (bytes: Vec<u8>) {
        encode(*self as u128, 1)
    }

    fn from_bytes(bytes: &Vec<u8>) -> (v: Self) {
        proof {
            lemma_radix_values();
        }
        decode(bytes) as u8
    }
}

impl Allocatable for u16 {
    open spec fn layout_spec() -> Layout {
        Layout { size: 2, align: 2 }
    }

    open spec fn image(&self) -> Seq<u8> {
        le_bytes(*self as nat, 2)
    }

    open spec fn from_image(bytes: Seq<u8>) -> Self {
        le_value(bytes) as u16
    }

    proof fn lemma_image(v: Self) {
        lemma_small_powers_of_two();
        lemma_radix_values();
        lemma_le_bytes_len(v as nat, 2);
        lemma_le_round_trip(v as nat, 2);
    }

    fn layout() -> (l: Layout) {
        Layout { size: 2, align: 2 }
    }

    fn to_bytes(&self) -> (bytes: Vec<u8>) {
        encode(*self as u128, 2)
    }

    fn from_bytes(bytes: &Vec<u8>) -> (v: Self) {
        proof {
            lemma_radix_values();
        }
        decode(bytes) as u16
    }
}

impl Allocatable for u32 {
    open spec fn layout_spec() -> Layout {
        Layout { size: 4, align: 4 }
    }

    open spec fn image(&self) -> Seq<u8> {
        le_bytes(*self as nat, 4)
    }

    open spec fn from_image(bytes: Seq<u8>) -> Self {
        le_value(bytes) as u32
    }

    proof fn lemma_image(v: Self) {
        lemma_small_powers_of_two();
        lemma_radix_values();
        lemma_le_bytes_len(v as nat, 4);
        lemma_le_round_trip(v as nat, 4);
    }

    fn layout() -> (l: Layout) {
        Layout { size: 4, align: 4 }
    }

    fn to_bytes(&self) -> (bytes: Vec<u8>) {
        encode(*self as u128, 4)
    }

    fn from_bytes(bytes: &Vec<u8>) -> (v: Self) {
        proof {
            lemma_radix_values();
        }
        decode(bytes) as u32
    }
}

impl Allocatable for u64 {
    open spec fn layout_spec() -> Layout {
        Layout { size: 8, align: 8 }
    }

    open spec fn image(&self) -> Seq<u8> {
        le_bytes(*self as nat, 8)
    }

    open spec fn from_image(bytes: Seq<u8>) -> Self {
        le_value(bytes) as u64
    }

    proof fn lemma_image(v: Self) {
        lemma_small_powers_of_two();
        lemma_radix_values();
        lemma_le_bytes_len(v as nat, 8);
        lemma_le_round_trip(v as nat, 8);
    }

    fn layout() -> (l: Layout) {
        Layout { size: 8, align: 8 }
    }

    fn to_bytes(&self) -> (bytes: Vec<u8>) {
        encode(*self as u128, 8)
    }

    fn from_bytes(bytes: &Vec<u8>) -> (v: Self) {
        proof {
            lemma_radix_values();
        }
        decode(bytes) as u64
    }
}

impl Allocatable for u128 {
    open spec fn layout_spec() -> Layout {
        Layout { size: 16, align: 16 }
    }

    open spec fn image(&self) -> Seq<u8> {
        le_bytes(*self as nat, 16)
    }

    open spec fn from_image(bytes: Seq<u8>) -> Self {
        le_value(bytes) as u128
    }

    proof fn lemma_image(v: Self) {
        lemma_small_powers_of_two();
        lemma_radix_values();
        lemma_le_bytes_len(v as nat, 16);
        lemma_le_round_trip(v as nat, 16);
    }

    fn layout() -> (l: Layout) {
        Layout { size: 16, align: 16 }
    }

    fn to_bytes(&self) -> (bytes: Vec<u8>) {
        encode(*self as u128, 16)
    }

    fn from_bytes(bytes: &Vec<u8>) -> (v: Self) {
        proof {
            lemma_radix_values();
        }
        decode(bytes) as u128
    }
}

impl Allocatable for i8 {
    open spec fn layout_spec() -> Layout {
        Layout { size: 1, align: 1 }
    }

    open spec fn image(&self) -> Seq<u8> {
        le_bytes(wrap_signed(*self as int, 1), 1)
    }

    open spec fn from_image(bytes: Seq<u8>) -> Self {
        unwrap_signed(le_value(bytes), 1) as i8
    }

    proof fn lemma_image(v: Self) {
        lemma_small_powers_of_two();
        lemma_radix_values();
        lemma_signed_round_trip(v as int, 1);
        lemma_le_bytes_len(wrap_signed(v as int, 1), 1);
        lemma_le_round_trip(wrap_signed(v as int, 1), 1);
    }

    fn layout() -> (l: Layout) {
        Layout { size: 1, align: 1 }
    }

    fn to_bytes(&self) -> (bytes: Vec<u8>) {
        proof {
            lemma_radix_values();
        }
        encode(to_unsigned(*self as i128, 0xff), 1)
    }

    fn from_bytes(bytes: &Vec<u8>) -> (v: Self) {
        proof {
            lemma_radix_values();
        }
        to_signed(decode(bytes), 0xff) as i8
    }
}

impl Allocatable for i16 {
    open spec fn layout_spec() -> Layout {
        Layout { size: 2, align: 2 }
    }

    open spec fn image(&self) -> Seq<u8> {
        le_bytes(wrap_signed(*self as int, 2), 2)
    }

    open spec fn from_image(bytes: Seq<u8>) -> Self {
        unwrap_signed(le_value(bytes), 2) as i16
    }

    proof fn lemma_image(v: Self) {
        lemma_small_powers_of_two();
        lemma_radix_values();
        lemma_signed_round_trip(v as int, 2);
        lemma_le_bytes_len(wrap_signed(v as int, 2), 2);
        lemma_le_round_trip(wrap_signed(v as int, 2), 2);
    }

    fn layout() -> (l: Layout) {
        Layout { size: 2, align: 2 }
    }

    fn to_bytes(&self) -> (bytes: Vec<u8>) {
        proof {
            lemma_radix_values();
        }
        encode(to_unsigned(*self as i128, 0xffff), 2)
    }

    fn from_bytes(bytes: &Vec<u8>) -> (v: Self) {
        proof {
            lemma_radix_values();
        }
        to_signed(decode(bytes), 0xffff) as i16
    }
}

impl Allocatable for i32 {
    open spec fn layout_spec() -> Layout {
        Layout { size: 4, align: 4 }
    }

    open spec fn image(&self) -> Seq<u8> {
        le_bytes(wrap_signed(*self as int, 4), 4)
    }

    open spec fn from_image(bytes: Seq<u8>) -> Self {
        unwrap_signed(le_value(bytes), 4) as i32
    }

    proof fn lemma_image(v: Self) {
        lemma_small_powers_of_two();
        lemma_radix_values();
        lemma_signed_round_trip(v as int, 4);
        lemma_le_bytes_len(wrap_signed(v as int, 4), 4);
        lemma_le_round_trip(wrap_signed(v as int, 4), 4);
    }

    fn layout() -> (l: Layout) {
        Layout { size: 4, align: 4 }
    }

    fn to_bytes(&self) -> (bytes: Vec<u8>) {
        proof {
            lemma_radix_values();
        }
        encode(to_unsigned(*self as i128, 0xffff_ffff), 4)
    }

    fn from_bytes(bytes: &Vec<u8>) -> (v: Self) {
        proof {
            lemma_radix_values();
        }
        to_signed(decode(bytes), 0xffff_ffff) as i32
    }
}

impl Allocatable for i64 {
    open spec fn layout_spec() -> Layout {
        Layout { size: 8, align: 8 }
    }

    open spec fn image(&self) -> Seq<u8> {
        le_bytes(wrap_signed(*self as int, 8), 8)
    }

    open spec fn from_image(bytes: Seq<u8>) -> Self {
        unwrap_signed(le_value(bytes), 8) as i64
    }

    proof fn lemma_image(v: Self) {
        lemma_small_powers_of_two();
        lemma_radix_values();
        lemma_signed_round_trip(v as int, 8);
        lemma_le_bytes_len(wrap_signed(v as int, 8), 8);
        lemma_le_round_trip(wrap_signed(v as int, 8), 8);
    }

    fn layout() -> (l: Layout) {
        Layout { size: 8, align: 8 }
    }

    fn to_bytes(&self) -> (bytes: Vec<u8>) {
        proof {
            lemma_radix_values();
        }
        encode(to_unsigned(*self as i128, 0xffff_ffff_ffff_ffff), 8)
    }

    fn from_bytes(bytes: &Vec<u8>) -> (v: Self) {
        proof {
            lemma_radix_values();
        }
        to_signed(decode(bytes), 0xffff_ffff_ffff_ffff) as i64
    }
}

impl Allocatable for i128 {
    open spec fn layout_spec() -> Layout {
        Layout { size: 16, align: 16 }
    }

    open spec fn image(&self) -> Seq<u8> {
        le_bytes(wrap_signed(*self as int, 16), 16)
    }

    open spec fn from_image(bytes: Seq<u8>) -> Self {
        unwrap_signed(le_value(bytes), 16) as i128
    }

    proof fn lemma_image(v: Self) {
        lemma_small_powers_of_two();
        lemma_radix_values();
        lemma_signed_round_trip(v as int, 16);
        lemma_le_bytes_len(wrap_signed(v as int, 16), 16);
        lemma_le_round_trip(wrap_signed(v as int, 16), 16);
    }

    fn layout() -> (l: Layout) {
        Layout { size: 16, align: 16 }
    }

    fn to_bytes(&self) -> (bytes: Vec<u8>) {
        proof {
            lemma_radix_values();
        }
        encode(to_unsigned(*self as i128, 0xffff_ffff_ffff_ffff_ffff_ffff_ffff_ffff), 16)
    }

    fn from_bytes(bytes: &Vec<u8>) -> (v: Self) {
        proof {
            lemma_radix_values();
        }
        to_signed(decode(bytes), 0xffff_ffff_ffff_ffff_ffff_ffff_ffff_ffff) as i128
    }
}

} // verus!
