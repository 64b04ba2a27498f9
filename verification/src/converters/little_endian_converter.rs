use vstd::prelude::*;
use vstd::bytes::{
    spec_u16_to_le_bytes, spec_u16_from_le_bytes, lemma_auto_spec_u16_to_from_le_bytes,
    u16_to_le_bytes, u16_from_le_bytes, spec_u32_to_le_bytes, spec_u32_from_le_bytes,
    lemma_auto_spec_u32_to_from_le_bytes, u32_to_le_bytes, u32_from_le_bytes,
    spec_u64_to_le_bytes, spec_u64_from_le_bytes, lemma_auto_spec_u64_to_from_le_bytes,
    u64_to_le_bytes, u64_from_le_bytes,
};
use vstd::slice::slice_subrange;
use crate::allocator::Allocator;
use crate::converter::Converter;
use crate::error::Error;

verus! {

/// A fixed-width integer type with a little-endian byte encoding.
///
/// The codec for such a type needs nothing but the width, the byte
/// mapping in both directions, and the proof that they invert each
/// other.
pub trait LittleEndianValue: Copy + DeepView<V = Self> {
    /// The number of bytes every value of this type encodes to.
    spec fn spec_width() -> usize;

    /// The registration key standing for this type.
    spec fn spec_key() -> u64;

    /// The little-endian bytes of `self`.
    spec fn le_bytes(self) -> Seq<u8>;

    /// The value the little-endian bytes `bytes` spell.
    spec fn from_le_bytes(bytes: Seq<u8>) -> Self;

    /// The deep view of such a value is the value itself.
    proof fn lemma_deep_view(self)
        ensures
            self.deep_view() == self,
    ;

    /// The encoding has the declared width and decodes back to the
    /// value it came from.
    proof fn lemma_round_trip(self)
        ensures
            self.le_bytes().len() == Self::spec_width(),
            0 < Self::spec_width() <= 8,
            Self::from_le_bytes(self.le_bytes()) == self,
    ;

    /// The declared width, as executable code.
    fn width() -> (r: usize)
        ensures
            r == Self::spec_width(),
    ;

    /// The registration key, as executable code.
    fn type_key() -> (r: u64)
        ensures
            r == Self::spec_key(),
    ;

    /// Produces the little-endian bytes of `self`.
    fn write_le(self) -> (r: Vec<u8>)
        ensures
            r@ == self.le_bytes(),
    ;

    /// Reads a value back from its little-endian bytes.
    fn read_le(bytes: &[u8]) -> (r: Self)
        requires
            bytes@.len() == Self::spec_width(),
        ensures
            r == Self::from_le_bytes(bytes@),
    ;
}

/// The unsigned bit pattern of an `i8`.
pub open spec fn i8_as_u8(x: i8) -> u8 {
    if x >= 0 {
        x as u8
    } else {
        (x + 0x100) as u8
    }
}

/// The `i8` whose bit pattern is `x`.
pub open spec fn u8_as_i8(x: u8) -> i8 {
    if x < 0x80 {
        x as i8
    } else {
        (x - 0x100) as i8
    }
}

/// The unsigned bit pattern of an `i16`.
pub open spec fn i16_as_u16(x: i16) -> u16 {
    if x >= 0 {
        x as u16
    } else {
        (x + 0x1_0000) as u16
    }
}

/// The `i16` whose bit pattern is `x`.
pub open spec fn u16_as_i16(x: u16) -> i16 {
    if x < 0x8000 {
        x as i16
    } else {
        (x - 0x1_0000) as i16
    }
}

/// The unsigned bit pattern of an `i32`.
pub open spec fn i32_as_u32(x: i32) -> u32 {
    if x >= 0 {
        x as u32
    } else {
        (x + 0x1_0000_0000) as u32
    }
}

/// The `i32` whose bit pattern is `x`.
pub open spec fn u32_as_i32(x: u32) -> i32 {
    if x < 0x8000_0000 {
        x as i32
    } else {
        (x - 0x1_0000_0000) as i32
    }
}

/// The unsigned bit pattern of an `i64`.
pub open spec fn i64_as_u64(x: i64) -> u64 {
    if x >= 0 {
        x as u64
    } else {
        (x + 0x1_0000_0000_0000_0000) as u64
    }
}

/// The `i64` whose bit pattern is `x`.
pub open spec fn u64_as_i64(x: u64) -> i64 {
    if x < 0x8000_0000_0000_0000 {
        x as i64
    } else {
        (x - 0x1_0000_0000_0000_0000) as i64
    }
}

fn i8_to_u8(x: i8) -> (r: u8)
    ensures
        r == i8_as_u8(x),
{
    if x >= 0 {
        x as u8
    } else {
        let y: i16 = (x as i16) + 0x100;
        y as u8
    }
}

fn u8_to_i8(x: u8) -> (r: i8)
    ensures
        r == u8_as_i8(x),
{
    if x < 0x80 {
        x as i8
    } else {
        let y: i16 = (x as i16) - 0x100;
        y as i8
    }
}

fn i16_to_u16(x: i16) -> (r: u16)
    ensures
        r == i16_as_u16(x),
{
    if x >= 0 {
        x as u16
    } else {
        let y: i32 = (x as i32) + 0x1_0000;
        y as u16
    }
}

fn u16_to_i16(x: u16) -> (r: i16)
    ensures
        r == u16_as_i16(x),
{
    if x < 0x8000 {
        x as i16
    } else {
        let y: i32 = (x as i32) - 0x1_0000;
        y as i16
    }
}

fn i32_to_u32(x: i32) -> (r: u32)
    ensures
        r == i32_as_u32(x),
{
    if x >= 0 {
        x as u32
    } else {
        let y: i64 = (x as i64) + 0x1_0000_0000;
        y as u32
    }
}

fn u32_to_i32(x: u32) -> (r: i32)
    ensures
        r == u32_as_i32(x),
{
    if x < 0x8000_0000 {
        x as i32
    } else {
        let y: i64 = (x as i64) - 0x1_0000_0000;
        y as i32
    }
}

fn i64_to_u64(x: i64) -> (r: u64)
    ensures
        r == i64_as_u64(x),
{
    if x >= 0 {
        x as u64
    } else {
        let y: i128 = (x as i128) + 0x1_0000_0000_0000_0000;
        y as u64
    }
}

fn u64_to_i64(x: u64) -> (r: i64)
    ensures
        r == u64_as_i64(x),
{
    if x < 0x8000_0000_0000_0000 {
        x as i64
    } else {
        let y: i128 = (x as i128) - 0x1_0000_0000_0000_0000;
        y as i64
    }
}

impl LittleEndianValue for u8 {
    open spec fn spec_width() -> usize {
        1
    }

    open spec fn spec_key() -> u64 {
        1
    }

    open spec fn le_bytes(self) -> Seq<u8> {
        seq![self]
    }

    open spec fn from_le_bytes(bytes: Seq<u8>) -> Self {
        bytes[0]
    }

    proof fn lemma_deep_view(self) {
    }

    proof fn lemma_round_trip(self) {
        assert(self.le_bytes()[0] == self);
    }

    fn width() -> usize {
        1
    }

    fn type_key() -> u64 {
        1
    }

    fn write_le(self) -> (r: Vec<u8>) {
        let mut r: Vec<u8> = Vec::new();
        r.push(self);
        proof {
            assert(r@ =~= seq![self]);
        }
        r
    }

    fn read_le(bytes: &[u8]) -> Self {
        bytes[0]
    }
}

impl LittleEndianValue for u16 {
    open spec fn spec_width() -> usize {
        2
    }

    open spec fn spec_key() -> u64 {
        2
    }

    open spec fn le_bytes(self) -> Seq<u8> {
        spec_u16_to_le_bytes(self)
    }

    open spec fn from_le_bytes(bytes: Seq<u8>) -> Self {
        spec_u16_from_le_bytes(bytes)
    }

    proof fn lemma_deep_view(self) {
    }

    proof fn lemma_round_trip(self) {
        lemma_auto_spec_u16_to_from_le_bytes();
    }

    fn width() -> usize {
        2
    }

    fn type_key() -> u64 {
        2
    }

    fn write_le(self) -> (r: Vec<u8>) {
        u16_to_le_bytes(self)
    }

    fn read_le(bytes: &[u8]) -> Self {
        u16_from_le_bytes(bytes)
    }
}

impl LittleEndianValue for u32 {
    open spec fn spec_width() -> usize {
        4
    }

    open spec fn spec_key() -> u64 {
        3
    }

    open spec fn le_bytes(self) -> Seq<u8> {
        spec_u32_to_le_bytes(self)
    }

    open spec fn from_le_bytes(bytes: Seq<u8>) -> Self {
        spec_u32_from_le_bytes(bytes)
    }

    proof fn lemma_deep_view(self) {
    }

    proof fn lemma_round_trip(self) {
        lemma_auto_spec_u32_to_from_le_bytes();
    }

    fn width() -> usize {
        4
    }

    fn type_key() -> u64 {
        3
    }

    fn write_le(self) -> (r: Vec<u8>) {
        u32_to_le_bytes(self)
    }

    fn read_le(bytes: &[u8]) -> Self {
        u32_from_le_bytes(bytes)
    }
}

impl LittleEndianValue for u64 {
    open spec fn spec_width() -> usize {
        8
    }

    open spec fn spec_key() -> u64 {
        4
    }

    open spec fn le_bytes(self) -> Seq<u8> {
        spec_u64_to_le_bytes(self)
    }

    open spec fn from_le_bytes(bytes: Seq<u8>) -> Self {
        spec_u64_from_le_bytes(bytes)
    }

    proof fn lemma_deep_view(self) {
    }

    proof fn lemma_round_trip(self) {
        lemma_auto_spec_u64_to_from_le_bytes();
    }

    fn width() -> usize {
        8
    }

    fn type_key() -> u64 {
        4
    }

    fn write_le(self) -> (r: Vec<u8>) {
        u64_to_le_bytes(self)
    }

    fn read_le(bytes: &[u8]) -> Self {
        u64_from_le_bytes(bytes)
    }
}

impl LittleEndianValue for i8 {
    open spec fn spec_width() -> usize {
        1
    }

    open spec fn spec_key() -> u64 {
        5
    }

    open spec fn le_bytes(self) -> Seq<u8> {
        seq![i8_as_u8(self)]
    }

    open spec fn from_le_bytes(bytes: Seq<u8>) -> Self {
        u8_as_i8(bytes[0])
    }

    proof fn lemma_deep_view(self) {
    }

    proof fn lemma_round_trip(self) {
        assert(self.le_bytes()[0] == i8_as_u8(self));
        assert(u8_as_i8(i8_as_u8(self)) == self);
    }

    fn width() -> usize {
        1
    }

    fn type_key() -> u64 {
        5
    }

    fn write_le(self) -> (r: Vec<u8>) {
        let mut r: Vec<u8> = Vec::new();
        r.push(i8_to_u8(self));
        proof {
            assert(r@ =~= seq![i8_as_u8(self)]);
        }
        r
    }

    fn read_le(bytes: &[u8]) -> Self {
        u8_to_i8(bytes[0])
    }
}

impl LittleEndianValue for i16 {
    open spec fn spec_width() -> usize {
        2
    }

    open spec fn spec_key() -> u64 {
        6
    }

    open spec fn le_bytes(self) -> Seq<u8> {
        spec_u16_to_le_bytes(i16_as_u16(self))
    }

    open spec fn from_le_bytes(bytes: Seq<u8>) -> Self {
        u16_as_i16(spec_u16_from_le_bytes(bytes))
    }

    proof fn lemma_deep_view(self) {
    }

    proof fn lemma_round_trip(self) {
        lemma_auto_spec_u16_to_from_le_bytes();
        assert(u16_as_i16(i16_as_u16(self)) == self);
    }

    fn width() -> usize {
        2
    }

    fn type_key() -> u64 {
        6
    }

    fn write_le(self) -> (r: Vec<u8>) {
        u16_to_le_bytes(i16_to_u16(self))
    }

    fn read_le(bytes: &[u8]) -> Self {
        u16_to_i16(u16_from_le_bytes(bytes))
    }
}

impl LittleEndianValue for i32 {
    open spec fn spec_width() -> usize {
        4
    }

    open spec fn spec_key() -> u64 {
        7
    }

    open spec fn le_bytes(self) -> Seq<u8> {
        spec_u32_to_le_bytes(i32_as_u32(self))
    }

    open spec fn from_le_bytes(bytes: Seq<u8>) -> Self {
        u32_as_i32(spec_u32_from_le_bytes(bytes))
    }

    proof fn lemma_deep_view(self) {
    }

    proof fn lemma_round_trip(self) {
        lemma_auto_spec_u32_to_from_le_bytes();
        assert(u32_as_i32(i32_as_u32(self)) == self);
    }

    fn width() -> usize {
        4
    }

    fn type_key() -> u64 {
        7
    }

    fn write_le(self) -> (r: Vec<u8>) {
        u32_to_le_bytes(i32_to_u32(self))
    }

    fn read_le(bytes: &[u8]) -> Self {
        u32_to_i32(u32_from_le_bytes(bytes))
    }
}

impl LittleEndianValue for i64 {
    open spec fn spec_width() -> usize {
        8
    }

    open spec fn spec_key() -> u64 {
        8
    }

    open spec fn le_bytes(self) -> Seq<u8> {
        spec_u64_to_le_bytes(i64_as_u64(self))
    }

    open spec fn from_le_bytes(bytes: Seq<u8>) -> Self {
        u64_as_i64(spec_u64_from_le_bytes(bytes))
    }

    proof fn lemma_deep_view(self) {
    }

    proof fn lemma_round_trip(self) {
        lemma_auto_spec_u64_to_from_le_bytes();
        assert(u64_as_i64(i64_as_u64(self)) == self);
    }

    fn width() -> usize {
        8
    }

    fn type_key() -> u64 {
        8
    }

    fn write_le(self) -> (r: Vec<u8>) {
        u64_to_le_bytes(i64_to_u64(self))
    }

    fn read_le(bytes: &[u8]) -> Self {
        u64_to_i64(u64_from_le_bytes(bytes))
    }
}

/// The codec for fixed-width integers: raw little-endian bytes,
/// exactly the type's width, no prefix.
pub struct LittleEndianConverter<T> {
    _marker: core::marker::PhantomData<T>,
}

impl<T> LittleEndianConverter<T> {
    /// Creates the codec; it carries no state.
    pub fn new() -> Self {
        LittleEndianConverter { _marker: core::marker::PhantomData }
    }
}

impl<T: LittleEndianValue> crate::interface::Converter for LittleEndianConverter<T> {
    open spec fn spec_length(&self) -> usize {
        T::spec_width()
    }

    open spec fn spec_generic_argument(&self) -> u64 {
        T::spec_key()
    }

    fn length(&self) -> usize {
        T::width()
    }

    fn generic_argument(&self) -> u64 {
        T::type_key()
    }
}

impl<T: LittleEndianValue> Converter<T> for LittleEndianConverter<T> {
    open spec fn enc(&self, v: T) -> Seq<u8> {
        v.le_bytes()
    }

    open spec fn dec(&self, bytes: Seq<u8>) -> Option<T> {
        if bytes.len() >= T::spec_width() {
            Some(T::from_le_bytes(bytes.take(T::spec_width() as int)))
        } else {
            None
        }
    }

    open spec fn dec_err(&self, bytes: Seq<u8>) -> Error {
        Error::InsufficientData
    }

    open spec fn encodable(&self, len: int, lim: int, v: T) -> bool {
        len + T::spec_width() <= lim
    }

    proof fn lemma_enc_width(&self, v: T) {
        v.lemma_round_trip();
    }

    proof fn lemma_round_trip(&self, v: T) {
        v.lemma_round_trip();
        assert(v.le_bytes().take(T::spec_width() as int) =~= v.le_bytes());
    }

    fn encode(&self, allocator: &mut Allocator, item: &T) -> (r: Result<(), Error>) {
        proof {
            item.lemma_round_trip();
            item.lemma_deep_view();
        }
        let bytes = item.write_le();
        let r = allocator.append(bytes.as_slice());
        proof {
            if r is Err {
                assert(old(allocator)@.is_prefix_of(allocator@));
            }
        }
        r
    }

    fn decode(&self, span: &&[u8]) -> (r: Result<T, Error>) {
        let width = T::width();
        if span.len() < width {
            return Err(Error::InsufficientData);
        }
        let head = slice_subrange(*span, 0, width);
        proof {
            assert(head@ =~= (*span)@.take(T::spec_width() as int));
        }
        let r = T::read_le(head);
        proof {
            r.lemma_deep_view();
        }
        Ok(r)
    }
}

} // verus!
