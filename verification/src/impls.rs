//! How the types of the language are written.

use crate::format::{
    elements_models, elements_writes, lemma_elements_round_trip, read_elements, Format, Formatter,
};
use crate::wire::{lemma_strip_tag, strip_tag, tag_part, Op, Str, Tag};
use std::rc::Rc;
use std::sync::Arc;
use std::time::Duration;
use vstd::prelude::*;

verus! {

/// Takes a tag, where the context has one, and one write off the front of
/// `stream`; `pick` says what the write means, or that it is of the wrong kind.
pub open spec fn read_scalar<M>(
    stream: Seq<Op>,
    tag: Tag,
    tagged: bool,
    pick: spec_fn(Op) -> Option<M>,
) -> Option<(M, Seq<Op>)> {
    match strip_tag(stream, tag, tagged) {
        Some(body) => if body.len() > 0 {
            match pick(body[0]) {
                Some(value) => Some((value, body.drop_first())),
                None => None,
            }
        } else {
            None
        },
        None => None,
    }
}

/// A tag part and one write are read back as what `pick` makes of the write.
pub proof fn lemma_read_scalar<M>(
    tag: Tag,
    tagged: bool,
    op: Op,
    rest: Seq<Op>,
    pick: spec_fn(Op) -> Option<M>,
)
    ensures
        read_scalar(tag_part(tag, tagged).push(op) + rest, tag, tagged, pick) == match pick(op) {
            Some(value) => Some((value, rest)),
            None => None,
        },
{
    let body = seq![op] + rest;
    assert(tag_part(tag, tagged).push(op) + rest =~= tag_part(tag, tagged) + body);
    lemma_strip_tag(tag, tagged, body);
    assert(body[0] == op);
    assert(body.drop_first() =~= rest);
}

/// What is behind the tag part of a written value, in front of `rest`.
pub proof fn lemma_strip_written(tag: Tag, tagged: bool, body: Seq<Op>, rest: Seq<Op>)
    ensures
        strip_tag((tag_part(tag, tagged) + body) + rest, tag, tagged) == Some(body + rest),
{
    assert((tag_part(tag, tagged) + body) + rest =~= tag_part(tag, tagged) + (body + rest));
    lemma_strip_tag(tag, tagged, body + rest);
}

/// The byte with the bits of an `i8`: the number itself where it is not
/// negative, and 256 more where it is.
pub proof fn lemma_i8_bits(value: i8)
    ensures
        (value as u8) as int == if value >= 0 {
            value as int
        } else {
            value + 256
        },
{
    assert(value >= 0 ==> (value as u8) as i16 == value as i16) by (bit_vector);
    assert(value < 0 ==> (value as u8) as i16 == (value as i16) + 256) by (bit_vector);
}

/// The `u16` with the bits of an `i16`: the number itself where it is not
/// negative, and 65536 more where it is.
pub proof fn lemma_i16_bits(value: i16)
    ensures
        (value as u16) as int == if value >= 0 {
            value as int
        } else {
            value + 65536
        },
{
    assert(value >= 0 ==> (value as u16) as i32 == value as i32) by (bit_vector);
    assert(value < 0 ==> (value as u16) as i32 == (value as i32) + 65536) by (bit_vector);
}

/// What a write means as an `i8`: the `u8` with the same bits.
pub open spec fn i8_pick() -> spec_fn(Op) -> Option<i8> {
    |op: Op|
        match op {
            Op::U8(v) => Some(v as i8),
            _ => None,
        }
}

impl Format for i8 {
    type Model = i8;

    open spec fn model(&self) -> i8 {
        *self
    }

    open spec fn writes(&self, tagged: bool) -> Seq<Op> {
        tag_part(Tag::I8, tagged).push(Op::U8(*self as u8))
    }

    open spec fn read(stream: Seq<Op>, tagged: bool) -> Option<(i8, Seq<Op>)> {
        read_scalar(stream, Tag::I8, tagged, i8_pick())
    }

    proof fn round_trip(&self, tagged: bool, rest: Seq<Op>) {
        let value = *self;
        assert((value as u8) as i8 == value) by (bit_vector);
        lemma_read_scalar(Tag::I8, tagged, Op::U8(*self as u8), rest, i8_pick());
    }

    proof fn tag_comes_first(&self) {
    }

    fn format(&self, fmt: &mut Formatter) {
        if fmt.needs_tag() {
            fmt.tag(Tag::I8);
        }
        fmt.u8(&(*self as u8));
    }
}

/// What a write means as an `i16`: the `u16` with the same bits.
pub open spec fn i16_pick() -> spec_fn(Op) -> Option<i16> {
    |op: Op|
        match op {
            Op::U16(v) => Some(v as i16),
            _ => None,
        }
}

impl Format for i16 {
    type Model = i16;

    open spec fn model(&self) -> i16 {
        *self
    }

    open spec fn writes(&self, tagged: bool) -> Seq<Op> {
        tag_part(Tag::I16, tagged).push(Op::U16(*self as u16))
    }

    open spec fn read(stream: Seq<Op>, tagged: bool) -> Option<(i16, Seq<Op>)> {
        read_scalar(stream, Tag::I16, tagged, i16_pick())
    }

    proof fn round_trip(&self, tagged: bool, rest: Seq<Op>) {
        let value = *self;
        assert((value as u16) as i16 == value) by (bit_vector);
        lemma_read_scalar(Tag::I16, tagged, Op::U16(*self as u16), rest, i16_pick());
    }

    proof fn tag_comes_first(&self) {
    }

    fn format(&self, fmt: &mut Formatter) {
        if fmt.needs_tag() {
            fmt.tag(Tag::I16);
        }
        fmt.u16(&(*self as u16));
    }
}

/// What a write means as an `i32`.
pub open spec fn i32_pick() -> spec_fn(Op) -> Option<i32> {
    |op: Op|
        match op {
            Op::I32(v) => Some(v),
            _ => None,
        }
}

impl Format for i32 {
    type Model = i32;

    open spec fn model(&self) -> i32 {
        *self
    }

    open spec fn writes(&self, tagged: bool) -> Seq<Op> {
        tag_part(Tag::I32, tagged).push(Op::I32(*self))
    }

    open spec fn read(stream: Seq<Op>, tagged: bool) -> Option<(i32, Seq<Op>)> {
        read_scalar(stream, Tag::I32, tagged, i32_pick())
    }

    proof fn round_trip(&self, tagged: bool, rest: Seq<Op>) {
        lemma_read_scalar(Tag::I32, tagged, Op::I32(*self), rest, i32_pick());
    }

    proof fn tag_comes_first(&self) {
    }

    fn format(&self, fmt: &mut Formatter) {
        if fmt.needs_tag() {
            fmt.tag(Tag::I32);
        }
        fmt.i32(self);
    }
}

/// What a write means as an `i64`.
pub open spec fn i64_pick() -> spec_fn(Op) -> Option<i64> {
    |op: Op|
        match op {
            Op::I64(v) => Some(v),
            _ => None,
        }
}

impl Format for i64 {
    type Model = i64;

    open spec fn model(&self) -> i64 {
        *self
    }

    open spec fn writes(&self, tagged: bool) -> Seq<Op> {
        tag_part(Tag::I64, tagged).push(Op::I64(*self))
    }

    open spec fn read(stream: Seq<Op>, tagged: bool) -> Option<(i64, Seq<Op>)> {
        read_scalar(stream, Tag::I64, tagged, i64_pick())
    }

    proof fn round_trip(&self, tagged: bool, rest: Seq<Op>) {
        lemma_read_scalar(Tag::I64, tagged, Op::I64(*self), rest, i64_pick());
    }

    proof fn tag_comes_first(&self) {
    }

    fn format(&self, fmt: &mut Formatter) {
        if fmt.needs_tag() {
            fmt.tag(Tag::I64);
        }
        fmt.i64(self);
    }
}

/// What a write means as an `i128`.
pub open spec fn i128_pick() -> spec_fn(Op) -> Option<i128> {
    |op: Op|
        match op {
            Op::I128(v) => Some(v),
            _ => None,
        }
}

impl Format for i128 {
    type Model = i128;

    open spec fn model(&self) -> i128 {
        *self
    }

    open spec fn writes(&self, tagged: bool) -> Seq<Op> {
        tag_part(Tag::I128, tagged).push(Op::I128(*self))
    }

    open spec fn read(stream: Seq<Op>, tagged: bool) -> Option<(i128, Seq<Op>)> {
        read_scalar(stream, Tag::I128, tagged, i128_pick())
    }

    proof fn round_trip(&self, tagged: bool, rest: Seq<Op>) {
        lemma_read_scalar(Tag::I128, tagged, Op::I128(*self), rest, i128_pick());
    }

    proof fn tag_comes_first(&self) {
    }

    fn format(&self, fmt: &mut Formatter) {
        if fmt.needs_tag() {
            fmt.tag(Tag::I128);
        }
        fmt.i128(self);
    }
}

/// What a write means as an `isize`.
pub open spec fn isize_pick() -> spec_fn(Op) -> Option<isize> {
    |op: Op|
        match op {
            Op::Isize(v) => Some(v),
            _ => None,
        }
}

impl Format for isize {
    type Model = isize;

    open spec fn model(&self) -> isize {
        *self
    }

    open spec fn writes(&self, tagged: bool) -> Seq<Op> {
        tag_part(Tag::Isize, tagged).push(Op::Isize(*self))
    }

    open spec fn read(stream: Seq<Op>, tagged: bool) -> Option<(isize, Seq<Op>)> {
        read_scalar(stream, Tag::Isize, tagged, isize_pick())
    }

    proof fn round_trip(&self, tagged: bool, rest: Seq<Op>) {
        lemma_read_scalar(Tag::Isize, tagged, Op::Isize(*self), rest, isize_pick());
    }

    proof fn tag_comes_first(&self) {
    }

    fn format(&self, fmt: &mut Formatter) {
        if fmt.needs_tag() {
            fmt.tag(Tag::Isize);
        }
        fmt.isize(self);
    }
}

/// What a write means as a `u8`.
pub open spec fn u8_pick() -> spec_fn(Op) -> Option<u8> {
    |op: Op|
        match op {
            Op::U8(v) => Some(v),
            _ => None,
        }
}

impl Format for u8 {
    type Model = u8;

    open spec fn model(&self) -> u8 {
        *self
    }

    open spec fn writes(&self, tagged: bool) -> Seq<Op> {
        tag_part(Tag::U8, tagged).push(Op::U8(*self))
    }

    open spec fn read(stream: Seq<Op>, tagged: bool) -> Option<(u8, Seq<Op>)> {
        read_scalar(stream, Tag::U8, tagged, u8_pick())
    }

    proof fn round_trip(&self, tagged: bool, rest: Seq<Op>) {
        lemma_read_scalar(Tag::U8, tagged, Op::U8(*self), rest, u8_pick());
    }

    proof fn tag_comes_first(&self) {
    }

    fn format(&self, fmt: &mut Formatter) {
        if fmt.needs_tag() {
            fmt.tag(Tag::U8);
        }
        fmt.u8(self);
    }
}

/// What a write means as a `u16`.
pub open spec fn u16_pick() -> spec_fn(Op) -> Option<u16> {
    |op: Op|
        match op {
            Op::U16(v) => Some(v),
            _ => None,
        }
}

impl Format for u16 {
    type Model = u16;

    open spec fn model(&self) -> u16 {
        *self
    }

    open spec fn writes(&self, tagged: bool) -> Seq<Op> {
        tag_part(Tag::U16, tagged).push(Op::U16(*self))
    }

    open spec fn read(stream: Seq<Op>, tagged: bool) -> Option<(u16, Seq<Op>)> {
        read_scalar(stream, Tag::U16, tagged, u16_pick())
    }

    proof fn round_trip(&self, tagged: bool, rest: Seq<Op>) {
        lemma_read_scalar(Tag::U16, tagged, Op::U16(*self), rest, u16_pick());
    }

    proof fn tag_comes_first(&self) {
    }

    fn format(&self, fmt: &mut Formatter) {
        if fmt.needs_tag() {
            fmt.tag(Tag::U16);
        }
        fmt.u16(self);
    }
}

/// What a write means as a `u32`.
pub open spec fn u32_pick() -> spec_fn(Op) -> Option<u32> {
    |op: Op|
        match op {
            Op::U32(v) => Some(v),
            _ => None,
        }
}

impl Format for u32 {
    type Model = u32;

    open spec fn model(&self) -> u32 {
        *self
    }

    open spec fn writes(&self, tagged: bool) -> Seq<Op> {
        tag_part(Tag::U32, tagged).push(Op::U32(*self))
    }

    open spec fn read(stream: Seq<Op>, tagged: bool) -> Option<(u32, Seq<Op>)> {
        read_scalar(stream, Tag::U32, tagged, u32_pick())
    }

    proof fn round_trip(&self, tagged: bool, rest: Seq<Op>) {
        lemma_read_scalar(Tag::U32, tagged, Op::U32(*self), rest, u32_pick());
    }

    proof fn tag_comes_first(&self) {
    }

    fn format(&self, fmt: &mut Formatter) {
        if fmt.needs_tag() {
            fmt.tag(Tag::U32);
        }
        fmt.u32(self);
    }
}

/// What a write means as a `u64`.
pub open spec fn u64_pick() -> spec_fn(Op) -> Option<u64> {
    |op: Op|
        match op {
            Op::U64(v) => Some(v),
            _ => None,
        }
}

impl Format for u64 {
    type Model = u64;

    open spec fn model(&self) -> u64 {
        *self
    }

    open spec fn writes(&self, tagged: bool) -> Seq<Op> {
        tag_part(Tag::U64, tagged).push(Op::U64(*self))
    }

    open spec fn read(stream: Seq<Op>, tagged: bool) -> Option<(u64, Seq<Op>)> {
        read_scalar(stream, Tag::U64, tagged, u64_pick())
    }

    proof fn round_trip(&self, tagged: bool, rest: Seq<Op>) {
        lemma_read_scalar(Tag::U64, tagged, Op::U64(*self), rest, u64_pick());
    }

    proof fn tag_comes_first(&self) {
    }

    fn format(&self, fmt: &mut Formatter) {
        if fmt.needs_tag() {
            fmt.tag(Tag::U64);
        }
        fmt.u64(self);
    }
}

/// What a write means as a `u128`.
pub open spec fn u128_pick() -> spec_fn(Op) -> Option<u128> {
    |op: Op|
        match op {
            Op::U128(v) => Some(v),
            _ => None,
        }
}

impl Format for u128 {
    type Model = u128;

    open spec fn model(&self) -> u128 {
        *self
    }

    open spec fn writes(&self, tagged: bool) -> Seq<Op> {
        tag_part(Tag::U128, tagged).push(Op::U128(*self))
    }

    open spec fn read(stream: Seq<Op>, tagged: bool) -> Option<(u128, Seq<Op>)> {
        read_scalar(stream, Tag::U128, tagged, u128_pick())
    }

    proof fn round_trip(&self, tagged: bool, rest: Seq<Op>) {
        lemma_read_scalar(Tag::U128, tagged, Op::U128(*self), rest, u128_pick());
    }

    proof fn tag_comes_first(&self) {
    }

    fn format(&self, fmt: &mut Formatter) {
        if fmt.needs_tag() {
            fmt.tag(Tag::U128);
        }
        fmt.u128(self);
    }
}

/// What a write means as a `usize`.
pub open spec fn usize_pick() -> spec_fn(Op) -> Option<usize> {
    |op: Op|
        match op {
            Op::Usize(v) => Some(v),
            _ => None,
        }
}

impl Format for usize {
    type Model = usize;

    open spec fn model(&self) -> usize {
        *self
    }

    open spec fn writes(&self, tagged: bool) -> Seq<Op> {
        tag_part(Tag::Usize, tagged).push(Op::Usize(*self))
    }

    open spec fn read(stream: Seq<Op>, tagged: bool) -> Option<(usize, Seq<Op>)> {
        read_scalar(stream, Tag::Usize, tagged, usize_pick())
    }

    proof fn round_trip(&self, tagged: bool, rest: Seq<Op>) {
        lemma_read_scalar(Tag::Usize, tagged, Op::Usize(*self), rest, usize_pick());
    }

    proof fn tag_comes_first(&self) {
    }

    fn format(&self, fmt: &mut Formatter) {
        if fmt.needs_tag() {
            fmt.tag(Tag::Usize);
        }
        fmt.usize(self);
    }
}

/// What a write means as a `bool`.
pub open spec fn bool_pick() -> spec_fn(Op) -> Option<bool> {
    |op: Op|
        match op {
            Op::Bool(v) => Some(v),
            _ => None,
        }
}

impl Format for bool {
    type Model = bool;

    open spec fn model(&self) -> bool {
        *self
    }

    open spec fn writes(&self, tagged: bool) -> Seq<Op> {
        tag_part(Tag::Bool, tagged).push(Op::Bool(*self))
    }

    open spec fn read(stream: Seq<Op>, tagged: bool) -> Option<(bool, Seq<Op>)> {
        read_scalar(stream, Tag::Bool, tagged, bool_pick())
    }

    proof fn round_trip(&self, tagged: bool, rest: Seq<Op>) {
        lemma_read_scalar(Tag::Bool, tagged, Op::Bool(*self), rest, bool_pick());
    }

    proof fn tag_comes_first(&self) {
    }

    fn format(&self, fmt: &mut Formatter) {
        if fmt.needs_tag() {
            fmt.tag(Tag::Bool);
        }
        fmt.bool(self);
    }
}

/// A 32-bit float, held by its bits.
#[derive(Clone, Copy, Debug, PartialEq, Eq, Hash, Structural)]
pub struct Float32(pub u32);

/// A 64-bit float, held by its bits.
#[derive(Clone, Copy, Debug, PartialEq, Eq, Hash, Structural)]
pub struct Float64(pub u64);

/// What a write means as a 32-bit float.
pub open spec fn float32_pick() -> spec_fn(Op) -> Option<Float32> {
    |op: Op|
        match op {
            Op::Float32(bits) => Some(Float32(bits)),
            _ => None,
        }
}

/// What a write means as a 64-bit float.
pub open spec fn float64_pick() -> spec_fn(Op) -> Option<Float64> {
    |op: Op|
        match op {
            Op::Float64(bits) => Some(Float64(bits)),
            _ => None,
        }
}

impl Format for Float32 {
    type Model = Float32;

    open spec fn model(&self) -> Float32 {
        *self
    }

    open spec fn writes(&self, tagged: bool) -> Seq<Op> {
        tag_part(Tag::Float32, tagged).push(Op::Float32(self.0))
    }

    open spec fn read(stream: Seq<Op>, tagged: bool) -> Option<(Float32, Seq<Op>)> {
        read_scalar(stream, Tag::Float32, tagged, float32_pick())
    }

    proof fn round_trip(&self, tagged: bool, rest: Seq<Op>) {
        lemma_read_scalar(Tag::Float32, tagged, Op::Float32(self.0), rest, float32_pick());
    }

    proof fn tag_comes_first(&self) {
    }

    fn format(&self, fmt: &mut Formatter) {
        if fmt.needs_tag() {
            fmt.tag(Tag::Float32);
        }
        fmt.float32(&self.0);
    }
}

impl Format for Float64 {
    type Model = Float64;

    open spec fn model(&self) -> Float64 {
        *self
    }

    open spec fn writes(&self, tagged: bool) -> Seq<Op> {
        tag_part(Tag::Float64, tagged).push(Op::Float64(self.0))
    }

    open spec fn read(stream: Seq<Op>, tagged: bool) -> Option<(Float64, Seq<Op>)> {
        read_scalar(stream, Tag::Float64, tagged, float64_pick())
    }

    proof fn round_trip(&self, tagged: bool, rest: Seq<Op>) {
        lemma_read_scalar(Tag::Float64, tagged, Op::Float64(self.0), rest, float64_pick());
    }

    proof fn tag_comes_first(&self) {
    }

    fn format(&self, fmt: &mut Formatter) {
        if fmt.needs_tag() {
            fmt.tag(Tag::Float64);
        }
        fmt.float64(&self.0);
    }
}

/// What a write means as a text.
pub open spec fn str_pick() -> spec_fn(Op) -> Option<Seq<char>> {
    |op: Op|
        match op {
            Op::Str(text) => Some(text),
            _ => None,
        }
}

impl Format for str {
    type Model = Seq<char>;

    open spec fn model(&self) -> Seq<char> {
        self@
    }

    open spec fn writes(&self, tagged: bool) -> Seq<Op> {
        tag_part(Tag::Str, tagged).push(Op::Str(self@))
    }

    open spec fn read(stream: Seq<Op>, tagged: bool) -> Option<(Seq<char>, Seq<Op>)> {
        read_scalar(stream, Tag::Str, tagged, str_pick())
    }

    proof fn round_trip(&self, tagged: bool, rest: Seq<Op>) {
        lemma_read_scalar(Tag::Str, tagged, Op::Str(self@), rest, str_pick());
    }

    proof fn tag_comes_first(&self) {
    }

    fn format(&self, fmt: &mut Formatter) {
        if fmt.needs_tag() {
            let t = str_tag();
            fmt.tag(t);
        }
        fmt.str(self);
    }
}

/// The tag of a text.
pub fn str_tag() -> (tag: Tag)
    ensures
        tag == Tag::Str,
{
    Tag::Str
}

/// What a write means as an interned string.
pub open spec fn istr_pick() -> spec_fn(Op) -> Option<Str> {
    |op: Op|
        match op {
            Op::IStr(s) => Some(s),
            _ => None,
        }
}

impl Format for Str {
    type Model = Str;

    open spec fn model(&self) -> Str {
        *self
    }

    open spec fn writes(&self, tagged: bool) -> Seq<Op> {
        tag_part(Tag::IStr, tagged).push(Op::IStr(*self))
    }

    open spec fn read(stream: Seq<Op>, tagged: bool) -> Option<(Str, Seq<Op>)> {
        read_scalar(stream, Tag::IStr, tagged, istr_pick())
    }

    proof fn round_trip(&self, tagged: bool, rest: Seq<Op>) {
        lemma_read_scalar(Tag::IStr, tagged, Op::IStr(*self), rest, istr_pick());
    }

    proof fn tag_comes_first(&self) {
    }

    fn format(&self, fmt: &mut Formatter) {
        if fmt.needs_tag() {
            fmt.tag(Tag::IStr);
        }
        fmt.istr(self);
    }
}

/// What a write means as a character: the scalar value with that number, if
/// there is one.
pub open spec fn char_pick() -> spec_fn(Op) -> Option<char> {
    |op: Op|
        match op {
            Op::U32(v) => if vstd::utf8::is_scalar(v) {
                Some(v as char)
            } else {
                None
            },
            _ => None,
        }
}

impl Format for char {
    type Model = char;

    open spec fn model(&self) -> char {
        *self
    }

    open spec fn writes(&self, tagged: bool) -> Seq<Op> {
        tag_part(Tag::Char, tagged).push(Op::U32(*self as u32))
    }

    open spec fn read(stream: Seq<Op>, tagged: bool) -> Option<(char, Seq<Op>)> {
        read_scalar(stream, Tag::Char, tagged, char_pick())
    }

    proof fn round_trip(&self, tagged: bool, rest: Seq<Op>) {
        vstd::utf8::char_is_scalar(*self);
        vstd::utf8::char_u32_cast(*self, *self as u32);
        lemma_read_scalar(Tag::Char, tagged, Op::U32(*self as u32), rest, char_pick());
    }

    proof fn tag_comes_first(&self) {
    }

    fn format(&self, fmt: &mut Formatter) {
        if fmt.needs_tag() {
            fmt.tag(Tag::Char);
        }
        fmt.u32(&(*self as u32));
    }
}

impl<T> Format for [T] where T: Format {
    type Model = Seq<T::Model>;

    open spec fn model(&self) -> Seq<T::Model> {
        elements_models(self@)
    }

    open spec fn writes(&self, tagged: bool) -> Seq<Op> {
        tag_part(Tag::Slice, tagged) + (seq![Op::Usize(self@.len() as usize)] + elements_writes(
            self@,
            tagged,
        ))
    }

    open spec fn read(stream: Seq<Op>, tagged: bool) -> Option<(Seq<T::Model>, Seq<Op>)> {
        match strip_tag(stream, Tag::Slice, tagged) {
            Some(body) => match body.first() {
                Op::Usize(count) if body.len() > 0 => read_elements::<T>(
                    body.drop_first(),
                    count as nat,
                    tagged,
                ),
                _ => None,
            },
            None => None,
        }
    }

    proof fn round_trip(&self, tagged: bool, rest: Seq<Op>) {
        vstd::slice::axiom_spec_len(self);
        assert(vstd::slice::spec_slice_len(self) == self@.len());
        let elements = elements_writes(self@, tagged);
        let body = seq![Op::Usize(self@.len() as usize)] + elements;
        lemma_strip_written(Tag::Slice, tagged, body, rest);
        assert((body + rest).first() == Op::Usize(self@.len() as usize));
        assert((body + rest).drop_first() =~= elements + rest);
        lemma_elements_round_trip(self@, tagged, rest);
    }

    proof fn tag_comes_first(&self) {
    }

    fn format(&self, fmt: &mut Formatter) {
        if fmt.needs_tag() {
            fmt.tag(Tag::Slice);
        }
        fmt.fmt_slice(self);
        assert(fmt@ =~= old(fmt)@ + self.writes(old(fmt).tagging()));
    }
}

impl<T> Format for &T where T: Format + ?Sized {
    type Model = T::Model;

    open spec fn model(&self) -> T::Model {
        (**self).model()
    }

    open spec fn writes(&self, tagged: bool) -> Seq<Op> {
        (**self).writes(tagged)
    }

    open spec fn read(stream: Seq<Op>, tagged: bool) -> Option<(T::Model, Seq<Op>)> {
        T::read(stream, tagged)
    }

    proof fn round_trip(&self, tagged: bool, rest: Seq<Op>) {
        (**self).round_trip(tagged, rest);
    }

    proof fn tag_comes_first(&self) {
        (**self).tag_comes_first();
    }

    fn format(&self, fmt: &mut Formatter) {
        (**self).format(fmt)
    }
}

impl<T> Format for &mut T where T: Format + ?Sized {
    type Model = T::Model;

    open spec fn model(&self) -> T::Model {
        (**self).model()
    }

    open spec fn writes(&self, tagged: bool) -> Seq<Op> {
        (**self).writes(tagged)
    }

    open spec fn read(stream: Seq<Op>, tagged: bool) -> Option<(T::Model, Seq<Op>)> {
        T::read(stream, tagged)
    }

    proof fn round_trip(&self, tagged: bool, rest: Seq<Op>) {
        (**self).round_trip(tagged, rest);
    }

    proof fn tag_comes_first(&self) {
        (**self).tag_comes_first();
    }

    fn format(&self, fmt: &mut Formatter) {
        (**self).format(fmt)
    }
}

impl<T, const N: usize> Format for [T; N] where T: Format {
    type Model = Seq<T::Model>;

    open spec fn model(&self) -> Seq<T::Model> {
        elements_models(self@)
    }

    open spec fn writes(&self, tagged: bool) -> Seq<Op> {
        tag_part(Tag::Array, tagged) + elements_writes(self@, tagged)
    }

    open spec fn read(stream: Seq<Op>, tagged: bool) -> Option<(Seq<T::Model>, Seq<Op>)> {
        match strip_tag(stream, Tag::Array, tagged) {
            Some(body) => read_elements::<T>(body, N as nat, tagged),
            None => None,
        }
    }

    proof fn round_trip(&self, tagged: bool, rest: Seq<Op>) {
        vstd::array::array_len_matches_n(self);
        lemma_strip_written(Tag::Array, tagged, elements_writes(self@, tagged), rest);
        lemma_elements_round_trip(self@, tagged, rest);
    }

    proof fn tag_comes_first(&self) {
    }

    fn format(&self, fmt: &mut Formatter) {
        if fmt.needs_tag() {
            fmt.tag(Tag::Array);
        }
        fmt.fmt_array(self.as_slice());
        assert(fmt@ =~= old(fmt)@ + self.writes(old(fmt).tagging()));
    }
}

impl<T> Format for Option<T> where T: Format {
    type Model = Option<T::Model>;

    open spec fn model(&self) -> Option<T::Model> {
        match self {
            None => None,
            Some(x) => Some(x.model()),
        }
    }

    open spec fn writes(&self, tagged: bool) -> Seq<Op> {
        tag_part(Tag::Option, tagged) + match self {
            None => seq![Op::U8(0)],
            Some(x) => seq![Op::U8(1)] + x.writes(true),
        }
    }

    open spec fn read(stream: Seq<Op>, tagged: bool) -> Option<(Option<T::Model>, Seq<Op>)> {
        match strip_tag(stream, Tag::Option, tagged) {
            Some(body) => if body.len() > 0 && body[0] == Op::U8(0) {
                Some((None, body.drop_first()))
            } else if body.len() > 0 && body[0] == Op::U8(1) {
                match T::read(body.drop_first(), true) {
                    Some((x, rest)) => Some((Some(x), rest)),
                    None => None,
                }
            } else {
                None
            },
            None => None,
        }
    }

    proof fn round_trip(&self, tagged: bool, rest: Seq<Op>) {
        match self {
            None => {
                let body = seq![Op::U8(0)];
                lemma_strip_written(Tag::Option, tagged, body, rest);
                assert((body + rest).drop_first() =~= rest);
            },
            Some(x) => {
                let body = seq![Op::U8(1)] + x.writes(true);
                lemma_strip_written(Tag::Option, tagged, body, rest);
                assert((body + rest).drop_first() =~= x.writes(true) + rest);
                x.round_trip(true, rest);
            },
        }
    }

    proof fn tag_comes_first(&self) {
    }

    fn format(&self, f: &mut Formatter) {
        if f.needs_tag() {
            f.tag(Tag::Option);
        }
        match self {
            None => f.u8(&0),
            Some(x) => {
                f.u8(&1);
                f.with_tag(x);
            },
        }
        assert(f@ =~= old(f)@ + self.writes(old(f).tagging()));
    }
}

impl<T, E> Format for Result<T, E> where T: Format, E: Format {
    type Model = Result<T::Model, E::Model>;

    open spec fn model(&self) -> Result<T::Model, E::Model> {
        match self {
            Err(e) => Err(e.model()),
            Ok(x) => Ok(x.model()),
        }
    }

    open spec fn writes(&self, tagged: bool) -> Seq<Op> {
        tag_part(Tag::Result, tagged) + match self {
            Err(e) => seq![Op::U8(0)] + e.writes(true),
            Ok(x) => seq![Op::U8(1)] + x.writes(true),
        }
    }

    open spec fn read(stream: Seq<Op>, tagged: bool) -> Option<
        (Result<T::Model, E::Model>, Seq<Op>),
    > {
        match strip_tag(stream, Tag::Result, tagged) {
            Some(body) => if body.len() > 0 && body[0] == Op::U8(0) {
                match E::read(body.drop_first(), true) {
                    Some((e, rest)) => Some((Err(e), rest)),
                    None => None,
                }
            } else if body.len() > 0 && body[0] == Op::U8(1) {
                match T::read(body.drop_first(), true) {
                    Some((x, rest)) => Some((Ok(x), rest)),
                    None => None,
                }
            } else {
                None
            },
            None => None,
        }
    }

    proof fn round_trip(&self, tagged: bool, rest: Seq<Op>) {
        match self {
            Err(e) => {
                let body = seq![Op::U8(0)] + e.writes(true);
                lemma_strip_written(Tag::Result, tagged, body, rest);
                assert((body + rest).drop_first() =~= e.writes(true) + rest);
                e.round_trip(true, rest);
            },
            Ok(x) => {
                let body = seq![Op::U8(1)] + x.writes(true);
                lemma_strip_written(Tag::Result, tagged, body, rest);
                assert((body + rest).drop_first() =~= x.writes(true) + rest);
                x.round_trip(true, rest);
            },
        }
    }

    proof fn tag_comes_first(&self) {
    }

    fn format(&self, f: &mut Formatter) {
        if f.needs_tag() {
            f.tag(Tag::Result);
        }
        match self {
            Err(e) => {
                f.u8(&0);
                f.with_tag(e);
            },
            Ok(x) => {
                f.u8(&1);
                f.with_tag(x);
            },
        }
        assert(f@ =~= old(f)@ + self.writes(old(f).tagging()));
    }
}

/// The payload of an optional value is preceded by a tag in either context:
/// behind the tag of the optional, where one is asked for, comes the
/// discriminant, and behind the discriminant the tag of the payload.
pub proof fn lemma_optional_payload_is_tagged<T: Format>(value: Option<T>, tagged: bool)
    ensures
        match value {
            Some(x) => {
                let at = tag_part(Tag::Option, tagged).len() as int;
                &&& value.writes(tagged).len() >= at + 2
                &&& value.writes(tagged)[at] == Op::U8(1)
                &&& value.writes(tagged)[at + 1] is Tag
                &&& value.writes(tagged).skip(at + 1) == x.writes(true)
            },
            None => value.writes(tagged) == tag_part(Tag::Option, tagged).push(Op::U8(0)),
        },
{
    match value {
        Some(x) => {
            x.tag_comes_first();
            let at = tag_part(Tag::Option, tagged).len() as int;
            assert(value.writes(tagged).skip(at + 1) =~= x.writes(true));
        },
        None => {
            assert(value.writes(tagged) =~= tag_part(Tag::Option, tagged).push(Op::U8(0)));
        },
    }
}

/// The payload of a success or of a failure is preceded by a tag in either
/// context: behind the tag of the result, where one is asked for, comes the
/// discriminant, `1` for success and `0` for failure, and behind it the tag
/// of the payload.
pub proof fn lemma_result_payload_is_tagged<T: Format, E: Format>(
    value: Result<T, E>,
    tagged: bool,
)
    ensures
        ({
            let at = tag_part(Tag::Result, tagged).len() as int;
            &&& value.writes(tagged).len() >= at + 2
            &&& value.writes(tagged)[at] == Op::U8(
                if value is Ok {
                    1u8
                } else {
                    0u8
                },
            )
            &&& value.writes(tagged)[at + 1] is Tag
            &&& value.writes(tagged).skip(at + 1) == match value {
                Ok(x) => x.writes(true),
                Err(e) => e.writes(true),
            }
        }),
{
    let at = tag_part(Tag::Result, tagged).len() as int;
    match value {
        Ok(x) => {
            x.tag_comes_first();
            assert(value.writes(tagged).skip(at + 1) =~= x.writes(true));
        },
        Err(e) => {
            e.tag_comes_first();
            assert(value.writes(tagged).skip(at + 1) =~= e.writes(true));
        },
    }
}

impl Format for () {
    type Model = ();

    open spec fn model(&self) -> () {
        ()
    }

    open spec fn writes(&self, tagged: bool) -> Seq<Op> {
        tag_part(Tag::Unit, tagged)
    }

    open spec fn read(stream: Seq<Op>, tagged: bool) -> Option<((), Seq<Op>)> {
        match strip_tag(stream, Tag::Unit, tagged) {
            Some(body) => Some(((), body)),
            None => None,
        }
    }

    proof fn round_trip(&self, tagged: bool, rest: Seq<Op>) {
        lemma_strip_tag(Tag::Unit, tagged, rest);
    }

    proof fn tag_comes_first(&self) {
    }

    fn format(&self, f: &mut Formatter) {
        if f.needs_tag() {
            f.tag(Tag::Unit);
        }
        assert(f@ =~= old(f)@ + self.writes(old(f).tagging()));
    }
}

impl<T> Format for core::marker::PhantomData<T> {
    type Model = ();

    open spec fn model(&self) -> () {
        ()
    }

    open spec fn writes(&self, tagged: bool) -> Seq<Op> {
        tag_part(Tag::PhantomData, tagged)
    }

    open spec fn read(stream: Seq<Op>, tagged: bool) -> Option<((), Seq<Op>)> {
        match strip_tag(stream, Tag::PhantomData, tagged) {
            Some(body) => Some(((), body)),
            None => None,
        }
    }

    proof fn round_trip(&self, tagged: bool, rest: Seq<Op>) {
        lemma_strip_tag(Tag::PhantomData, tagged, rest);
    }

    proof fn tag_comes_first(&self) {
    }

    fn format(&self, f: &mut Formatter) {
        if f.needs_tag() {
            f.tag(Tag::PhantomData);
        }
        assert(f@ =~= old(f)@ + self.writes(old(f).tagging()));
    }
}

impl<T> Format for Box<T> where T: ?Sized + Format {
    type Model = T::Model;

    open spec fn model(&self) -> T::Model {
        (**self).model()
    }

    open spec fn writes(&self, tagged: bool) -> Seq<Op> {
        (**self).writes(tagged)
    }

    open spec fn read(stream: Seq<Op>, tagged: bool) -> Option<(T::Model, Seq<Op>)> {
        T::read(stream, tagged)
    }

    proof fn round_trip(&self, tagged: bool, rest: Seq<Op>) {
        (**self).round_trip(tagged, rest);
    }

    proof fn tag_comes_first(&self) {
        (**self).tag_comes_first();
    }

    fn format(&self, f: &mut Formatter) {
        (**self).format(f)
    }
}

impl<T> Format for Rc<T> where T: ?Sized + Format {
    type Model = T::Model;

    open spec fn model(&self) -> T::Model {
        (**self).model()
    }

    open spec fn writes(&self, tagged: bool) -> Seq<Op> {
        (**self).writes(tagged)
    }

    open spec fn read(stream: Seq<Op>, tagged: bool) -> Option<(T::Model, Seq<Op>)> {
        T::read(stream, tagged)
    }

    proof fn round_trip(&self, tagged: bool, rest: Seq<Op>) {
        (**self).round_trip(tagged, rest);
    }

    proof fn tag_comes_first(&self) {
        (**self).tag_comes_first();
    }

    fn format(&self, f: &mut Formatter) {
        (**self).format(f)
    }
}

impl<T> Format for Arc<T> where T: ?Sized + Format {
    type Model = T::Model;

    open spec fn model(&self) -> T::Model {
        (**self).model()
    }

    open spec fn writes(&self, tagged: bool) -> Seq<Op> {
        (**self).writes(tagged)
    }

    open spec fn read(stream: Seq<Op>, tagged: bool) -> Option<(T::Model, Seq<Op>)> {
        T::read(stream, tagged)
    }

    proof fn round_trip(&self, tagged: bool, rest: Seq<Op>) {
        (**self).round_trip(tagged, rest);
    }

    proof fn tag_comes_first(&self) {
        (**self).tag_comes_first();
    }

    fn format(&self, f: &mut Formatter) {
        (**self).format(f)
    }
}

impl<T> Format for Vec<T> where T: Format {
    type Model = Seq<T::Model>;

    open spec fn model(&self) -> Seq<T::Model> {
        elements_models(self@)
    }

    open spec fn writes(&self, tagged: bool) -> Seq<Op> {
        tag_part(Tag::Slice, tagged) + (seq![Op::Usize(self@.len() as usize)] + elements_writes(
            self@,
            tagged,
        ))
    }

    open spec fn read(stream: Seq<Op>, tagged: bool) -> Option<(Seq<T::Model>, Seq<Op>)> {
        <[T]>::read(stream, tagged)
    }

    proof fn round_trip(&self, tagged: bool, rest: Seq<Op>) {
        vstd::std_specs::vec::axiom_spec_len(self);
        assert(vstd::std_specs::vec::spec_vec_len(self) == self@.len());
        let elements = elements_writes(self@, tagged);
        let body = seq![Op::Usize(self@.len() as usize)] + elements;
        lemma_strip_written(Tag::Slice, tagged, body, rest);
        assert((body + rest).first() == Op::Usize(self@.len() as usize));
        assert((body + rest).drop_first() =~= elements + rest);
        lemma_elements_round_trip(self@, tagged, rest);
    }

    proof fn tag_comes_first(&self) {
    }

    fn format(&self, f: &mut Formatter) {
        self.as_slice().format(f)
    }
}

impl Format for String {
    type Model = Seq<char>;

    open spec fn model(&self) -> Seq<char> {
        self@
    }

    open spec fn writes(&self, tagged: bool) -> Seq<Op> {
        tag_part(Tag::Str, tagged).push(Op::Str(self@))
    }

    open spec fn read(stream: Seq<Op>, tagged: bool) -> Option<(Seq<char>, Seq<Op>)> {
        read_scalar(stream, Tag::Str, tagged, str_pick())
    }

    proof fn round_trip(&self, tagged: bool, rest: Seq<Op>) {
        lemma_read_scalar(Tag::Str, tagged, Op::Str(self@), rest, str_pick());
    }

    proof fn tag_comes_first(&self) {
    }

    fn format(&self, f: &mut Formatter) {
        self.as_str().format(f)
    }
}

/// The whole seconds of a span of time, as `Duration::as_secs` gives them.
pub uninterp spec fn duration_secs(d: Duration) -> u64;

/// The part of a span of time below one second, in nanoseconds, as
/// `Duration::subsec_nanos` gives it.
pub uninterp spec fn duration_subsec_nanos(d: Duration) -> u32;

/// Calls `Duration::as_secs`.
///
/// Trusted: of the result nothing is claimed but that it is settled by the
/// span of time; `duration_secs` is its name.
#[verifier::external_body]
fn as_secs(d: &Duration) -> (secs: u64)
    ensures
        secs == duration_secs(*d),
{
    d.as_secs()
}

/// Calls `Duration::subsec_nanos`.
///
/// Trusted: of the result nothing is claimed but that it is settled by the
/// span of time; `duration_subsec_nanos` is its name.
#[verifier::external_body]
fn subsec_nanos(d: &Duration) -> (nanos: u32)
    ensures
        nanos == duration_subsec_nanos(*d),
{
    d.subsec_nanos()
}

impl Format for Duration {
    type Model = (u64, u32);

    open spec fn model(&self) -> (u64, u32) {
        (duration_secs(*self), duration_subsec_nanos(*self))
    }

    open spec fn writes(&self, tagged: bool) -> Seq<Op> {
        tag_part(Tag::Duration, tagged) + seq![
            Op::U64(duration_secs(*self)),
            Op::U32(duration_subsec_nanos(*self)),
        ]
    }

    open spec fn read(stream: Seq<Op>, tagged: bool) -> Option<((u64, u32), Seq<Op>)> {
        match strip_tag(stream, Tag::Duration, tagged) {
            Some(body) => if body.len() >= 2 {
                match (body[0], body[1]) {
                    (Op::U64(secs), Op::U32(nanos)) => Some(((secs, nanos), body.skip(2))),
                    _ => None,
                }
            } else {
                None
            },
            None => None,
        }
    }

    proof fn round_trip(&self, tagged: bool, rest: Seq<Op>) {
        let body = seq![Op::U64(duration_secs(*self)), Op::U32(duration_subsec_nanos(*self))];
        lemma_strip_written(Tag::Duration, tagged, body, rest);
        assert((body + rest).skip(2) =~= rest);
    }

    proof fn tag_comes_first(&self) {
    }

    fn format(&self, fmt: &mut Formatter) {
        if fmt.needs_tag() {
            fmt.tag(Tag::Duration);
        }
        fmt.u64(&as_secs(self));
        fmt.u32(&subsec_nanos(self));
        assert(fmt@ =~= old(fmt)@ + self.writes(old(fmt).tagging()));
    }
}

} // verus!
