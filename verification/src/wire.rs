//! What goes over the wire: shape tags and primitive writes.
//!
//! The encoding is a sequence of primitive writes. How a primitive write is
//! laid out in bytes, and which small number stands for a tag, is the
//! business of the writer that performs them.

use vstd::prelude::*;

verus! {

/// Names the shape of a value, so that a reader learns from the stream what
/// follows. Each tag stands for one format string, its text.
#[derive(Clone, Copy, Debug, PartialEq, Eq, Hash, Structural)]
pub enum Tag {
    /// `{=i8}`: an `i8`.
    I8,
    /// `{=i16}`: an `i16`.
    I16,
    /// `{=i32}`: an `i32`.
    I32,
    /// `{=i64}`: an `i64`.
    I64,
    /// `{=i128}`: an `i128`.
    I128,
    /// `{=isize}`: an `isize`.
    Isize,
    /// `{=u8}`: a `u8`.
    U8,
    /// `{=u16}`: a `u16`.
    U16,
    /// `{=u32}`: a `u32`.
    U32,
    /// `{=u64}`: a `u64`.
    U64,
    /// `{=u128}`: a `u128`.
    U128,
    /// `{=usize}`: a `usize`.
    Usize,
    /// `{=f32}`: a 32-bit float.
    Float32,
    /// `{=f64}`: a 64-bit float.
    Float64,
    /// `{=str}`: a text.
    Str,
    /// `{=istr}`: an interned string.
    IStr,
    /// `{=char}`: a character.
    Char,
    /// `{=[?]}`: a sequence of variable length, of elements of a shape not named here.
    Slice,
    /// `{=bool}`: a boolean.
    Bool,
    /// `{=[?;0]}`: a sequence of fixed length, of elements of a shape not named here.
    Array,
    /// `None|Some({=?})`: an optional value.
    Option,
    /// `Err({=?})|Ok({=?})`: a success or a failure.
    Result,
    /// `()`: the empty tuple.
    Unit,
    /// `PhantomData`: a marker without data.
    PhantomData,
    /// `({=?})`: a tuple of 1.
    Tuple1,
    /// `({=?}, {=?})`: a tuple of 2.
    Tuple2,
    /// `({=?}, {=?}, {=?})`: a tuple of 3.
    Tuple3,
    /// `({=?}, {=?}, {=?}, {=?})`: a tuple of 4.
    Tuple4,
    /// `({=?}, {=?}, {=?}, {=?}, {=?})`: a tuple of 5.
    Tuple5,
    /// `({=?}, {=?}, {=?}, {=?}, {=?}, {=?})`: a tuple of 6.
    Tuple6,
    /// `({=?}, {=?}, {=?}, {=?}, {=?}, {=?}, {=?})`: a tuple of 7.
    Tuple7,
    /// `({=?}, {=?}, {=?}, {=?}, {=?}, {=?}, {=?}, {=?})`: a tuple of 8.
    Tuple8,
    /// `({=?}, {=?}, {=?}, {=?}, {=?}, {=?}, {=?}, {=?}, {=?})`: a tuple of 9.
    Tuple9,
    /// `({=?}, {=?}, {=?}, {=?}, {=?}, {=?}, {=?}, {=?}, {=?}, {=?})`: a tuple of 10.
    Tuple10,
    /// `({=?}, {=?}, {=?}, {=?}, {=?}, {=?}, {=?}, {=?}, {=?}, {=?}, {=?})`: a tuple of 11.
    Tuple11,
    /// `({=?}, {=?}, {=?}, {=?}, {=?}, {=?}, {=?}, {=?}, {=?}, {=?}, {=?}, {=?})`: a tuple of 12.
    Tuple12,
    /// `Duration {{ secs: {=u64}, nanos: {=u32} }}`: a span of time.
    Duration,
}

impl Tag {
    /// The format string that the tag stands for.
    pub open spec fn text(self) -> Seq<char> {
        match self {
            Tag::I8 => "{=i8}"@,
            Tag::I16 => "{=i16}"@,
            Tag::I32 => "{=i32}"@,
            Tag::I64 => "{=i64}"@,
            Tag::I128 => "{=i128}"@,
            Tag::Isize => "{=isize}"@,
            Tag::U8 => "{=u8}"@,
            Tag::U16 => "{=u16}"@,
            Tag::U32 => "{=u32}"@,
            Tag::U64 => "{=u64}"@,
            Tag::U128 => "{=u128}"@,
            Tag::Usize => "{=usize}"@,
            Tag::Float32 => "{=f32}"@,
            Tag::Float64 => "{=f64}"@,
            Tag::Str => "{=str}"@,
            Tag::IStr => "{=istr}"@,
            Tag::Char => "{=char}"@,
            Tag::Slice => "{=[?]}"@,
            Tag::Bool => "{=bool}"@,
            Tag::Array => "{=[?;0]}"@,
            Tag::Option => "None|Some({=?})"@,
            Tag::Result => "Err({=?})|Ok({=?})"@,
            Tag::Unit => "()"@,
            Tag::PhantomData => "PhantomData"@,
            Tag::Tuple1 => "({=?})"@,
            Tag::Tuple2 => "({=?}, {=?})"@,
            Tag::Tuple3 => "({=?}, {=?}, {=?})"@,
            Tag::Tuple4 => "({=?}, {=?}, {=?}, {=?})"@,
            Tag::Tuple5 => "({=?}, {=?}, {=?}, {=?}, {=?})"@,
            Tag::Tuple6 => "({=?}, {=?}, {=?}, {=?}, {=?}, {=?})"@,
            Tag::Tuple7 => "({=?}, {=?}, {=?}, {=?}, {=?}, {=?}, {=?})"@,
            Tag::Tuple8 => "({=?}, {=?}, {=?}, {=?}, {=?}, {=?}, {=?}, {=?})"@,
            Tag::Tuple9 => "({=?}, {=?}, {=?}, {=?}, {=?}, {=?}, {=?}, {=?}, {=?})"@,
            Tag::Tuple10 => "({=?}, {=?}, {=?}, {=?}, {=?}, {=?}, {=?}, {=?}, {=?}, {=?})"@,
            Tag::Tuple11 => "({=?}, {=?}, {=?}, {=?}, {=?}, {=?}, {=?}, {=?}, {=?}, {=?}, {=?})"@,
            Tag::Tuple12 => "({=?}, {=?}, {=?}, {=?}, {=?}, {=?}, {=?}, {=?}, {=?}, {=?}, {=?}, {=?})"@,
            Tag::Duration => "Duration {{ secs: {=u64}, nanos: {=u32} }}"@,
        }
    }

    /// The format string that the tag stands for; a writer interns it and
    /// sends the identifier that it gets.
    pub fn format_string(self) -> (text: &'static str)
        ensures
            text@ == self.text(),
    {
        match self {
            Tag::I8 => "{=i8}",
            Tag::I16 => "{=i16}",
            Tag::I32 => "{=i32}",
            Tag::I64 => "{=i64}",
            Tag::I128 => "{=i128}",
            Tag::Isize => "{=isize}",
            Tag::U8 => "{=u8}",
            Tag::U16 => "{=u16}",
            Tag::U32 => "{=u32}",
            Tag::U64 => "{=u64}",
            Tag::U128 => "{=u128}",
            Tag::Usize => "{=usize}",
            Tag::Float32 => "{=f32}",
            Tag::Float64 => "{=f64}",
            Tag::Str => "{=str}",
            Tag::IStr => "{=istr}",
            Tag::Char => "{=char}",
            Tag::Slice => "{=[?]}",
            Tag::Bool => "{=bool}",
            Tag::Array => "{=[?;0]}",
            Tag::Option => "None|Some({=?})",
            Tag::Result => "Err({=?})|Ok({=?})",
            Tag::Unit => "()",
            Tag::PhantomData => "PhantomData",
            Tag::Tuple1 => "({=?})",
            Tag::Tuple2 => "({=?}, {=?})",
            Tag::Tuple3 => "({=?}, {=?}, {=?})",
            Tag::Tuple4 => "({=?}, {=?}, {=?}, {=?})",
            Tag::Tuple5 => "({=?}, {=?}, {=?}, {=?}, {=?})",
            Tag::Tuple6 => "({=?}, {=?}, {=?}, {=?}, {=?}, {=?})",
            Tag::Tuple7 => "({=?}, {=?}, {=?}, {=?}, {=?}, {=?}, {=?})",
            Tag::Tuple8 => "({=?}, {=?}, {=?}, {=?}, {=?}, {=?}, {=?}, {=?})",
            Tag::Tuple9 => "({=?}, {=?}, {=?}, {=?}, {=?}, {=?}, {=?}, {=?}, {=?})",
            Tag::Tuple10 => "({=?}, {=?}, {=?}, {=?}, {=?}, {=?}, {=?}, {=?}, {=?}, {=?})",
            Tag::Tuple11 => "({=?}, {=?}, {=?}, {=?}, {=?}, {=?}, {=?}, {=?}, {=?}, {=?}, {=?})",
            Tag::Tuple12 => "({=?}, {=?}, {=?}, {=?}, {=?}, {=?}, {=?}, {=?}, {=?}, {=?}, {=?}, {=?})",
            Tag::Duration => "Duration {{ secs: {=u64}, nanos: {=u32} }}",
        }
    }
}

/// What tells two format strings of tags apart: the length and four of the
/// characters, a blank standing in where the text is too short.
spec fn fingerprint(text: Seq<char>) -> (nat, char, char, char, char) {
    (text.len(), letter(text, 0), letter(text, 2), letter(text, 3), letter(text, 4))
}

spec fn letter(text: Seq<char>, i: int) -> char {
    if 0 <= i < text.len() {
        text[i]
    } else {
        ' '
    }
}

/// Different tags stand for different format strings, so an interner gives
/// them different identifiers.
pub proof fn lemma_tag_texts_differ(a: Tag, b: Tag)
    requires
        a.text() == b.text(),
    ensures
        a == b,
{
    reveal_strlit("{=i8}");
    reveal_strlit("{=i16}");
    reveal_strlit("{=i32}");
    reveal_strlit("{=i64}");
    reveal_strlit("{=i128}");
    reveal_strlit("{=isize}");
    reveal_strlit("{=u8}");
    reveal_strlit("{=u16}");
    reveal_strlit("{=u32}");
    reveal_strlit("{=u64}");
    reveal_strlit("{=u128}");
    reveal_strlit("{=usize}");
    reveal_strlit("{=f32}");
    reveal_strlit("{=f64}");
    reveal_strlit("{=str}");
    reveal_strlit("{=istr}");
    reveal_strlit("{=char}");
    reveal_strlit("{=[?]}");
    reveal_strlit("{=bool}");
    reveal_strlit("{=[?;0]}");
    reveal_strlit("None|Some({=?})");
    reveal_strlit("Err({=?})|Ok({=?})");
    reveal_strlit("()");
    reveal_strlit("PhantomData");
    reveal_strlit("({=?})");
    reveal_strlit("({=?}, {=?})");
    reveal_strlit("({=?}, {=?}, {=?})");
    reveal_strlit("({=?}, {=?}, {=?}, {=?})");
    reveal_strlit("({=?}, {=?}, {=?}, {=?}, {=?})");
    reveal_strlit("({=?}, {=?}, {=?}, {=?}, {=?}, {=?})");
    reveal_strlit("({=?}, {=?}, {=?}, {=?}, {=?}, {=?}, {=?})");
    reveal_strlit("({=?}, {=?}, {=?}, {=?}, {=?}, {=?}, {=?}, {=?})");
    reveal_strlit("({=?}, {=?}, {=?}, {=?}, {=?}, {=?}, {=?}, {=?}, {=?})");
    reveal_strlit("({=?}, {=?}, {=?}, {=?}, {=?}, {=?}, {=?}, {=?}, {=?}, {=?})");
    reveal_strlit("({=?}, {=?}, {=?}, {=?}, {=?}, {=?}, {=?}, {=?}, {=?}, {=?}, {=?})");
    reveal_strlit("({=?}, {=?}, {=?}, {=?}, {=?}, {=?}, {=?}, {=?}, {=?}, {=?}, {=?}, {=?})");
    reveal_strlit("Duration {{ secs: {=u64}, nanos: {=u32} }}");
    assert(fingerprint(a.text()) == fingerprint(b.text()));
}

/// Handle of a string that was interned when the program was built.
#[derive(Clone, Copy, Debug, PartialEq, Eq, Hash, Structural)]
pub struct Str {
    address: u16,
}

impl Str {
    /// The handle for the string interned at `address`.
    pub fn from_address(address: u16) -> (s: Str)
        ensures
            s.address() == address,
    {
        Str { address }
    }

    /// Where the string was interned.
    pub closed spec fn address(self) -> u16 {
        self.address
    }

    /// Where the string was interned.
    pub fn to_address(self) -> (address: u16)
        ensures
            address == self.address(),
    {
        self.address
    }
}

/// One primitive write.
#[derive(Clone, Debug, PartialEq, Eq)]
pub enum Write {
    /// The identifier of an interned tag.
    Tag(Tag),
    U8(u8),
    U16(u16),
    U32(u32),
    U64(u64),
    U128(u128),
    Usize(usize),
    I32(i32),
    I64(i64),
    I128(i128),
    Isize(isize),
    /// A 32-bit float, by its bits.
    Float32(u32),
    /// A 64-bit float, by its bits.
    Float64(u64),
    Bool(bool),
    /// A text, with its length.
    Str(String),
    /// The identifier of an interned string.
    IStr(Str),
}

/// A [`Write`] with its text as a character sequence.
pub enum Op {
    Tag(Tag),
    U8(u8),
    U16(u16),
    U32(u32),
    U64(u64),
    U128(u128),
    Usize(usize),
    I32(i32),
    I64(i64),
    I128(i128),
    Isize(isize),
    Float32(u32),
    Float64(u64),
    Bool(bool),
    Str(Seq<char>),
    IStr(Str),
}

impl View for Write {
    type V = Op;

    open spec fn view(&self) -> Op {
        match self {
            Write::Tag(tag) => Op::Tag(*tag),
            Write::U8(v) => Op::U8(*v),
            Write::U16(v) => Op::U16(*v),
            Write::U32(v) => Op::U32(*v),
            Write::U64(v) => Op::U64(*v),
            Write::U128(v) => Op::U128(*v),
            Write::Usize(v) => Op::Usize(*v),
            Write::I32(v) => Op::I32(*v),
            Write::I64(v) => Op::I64(*v),
            Write::I128(v) => Op::I128(*v),
            Write::Isize(v) => Op::Isize(*v),
            Write::Float32(bits) => Op::Float32(*bits),
            Write::Float64(bits) => Op::Float64(*bits),
            Write::Bool(v) => Op::Bool(*v),
            Write::Str(text) => Op::Str(text@),
            Write::IStr(s) => Op::IStr(*s),
        }
    }
}

impl DeepView for Write {
    type V = Op;

    open spec fn deep_view(&self) -> Op {
        self@
    }
}

/// The write of `tag` where the context asks for a tag, else nothing.
pub open spec fn tag_part(tag: Tag, tagged: bool) -> Seq<Op> {
    if tagged {
        seq![Op::Tag(tag)]
    } else {
        Seq::empty()
    }
}

/// What is left of `stream` behind the tag that a tagging context puts
/// first; `None` where `stream` does not start with `tag` though it should.
pub open spec fn strip_tag(stream: Seq<Op>, tag: Tag, tagged: bool) -> Option<Seq<Op>> {
    if !tagged {
        Some(stream)
    } else if stream.len() > 0 && stream[0] == Op::Tag(tag) {
        Some(stream.drop_first())
    } else {
        None
    }
}

/// Behind its tag part, a stream goes on with what was written after it.
pub proof fn lemma_strip_tag(tag: Tag, tagged: bool, body: Seq<Op>)
    ensures
        strip_tag(tag_part(tag, tagged) + body, tag, tagged) == Some(body),
{
    if tagged {
        assert((tag_part(tag, tagged) + body).drop_first() =~= body);
    } else {
        assert(tag_part(tag, tagged) + body =~= body);
    }
}

} // verus!
