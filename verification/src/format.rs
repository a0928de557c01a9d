//! The encoding protocol: the cursor that values are written to, and the
//! contract of a type that can be written.
//!
//! A value is written as a tag that names its shape, where the context asks
//! for one, and then its payload. The cursor carries the one bit of context:
//! whether the next value has to be tagged. It starts out set, and a payload
//! whose shape the reader cannot know from what went before is written with
//! the bit forced on, whatever the context.

use crate::wire::{Op, Str, Tag, Write};
use vstd::prelude::*;
use vstd::string::*;

verus! {

/// A type whose values can be written to a [`Formatter`].
///
/// An implementation says what a value puts on the wire, how a reader takes
/// the value off again, and proves that the reader gets back what was
/// written.
pub trait Format {
    /// What a reader recovers: the value as mathematics.
    type Model;

    /// What a reader should recover of `self`.
    spec fn model(&self) -> Self::Model;

    /// The writes that encode `self`, in a context that asks for a tag
    /// (`tagged`) or in one that does not.
    spec fn writes(&self, tagged: bool) -> Seq<Op>;

    /// Takes one value of this type off the front of `stream`: the value
    /// and the rest of the stream, or `None` where `stream` does not start
    /// with an encoding of this type.
    spec fn read(stream: Seq<Op>, tagged: bool) -> Option<(Self::Model, Seq<Op>)>;

    /// Reading what was written gives the value back and leaves what
    /// follows it untouched, in either context.
    proof fn round_trip(&self, tagged: bool, rest: Seq<Op>)
        ensures
            Self::read(self.writes(tagged) + rest, tagged) == Some((self.model(), rest)),
    ;

    /// In a context that asks for a tag, the first write is a tag.
    proof fn tag_comes_first(&self)
        ensures
            self.writes(true).len() > 0,
            self.writes(true)[0] is Tag,
    ;

    /// Writes `self` to `fmt`. The context of `fmt` is left as it was.
    fn format(&self, fmt: &mut Formatter)
        ensures
            final(fmt)@ == old(fmt)@ + self.writes(old(fmt).tagging()),
            final(fmt).tagging() == old(fmt).tagging(),
    ;
}

/// What was written settles what is read: two values of one type whose
/// writes, with what follows them, make the same stream are read as the same
/// value, and what follows them is the same.
pub proof fn lemma_writes_settle_value<T: Format + ?Sized>(
    a: &T,
    b: &T,
    tagged: bool,
    after_a: Seq<Op>,
    after_b: Seq<Op>,
)
    requires
        a.writes(tagged) + after_a == b.writes(tagged) + after_b,
    ensures
        a.model() == b.model(),
        after_a == after_b,
{
    a.round_trip(tagged, after_a);
    b.round_trip(tagged, after_b);
}

/// The writes of the elements of `values`, one after the other.
pub open spec fn elements_writes<T: Format>(values: Seq<T>, tagged: bool) -> Seq<Op>
    decreases values.len(),
{
    if values.len() == 0 {
        Seq::empty()
    } else {
        values[0].writes(tagged) + elements_writes(values.drop_first(), tagged)
    }
}

/// What a reader should recover of each of `values`.
pub open spec fn elements_models<T: Format>(values: Seq<T>) -> Seq<T::Model> {
    Seq::new(values.len(), |i: int| values[i].model())
}

/// Takes `count` values of type `T` off the front of `stream`.
pub open spec fn read_elements<T: Format>(stream: Seq<Op>, count: nat, tagged: bool) -> Option<
    (Seq<T::Model>, Seq<Op>),
>
    decreases count,
{
    if count == 0 {
        Some((Seq::empty(), stream))
    } else {
        match T::read(stream, tagged) {
            Some((first, rest)) => match read_elements::<T>(rest, (count - 1) as nat, tagged) {
                Some((others, rest)) => Some((seq![first] + others, rest)),
                None => None,
            },
            None => None,
        }
    }
}

/// Reading as many elements as were written gives them back.
pub proof fn lemma_elements_round_trip<T: Format>(values: Seq<T>, tagged: bool, rest: Seq<Op>)
    ensures
        read_elements::<T>(elements_writes(values, tagged) + rest, values.len(), tagged) == Some(
            (elements_models(values), rest),
        ),
    decreases values.len(),
{
    if values.len() == 0 {
        assert(elements_writes(values, tagged) + rest =~= rest);
        assert(elements_models(values) =~= Seq::empty());
    } else {
        let tail = values.drop_first();
        assert(elements_writes(values, tagged) + rest =~= values[0].writes(tagged) + (
        elements_writes(tail, tagged) + rest));
        values[0].round_trip(tagged, elements_writes(tail, tagged) + rest);
        lemma_elements_round_trip(tail, tagged, rest);
        assert(elements_models(values) =~= seq![values[0].model()] + elements_models(tail));
    }
}

/// The writes of a sequence grow at the end as elements are added.
pub proof fn lemma_elements_writes_push<T: Format>(values: Seq<T>, last: T, tagged: bool)
    ensures
        elements_writes(values.push(last), tagged) == elements_writes(values, tagged)
            + last.writes(tagged),
    decreases values.len(),
{
    let all = values.push(last);
    if values.len() == 0 {
        assert(all.drop_first() =~= Seq::<T>::empty());
        assert(elements_writes(all.drop_first(), tagged) =~= Seq::<Op>::empty());
        assert(elements_writes(all, tagged) =~= last.writes(tagged));
        assert(elements_writes(values, tagged) + last.writes(tagged) =~= last.writes(tagged));
    } else {
        assert(all.drop_first() =~= values.drop_first().push(last));
        lemma_elements_writes_push(values.drop_first(), last, tagged);
        assert(elements_writes(all, tagged) =~= elements_writes(values, tagged) + last.writes(
            tagged,
        ));
    }
}

/// The cursor of one encoding: the writes made so far, and whether the next
/// value has to be tagged.
#[derive(Debug)]
pub struct Formatter {
    writes: Vec<Write>,
    omit_tag: bool,
}

impl View for Formatter {
    type V = Seq<Op>;

    closed spec fn view(&self) -> Seq<Op> {
        self.writes.deep_view()
    }
}

impl Formatter {
    /// Whether the next value has to be tagged.
    pub closed spec fn tagging(&self) -> bool {
        !self.omit_tag
    }

    /// A cursor at the start of an encoding; it asks for tags.
    pub fn new() -> (fmt: Formatter)
        ensures
            fmt@ == Seq::<Op>::empty(),
            fmt.tagging(),
    {
        let fmt = Formatter { writes: Vec::new(), omit_tag: false };
        assert(fmt@ =~= Seq::<Op>::empty());
        fmt
    }

    /// A cursor at the start of an encoding of a value whose shape the
    /// reader knows; it asks for no tag.
    pub fn raw() -> (fmt: Formatter)
        ensures
            fmt@ == Seq::<Op>::empty(),
            !fmt.tagging(),
    {
        let fmt = Formatter { writes: Vec::new(), omit_tag: true };
        assert(fmt@ =~= Seq::<Op>::empty());
        fmt
    }

    /// Whether a tag must precede the next value.
    pub fn needs_tag(&self) -> (r: bool)
        ensures
            r == self.tagging(),
    {
        !self.omit_tag
    }

    /// The writes made so far.
    pub fn writes(&self) -> (writes: &Vec<Write>)
        ensures
            writes.deep_view() == self@,
    {
        &self.writes
    }

    /// Ends the encoding and hands out its writes.
    pub fn into_writes(self) -> (writes: Vec<Write>)
        ensures
            writes.deep_view() == self@,
    {
        self.writes
    }

    fn emit(&mut self, write: Write)
        ensures
            final(self)@ == old(self)@.push(write@),
            final(self).tagging() == old(self).tagging(),
    {
        self.writes.push(write);
        assert(self@ =~= old(self)@.push(write@));
    }

    /// Appends the identifier of `tag`.
    pub fn tag(&mut self, tag: Tag)
        ensures
            final(self)@ == old(self)@.push(Op::Tag(tag)),
            final(self).tagging() == old(self).tagging(),
    {
        self.emit(Write::Tag(tag));
    }

    /// Appends a `u8`.
    pub fn u8(&mut self, value: &u8)
        ensures
            final(self)@ == old(self)@.push(Op::U8(*value)),
            final(self).tagging() == old(self).tagging(),
    {
        self.emit(Write::U8(*value));
    }

    /// Appends a `u16`.
    pub fn u16(&mut self, value: &u16)
        ensures
            final(self)@ == old(self)@.push(Op::U16(*value)),
            final(self).tagging() == old(self).tagging(),
    {
        self.emit(Write::U16(*value));
    }

    /// Appends a `u32`.
    pub fn u32(&mut self, value: &u32)
        ensures
            final(self)@ == old(self)@.push(Op::U32(*value)),
            final(self).tagging() == old(self).tagging(),
    {
        self.emit(Write::U32(*value));
    }

    /// Appends a `u64`.
    pub fn u64(&mut self, value: &u64)
        ensures
            final(self)@ == old(self)@.push(Op::U64(*value)),
            final(self).tagging() == old(self).tagging(),
    {
        self.emit(Write::U64(*value));
    }

    /// Appends a `u128`.
    pub fn u128(&mut self, value: &u128)
        ensures
            final(self)@ == old(self)@.push(Op::U128(*value)),
            final(self).tagging() == old(self).tagging(),
    {
        self.emit(Write::U128(*value));
    }

    /// Appends a `usize`.
    pub fn usize(&mut self, value: &usize)
        ensures
            final(self)@ == old(self)@.push(Op::Usize(*value)),
            final(self).tagging() == old(self).tagging(),
    {
        self.emit(Write::Usize(*value));
    }

    /// Appends an `i32`.
    pub fn i32(&mut self, value: &i32)
        ensures
            final(self)@ == old(self)@.push(Op::I32(*value)),
            final(self).tagging() == old(self).tagging(),
    {
        self.emit(Write::I32(*value));
    }

    /// Appends an `i64`.
    pub fn i64(&mut self, value: &i64)
        ensures
            final(self)@ == old(self)@.push(Op::I64(*value)),
            final(self).tagging() == old(self).tagging(),
    {
        self.emit(Write::I64(*value));
    }

    /// Appends an `i128`.
    pub fn i128(&mut self, value: &i128)
        ensures
            final(self)@ == old(self)@.push(Op::I128(*value)),
            final(self).tagging() == old(self).tagging(),
    {
        self.emit(Write::I128(*value));
    }

    /// Appends an `isize`.
    pub fn isize(&mut self, value: &isize)
        ensures
            final(self)@ == old(self)@.push(Op::Isize(*value)),
            final(self).tagging() == old(self).tagging(),
    {
        self.emit(Write::Isize(*value));
    }

    /// Appends a 32-bit float, given by its bits.
    pub fn float32(&mut self, bits: &u32)
        ensures
            final(self)@ == old(self)@.push(Op::Float32(*bits)),
            final(self).tagging() == old(self).tagging(),
    {
        self.emit(Write::Float32(*bits));
    }

    /// Appends a 64-bit float, given by its bits.
    pub fn float64(&mut self, bits: &u64)
        ensures
            final(self)@ == old(self)@.push(Op::Float64(*bits)),
            final(self).tagging() == old(self).tagging(),
    {
        self.emit(Write::Float64(*bits));
    }

    /// Appends a boolean.
    pub fn bool(&mut self, value: &bool)
        ensures
            final(self)@ == old(self)@.push(Op::Bool(*value)),
            final(self).tagging() == old(self).tagging(),
    {
        self.emit(Write::Bool(*value));
    }

    /// Appends a text.
    pub fn str(&mut self, value: &str)
        ensures
            final(self)@ == old(self)@.push(Op::Str(value@)),
            final(self).tagging() == old(self).tagging(),
    {
        self.emit(Write::Str(String::from_str(value)));
    }

    /// Appends the identifier of an interned string.
    pub fn istr(&mut self, value: &Str)
        ensures
            final(self)@ == old(self)@.push(Op::IStr(*value)),
            final(self).tagging() == old(self).tagging(),
    {
        self.emit(Write::IStr(*value));
    }

    /// Writes `value` with its tag, whatever the context asks for, and
    /// leaves the context as it was.
    pub fn with_tag<T: Format + ?Sized>(&mut self, value: &T)
        ensures
            final(self)@ == old(self)@ + value.writes(true),
            final(self).tagging() == old(self).tagging(),
    {
        let saved = self.omit_tag;
        self.omit_tag = false;
        value.format(self);
        self.omit_tag = saved;
    }

    /// Writes the length of `values` and then its elements, each in the
    /// context at hand.
    pub fn fmt_slice<T: Format>(&mut self, values: &[T])
        ensures
            final(self)@ == old(self)@.push(Op::Usize(values@.len() as usize)) + elements_writes(
                values@,
                old(self).tagging(),
            ),
            final(self).tagging() == old(self).tagging(),
    {
        let count = values.len();
        self.usize(&count);
        self.fmt_array(values);
    }

    /// Writes the elements of `values`, each in the context at hand.
    pub fn fmt_array<T: Format>(&mut self, values: &[T])
        ensures
            final(self)@ == old(self)@ + elements_writes(values@, old(self).tagging()),
            final(self).tagging() == old(self).tagging(),
    {
        let count = values.len();
        let mut i: usize = 0;
        assert(values@.take(0) =~= Seq::<T>::empty());
        assert(self@ =~= old(self)@ + elements_writes(values@.take(0), old(self).tagging()));
        while i < count
            invariant
                0 <= i <= count,
                count == values@.len(),
                self@ == old(self)@ + elements_writes(values@.take(i as int), old(self).tagging()),
                self.tagging() == old(self).tagging(),
            decreases count - i,
        {
            values[i].format(self);
            proof {
                let done = values@.take(i as int);
                assert(values@.take(i + 1) =~= done.push(values@[i as int]));
                lemma_elements_writes_push(done, values@[i as int], old(self).tagging());
                assert(self@ =~= old(self)@ + elements_writes(
                    values@.take(i + 1),
                    old(self).tagging(),
                ));
            }
            i += 1;
        }
        assert(values@.take(count as int) =~= values@);
    }
}

} // verus!
