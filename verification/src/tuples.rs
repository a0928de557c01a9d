//! How tuples are written: the tag of the arity, then the elements in turn,
//! each in the context that the tuple was written in.

use crate::format::{Format, Formatter};
use crate::wire::{lemma_strip_tag, strip_tag, tag_part, Op, Tag};
use vstd::prelude::*;

verus! {

/// Writes that follow one another can be grouped either way.
pub proof fn lemma_append_assoc(a: Seq<Op>, b: Seq<Op>, c: Seq<Op>)
    ensures
        (a + b) + c == a + (b + c),
{
    assert((a + b) + c =~= a + (b + c));
}

impl<T0> Format for (T0,) where T0: Format {
    type Model = (T0::Model,);

    open spec fn model(&self) -> (T0::Model,) {
        (self.0.model(),)
    }

    open spec fn writes(&self, tagged: bool) -> Seq<Op> {
        tag_part(Tag::Tuple1, tagged) + self.0.writes(tagged)
    }

    open spec fn read(stream: Seq<Op>, tagged: bool) -> Option<((T0::Model,), Seq<Op>)> {
        match strip_tag(stream, Tag::Tuple1, tagged) {
            Some(s0) => match T0::read(s0, tagged) {
                Some((m0, s1)) => Some(((m0,), s1)),
                None => None,
            },
            None => None,
        }
    }

    proof fn round_trip(&self, tagged: bool, rest: Seq<Op>) {
        let tag = tag_part(Tag::Tuple1, tagged);
        let w0 = self.0.writes(tagged);
        let l0 = tag + w0;
        let r0 = rest;
        lemma_append_assoc(tag, w0, r0);
        lemma_strip_tag(Tag::Tuple1, tagged, w0 + r0);
        self.0.round_trip(tagged, r0);
    }

    proof fn tag_comes_first(&self) {
    }

    fn format(&self, f: &mut Formatter) {
        if f.needs_tag() {
            f.tag(Tag::Tuple1);
        }
        let ghost tagged = f.tagging();
        let ghost mut written = tag_part(Tag::Tuple1, tagged);
        assert(f@ =~= old(f)@ + written);
        self.0.format(f);
        proof {
            lemma_append_assoc(old(f)@, written, self.0.writes(tagged));
            written = written + self.0.writes(tagged);
        }
    }
}

impl<T0, T1> Format for (T0, T1) where T0: Format, T1: Format {
    type Model = (T0::Model, T1::Model);

    open spec fn model(&self) -> (T0::Model, T1::Model) {
        (self.0.model(), self.1.model())
    }

    open spec fn writes(&self, tagged: bool) -> Seq<Op> {
        tag_part(Tag::Tuple2, tagged) + self.0.writes(tagged) + self.1.writes(tagged)
    }

    open spec fn read(stream: Seq<Op>, tagged: bool) -> Option<((T0::Model, T1::Model), Seq<Op>)> {
        match strip_tag(stream, Tag::Tuple2, tagged) {
            Some(s0) => match T0::read(s0, tagged) {
                Some((m0, s1)) => match T1::read(s1, tagged) {
                    Some((m1, s2)) => Some(((m0, m1), s2)),
                    None => None,
                },
                None => None,
            },
            None => None,
        }
    }

    proof fn round_trip(&self, tagged: bool, rest: Seq<Op>) {
        let tag = tag_part(Tag::Tuple2, tagged);
        let w0 = self.0.writes(tagged);
        let w1 = self.1.writes(tagged);
        let l0 = tag + w0;
        let l1 = l0 + w1;
        let r1 = rest;
        let r0 = w1 + r1;
        lemma_append_assoc(l0, w1, r1);
        lemma_append_assoc(tag, w0, r0);
        lemma_strip_tag(Tag::Tuple2, tagged, w0 + r0);
        self.0.round_trip(tagged, r0);
        self.1.round_trip(tagged, r1);
    }

    proof fn tag_comes_first(&self) {
    }

    fn format(&self, f: &mut Formatter) {
        if f.needs_tag() {
            f.tag(Tag::Tuple2);
        }
        let ghost tagged = f.tagging();
        let ghost mut written = tag_part(Tag::Tuple2, tagged);
        assert(f@ =~= old(f)@ + written);
        self.0.format(f);
        proof {
            lemma_append_assoc(old(f)@, written, self.0.writes(tagged));
            written = written + self.0.writes(tagged);
        }
        self.1.format(f);
        proof {
            lemma_append_assoc(old(f)@, written, self.1.writes(tagged));
            written = written + self.1.writes(tagged);
        }
    }
}

impl<T0, T1, T2> Format for (T0, T1, T2) where T0: Format, T1: Format, T2: Format {
    type Model = (T0::Model, T1::Model, T2::Model);

    open spec fn model(&self) -> (T0::Model, T1::Model, T2::Model) {
        (self.0.model(), self.1.model(), self.2.model())
    }

    open spec fn writes(&self, tagged: bool) -> Seq<Op> {
        tag_part(Tag::Tuple3, tagged) + self.0.writes(tagged) + self.1.writes(tagged)
            + self.2.writes(tagged)
    }

    open spec fn read(stream: Seq<Op>, tagged: bool) -> Option<((T0::Model, T1::Model, T2::Model), Seq<Op>)> {
        match strip_tag(stream, Tag::Tuple3, tagged) {
            Some(s0) => match T0::read(s0, tagged) {
                Some((m0, s1)) => match T1::read(s1, tagged) {
                    Some((m1, s2)) => match T2::read(s2, tagged) {
                        Some((m2, s3)) => Some(((m0, m1, m2), s3)),
                        None => None,
                    },
                    None => None,
                },
                None => None,
            },
            None => None,
        }
    }

    proof fn round_trip(&self, tagged: bool, rest: Seq<Op>) {
        let tag = tag_part(Tag::Tuple3, tagged);
        let w0 = self.0.writes(tagged);
        let w1 = self.1.writes(tagged);
        let w2 = self.2.writes(tagged);
        let l0 = tag + w0;
        let l1 = l0 + w1;
        let l2 = l1 + w2;
        let r2 = rest;
        let r1 = w2 + r2;
        let r0 = w1 + r1;
        lemma_append_assoc(l1, w2, r2);
        lemma_append_assoc(l0, w1, r1);
        lemma_append_assoc(tag, w0, r0);
        lemma_strip_tag(Tag::Tuple3, tagged, w0 + r0);
        self.0.round_trip(tagged, r0);
        self.1.round_trip(tagged, r1);
        self.2.round_trip(tagged, r2);
    }

    proof fn tag_comes_first(&self) {
    }

    fn format(&self, f: &mut Formatter) {
        if f.needs_tag() {
            f.tag(Tag::Tuple3);
        }
        let ghost tagged = f.tagging();
        let ghost mut written = tag_part(Tag::Tuple3, tagged);
        assert(f@ =~= old(f)@ + written);
        self.0.format(f);
        proof {
            lemma_append_assoc(old(f)@, written, self.0.writes(tagged));
            written = written + self.0.writes(tagged);
        }
        self.1.format(f);
        proof {
            lemma_append_assoc(old(f)@, written, self.1.writes(tagged));
            written = written + self.1.writes(tagged);
        }
        self.2.format(f);
        proof {
            lemma_append_assoc(old(f)@, written, self.2.writes(tagged));
            written = written + self.2.writes(tagged);
        }
    }
}

impl<T0, T1, T2, T3> Format for (T0, T1, T2, T3) where T0: Format, T1: Format, T2: Format, T3: Format {
    type Model = (T0::Model, T1::Model, T2::Model, T3::Model);

    open spec fn model(&self) -> (T0::Model, T1::Model, T2::Model, T3::Model) {
        (self.0.model(), self.1.model(), self.2.model(), self.3.model())
    }

    open spec fn writes(&self, tagged: bool) -> Seq<Op> {
        tag_part(Tag::Tuple4, tagged) + self.0.writes(tagged) + self.1.writes(tagged)
            + self.2.writes(tagged) + self.3.writes(tagged)
    }

    open spec fn read(stream: Seq<Op>, tagged: bool) -> Option<((T0::Model, T1::Model, T2::Model, T3::Model), Seq<Op>)> {
        match strip_tag(stream, Tag::Tuple4, tagged) {
            Some(s0) => match T0::read(s0, tagged) {
                Some((m0, s1)) => match T1::read(s1, tagged) {
                    Some((m1, s2)) => match T2::read(s2, tagged) {
                        Some((m2, s3)) => match T3::read(s3, tagged) {
                            Some((m3, s4)) => Some(((m0, m1, m2, m3), s4)),
                            None => None,
                        },
                        None => None,
                    },
                    None => None,
                },
                None => None,
            },
            None => None,
        }
    }

    proof fn round_trip(&self, tagged: bool, rest: Seq<Op>) {
        let tag = tag_part(Tag::Tuple4, tagged);
        let w0 = self.0.writes(tagged);
        let w1 = self.1.writes(tagged);
        let w2 = self.2.writes(tagged);
        let w3 = self.3.writes(tagged);
        let l0 = tag + w0;
        let l1 = l0 + w1;
        let l2 = l1 + w2;
        let l3 = l2 + w3;
        let r3 = rest;
        let r2 = w3 + r3;
        let r1 = w2 + r2;
        let r0 = w1 + r1;
        lemma_append_assoc(l2, w3, r3);
        lemma_append_assoc(l1, w2, r2);
        lemma_append_assoc(l0, w1, r1);
        lemma_append_assoc(tag, w0, r0);
        lemma_strip_tag(Tag::Tuple4, tagged, w0 + r0);
        self.0.round_trip(tagged, r0);
        self.1.round_trip(tagged, r1);
        self.2.round_trip(tagged, r2);
        self.3.round_trip(tagged, r3);
    }

    proof fn tag_comes_first(&self) {
    }

    fn format(&self, f: &mut Formatter) {
        if f.needs_tag() {
            f.tag(Tag::Tuple4);
        }
        let ghost tagged = f.tagging();
        let ghost mut written = tag_part(Tag::Tuple4, tagged);
        assert(f@ =~= old(f)@ + written);
        self.0.format(f);
        proof {
            lemma_append_assoc(old(f)@, written, self.0.writes(tagged));
            written = written + self.0.writes(tagged);
        }
        self.1.format(f);
        proof {
            lemma_append_assoc(old(f)@, written, self.1.writes(tagged));
            written = written + self.1.writes(tagged);
        }
        self.2.format(f);
        proof {
            lemma_append_assoc(old(f)@, written, self.2.writes(tagged));
            written = written + self.2.writes(tagged);
        }
        self.3.format(f);
        proof {
            lemma_append_assoc(old(f)@, written, self.3.writes(tagged));
            written = written + self.3.writes(tagged);
        }
    }
}

impl<T0, T1, T2, T3, T4> Format for (T0, T1, T2, T3, T4) where T0: Format, T1: Format, T2: Format, T3: Format, T4: Format {
    type Model = (T0::Model, T1::Model, T2::Model, T3::Model, T4::Model);

    open spec fn model(&self) -> (T0::Model, T1::Model, T2::Model, T3::Model, T4::Model) {
        (self.0.model(), self.1.model(), self.2.model(), self.3.model(), self.4.model())
    }

    open spec fn writes(&self, tagged: bool) -> Seq<Op> {
        tag_part(Tag::Tuple5, tagged) + self.0.writes(tagged) + self.1.writes(tagged)
            + self.2.writes(tagged) + self.3.writes(tagged) + self.4.writes(tagged)
    }

    open spec fn read(stream: Seq<Op>, tagged: bool) -> Option<((T0::Model, T1::Model, T2::Model, T3::Model, T4::Model), Seq<Op>)> {
        match strip_tag(stream, Tag::Tuple5, tagged) {
            Some(s0) => match T0::read(s0, tagged) {
                Some((m0, s1)) => match T1::read(s1, tagged) {
                    Some((m1, s2)) => match T2::read(s2, tagged) {
                        Some((m2, s3)) => match T3::read(s3, tagged) {
                            Some((m3, s4)) => match T4::read(s4, tagged) {
                                Some((m4, s5)) => Some(((m0, m1, m2, m3, m4), s5)),
                                None => None,
                            },
                            None => None,
                        },
                        None => None,
                    },
                    None => None,
                },
                None => None,
            },
            None => None,
        }
    }

    proof fn round_trip(&self, tagged: bool, rest: Seq<Op>) {
        let tag = tag_part(Tag::Tuple5, tagged);
        let w0 = self.0.writes(tagged);
        let w1 = self.1.writes(tagged);
        let w2 = self.2.writes(tagged);
        let w3 = self.3.writes(tagged);
        let w4 = self.4.writes(tagged);
        let l0 = tag + w0;
        let l1 = l0 + w1;
        let l2 = l1 + w2;
        let l3 = l2 + w3;
        let l4 = l3 + w4;
        let r4 = rest;
        let r3 = w4 + r4;
        let r2 = w3 + r3;
        let r1 = w2 + r2;
        let r0 = w1 + r1;
        lemma_append_assoc(l3, w4, r4);
        lemma_append_assoc(l2, w3, r3);
        lemma_append_assoc(l1, w2, r2);
        lemma_append_assoc(l0, w1, r1);
        lemma_append_assoc(tag, w0, r0);
        lemma_strip_tag(Tag::Tuple5, tagged, w0 + r0);
        self.0.round_trip(tagged, r0);
        self.1.round_trip(tagged, r1);
        self.2.round_trip(tagged, r2);
        self.3.round_trip(tagged, r3);
        self.4.round_trip(tagged, r4);
    }

    proof fn tag_comes_first(&self) {
    }

    fn format(&self, f: &mut Formatter) {
        if f.needs_tag() {
            f.tag(Tag::Tuple5);
        }
        let ghost tagged = f.tagging();
        let ghost mut written = tag_part(Tag::Tuple5, tagged);
        assert(f@ =~= old(f)@ + written);
        self.0.format(f);
        proof {
            lemma_append_assoc(old(f)@, written, self.0.writes(tagged));
            written = written + self.0.writes(tagged);
        }
        self.1.format(f);
        proof {
            lemma_append_assoc(old(f)@, written, self.1.writes(tagged));
            written = written + self.1.writes(tagged);
        }
        self.2.format(f);
        proof {
            lemma_append_assoc(old(f)@, written, self.2.writes(tagged));
            written = written + self.2.writes(tagged);
        }
        self.3.format(f);
        proof {
            lemma_append_assoc(old(f)@, written, self.3.writes(tagged));
            written = written + self.3.writes(tagged);
        }
        self.4.format(f);
        proof {
            lemma_append_assoc(old(f)@, written, self.4.writes(tagged));
            written = written + self.4.writes(tagged);
        }
    }
}

impl<T0, T1, T2, T3, T4, T5> Format for (T0, T1, T2, T3, T4, T5) where T0: Format, T1: Format, T2: Format, T3: Format, T4: Format, T5: Format {
    type Model = (T0::Model, T1::Model, T2::Model, T3::Model, T4::Model, T5::Model);

    open spec fn model(&self) -> (T0::Model, T1::Model, T2::Model, T3::Model, T4::Model, T5::Model) {
        (self.0.model(), self.1.model(), self.2.model(), self.3.model(), self.4.model(), self.5.model())
    }

    open spec fn writes(&self, tagged: bool) -> Seq<Op> {
        tag_part(Tag::Tuple6, tagged) + self.0.writes(tagged) + self.1.writes(tagged)
            + self.2.writes(tagged) + self.3.writes(tagged) + self.4.writes(tagged)
            + self.5.writes(tagged)
    }

    open spec fn read(stream: Seq<Op>, tagged: bool) -> Option<((T0::Model, T1::Model, T2::Model, T3::Model, T4::Model, T5::Model), Seq<Op>)> {
        match strip_tag(stream, Tag::Tuple6, tagged) {
            Some(s0) => match T0::read(s0, tagged) {
                Some((m0, s1)) => match T1::read(s1, tagged) {
                    Some((m1, s2)) => match T2::read(s2, tagged) {
                        Some((m2, s3)) => match T3::read(s3, tagged) {
                            Some((m3, s4)) => match T4::read(s4, tagged) {
                                Some((m4, s5)) => match T5::read(s5, tagged) {
                                    Some((m5, s6)) => Some(((m0, m1, m2, m3, m4, m5), s6)),
                                    None => None,
                                },
                                None => None,
                            },
                            None => None,
                        },
                        None => None,
                    },
                    None => None,
                },
                None => None,
            },
            None => None,
        }
    }

    proof fn round_trip(&self, tagged: bool, rest: Seq<Op>) {
        let tag = tag_part(Tag::Tuple6, tagged);
        let w0 = self.0.writes(tagged);
        let w1 = self.1.writes(tagged);
        let w2 = self.2.writes(tagged);
        let w3 = self.3.writes(tagged);
        let w4 = self.4.writes(tagged);
        let w5 = self.5.writes(tagged);
        let l0 = tag + w0;
        let l1 = l0 + w1;
        let l2 = l1 + w2;
        let l3 = l2 + w3;
        let l4 = l3 + w4;
        let l5 = l4 + w5;
        let r5 = rest;
        let r4 = w5 + r5;
        let r3 = w4 + r4;
        let r2 = w3 + r3;
        let r1 = w2 + r2;
        let r0 = w1 + r1;
        lemma_append_assoc(l4, w5, r5);
        lemma_append_assoc(l3, w4, r4);
        lemma_append_assoc(l2, w3, r3);
        lemma_append_assoc(l1, w2, r2);
        lemma_append_assoc(l0, w1, r1);
        lemma_append_assoc(tag, w0, r0);
        lemma_strip_tag(Tag::Tuple6, tagged, w0 + r0);
        self.0.round_trip(tagged, r0);
        self.1.round_trip(tagged, r1);
        self.2.round_trip(tagged, r2);
        self.3.round_trip(tagged, r3);
        self.4.round_trip(tagged, r4);
        self.5.round_trip(tagged, r5);
    }

    proof fn tag_comes_first(&self) {
    }

    fn format(&self, f: &mut Formatter) {
        if f.needs_tag() {
            f.tag(Tag::Tuple6);
        }
        let ghost tagged = f.tagging();
        let ghost mut written = tag_part(Tag::Tuple6, tagged);
        assert(f@ =~= old(f)@ + written);
        self.0.format(f);
        proof {
            lemma_append_assoc(old(f)@, written, self.0.writes(tagged));
            written = written + self.0.writes(tagged);
        }
        self.1.format(f);
        proof {
            lemma_append_assoc(old(f)@, written, self.1.writes(tagged));
            written = written + self.1.writes(tagged);
        }
        self.2.format(f);
        proof {
            lemma_append_assoc(old(f)@, written, self.2.writes(tagged));
            written = written + self.2.writes(tagged);
        }
        self.3.format(f);
        proof {
            lemma_append_assoc(old(f)@, written, self.3.writes(tagged));
            written = written + self.3.writes(tagged);
        }
        self.4.format(f);
        proof {
            lemma_append_assoc(old(f)@, written, self.4.writes(tagged));
            written = written + self.4.writes(tagged);
        }
        self.5.format(f);
        proof {
            lemma_append_assoc(old(f)@, written, self.5.writes(tagged));
            written = written + self.5.writes(tagged);
        }
    }
}

impl<T0, T1, T2, T3, T4, T5, T6> Format for (T0, T1, T2, T3, T4, T5, T6) where T0: Format, T1: Format, T2: Format, T3: Format, T4: Format, T5: Format, T6: Format {
    type Model = (T0::Model, T1::Model, T2::Model, T3::Model, T4::Model, T5::Model, T6::Model);

    open spec fn model(&self) -> (T0::Model, T1::Model, T2::Model, T3::Model, T4::Model, T5::Model, T6::Model) {
        (self.0.model(), self.1.model(), self.2.model(), self.3.model(), self.4.model(), self.5.model(), self.6.model())
    }

    open spec fn writes(&self, tagged: bool) -> Seq<Op> {
        tag_part(Tag::Tuple7, tagged) + self.0.writes(tagged) + self.1.writes(tagged)
            + self.2.writes(tagged) + self.3.writes(tagged) + self.4.writes(tagged)
            + self.5.writes(tagged) + self.6.writes(tagged)
    }

    open spec fn read(stream: Seq<Op>, tagged: bool) -> Option<((T0::Model, T1::Model, T2::Model, T3::Model, T4::Model, T5::Model, T6::Model), Seq<Op>)> {
        match strip_tag(stream, Tag::Tuple7, tagged) {
            Some(s0) => match T0::read(s0, tagged) {
                Some((m0, s1)) => match T1::read(s1, tagged) {
                    Some((m1, s2)) => match T2::read(s2, tagged) {
                        Some((m2, s3)) => match T3::read(s3, tagged) {
                            Some((m3, s4)) => match T4::read(s4, tagged) {
                                Some((m4, s5)) => match T5::read(s5, tagged) {
                                    Some((m5, s6)) => match T6::read(s6, tagged) {
                                        Some((m6, s7)) => Some(((m0, m1, m2, m3, m4, m5, m6), s7)),
                                        None => None,
                                    },
                                    None => None,
                                },
                                None => None,
                            },
                            None => None,
                        },
                        None => None,
                    },
                    None => None,
                },
                None => None,
            },
            None => None,
        }
    }

    proof fn round_trip(&self, tagged: bool, rest: Seq<Op>) {
        let tag = tag_part(Tag::Tuple7, tagged);
        let w0 = self.0.writes(tagged);
        let w1 = self.1.writes(tagged);
        let w2 = self.2.writes(tagged);
        let w3 = self.3.writes(tagged);
        let w4 = self.4.writes(tagged);
        let w5 = self.5.writes(tagged);
        let w6 = self.6.writes(tagged);
        let l0 = tag + w0;
        let l1 = l0 + w1;
        let l2 = l1 + w2;
        let l3 = l2 + w3;
        let l4 = l3 + w4;
        let l5 = l4 + w5;
        let l6 = l5 + w6;
        let r6 = rest;
        let r5 = w6 + r6;
        let r4 = w5 + r5;
        let r3 = w4 + r4;
        let r2 = w3 + r3;
        let r1 = w2 + r2;
        let r0 = w1 + r1;
        lemma_append_assoc(l5, w6, r6);
        lemma_append_assoc(l4, w5, r5);
        lemma_append_assoc(l3, w4, r4);
        lemma_append_assoc(l2, w3, r3);
        lemma_append_assoc(l1, w2, r2);
        lemma_append_assoc(l0, w1, r1);
        lemma_append_assoc(tag, w0, r0);
        lemma_strip_tag(Tag::Tuple7, tagged, w0 + r0);
        self.0.round_trip(tagged, r0);
        self.1.round_trip(tagged, r1);
        self.2.round_trip(tagged, r2);
        self.3.round_trip(tagged, r3);
        self.4.round_trip(tagged, r4);
        self.5.round_trip(tagged, r5);
        self.6.round_trip(tagged, r6);
    }

    proof fn tag_comes_first(&self) {
    }

    fn format(&self, f: &mut Formatter) {
        if f.needs_tag() {
            f.tag(Tag::Tuple7);
        }
        let ghost tagged = f.tagging();
        let ghost mut written = tag_part(Tag::Tuple7, tagged);
        assert(f@ =~= old(f)@ + written);
        self.0.format(f);
        proof {
            lemma_append_assoc(old(f)@, written, self.0.writes(tagged));
            written = written + self.0.writes(tagged);
        }
        self.1.format(f);
        proof {
            lemma_append_assoc(old(f)@, written, self.1.writes(tagged));
            written = written + self.1.writes(tagged);
        }
        self.2.format(f);
        proof {
            lemma_append_assoc(old(f)@, written, self.2.writes(tagged));
            written = written + self.2.writes(tagged);
        }
        self.3.format(f);
        proof {
            lemma_append_assoc(old(f)@, written, self.3.writes(tagged));
            written = written + self.3.writes(tagged);
        }
        self.4.format(f);
        proof {
            lemma_append_assoc(old(f)@, written, self.4.writes(tagged));
            written = written + self.4.writes(tagged);
        }
        self.5.format(f);
        proof {
            lemma_append_assoc(old(f)@, written, self.5.writes(tagged));
            written = written + self.5.writes(tagged);
        }
        self.6.format(f);
        proof {
            lemma_append_assoc(old(f)@, written, self.6.writes(tagged));
            written = written + self.6.writes(tagged);
        }
    }
}

impl<T0, T1, T2, T3, T4, T5, T6, T7> Format for (T0, T1, T2, T3, T4, T5, T6, T7) where T0: Format, T1: Format, T2: Format, T3: Format, T4: Format, T5: Format, T6: Format, T7: Format {
    type Model = (T0::Model, T1::Model, T2::Model, T3::Model, T4::Model, T5::Model, T6::Model, T7::Model);

    open spec fn model(&self) -> (T0::Model, T1::Model, T2::Model, T3::Model, T4::Model, T5::Model, T6::Model, T7::Model) {
        (self.0.model(), self.1.model(), self.2.model(), self.3.model(), self.4.model(), self.5.model(), self.6.model(), self.7.model())
    }

    open spec fn writes(&self, tagged: bool) -> Seq<Op> {
        tag_part(Tag::Tuple8, tagged) + self.0.writes(tagged) + self.1.writes(tagged)
            + self.2.writes(tagged) + self.3.writes(tagged) + self.4.writes(tagged)
            + self.5.writes(tagged) + self.6.writes(tagged) + self.7.writes(tagged)
    }

    open spec fn read(stream: Seq<Op>, tagged: bool) -> Option<((T0::Model, T1::Model, T2::Model, T3::Model, T4::Model, T5::Model, T6::Model, T7::Model), Seq<Op>)> {
        match strip_tag(stream, Tag::Tuple8, tagged) {
            Some(s0) => match T0::read(s0, tagged) {
                Some((m0, s1)) => match T1::read(s1, tagged) {
                    Some((m1, s2)) => match T2::read(s2, tagged) {
                        Some((m2, s3)) => match T3::read(s3, tagged) {
                            Some((m3, s4)) => match T4::read(s4, tagged) {
                                Some((m4, s5)) => match T5::read(s5, tagged) {
                                    Some((m5, s6)) => match T6::read(s6, tagged) {
                                        Some((m6, s7)) => match T7::read(s7, tagged) {
                                            Some((m7, s8)) => Some(((m0, m1, m2, m3, m4, m5, m6, m7), s8)),
                                            None => None,
                                        },
                                        None => None,
                                    },
                                    None => None,
                                },
                                None => None,
                            },
                            None => None,
                        },
                        None => None,
                    },
                    None => None,
                },
                None => None,
            },
            None => None,
        }
    }

    proof fn round_trip(&self, tagged: bool, rest: Seq<Op>) {
        let tag = tag_part(Tag::Tuple8, tagged);
        let w0 = self.0.writes(tagged);
        let w1 = self.1.writes(tagged);
        let w2 = self.2.writes(tagged);
        let w3 = self.3.writes(tagged);
        let w4 = self.4.writes(tagged);
        let w5 = self.5.writes(tagged);
        let w6 = self.6.writes(tagged);
        let w7 = self.7.writes(tagged);
        let l0 = tag + w0;
        let l1 = l0 + w1;
        let l2 = l1 + w2;
        let l3 = l2 + w3;
        let l4 = l3 + w4;
        let l5 = l4 + w5;
        let l6 = l5 + w6;
        let l7 = l6 + w7;
        let r7 = rest;
        let r6 = w7 + r7;
        let r5 = w6 + r6;
        let r4 = w5 + r5;
        let r3 = w4 + r4;
        let r2 = w3 + r3;
        let r1 = w2 + r2;
        let r0 = w1 + r1;
        lemma_append_assoc(l6, w7, r7);
        lemma_append_assoc(l5, w6, r6);
        lemma_append_assoc(l4, w5, r5);
        lemma_append_assoc(l3, w4, r4);
        lemma_append_assoc(l2, w3, r3);
        lemma_append_assoc(l1, w2, r2);
        lemma_append_assoc(l0, w1, r1);
        lemma_append_assoc(tag, w0, r0);
        lemma_strip_tag(Tag::Tuple8, tagged, w0 + r0);
        self.0.round_trip(tagged, r0);
        self.1.round_trip(tagged, r1);
        self.2.round_trip(tagged, r2);
        self.3.round_trip(tagged, r3);
        self.4.round_trip(tagged, r4);
        self.5.round_trip(tagged, r5);
        self.6.round_trip(tagged, r6);
        self.7.round_trip(tagged, r7);
    }

    proof fn tag_comes_first(&self) {
    }

    fn format(&self, f: &mut Formatter) {
        if f.needs_tag() {
            f.tag(Tag::Tuple8);
        }
        let ghost tagged = f.tagging();
        let ghost mut written = tag_part(Tag::Tuple8, tagged);
        assert(f@ =~= old(f)@ + written);
        self.0.format(f);
        proof {
            lemma_append_assoc(old(f)@, written, self.0.writes(tagged));
            written = written + self.0.writes(tagged);
        }
        self.1.format(f);
        proof {
            lemma_append_assoc(old(f)@, written, self.1.writes(tagged));
            written = written + self.1.writes(tagged);
        }
        self.2.format(f);
        proof {
            lemma_append_assoc(old(f)@, written, self.2.writes(tagged));
            written = written + self.2.writes(tagged);
        }
        self.3.format(f);
        proof {
            lemma_append_assoc(old(f)@, written, self.3.writes(tagged));
            written = written + self.3.writes(tagged);
        }
        self.4.format(f);
        proof {
            lemma_append_assoc(old(f)@, written, self.4.writes(tagged));
            written = written + self.4.writes(tagged);
        }
        self.5.format(f);
        proof {
            lemma_append_assoc(old(f)@, written, self.5.writes(tagged));
            written = written + self.5.writes(tagged);
        }
        self.6.format(f);
        proof {
            lemma_append_assoc(old(f)@, written, self.6.writes(tagged));
            written = written + self.6.writes(tagged);
        }
        self.7.format(f);
        proof {
            lemma_append_assoc(old(f)@, written, self.7.writes(tagged));
            written = written + self.7.writes(tagged);
        }
    }
}

impl<T0, T1, T2, T3, T4, T5, T6, T7, T8> Format for (T0, T1, T2, T3, T4, T5, T6, T7, T8) where T0: Format, T1: Format, T2: Format, T3: Format, T4: Format, T5: Format, T6: Format, T7: Format, T8: Format {
    type Model = (T0::Model, T1::Model, T2::Model, T3::Model, T4::Model, T5::Model, T6::Model, T7::Model, T8::Model);

    open spec fn model(&self) -> (T0::Model, T1::Model, T2::Model, T3::Model, T4::Model, T5::Model, T6::Model, T7::Model, T8::Model) {
        (self.0.model(), self.1.model(), self.2.model(), self.3.model(), self.4.model(), self.5.model(), self.6.model(), self.7.model(), self.8.model())
    }

    open spec fn writes(&self, tagged: bool) -> Seq<Op> {
        tag_part(Tag::Tuple9, tagged) + self.0.writes(tagged) + self.1.writes(tagged)
            + self.2.writes(tagged) + self.3.writes(tagged) + self.4.writes(tagged)
            + self.5.writes(tagged) + self.6.writes(tagged) + self.7.writes(tagged)
            + self.8.writes(tagged)
    }

    open spec fn read(stream: Seq<Op>, tagged: bool) -> Option<((T0::Model, T1::Model, T2::Model, T3::Model, T4::Model, T5::Model, T6::Model, T7::Model, T8::Model), Seq<Op>)> {
        match strip_tag(stream, Tag::Tuple9, tagged) {
            Some(s0) => match T0::read(s0, tagged) {
                Some((m0, s1)) => match T1::read(s1, tagged) {
                    Some((m1, s2)) => match T2::read(s2, tagged) {
                        Some((m2, s3)) => match T3::read(s3, tagged) {
                            Some((m3, s4)) => match T4::read(s4, tagged) {
                                Some((m4, s5)) => match T5::read(s5, tagged) {
                                    Some((m5, s6)) => match T6::read(s6, tagged) {
                                        Some((m6, s7)) => match T7::read(s7, tagged) {
                                            Some((m7, s8)) => match T8::read(s8, tagged) {
                                                Some((m8, s9)) => Some(((m0, m1, m2, m3, m4, m5, m6, m7, m8), s9)),
                                                None => None,
                                            },
                                            None => None,
                                        },
                                        None => None,
                                    },
                                    None => None,
                                },
                                None => None,
                            },
                            None => None,
                        },
                        None => None,
                    },
                    None => None,
                },
                None => None,
            },
            None => None,
        }
    }

    proof fn round_trip(&self, tagged: bool, rest: Seq<Op>) {
        let tag = tag_part(Tag::Tuple9, tagged);
        let w0 = self.0.writes(tagged);
        let w1 = self.1.writes(tagged);
        let w2 = self.2.writes(tagged);
        let w3 = self.3.writes(tagged);
        let w4 = self.4.writes(tagged);
        let w5 = self.5.writes(tagged);
        let w6 = self.6.writes(tagged);
        let w7 = self.7.writes(tagged);
        let w8 = self.8.writes(tagged);
        let l0 = tag + w0;
        let l1 = l0 + w1;
        let l2 = l1 + w2;
        let l3 = l2 + w3;
        let l4 = l3 + w4;
        let l5 = l4 + w5;
        let l6 = l5 + w6;
        let l7 = l6 + w7;
        let l8 = l7 + w8;
        let r8 = rest;
        let r7 = w8 + r8;
        let r6 = w7 + r7;
        let r5 = w6 + r6;
        let r4 = w5 + r5;
        let r3 = w4 + r4;
        let r2 = w3 + r3;
        let r1 = w2 + r2;
        let r0 = w1 + r1;
        lemma_append_assoc(l7, w8, r8);
        lemma_append_assoc(l6, w7, r7);
        lemma_append_assoc(l5, w6, r6);
        lemma_append_assoc(l4, w5, r5);
        lemma_append_assoc(l3, w4, r4);
        lemma_append_assoc(l2, w3, r3);
        lemma_append_assoc(l1, w2, r2);
        lemma_append_assoc(l0, w1, r1);
        lemma_append_assoc(tag, w0, r0);
        lemma_strip_tag(Tag::Tuple9, tagged, w0 + r0);
        self.0.round_trip(tagged, r0);
        self.1.round_trip(tagged, r1);
        self.2.round_trip(tagged, r2);
        self.3.round_trip(tagged, r3);
        self.4.round_trip(tagged, r4);
        self.5.round_trip(tagged, r5);
        self.6.round_trip(tagged, r6);
        self.7.round_trip(tagged, r7);
        self.8.round_trip(tagged, r8);
    }

    proof fn tag_comes_first(&self) {
    }

    fn format(&self, f: &mut Formatter) {
        if f.needs_tag() {
            f.tag(Tag::Tuple9);
        }
        let ghost tagged = f.tagging();
        let ghost mut written = tag_part(Tag::Tuple9, tagged);
        assert(f@ =~= old(f)@ + written);
        self.0.format(f);
        proof {
            lemma_append_assoc(old(f)@, written, self.0.writes(tagged));
            written = written + self.0.writes(tagged);
        }
        self.1.format(f);
        proof {
            lemma_append_assoc(old(f)@, written, self.1.writes(tagged));
            written = written + self.1.writes(tagged);
        }
        self.2.format(f);
        proof {
            lemma_append_assoc(old(f)@, written, self.2.writes(tagged));
            written = written + self.2.writes(tagged);
        }
        self.3.format(f);
        proof {
            lemma_append_assoc(old(f)@, written, self.3.writes(tagged));
            written = written + self.3.writes(tagged);
        }
        self.4.format(f);
        proof {
            lemma_append_assoc(old(f)@, written, self.4.writes(tagged));
            written = written + self.4.writes(tagged);
        }
        self.5.format(f);
        proof {
            lemma_append_assoc(old(f)@, written, self.5.writes(tagged));
            written = written + self.5.writes(tagged);
        }
        self.6.format(f);
        proof {
            lemma_append_assoc(old(f)@, written, self.6.writes(tagged));
            written = written + self.6.writes(tagged);
        }
        self.7.format(f);
        proof {
            lemma_append_assoc(old(f)@, written, self.7.writes(tagged));
            written = written + self.7.writes(tagged);
        }
        self.8.format(f);
        proof {
            lemma_append_assoc(old(f)@, written, self.8.writes(tagged));
            written = written + self.8.writes(tagged);
        }
    }
}

impl<T0, T1, T2, T3, T4, T5, T6, T7, T8, T9> Format for (T0, T1, T2, T3, T4, T5, T6, T7, T8, T9) where T0: Format, T1: Format, T2: Format, T3: Format, T4: Format, T5: Format, T6: Format, T7: Format, T8: Format, T9: Format {
    type Model = (T0::Model, T1::Model, T2::Model, T3::Model, T4::Model, T5::Model, T6::Model, T7::Model, T8::Model, T9::Model);

    open spec fn model(&self) -> (T0::Model, T1::Model, T2::Model, T3::Model, T4::Model, T5::Model, T6::Model, T7::Model, T8::Model, T9::Model) {
        (self.0.model(), self.1.model(), self.2.model(), self.3.model(), self.4.model(), self.5.model(), self.6.model(), self.7.model(), self.8.model(), self.9.model())
    }

    open spec fn writes(&self, tagged: bool) -> Seq<Op> {
        tag_part(Tag::Tuple10, tagged) + self.0.writes(tagged) + self.1.writes(tagged)
            + self.2.writes(tagged) + self.3.writes(tagged) + self.4.writes(tagged)
            + self.5.writes(tagged) + self.6.writes(tagged) + self.7.writes(tagged)
            + self.8.writes(tagged) + self.9.writes(tagged)
    }

    open spec fn read(stream: Seq<Op>, tagged: bool) -> Option<((T0::Model, T1::Model, T2::Model, T3::Model, T4::Model, T5::Model, T6::Model, T7::Model, T8::Model, T9::Model), Seq<Op>)> {
        match strip_tag(stream, Tag::Tuple10, tagged) {
            Some(s0) => match T0::read(s0, tagged) {
                Some((m0, s1)) => match T1::read(s1, tagged) {
                    Some((m1, s2)) => match T2::read(s2, tagged) {
                        Some((m2, s3)) => match T3::read(s3, tagged) {
                            Some((m3, s4)) => match T4::read(s4, tagged) {
                                Some((m4, s5)) => match T5::read(s5, tagged) {
                                    Some((m5, s6)) => match T6::read(s6, tagged) {
                                        Some((m6, s7)) => match T7::read(s7, tagged) {
                                            Some((m7, s8)) => match T8::read(s8, tagged) {
                                                Some((m8, s9)) => match T9::read(s9, tagged) {
                                                    Some((m9, s10)) => Some(((m0, m1, m2, m3, m4, m5, m6, m7, m8, m9), s10)),
                                                    None => None,
                                                },
                                                None => None,
                                            },
                                            None => None,
                                        },
                                        None => None,
                                    },
                                    None => None,
                                },
                                None => None,
                            },
                            None => None,
                        },
                        None => None,
                    },
                    None => None,
                },
                None => None,
            },
            None => None,
        }
    }

    proof fn round_trip(&self, tagged: bool, rest: Seq<Op>) {
        let tag = tag_part(Tag::Tuple10, tagged);
        let w0 = self.0.writes(tagged);
        let w1 = self.1.writes(tagged);
        let w2 = self.2.writes(tagged);
        let w3 = self.3.writes(tagged);
        let w4 = self.4.writes(tagged);
        let w5 = self.5.writes(tagged);
        let w6 = self.6.writes(tagged);
        let w7 = self.7.writes(tagged);
        let w8 = self.8.writes(tagged);
        let w9 = self.9.writes(tagged);
        let l0 = tag + w0;
        let l1 = l0 + w1;
        let l2 = l1 + w2;
        let l3 = l2 + w3;
        let l4 = l3 + w4;
        let l5 = l4 + w5;
        let l6 = l5 + w6;
        let l7 = l6 + w7;
        let l8 = l7 + w8;
        let l9 = l8 + w9;
        let r9 = rest;
        let r8 = w9 + r9;
        let r7 = w8 + r8;
        let r6 = w7 + r7;
        let r5 = w6 + r6;
        let r4 = w5 + r5;
        let r3 = w4 + r4;
        let r2 = w3 + r3;
        let r1 = w2 + r2;
        let r0 = w1 + r1;
        lemma_append_assoc(l8, w9, r9);
        lemma_append_assoc(l7, w8, r8);
        lemma_append_assoc(l6, w7, r7);
        lemma_append_assoc(l5, w6, r6);
        lemma_append_assoc(l4, w5, r5);
        lemma_append_assoc(l3, w4, r4);
        lemma_append_assoc(l2, w3, r3);
        lemma_append_assoc(l1, w2, r2);
        lemma_append_assoc(l0, w1, r1);
        lemma_append_assoc(tag, w0, r0);
        lemma_strip_tag(Tag::Tuple10, tagged, w0 + r0);
        self.0.round_trip(tagged, r0);
        self.1.round_trip(tagged, r1);
        self.2.round_trip(tagged, r2);
        self.3.round_trip(tagged, r3);
        self.4.round_trip(tagged, r4);
        self.5.round_trip(tagged, r5);
        self.6.round_trip(tagged, r6);
        self.7.round_trip(tagged, r7);
        self.8.round_trip(tagged, r8);
        self.9.round_trip(tagged, r9);
    }

    proof fn tag_comes_first(&self) {
    }

    fn format(&self, f: &mut Formatter) {
        if f.needs_tag() {
            f.tag(Tag::Tuple10);
        }
        let ghost tagged = f.tagging();
        let ghost mut written = tag_part(Tag::Tuple10, tagged);
        assert(f@ =~= old(f)@ + written);
        self.0.format(f);
        proof {
            lemma_append_assoc(old(f)@, written, self.0.writes(tagged));
            written = written + self.0.writes(tagged);
        }
        self.1.format(f);
        proof {
            lemma_append_assoc(old(f)@, written, self.1.writes(tagged));
            written = written + self.1.writes(tagged);
        }
        self.2.format(f);
        proof {
            lemma_append_assoc(old(f)@, written, self.2.writes(tagged));
            written = written + self.2.writes(tagged);
        }
        self.3.format(f);
        proof {
            lemma_append_assoc(old(f)@, written, self.3.writes(tagged));
            written = written + self.3.writes(tagged);
        }
        self.4.format(f);
        proof {
            lemma_append_assoc(old(f)@, written, self.4.writes(tagged));
            written = written + self.4.writes(tagged);
        }
        self.5.format(f);
        proof {
            lemma_append_assoc(old(f)@, written, self.5.writes(tagged));
            written = written + self.5.writes(tagged);
        }
        self.6.format(f);
        proof {
            lemma_append_assoc(old(f)@, written, self.6.writes(tagged));
            written = written + self.6.writes(tagged);
        }
        self.7.format(f);
        proof {
            lemma_append_assoc(old(f)@, written, self.7.writes(tagged));
            written = written + self.7.writes(tagged);
        }
        self.8.format(f);
        proof {
            lemma_append_assoc(old(f)@, written, self.8.writes(tagged));
            written = written + self.8.writes(tagged);
        }
        self.9.format(f);
        proof {
            lemma_append_assoc(old(f)@, written, self.9.writes(tagged));
            written = written + self.9.writes(tagged);
        }
    }
}

impl<T0, T1, T2, T3, T4, T5, T6, T7, T8, T9, T10> Format for (T0, T1, T2, T3, T4, T5, T6, T7, T8, T9, T10) where T0: Format, T1: Format, T2: Format, T3: Format, T4: Format, T5: Format, T6: Format, T7: Format, T8: Format, T9: Format, T10: Format {
    type Model = (T0::Model, T1::Model, T2::Model, T3::Model, T4::Model, T5::Model, T6::Model, T7::Model, T8::Model, T9::Model, T10::Model);

    open spec fn model(&self) -> (T0::Model, T1::Model, T2::Model, T3::Model, T4::Model, T5::Model, T6::Model, T7::Model, T8::Model, T9::Model, T10::Model) {
        (self.0.model(), self.1.model(), self.2.model(), self.3.model(), self.4.model(), self.5.model(), self.6.model(), self.7.model(), self.8.model(), self.9.model(), self.10.model())
    }

    open spec fn writes(&self, tagged: bool) -> Seq<Op> {
        tag_part(Tag::Tuple11, tagged) + self.0.writes(tagged) + self.1.writes(tagged)
            + self.2.writes(tagged) + self.3.writes(tagged) + self.4.writes(tagged)
            + self.5.writes(tagged) + self.6.writes(tagged) + self.7.writes(tagged)
            + self.8.writes(tagged) + self.9.writes(tagged) + self.10.writes(tagged)
    }

    open spec fn read(stream: Seq<Op>, tagged: bool) -> Option<((T0::Model, T1::Model, T2::Model, T3::Model, T4::Model, T5::Model, T6::Model, T7::Model, T8::Model, T9::Model, T10::Model), Seq<Op>)> {
        match strip_tag(stream, Tag::Tuple11, tagged) {
            Some(s0) => match T0::read(s0, tagged) {
                Some((m0, s1)) => match T1::read(s1, tagged) {
                    Some((m1, s2)) => match T2::read(s2, tagged) {
                        Some((m2, s3)) => match T3::read(s3, tagged) {
                            Some((m3, s4)) => match T4::read(s4, tagged) {
                                Some((m4, s5)) => match T5::read(s5, tagged) {
                                    Some((m5, s6)) => match T6::read(s6, tagged) {
                                        Some((m6, s7)) => match T7::read(s7, tagged) {
                                            Some((m7, s8)) => match T8::read(s8, tagged) {
                                                Some((m8, s9)) => match T9::read(s9, tagged) {
                                                    Some((m9, s10)) => match T10::read(s10, tagged) {
                                                        Some((m10, s11)) => Some(((m0, m1, m2, m3, m4, m5, m6, m7, m8, m9, m10), s11)),
                                                        None => None,
                                                    },
                                                    None => None,
                                                },
                                                None => None,
                                            },
                                            None => None,
                                        },
                                        None => None,
                                    },
                                    None => None,
                                },
                                None => None,
                            },
                            None => None,
                        },
                        None => None,
                    },
                    None => None,
                },
                None => None,
            },
            None => None,
        }
    }

    proof fn round_trip(&self, tagged: bool, rest: Seq<Op>) {
        let tag = tag_part(Tag::Tuple11, tagged);
        let w0 = self.0.writes(tagged);
        let w1 = self.1.writes(tagged);
        let w2 = self.2.writes(tagged);
        let w3 = self.3.writes(tagged);
        let w4 = self.4.writes(tagged);
        let w5 = self.5.writes(tagged);
        let w6 = self.6.writes(tagged);
        let w7 = self.7.writes(tagged);
        let w8 = self.8.writes(tagged);
        let w9 = self.9.writes(tagged);
        let w10 = self.10.writes(tagged);
        let l0 = tag + w0;
        let l1 = l0 + w1;
        let l2 = l1 + w2;
        let l3 = l2 + w3;
        let l4 = l3 + w4;
        let l5 = l4 + w5;
        let l6 = l5 + w6;
        let l7 = l6 + w7;
        let l8 = l7 + w8;
        let l9 = l8 + w9;
        let l10 = l9 + w10;
        let r10 = rest;
        let r9 = w10 + r10;
        let r8 = w9 + r9;
        let r7 = w8 + r8;
        let r6 = w7 + r7;
        let r5 = w6 + r6;
        let r4 = w5 + r5;
        let r3 = w4 + r4;
        let r2 = w3 + r3;
        let r1 = w2 + r2;
        let r0 = w1 + r1;
        lemma_append_assoc(l9, w10, r10);
        lemma_append_assoc(l8, w9, r9);
        lemma_append_assoc(l7, w8, r8);
        lemma_append_assoc(l6, w7, r7);
        lemma_append_assoc(l5, w6, r6);
        lemma_append_assoc(l4, w5, r5);
        lemma_append_assoc(l3, w4, r4);
        lemma_append_assoc(l2, w3, r3);
        lemma_append_assoc(l1, w2, r2);
        lemma_append_assoc(l0, w1, r1);
        lemma_append_assoc(tag, w0, r0);
        lemma_strip_tag(Tag::Tuple11, tagged, w0 + r0);
        self.0.round_trip(tagged, r0);
        self.1.round_trip(tagged, r1);
        self.2.round_trip(tagged, r2);
        self.3.round_trip(tagged, r3);
        self.4.round_trip(tagged, r4);
        self.5.round_trip(tagged, r5);
        self.6.round_trip(tagged, r6);
        self.7.round_trip(tagged, r7);
        self.8.round_trip(tagged, r8);
        self.9.round_trip(tagged, r9);
        self.10.round_trip(tagged, r10);
    }

    proof fn tag_comes_first(&self) {
    }

    fn format(&self, f: &mut Formatter) {
        if f.needs_tag() {
            f.tag(Tag::Tuple11);
        }
        let ghost tagged = f.tagging();
        let ghost mut written = tag_part(Tag::Tuple11, tagged);
        assert(f@ =~= old(f)@ + written);
        self.0.format(f);
        proof {
            lemma_append_assoc(old(f)@, written, self.0.writes(tagged));
            written = written + self.0.writes(tagged);
        }
        self.1.format(f);
        proof {
            lemma_append_assoc(old(f)@, written, self.1.writes(tagged));
            written = written + self.1.writes(tagged);
        }
        self.2.format(f);
        proof {
            lemma_append_assoc(old(f)@, written, self.2.writes(tagged));
            written = written + self.2.writes(tagged);
        }
        self.3.format(f);
        proof {
            lemma_append_assoc(old(f)@, written, self.3.writes(tagged));
            written = written + self.3.writes(tagged);
        }
        self.4.format(f);
        proof {
            lemma_append_assoc(old(f)@, written, self.4.writes(tagged));
            written = written + self.4.writes(tagged);
        }
        self.5.format(f);
        proof {
            lemma_append_assoc(old(f)@, written, self.5.writes(tagged));
            written = written + self.5.writes(tagged);
        }
        self.6.format(f);
        proof {
            lemma_append_assoc(old(f)@, written, self.6.writes(tagged));
            written = written + self.6.writes(tagged);
        }
        self.7.format(f);
        proof {
            lemma_append_assoc(old(f)@, written, self.7.writes(tagged));
            written = written + self.7.writes(tagged);
        }
        self.8.format(f);
        proof {
            lemma_append_assoc(old(f)@, written, self.8.writes(tagged));
            written = written + self.8.writes(tagged);
        }
        self.9.format(f);
        proof {
            lemma_append_assoc(old(f)@, written, self.9.writes(tagged));
            written = written + self.9.writes(tagged);
        }
        self.10.format(f);
        proof {
            lemma_append_assoc(old(f)@, written, self.10.writes(tagged));
            written = written + self.10.writes(tagged);
        }
    }
}

impl<T0, T1, T2, T3, T4, T5, T6, T7, T8, T9, T10, T11> Format for (T0, T1, T2, T3, T4, T5, T6, T7, T8, T9, T10, T11) where T0: Format, T1: Format, T2: Format, T3: Format, T4: Format, T5: Format, T6: Format, T7: Format, T8: Format, T9: Format, T10: Format, T11: Format {
    type Model = (T0::Model, T1::Model, T2::Model, T3::Model, T4::Model, T5::Model, T6::Model, T7::Model, T8::Model, T9::Model, T10::Model, T11::Model);

    open spec fn model(&self) -> (T0::Model, T1::Model, T2::Model, T3::Model, T4::Model, T5::Model, T6::Model, T7::Model, T8::Model, T9::Model, T10::Model, T11::Model) {
        (self.0.model(), self.1.model(), self.2.model(), self.3.model(), self.4.model(), self.5.model(), self.6.model(), self.7.model(), self.8.model(), self.9.model(), self.10.model(), self.11.model())
    }

    open spec fn writes(&self, tagged: bool) -> Seq<Op> {
        tag_part(Tag::Tuple12, tagged) + self.0.writes(tagged) + self.1.writes(tagged)
            + self.2.writes(tagged) + self.3.writes(tagged) + self.4.writes(tagged)
            + self.5.writes(tagged) + self.6.writes(tagged) + self.7.writes(tagged)
            + self.8.writes(tagged) + self.9.writes(tagged) + self.10.writes(tagged)
            + self.11.writes(tagged)
    }

    open spec fn read(stream: Seq<Op>, tagged: bool) -> Option<((T0::Model, T1::Model, T2::Model, T3::Model, T4::Model, T5::Model, T6::Model, T7::Model, T8::Model, T9::Model, T10::Model, T11::Model), Seq<Op>)> {
        match strip_tag(stream, Tag::Tuple12, tagged) {
            Some(s0) => match T0::read(s0, tagged) {
                Some((m0, s1)) => match T1::read(s1, tagged) {
                    Some((m1, s2)) => match T2::read(s2, tagged) {
                        Some((m2, s3)) => match T3::read(s3, tagged) {
                            Some((m3, s4)) => match T4::read(s4, tagged) {
                                Some((m4, s5)) => match T5::read(s5, tagged) {
                                    Some((m5, s6)) => match T6::read(s6, tagged) {
                                        Some((m6, s7)) => match T7::read(s7, tagged) {
                                            Some((m7, s8)) => match T8::read(s8, tagged) {
                                                Some((m8, s9)) => match T9::read(s9, tagged) {
                                                    Some((m9, s10)) => match T10::read(s10, tagged) {
                                                        Some((m10, s11)) => match T11::read(s11, tagged) {
                                                            Some((m11, s12)) => Some(((m0, m1, m2, m3, m4, m5, m6, m7, m8, m9, m10, m11), s12)),
                                                            None => None,
                                                        },
                                                        None => None,
                                                    },
                                                    None => None,
                                                },
                                                None => None,
                                            },
                                            None => None,
                                        },
                                        None => None,
                                    },
                                    None => None,
                                },
                                None => None,
                            },
                            None => None,
                        },
                        None => None,
                    },
                    None => None,
                },
                None => None,
            },
            None => None,
        }
    }

    proof fn round_trip(&self, tagged: bool, rest: Seq<Op>) {
        let tag = tag_part(Tag::Tuple12, tagged);
        let w0 = self.0.writes(tagged);
        let w1 = self.1.writes(tagged);
        let w2 = self.2.writes(tagged);
        let w3 = self.3.writes(tagged);
        let w4 = self.4.writes(tagged);
        let w5 = self.5.writes(tagged);
        let w6 = self.6.writes(tagged);
        let w7 = self.7.writes(tagged);
        let w8 = self.8.writes(tagged);
        let w9 = self.9.writes(tagged);
        let w10 = self.10.writes(tagged);
        let w11 = self.11.writes(tagged);
        let l0 = tag + w0;
        let l1 = l0 + w1;
        let l2 = l1 + w2;
        let l3 = l2 + w3;
        let l4 = l3 + w4;
        let l5 = l4 + w5;
        let l6 = l5 + w6;
        let l7 = l6 + w7;
        let l8 = l7 + w8;
        let l9 = l8 + w9;
        let l10 = l9 + w10;
        let l11 = l10 + w11;
        let r11 = rest;
        let r10 = w11 + r11;
        let r9 = w10 + r10;
        let r8 = w9 + r9;
        let r7 = w8 + r8;
        let r6 = w7 + r7;
        let r5 = w6 + r6;
        let r4 = w5 + r5;
        let r3 = w4 + r4;
        let r2 = w3 + r3;
        let r1 = w2 + r2;
        let r0 = w1 + r1;
        lemma_append_assoc(l10, w11, r11);
        lemma_append_assoc(l9, w10, r10);
        lemma_append_assoc(l8, w9, r9);
        lemma_append_assoc(l7, w8, r8);
        lemma_append_assoc(l6, w7, r7);
        lemma_append_assoc(l5, w6, r6);
        lemma_append_assoc(l4, w5, r5);
        lemma_append_assoc(l3, w4, r4);
        lemma_append_assoc(l2, w3, r3);
        lemma_append_assoc(l1, w2, r2);
        lemma_append_assoc(l0, w1, r1);
        lemma_append_assoc(tag, w0, r0);
        lemma_strip_tag(Tag::Tuple12, tagged, w0 + r0);
        self.0.round_trip(tagged, r0);
        self.1.round_trip(tagged, r1);
        self.2.round_trip(tagged, r2);
        self.3.round_trip(tagged, r3);
        self.4.round_trip(tagged, r4);
        self.5.round_trip(tagged, r5);
        self.6.round_trip(tagged, r6);
        self.7.round_trip(tagged, r7);
        self.8.round_trip(tagged, r8);
        self.9.round_trip(tagged, r9);
        self.10.round_trip(tagged, r10);
        self.11.round_trip(tagged, r11);
    }

    proof fn tag_comes_first(&self) {
    }

    fn format(&self, f: &mut Formatter) {
        if f.needs_tag() {
            f.tag(Tag::Tuple12);
        }
        let ghost tagged = f.tagging();
        let ghost mut written = tag_part(Tag::Tuple12, tagged);
        assert(f@ =~= old(f)@ + written);
        self.0.format(f);
        proof {
            lemma_append_assoc(old(f)@, written, self.0.writes(tagged));
            written = written + self.0.writes(tagged);
        }
        self.1.format(f);
        proof {
            lemma_append_assoc(old(f)@, written, self.1.writes(tagged));
            written = written + self.1.writes(tagged);
        }
        self.2.format(f);
        proof {
            lemma_append_assoc(old(f)@, written, self.2.writes(tagged));
            written = written + self.2.writes(tagged);
        }
        self.3.format(f);
        proof {
            lemma_append_assoc(old(f)@, written, self.3.writes(tagged));
            written = written + self.3.writes(tagged);
        }
        self.4.format(f);
        proof {
            lemma_append_assoc(old(f)@, written, self.4.writes(tagged));
            written = written + self.4.writes(tagged);
        }
        self.5.format(f);
        proof {
            lemma_append_assoc(old(f)@, written, self.5.writes(tagged));
            written = written + self.5.writes(tagged);
        }
        self.6.format(f);
        proof {
            lemma_append_assoc(old(f)@, written, self.6.writes(tagged));
            written = written + self.6.writes(tagged);
        }
        self.7.format(f);
        proof {
            lemma_append_assoc(old(f)@, written, self.7.writes(tagged));
            written = written + self.7.writes(tagged);
        }
        self.8.format(f);
        proof {
            lemma_append_assoc(old(f)@, written, self.8.writes(tagged));
            written = written + self.8.writes(tagged);
        }
        self.9.format(f);
        proof {
            lemma_append_assoc(old(f)@, written, self.9.writes(tagged));
            written = written + self.9.writes(tagged);
        }
        self.10.format(f);
        proof {
            lemma_append_assoc(old(f)@, written, self.10.writes(tagged));
            written = written + self.10.writes(tagged);
        }
        self.11.format(f);
        proof {
            lemma_append_assoc(old(f)@, written, self.11.writes(tagged));
            written = written + self.11.writes(tagged);
        }
    }
}

} // verus!
