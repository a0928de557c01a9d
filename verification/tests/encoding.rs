use std::marker::PhantomData;
use std::rc::Rc;
use std::sync::Arc;
use std::time::Duration;

use defmt_core::format::{Format, Formatter};
use defmt_core::impls::{str_tag, Float32, Float64};
use defmt_core::wire::{Str, Tag, Write};

fn tagged<T: Format + ?Sized>(value: &T) -> Vec<Write> {
    let mut fmt = Formatter::new();
    value.format(&mut fmt);
    fmt.into_writes()
}

fn raw<T: Format + ?Sized>(value: &T) -> Vec<Write> {
    let mut fmt = Formatter::raw();
    value.format(&mut fmt);
    fmt.into_writes()
}

#[test]
fn cursor_starts_out_asking_for_tags() {
    let fmt = Formatter::new();
    assert!(fmt.needs_tag());
    assert!(fmt.writes().is_empty());
    let fmt = Formatter::raw();
    assert!(!fmt.needs_tag());
    assert!(fmt.writes().is_empty());
}

#[test]
fn unsigned_integers_are_written_as_they_are() {
    assert_eq!(tagged(&7u8), vec![Write::Tag(Tag::U8), Write::U8(7)]);
    assert_eq!(raw(&7u8), vec![Write::U8(7)]);
    assert_eq!(tagged(&700u16), vec![Write::Tag(Tag::U16), Write::U16(700)]);
    assert_eq!(raw(&700u16), vec![Write::U16(700)]);
    assert_eq!(tagged(&70_000u32), vec![Write::Tag(Tag::U32), Write::U32(70_000)]);
    assert_eq!(raw(&70_000u32), vec![Write::U32(70_000)]);
    assert_eq!(tagged(&u64::MAX), vec![Write::Tag(Tag::U64), Write::U64(u64::MAX)]);
    assert_eq!(raw(&u64::MAX), vec![Write::U64(u64::MAX)]);
    assert_eq!(tagged(&u128::MAX), vec![Write::Tag(Tag::U128), Write::U128(u128::MAX)]);
    assert_eq!(raw(&u128::MAX), vec![Write::U128(u128::MAX)]);
    assert_eq!(tagged(&9usize), vec![Write::Tag(Tag::Usize), Write::Usize(9)]);
    assert_eq!(raw(&9usize), vec![Write::Usize(9)]);
}

#[test]
fn small_signed_integers_are_written_by_their_bits() {
    assert_eq!(tagged(&-1i8), vec![Write::Tag(Tag::I8), Write::U8(255)]);
    assert_eq!(raw(&-128i8), vec![Write::U8(128)]);
    assert_eq!(raw(&127i8), vec![Write::U8(127)]);
    assert_eq!(tagged(&-2i16), vec![Write::Tag(Tag::I16), Write::U16(65534)]);
    assert_eq!(raw(&i16::MIN), vec![Write::U16(32768)]);
}

#[test]
fn wide_signed_integers_are_written_as_they_are() {
    assert_eq!(tagged(&-5i32), vec![Write::Tag(Tag::I32), Write::I32(-5)]);
    assert_eq!(raw(&-5i32), vec![Write::I32(-5)]);
    assert_eq!(tagged(&i64::MIN), vec![Write::Tag(Tag::I64), Write::I64(i64::MIN)]);
    assert_eq!(raw(&i64::MIN), vec![Write::I64(i64::MIN)]);
    assert_eq!(tagged(&-1i128), vec![Write::Tag(Tag::I128), Write::I128(-1)]);
    assert_eq!(raw(&-1i128), vec![Write::I128(-1)]);
    assert_eq!(tagged(&-3isize), vec![Write::Tag(Tag::Isize), Write::Isize(-3)]);
    assert_eq!(raw(&-3isize), vec![Write::Isize(-3)]);
}

#[test]
fn floats_are_written_by_their_bits() {
    let x = Float32(1.5f32.to_bits());
    assert_eq!(tagged(&x), vec![Write::Tag(Tag::Float32), Write::Float32(0x3fc0_0000)]);
    assert_eq!(raw(&x), vec![Write::Float32(0x3fc0_0000)]);
    let y = Float64((-2.0f64).to_bits());
    assert_eq!(
        tagged(&y),
        vec![Write::Tag(Tag::Float64), Write::Float64(0xc000_0000_0000_0000)]
    );
    assert_eq!(raw(&y), vec![Write::Float64(0xc000_0000_0000_0000)]);
}

#[test]
fn texts_characters_and_booleans() {
    assert_eq!(str_tag(), Tag::Str);
    assert_eq!(
        tagged("hello"),
        vec![Write::Tag(Tag::Str), Write::Str("hello".to_string())]
    );
    assert_eq!(raw("hello"), vec![Write::Str("hello".to_string())]);
    assert_eq!(
        tagged(&"caf\u{e9}".to_string()),
        vec![Write::Tag(Tag::Str), Write::Str("caf\u{e9}".to_string())]
    );
    assert_eq!(raw(&String::new()), vec![Write::Str(String::new())]);
    assert_eq!(tagged(&'a'), vec![Write::Tag(Tag::Char), Write::U32(97)]);
    assert_eq!(raw(&'\u{1f980}'), vec![Write::U32(0x1f980)]);
    assert_eq!(tagged(&true), vec![Write::Tag(Tag::Bool), Write::Bool(true)]);
    assert_eq!(raw(&false), vec![Write::Bool(false)]);
}

#[test]
fn interned_strings_are_written_by_their_handle() {
    let s = Str::from_address(0x1234);
    assert_eq!(s.to_address(), 0x1234);
    assert_eq!(tagged(&s), vec![Write::Tag(Tag::IStr), Write::IStr(s)]);
    assert_eq!(raw(&s), vec![Write::IStr(s)]);
}

#[test]
fn optional_payload_is_tagged_whatever_the_context() {
    let some: Option<u8> = Some(7);
    let none: Option<u8> = None;
    assert_eq!(
        tagged(&some),
        vec![
            Write::Tag(Tag::Option),
            Write::U8(1),
            Write::Tag(Tag::U8),
            Write::U8(7)
        ]
    );
    assert_eq!(
        raw(&some),
        vec![Write::U8(1), Write::Tag(Tag::U8), Write::U8(7)]
    );
    assert_eq!(tagged(&none), vec![Write::Tag(Tag::Option), Write::U8(0)]);
    assert_eq!(raw(&none), vec![Write::U8(0)]);
}

#[test]
fn result_payload_is_tagged_whatever_the_context() {
    let ok: Result<u16, bool> = Ok(300);
    let err: Result<u16, bool> = Err(true);
    assert_eq!(
        tagged(&ok),
        vec![
            Write::Tag(Tag::Result),
            Write::U8(1),
            Write::Tag(Tag::U16),
            Write::U16(300)
        ]
    );
    assert_eq!(
        raw(&ok),
        vec![Write::U8(1), Write::Tag(Tag::U16), Write::U16(300)]
    );
    assert_eq!(
        tagged(&err),
        vec![
            Write::Tag(Tag::Result),
            Write::U8(0),
            Write::Tag(Tag::Bool),
            Write::Bool(true)
        ]
    );
    assert_eq!(
        raw(&err),
        vec![Write::U8(0), Write::Tag(Tag::Bool), Write::Bool(true)]
    );
}

#[test]
fn context_is_restored_behind_a_forced_tag() {
    let value: (Option<u8>, u8) = (Some(1), 2);
    assert_eq!(
        raw(&value),
        vec![
            Write::U8(1),
            Write::Tag(Tag::U8),
            Write::U8(1),
            Write::U8(2)
        ]
    );
    let mut fmt = Formatter::raw();
    fmt.with_tag(&5u8);
    assert!(!fmt.needs_tag());
    fmt.with_tag(&(1u8, true));
    assert_eq!(
        fmt.into_writes(),
        vec![
            Write::Tag(Tag::U8),
            Write::U8(5),
            Write::Tag(Tag::Tuple2),
            Write::Tag(Tag::U8),
            Write::U8(1),
            Write::Tag(Tag::Bool),
            Write::Bool(true)
        ]
    );
}

#[test]
fn nested_optionals_tag_every_payload() {
    let value: Option<Option<bool>> = Some(Some(true));
    assert_eq!(
        raw(&value),
        vec![
            Write::U8(1),
            Write::Tag(Tag::Option),
            Write::U8(1),
            Write::Tag(Tag::Bool),
            Write::Bool(true)
        ]
    );
}

#[test]
fn tuples_write_their_elements_in_the_context_at_hand() {
    assert_eq!(
        tagged(&(1u8,)),
        vec![Write::Tag(Tag::Tuple1), Write::Tag(Tag::U8), Write::U8(1)]
    );
    assert_eq!(raw(&(1u8,)), vec![Write::U8(1)]);
    assert_eq!(
        tagged(&(1u8, true, -1i32)),
        vec![
            Write::Tag(Tag::Tuple3),
            Write::Tag(Tag::U8),
            Write::U8(1),
            Write::Tag(Tag::Bool),
            Write::Bool(true),
            Write::Tag(Tag::I32),
            Write::I32(-1)
        ]
    );
    assert_eq!(
        raw(&(1u8, true, -1i32)),
        vec![Write::U8(1), Write::Bool(true), Write::I32(-1)]
    );
}

#[test]
fn tuple_of_twelve() {
    let value = (0u8, 1u8, 2u8, 3u8, 4u8, 5u8, 6u8, 7u8, 8u8, 9u8, 10u8, 11u8);
    let expected: Vec<Write> = (0..12u8).map(Write::U8).collect();
    assert_eq!(raw(&value), expected);
    let mut expected = vec![Write::Tag(Tag::Tuple12)];
    for i in 0..12u8 {
        expected.push(Write::Tag(Tag::U8));
        expected.push(Write::U8(i));
    }
    assert_eq!(tagged(&value), expected);
}

#[test]
fn slices_write_their_length_and_arrays_do_not() {
    let slice: &[u8] = &[3, 4];
    assert_eq!(
        tagged(slice),
        vec![
            Write::Tag(Tag::Slice),
            Write::Usize(2),
            Write::Tag(Tag::U8),
            Write::U8(3),
            Write::Tag(Tag::U8),
            Write::U8(4)
        ]
    );
    assert_eq!(raw(slice), vec![Write::Usize(2), Write::U8(3), Write::U8(4)]);
    let empty: &[u8] = &[];
    assert_eq!(tagged(empty), vec![Write::Tag(Tag::Slice), Write::Usize(0)]);
    let array: [u8; 2] = [3, 4];
    assert_eq!(
        tagged(&array),
        vec![
            Write::Tag(Tag::Array),
            Write::Tag(Tag::U8),
            Write::U8(3),
            Write::Tag(Tag::U8),
            Write::U8(4)
        ]
    );
    assert_eq!(raw(&array), vec![Write::U8(3), Write::U8(4)]);
    let none: [u8; 0] = [];
    assert_eq!(tagged(&none), vec![Write::Tag(Tag::Array)]);
    assert_eq!(raw(&vec![true]), vec![Write::Usize(1), Write::Bool(true)]);
    assert_eq!(
        tagged(&vec![true]),
        vec![
            Write::Tag(Tag::Slice),
            Write::Usize(1),
            Write::Tag(Tag::Bool),
            Write::Bool(true)
        ]
    );
}

#[test]
fn indirections_add_nothing() {
    let value = 7u8;
    assert_eq!(tagged(&&value), tagged(&value));
    assert_eq!(raw(&&value), raw(&value));
    let mut other = 7u8;
    assert_eq!(tagged(&&mut other), tagged(&value));
    assert_eq!(tagged(&Box::new(7u8)), tagged(&value));
    assert_eq!(raw(&Rc::new(7u8)), raw(&value));
    assert_eq!(tagged(&Arc::new(7u8)), tagged(&value));
    let text: Box<str> = "x".into();
    assert_eq!(tagged(&text), tagged("x"));
}

#[test]
fn empty_shapes_write_their_tag_alone() {
    assert_eq!(tagged(&()), vec![Write::Tag(Tag::Unit)]);
    assert_eq!(raw(&()), vec![]);
    let marker: PhantomData<u64> = PhantomData;
    assert_eq!(tagged(&marker), vec![Write::Tag(Tag::PhantomData)]);
    assert_eq!(raw(&marker), vec![]);
}

#[test]
fn durations_write_seconds_and_nanoseconds() {
    let value = Duration::new(5, 7);
    assert_eq!(
        tagged(&value),
        vec![Write::Tag(Tag::Duration), Write::U64(5), Write::U32(7)]
    );
    assert_eq!(raw(&value), vec![Write::U64(5), Write::U32(7)]);
    let value = Duration::from_millis(1500);
    assert_eq!(raw(&value), vec![Write::U64(1), Write::U32(500_000_000)]);
}

#[test]
fn writes_follow_one_another() {
    let mut fmt = Formatter::new();
    1u8.format(&mut fmt);
    "x".format(&mut fmt);
    assert!(fmt.needs_tag());
    assert_eq!(
        fmt.writes(),
        &vec![
            Write::Tag(Tag::U8),
            Write::U8(1),
            Write::Tag(Tag::Str),
            Write::Str("x".to_string())
        ]
    );
}

#[test]
fn primitive_writes_append_one_write_each() {
    let mut fmt = Formatter::raw();
    fmt.tag(Tag::Bool);
    fmt.u8(&1);
    fmt.u16(&2);
    fmt.u32(&3);
    fmt.u64(&4);
    fmt.u128(&5);
    fmt.usize(&6);
    fmt.i32(&-7);
    fmt.i64(&-8);
    fmt.i128(&-9);
    fmt.isize(&-10);
    fmt.float32(&11);
    fmt.float64(&12);
    fmt.bool(&true);
    fmt.str("s");
    fmt.istr(&Str::from_address(13));
    fmt.fmt_slice(&[14u8]);
    fmt.fmt_array(&[15u8]);
    assert_eq!(
        fmt.into_writes(),
        vec![
            Write::Tag(Tag::Bool),
            Write::U8(1),
            Write::U16(2),
            Write::U32(3),
            Write::U64(4),
            Write::U128(5),
            Write::Usize(6),
            Write::I32(-7),
            Write::I64(-8),
            Write::I128(-9),
            Write::Isize(-10),
            Write::Float32(11),
            Write::Float64(12),
            Write::Bool(true),
            Write::Str("s".to_string()),
            Write::IStr(Str::from_address(13)),
            Write::Usize(1),
            Write::U8(14),
            Write::U8(15)
        ]
    );
}

fn all_tags() -> Vec<Tag> {
    vec![
        Tag::I8,
        Tag::I16,
        Tag::I32,
        Tag::I64,
        Tag::I128,
        Tag::Isize,
        Tag::U8,
        Tag::U16,
        Tag::U32,
        Tag::U64,
        Tag::U128,
        Tag::Usize,
        Tag::Float32,
        Tag::Float64,
        Tag::Str,
        Tag::IStr,
        Tag::Char,
        Tag::Slice,
        Tag::Bool,
        Tag::Array,
        Tag::Option,
        Tag::Result,
        Tag::Unit,
        Tag::PhantomData,
        Tag::Tuple1,
        Tag::Tuple2,
        Tag::Tuple3,
        Tag::Tuple4,
        Tag::Tuple5,
        Tag::Tuple6,
        Tag::Tuple7,
        Tag::Tuple8,
        Tag::Tuple9,
        Tag::Tuple10,
        Tag::Tuple11,
        Tag::Tuple12,
        Tag::Duration,
    ]
}

#[test]
fn tags_stand_for_different_format_strings() {
    let tags = all_tags();
    for (i, a) in tags.iter().enumerate() {
        for (j, b) in tags.iter().enumerate() {
            assert_eq!(a.format_string() == b.format_string(), i == j);
        }
    }
}

#[test]
fn format_strings_of_tags() {
    assert_eq!(Tag::I8.format_string(), "{=i8}");
    assert_eq!(Tag::Usize.format_string(), "{=usize}");
    assert_eq!(Tag::Float32.format_string(), "{=f32}");
    assert_eq!(Tag::Float64.format_string(), "{=f64}");
    assert_eq!(Tag::Str.format_string(), "{=str}");
    assert_eq!(Tag::IStr.format_string(), "{=istr}");
    assert_eq!(Tag::Char.format_string(), "{=char}");
    assert_eq!(Tag::Slice.format_string(), "{=[?]}");
    assert_eq!(Tag::Bool.format_string(), "{=bool}");
    assert_eq!(Tag::Array.format_string(), "{=[?;0]}");
    assert_eq!(Tag::Option.format_string(), "None|Some({=?})");
    assert_eq!(Tag::Result.format_string(), "Err({=?})|Ok({=?})");
    assert_eq!(Tag::Unit.format_string(), "()");
    assert_eq!(Tag::PhantomData.format_string(), "PhantomData");
    assert_eq!(Tag::Tuple1.format_string(), "({=?})");
    assert_eq!(Tag::Tuple3.format_string(), "({=?}, {=?}, {=?})");
    assert_eq!(
        Tag::Tuple12.format_string(),
        "({=?}, {=?}, {=?}, {=?}, {=?}, {=?}, {=?}, {=?}, {=?}, {=?}, {=?}, {=?})"
    );
    assert_eq!(
        Tag::Duration.format_string(),
        "Duration {{ secs: {=u64}, nanos: {=u32} }}"
    );
}

fn take_tag(stream: &mut std::slice::Iter<'_, Write>, tag: Tag, tagged: bool) {
    if tagged {
        assert_eq!(stream.next(), Some(&Write::Tag(tag)));
    }
}

fn read_u8(stream: &mut std::slice::Iter<'_, Write>, tagged: bool) -> u8 {
    take_tag(stream, Tag::U8, tagged);
    match stream.next() {
        Some(Write::U8(value)) => *value,
        other => panic!("no u8: {:?}", other),
    }
}

fn read_i8(stream: &mut std::slice::Iter<'_, Write>, tagged: bool) -> i8 {
    take_tag(stream, Tag::I8, tagged);
    match stream.next() {
        Some(Write::U8(value)) => *value as i8,
        other => panic!("no i8: {:?}", other),
    }
}

fn read_option_u8(stream: &mut std::slice::Iter<'_, Write>, tagged: bool) -> Option<u8> {
    take_tag(stream, Tag::Option, tagged);
    match stream.next() {
        Some(Write::U8(0)) => None,
        Some(Write::U8(1)) => Some(read_u8(stream, true)),
        other => panic!("no discriminant: {:?}", other),
    }
}

fn read_slice_i8(stream: &mut std::slice::Iter<'_, Write>, tagged: bool) -> Vec<i8> {
    take_tag(stream, Tag::Slice, tagged);
    let count = match stream.next() {
        Some(Write::Usize(count)) => *count,
        other => panic!("no length: {:?}", other),
    };
    (0..count).map(|_| read_i8(stream, tagged)).collect()
}

#[test]
fn reading_gives_back_what_was_written() {
    let values: Vec<(Option<u8>, Vec<i8>)> = vec![
        (None, vec![]),
        (Some(0), vec![-128]),
        (Some(255), vec![-1, 0, 127]),
    ];
    for context in [true, false] {
        for value in &values {
            let writes = if context { tagged(value) } else { raw(value) };
            let mut stream = writes.iter();
            take_tag(&mut stream, Tag::Tuple2, context);
            let first = read_option_u8(&mut stream, context);
            let second = read_slice_i8(&mut stream, context);
            assert_eq!(stream.next(), None);
            assert_eq!((first, second), *value);
        }
    }
}
