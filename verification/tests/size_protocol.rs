//! The size protocol on concrete shapes and values: instance walks,
//! byte scans, encodings, and the agreement between them.

use fankor::error::LayoutError;
use fankor::layout::Layout;
use fankor::layout::minimum_size;
use fankor::scan::scan_size;
use fankor::value::Value;
use fankor::value::actual_size_of;
use fankor::value::encode;

fn sample_record_layout() -> Layout {
    Layout::Record(vec![
        Layout::U32,
        Layout::List(Box::new(Layout::U8)),
        Layout::U16,
    ])
}

fn sample_record_value() -> Value {
    Value::Record(vec![
        Value::U32(7),
        Value::List(vec![Value::U8(1), Value::U8(2), Value::U8(3)]),
        Value::U16(513),
    ])
}

#[test]
fn scalar_minimum_sizes() {
    assert_eq!(minimum_size(&Layout::U8), 1);
    assert_eq!(minimum_size(&Layout::U16), 2);
    assert_eq!(minimum_size(&Layout::U32), 4);
    assert_eq!(minimum_size(&Layout::U64), 8);
}

#[test]
fn composite_minimum_sizes() {
    // An optional pays its flag byte plus the payload minimum.
    assert_eq!(minimum_size(&Layout::Optional(Box::new(Layout::U32))), 5);
    // A sequence minimum is its 4-byte count prefix alone.
    assert_eq!(minimum_size(&Layout::List(Box::new(Layout::U64))), 4);
    // An array is its element minimum, n times.
    assert_eq!(minimum_size(&Layout::Array(Box::new(Layout::U16), 5)), 10);
    // A union minimum is its discriminant byte alone.
    assert_eq!(minimum_size(&Layout::Union(vec![vec![], vec![Layout::U64]])), 1);
    // A record sums its field minimums: 4 + 4 + 2.
    assert_eq!(minimum_size(&sample_record_layout()), 10);
}

#[test]
fn record_encoding_is_fields_in_order() {
    let v = sample_record_value();
    let bytes = encode(&v);
    assert_eq!(
        bytes,
        vec![7, 0, 0, 0, 3, 0, 0, 0, 1, 2, 3, 1, 2],
    );
}

#[test]
fn size_agreement_on_record() {
    // actual_size_of(v) == scan_size(encode(v)) for the sample record.
    let l = sample_record_layout();
    let v = sample_record_value();
    let bytes = encode(&v);
    let from_instance = actual_size_of(&v);
    let from_bytes = scan_size(&l, bytes.as_slice(), 0).unwrap();
    assert_eq!(from_instance, from_bytes);
    assert_eq!(from_instance, 13);
}

#[test]
fn size_agreement_on_union_and_option() {
    let l = Layout::Union(vec![
        vec![],
        vec![Layout::Optional(Box::new(Layout::U16)), Layout::U8],
    ]);
    let v = Value::Union(
        1,
        vec![
            Value::Optional(Some(Box::new(Value::U16(9)))),
            Value::U8(5),
        ],
    );
    let bytes = encode(&v);
    assert_eq!(bytes, vec![1, 1, 9, 0, 5]);
    assert_eq!(actual_size_of(&v), 5);
    assert_eq!(scan_size(&l, bytes.as_slice(), 0), Ok(5));
}

#[test]
fn minimum_is_lower_bound_when_optionals_present() {
    let l = Layout::Record(vec![
        Layout::Optional(Box::new(Layout::U32)),
        Layout::List(Box::new(Layout::U8)),
    ]);
    let v = Value::Record(vec![
        Value::Optional(Some(Box::new(Value::U32(1)))),
        Value::List(vec![Value::U8(9)]),
    ]);
    assert_eq!(minimum_size(&l), 9);
    assert_eq!(actual_size_of(&v), 10);
    assert!(minimum_size(&l) <= actual_size_of(&v));
}

#[test]
fn absent_optional_is_one_byte() {
    // The absent optional encodes as the single flag byte 0x00.
    let v = Value::Optional(None);
    assert_eq!(encode(&v), vec![0x00]);
    assert_eq!(actual_size_of(&v), 1);
}

#[test]
fn absent_optional_may_undershoot_declared_minimum() {
    // The declared minimum of an optional counts its payload minimum, so
    // the one-byte absent form sits below it.
    let l = Layout::Optional(Box::new(Layout::U32));
    assert_eq!(minimum_size(&l), 5);
    assert_eq!(actual_size_of(&Value::Optional(None)), 1);
}

#[test]
fn scan_truncated_scalar() {
    let bytes = [1u8, 2];
    assert_eq!(
        scan_size(&Layout::U32, &bytes, 0),
        Err(LayoutError::TruncatedInput),
    );
    assert_eq!(scan_size(&Layout::U16, &bytes, 1), Err(LayoutError::TruncatedInput));
    assert_eq!(scan_size(&Layout::U8, &bytes, 2), Err(LayoutError::TruncatedInput));
}

#[test]
fn scan_truncated_sequence_body() {
    // The count promises three elements but only two bytes follow.
    let bytes = [3u8, 0, 0, 0, 1, 2];
    assert_eq!(
        scan_size(&Layout::List(Box::new(Layout::U8)), &bytes, 0),
        Err(LayoutError::TruncatedInput),
    );
}

#[test]
fn scan_invalid_presence_flag() {
    let bytes = [2u8, 7, 7, 7, 7];
    assert_eq!(
        scan_size(&Layout::Optional(Box::new(Layout::U32)), &bytes, 0),
        Err(LayoutError::InvalidDiscriminant),
    );
}

#[test]
fn scan_invalid_union_discriminant() {
    let l = Layout::Union(vec![vec![], vec![Layout::U8]]);
    let bytes = [2u8, 9];
    assert_eq!(scan_size(&l, &bytes, 0), Err(LayoutError::InvalidDiscriminant));
}

#[test]
fn scan_empty_sequence() {
    let bytes = [0u8, 0, 0, 0];
    assert_eq!(scan_size(&Layout::List(Box::new(Layout::U64)), &bytes, 0), Ok(4));
}

#[test]
fn scan_skips_only_the_requested_value() {
    // Scanning at an interior offset sizes the value there, not the rest.
    let v = sample_record_value();
    let bytes = encode(&v);
    // The list starts at offset 4 and occupies 4 + 3 bytes.
    assert_eq!(
        scan_size(&Layout::List(Box::new(Layout::U8)), bytes.as_slice(), 4),
        Ok(7),
    );
    // The trailing u16 starts at offset 11.
    assert_eq!(scan_size(&Layout::U16, bytes.as_slice(), 11), Ok(2));
}

#[test]
fn empty_array_occupies_no_bytes() {
    let l = Layout::Array(Box::new(Layout::U64), 0);
    assert_eq!(minimum_size(&l), 0);
    let v = Value::Array(vec![]);
    assert_eq!(actual_size_of(&v), 0);
    assert_eq!(encode(&v), Vec::<u8>::new());
    let empty: [u8; 0] = [];
    assert_eq!(scan_size(&l, &empty, 0), Ok(0));
}
