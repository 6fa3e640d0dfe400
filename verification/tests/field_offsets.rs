//! Per-field offsets for records and tagged unions, against declared
//! minimums, live instances, and raw bytes.

use fankor::error::LayoutError;
use fankor::layout::Layout;
use fankor::offsets::record_actual_offset;
use fankor::offsets::record_min_offset;
use fankor::offsets::record_scan_offset;
use fankor::offsets::union_actual_offset;
use fankor::offsets::union_min_offset;
use fankor::offsets::union_scan_offset;
use fankor::value::Value;
use fankor::value::encode;

#[test]
fn record_offsets_of_sample_shape() {
    // The record {a: u32, b: sequence<u8>, c: u16} with b = [1, 2, 3].
    let fields = vec![
        Layout::U32,
        Layout::List(Box::new(Layout::U8)),
        Layout::U16,
    ];
    let values = vec![
        Value::U32(7),
        Value::List(vec![Value::U8(1), Value::U8(2), Value::U8(3)]),
        Value::U16(9),
    ];
    // minimum-offset(c) == 4 + 4 == 8.
    assert_eq!(record_min_offset(&fields, 0), 0);
    assert_eq!(record_min_offset(&fields, 1), 4);
    assert_eq!(record_min_offset(&fields, 2), 8);
    // actual-offset(c, this instance) == 4 + (4 + 3) == 11.
    assert_eq!(record_actual_offset(&values, 0), 0);
    assert_eq!(record_actual_offset(&values, 1), 4);
    assert_eq!(record_actual_offset(&values, 2), 11);
}

#[test]
fn record_offsets_from_bytes() {
    let fields = vec![
        Layout::U32,
        Layout::List(Box::new(Layout::U8)),
        Layout::U16,
    ];
    let v = Value::Record(vec![
        Value::U32(7),
        Value::List(vec![Value::U8(1), Value::U8(2), Value::U8(3)]),
        Value::U16(9),
    ]);
    let bytes = encode(&v);
    assert_eq!(record_scan_offset(&fields, bytes.as_slice(), 0, 0), Ok(0));
    assert_eq!(record_scan_offset(&fields, bytes.as_slice(), 0, 1), Ok(4));
    assert_eq!(record_scan_offset(&fields, bytes.as_slice(), 0, 2), Ok(11));
    // A truncated predecessor surfaces as a scanning error.
    assert_eq!(
        record_scan_offset(&fields, &bytes[..6], 0, 2),
        Err(LayoutError::TruncatedInput),
    );
}

#[test]
fn union_offsets_of_two_variant_union() {
    // Unit | Pair(u8, u8), with the live value Pair(9, 9).
    let variants = vec![vec![], vec![Layout::U8, Layout::U8]];
    let pair = Value::Union(1, vec![Value::U8(9), Value::U8(9)]);
    // minimum-offset counts the discriminant byte, then the preceding
    // fields of that variant only.
    assert_eq!(union_min_offset(&variants, 1, 0), 1);
    assert_eq!(union_min_offset(&variants, 1, 1), 2);
    // actual-offset(Pair.second) = 1 (discriminant) + 1 (first byte) = 2.
    assert_eq!(union_actual_offset(&pair, 1, 0), Some(1));
    assert_eq!(union_actual_offset(&pair, 1, 1), Some(2));
    // A field of the non-active variant is always absent; Unit has no
    // payload fields of its own.
    assert_eq!(union_actual_offset(&pair, 0, 0), None);
    let unit = Value::Union(0, vec![]);
    assert_eq!(union_actual_offset(&unit, 1, 0), None);
    assert_eq!(union_actual_offset(&unit, 1, 1), None);
}

#[test]
fn union_offsets_from_bytes() {
    let variants = vec![vec![], vec![Layout::U8, Layout::U8]];
    let pair = Value::Union(1, vec![Value::U8(9), Value::U8(9)]);
    let bytes = encode(&pair);
    assert_eq!(bytes, vec![1, 9, 9]);
    assert_eq!(
        union_scan_offset(&variants, bytes.as_slice(), 0, 1, 1),
        Ok(Some(2)),
    );
    // The encoded discriminant selects another variant: absent.
    assert_eq!(union_scan_offset(&variants, bytes.as_slice(), 0, 0, 0), Ok(None));
    // Errors: empty buffer, and a discriminant no variant declares.
    let empty: [u8; 0] = [];
    assert_eq!(
        union_scan_offset(&variants, &empty, 0, 1, 0),
        Err(LayoutError::TruncatedInput),
    );
    assert_eq!(
        union_scan_offset(&variants, &[7u8], 0, 1, 0),
        Err(LayoutError::InvalidDiscriminant),
    );
}

#[test]
fn union_offsets_with_variable_size_fields() {
    let variants = vec![
        vec![Layout::List(Box::new(Layout::U8)), Layout::U16],
    ];
    let v = Value::Union(
        0,
        vec![
            Value::List(vec![Value::U8(5), Value::U8(6)]),
            Value::U16(1),
        ],
    );
    // Minimum assumes the empty sequence; the live instance pays for its
    // two elements.
    assert_eq!(union_min_offset(&variants, 0, 1), 5);
    assert_eq!(union_actual_offset(&v, 0, 1), Some(7));
    let bytes = encode(&v);
    assert_eq!(union_scan_offset(&variants, bytes.as_slice(), 0, 0, 1), Ok(Some(7)));
}
