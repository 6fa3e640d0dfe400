//! Views, indexed lookup, iteration cursors, materialization, and
//! in-place overwriting over concrete buffers.

use fankor::error::LayoutError;
use fankor::layout::Layout;
use fankor::value::Value;
use fankor::value::encode;
use fankor::view::Zc;
use fankor::view_mut::ZcMut;

#[test]
fn array_len_and_lookup_offsets() {
    // Three length-prefixed byte sequences of varying size, as an array.
    let l = Layout::Array(Box::new(Layout::List(Box::new(Layout::U8))), 3);
    let v = Value::Array(vec![
        Value::List(vec![Value::U8(10)]),
        Value::List(vec![]),
        Value::List(vec![Value::U8(20), Value::U8(30)]),
    ]);
    let bytes = encode(&v);
    assert_eq!(bytes.len(), 4 + 1 + 4 + 4 + 2);
    let zc = Zc::new(&l, 0);
    assert_eq!(zc.len(bytes.as_slice()), Ok(3));
    let offsets: Vec<usize> = (0..3)
        .map(|i| zc.get_zc_index(bytes.as_slice(), i).unwrap().unwrap().offset)
        .collect();
    // Offsets strictly increase and tile the encoded bytes without gaps.
    assert_eq!(offsets, vec![0, 5, 9]);
    assert!(zc.get_zc_index(bytes.as_slice(), 3).unwrap().is_none());
}

#[test]
fn list_lookup_within_and_past_count() {
    let l = Layout::List(Box::new(Layout::U16));
    let v = Value::List(vec![Value::U16(1), Value::U16(2)]);
    let bytes = encode(&v);
    let zc = Zc::new(&l, 0);
    assert_eq!(zc.len(bytes.as_slice()), Ok(2));
    assert_eq!(zc.is_empty(bytes.as_slice()), Ok(false));
    // Some for every index below the count, at the right offsets.
    let e0 = zc.get_zc_index(bytes.as_slice(), 0).unwrap().unwrap();
    let e1 = zc.get_zc_index(bytes.as_slice(), 1).unwrap().unwrap();
    assert_eq!(e0.offset, 4);
    assert_eq!(e1.offset, 6);
    // None for every index at or past the count.
    assert!(zc.get_zc_index(bytes.as_slice(), 2).unwrap().is_none());
    assert!(zc.get_zc_index(bytes.as_slice(), 100).unwrap().is_none());
}

#[test]
fn list_len_reads_the_prefix_each_call() {
    let l = Layout::List(Box::new(Layout::U8));
    let mut bytes = vec![2u8, 0, 0, 0, 7, 8];
    let zc = Zc::new(&l, 0);
    assert_eq!(zc.len(bytes.as_slice()), Ok(2));
    bytes[0] = 1;
    assert_eq!(zc.len(bytes.as_slice()), Ok(1));
}

#[test]
fn empty_list_is_empty() {
    let l = Layout::List(Box::new(Layout::U64));
    let bytes = encode(&Value::List(vec![]));
    let zc = Zc::new(&l, 0);
    assert_eq!(zc.len(bytes.as_slice()), Ok(0));
    assert_eq!(zc.is_empty(bytes.as_slice()), Ok(true));
    assert!(zc.get_zc_index(bytes.as_slice(), 0).unwrap().is_none());
}

#[test]
fn truncated_count_prefix() {
    let l = Layout::List(Box::new(Layout::U8));
    let bytes = [1u8, 0];
    let zc = Zc::new(&l, 0);
    assert_eq!(zc.len(&bytes), Err(LayoutError::TruncatedInput));
    assert_eq!(zc.is_empty(&bytes), Err(LayoutError::TruncatedInput));
    assert!(matches!(zc.get_zc_index(&bytes, 0), Err(LayoutError::TruncatedInput)));
}

#[test]
fn iteration_yields_count_elements_in_order() {
    let l = Layout::List(Box::new(Layout::List(Box::new(Layout::U8))));
    let v = Value::List(vec![
        Value::List(vec![Value::U8(1), Value::U8(2)]),
        Value::List(vec![]),
        Value::List(vec![Value::U8(3)]),
    ]);
    let bytes = encode(&v);
    let zc = Zc::new(&l, 0);
    let mut it = zc.iter(bytes.as_slice()).unwrap();
    assert_eq!(it.size_hint(), (3, Some(3)));
    let mut seen = Vec::new();
    while let Some(elem) = it.next(bytes.as_slice()) {
        seen.push(elem.offset);
    }
    assert_eq!(seen, vec![4, 10, 14]);
    assert_eq!(it.size_hint(), (0, Some(0)));
    assert!(it.next(bytes.as_slice()).is_none());
}

#[test]
fn iteration_offsets_agree_with_indexed_lookup() {
    let l = Layout::Array(Box::new(Layout::Optional(Box::new(Layout::U16))), 3);
    let v = Value::Array(vec![
        Value::Optional(None),
        Value::Optional(Some(Box::new(Value::U16(700)))),
        Value::Optional(None),
    ]);
    let bytes = encode(&v);
    let zc = Zc::new(&l, 0);
    let mut it = zc.iter(bytes.as_slice()).unwrap();
    for i in 0..3 {
        let by_cursor = it.next(bytes.as_slice()).unwrap();
        let by_index = zc.get_zc_index(bytes.as_slice(), i).unwrap().unwrap();
        assert_eq!(by_cursor.offset, by_index.offset);
    }
    assert!(it.next(bytes.as_slice()).is_none());
}

#[test]
fn round_trip_of_a_nested_value() {
    // Materializing the encoding of v at offset 0 yields a value equal
    // to v.
    let l = Layout::Record(vec![
        Layout::U32,
        Layout::List(Box::new(Layout::U8)),
        Layout::Optional(Box::new(Layout::U64)),
        Layout::Union(vec![vec![], vec![Layout::U8, Layout::U8]]),
    ]);
    let v = Value::Record(vec![
        Value::U32(123456),
        Value::List(vec![Value::U8(1), Value::U8(2), Value::U8(3)]),
        Value::Optional(Some(Box::new(Value::U64(u64::MAX)))),
        Value::Union(1, vec![Value::U8(9), Value::U8(9)]),
    ]);
    let bytes = encode(&v);
    let zc = Zc::new(&l, 0);
    let decoded = zc.try_value(bytes.as_slice()).unwrap();
    assert_eq!(decoded, v);
}

#[test]
fn round_trip_of_scalars() {
    for (l, v) in [
        (Layout::U8, Value::U8(200)),
        (Layout::U16, Value::U16(65535)),
        (Layout::U32, Value::U32(1)),
        (Layout::U64, Value::U64(1 << 63)),
    ] {
        let bytes = encode(&v);
        let zc = Zc::new(&l, 0);
        assert_eq!(zc.try_value(bytes.as_slice()).unwrap(), v);
        assert_eq!(zc.byte_size(bytes.as_slice()).unwrap(), bytes.len());
    }
}

#[test]
fn materialize_reports_malformed_input() {
    let l = Layout::Union(vec![vec![Layout::U8]]);
    let zc = Zc::new(&l, 0);
    // The one variant carries a byte of payload that is missing here.
    assert_eq!(
        zc.try_value([0u8].as_slice()),
        Err(LayoutError::TruncatedInput),
    );
    // No variant is numbered 9.
    assert_eq!(
        zc.try_value([9u8, 1].as_slice()),
        Err(LayoutError::InvalidDiscriminant),
    );
}

#[test]
fn overwrite_same_size_in_place() {
    let l = Layout::List(Box::new(Layout::U16));
    let v = Value::List(vec![Value::U16(1), Value::U16(2)]);
    let mut bytes = encode(&v);
    // A leading pad byte shows untouched surroundings.
    bytes.insert(0, 0xAA);
    bytes.push(0xBB);
    let zc = ZcMut::new(&l, 1);
    let replacement = Value::List(vec![Value::U16(500), Value::U16(600)]);
    assert_eq!(zc.overwrite(&mut bytes, &replacement), Ok(()));
    assert_eq!(bytes[0], 0xAA);
    assert_eq!(*bytes.last().unwrap(), 0xBB);
    let decoded = zc.to_ref().try_value(bytes.as_slice()).unwrap();
    assert_eq!(decoded, replacement);
}

#[test]
fn overwrite_rejects_different_size() {
    let l = Layout::List(Box::new(Layout::U16));
    let v = Value::List(vec![Value::U16(1), Value::U16(2)]);
    let mut bytes = encode(&v);
    let before = bytes.clone();
    let zc = ZcMut::new(&l, 0);
    let shorter = Value::List(vec![Value::U16(500)]);
    assert_eq!(
        zc.overwrite(&mut bytes, &shorter),
        Err(LayoutError::SizeMismatch),
    );
    assert_eq!(bytes, before);
}

#[test]
fn overwrite_surfaces_scan_errors() {
    let l = Layout::U32;
    let mut bytes = vec![1u8, 2];
    let zc = ZcMut::new(&l, 0);
    assert_eq!(
        zc.overwrite(&mut bytes, &Value::U32(1)),
        Err(LayoutError::TruncatedInput),
    );
}

#[test]
fn mutable_lookup_and_iteration() {
    let l = Layout::List(Box::new(Layout::U8));
    let v = Value::List(vec![Value::U8(1), Value::U8(2), Value::U8(3)]);
    let mut bytes = encode(&v);
    let mut zc = ZcMut::new(&l, 0);
    let elem = zc.get_mut_zc_index(bytes.as_slice(), 1).unwrap().unwrap();
    assert_eq!(elem.offset, 5);
    elem.overwrite(&mut bytes, &Value::U8(42)).unwrap();
    assert_eq!(bytes, vec![3, 0, 0, 0, 1, 42, 3]);
    assert!(zc.get_mut_zc_index(bytes.as_slice(), 3).unwrap().is_none());

    let mut it = zc.iter_mut(bytes.as_slice()).unwrap();
    assert_eq!(it.size_hint(), (3, Some(3)));
    let mut offsets = Vec::new();
    while let Some(elem) = it.next(bytes.as_slice()) {
        offsets.push(elem.offset);
    }
    assert_eq!(offsets, vec![4, 5, 6]);
}

#[test]
fn view_construction_never_reads() {
    // Constructing views on an empty buffer is fine; only accessors read.
    let l = Layout::U64;
    let zc = Zc::new(&l, 1000);
    assert_eq!(zc.offset, 1000);
    let empty: [u8; 0] = [];
    assert_eq!(zc.byte_size(&empty), Err(LayoutError::TruncatedInput));
}

#[test]
fn zero_size_elements_share_an_offset() {
    // An empty record occupies no bytes at all, so an array of them is
    // encoded as nothing and every element sits at the array's own offset.
    let l = Layout::Array(Box::new(Layout::Record(vec![])), 4);
    let bytes: [u8; 0] = [];
    let zc = Zc::new(&l, 0);
    assert_eq!(zc.len(&bytes), Ok(4));
    assert_eq!(zc.byte_size(&bytes), Ok(0));
    for i in 0..4 {
        let elem = zc.get_zc_index(&bytes, i).unwrap().unwrap();
        assert_eq!(elem.offset, 0);
    }
    assert!(zc.get_zc_index(&bytes, 4).unwrap().is_none());
}
