//! The bytes half of the size protocol: scanning encoded input.
//!
//! `scan_size` computes the encoded size of a value of a given shape by
//! reading only the encoded prefix — length prefixes, presence flags and
//! discriminants — without materializing any child value.  On correctly
//! encoded input it agrees byte-for-byte with the instance walk of
//! [`crate::value::actual_size_of`].

use vstd::prelude::*;
use vstd::bytes::spec_u32_from_le_bytes;
use vstd::bytes::u32_from_le_bytes;
use vstd::slice::slice_subrange;
use crate::error::LayoutError;
use crate::layout::Layout;

verus! {

/// The size of the encoded value of shape `l` starting at `pos` in `b`,
/// computed from the bytes alone.
///
/// Fails with `TruncatedInput` when `b` ends before a declared length is
/// satisfied, and with `InvalidDiscriminant` when a presence flag or union
/// discriminant byte matches no known variant.
pub open spec fn spec_scan(l: Layout, b: Seq<u8>, pos: nat) -> Result<nat, LayoutError>
    decreases l, 0nat,
{
    match l {
        Layout::U8 => if pos + 1 <= b.len() {
            Ok(1 as nat)
        } else {
            Err(LayoutError::TruncatedInput)
        },
        Layout::U16 => if pos + 2 <= b.len() {
            Ok(2 as nat)
        } else {
            Err(LayoutError::TruncatedInput)
        },
        Layout::U32 => if pos + 4 <= b.len() {
            Ok(4 as nat)
        } else {
            Err(LayoutError::TruncatedInput)
        },
        Layout::U64 => if pos + 8 <= b.len() {
            Ok(8 as nat)
        } else {
            Err(LayoutError::TruncatedInput)
        },
        Layout::Optional(p) => if pos < b.len() {
            if b[pos as int] == 0 {
                Ok(1 as nat)
            } else if b[pos as int] == 1 {
                match spec_scan(*p, b, pos + 1) {
                    Ok(s) => Ok(1 + s),
                    Err(err) => Err(err),
                }
            } else {
                Err(LayoutError::InvalidDiscriminant)
            }
        } else {
            Err(LayoutError::TruncatedInput)
        },
        Layout::List(e) => if pos + 4 <= b.len() {
            let count = spec_u32_from_le_bytes(b.subrange(pos as int, pos as int + 4)) as nat;
            match spec_scan_many(*e, b, pos + 4, count) {
                Ok(s) => Ok(4 + s),
                Err(err) => Err(err),
            }
        } else {
            Err(LayoutError::TruncatedInput)
        },
        Layout::Array(e, n) => spec_scan_many(*e, b, pos, n as nat),
        Layout::Record(fs) => spec_scan_fields(fs@, b, pos),
        Layout::Union(variants) => if pos < b.len() {
            let d = b[pos as int];
            if (d as int) < variants@.len() {
                match spec_scan_fields(variants@[d as int]@, b, pos + 1) {
                    Ok(s) => Ok(1 + s),
                    Err(err) => Err(err),
                }
            } else {
                Err(LayoutError::InvalidDiscriminant)
            }
        } else {
            Err(LayoutError::TruncatedInput)
        },
    }
}

/// The summed size of `count` consecutive encoded values of shape `e`
/// starting at `pos`.
pub open spec fn spec_scan_many(e: Layout, b: Seq<u8>, pos: nat, count: nat) -> Result<
    nat,
    LayoutError,
>
    decreases e, count,
{
    if count == 0 {
        Ok(0 as nat)
    } else {
        match spec_scan(e, b, pos) {
            Ok(s) => match spec_scan_many(e, b, pos + s, (count - 1) as nat) {
                Ok(rest) => Ok(s + rest),
                Err(err) => Err(err),
            },
            Err(err) => Err(err),
        }
    }
}

/// The summed size of consecutive encoded values of the shapes in `fs`
/// starting at `pos`.
pub open spec fn spec_scan_fields(fs: Seq<Layout>, b: Seq<u8>, pos: nat) -> Result<
    nat,
    LayoutError,
>
    decreases fs, 0nat,
{
    if fs.len() == 0 {
        Ok(0 as nat)
    } else {
        match spec_scan(fs[0], b, pos) {
            Ok(s) => match spec_scan_fields(fs.drop_first(), b, pos + s) {
                Ok(rest) => Ok(s + rest),
                Err(err) => Err(err),
            },
            Err(err) => Err(err),
        }
    }
}

/// A successful scan never reaches past the end of the buffer (except that
/// a shape with no bytes at all scans to size zero anywhere).
pub proof fn lemma_scan_in_bounds(l: Layout, b: Seq<u8>, pos: nat)
    ensures
        spec_scan(l, b, pos) matches Ok(s) ==> pos + s <= b.len() || s == 0,
    decreases l, 0nat,
{
    match l {
        Layout::Optional(p) => {
            lemma_scan_in_bounds(*p, b, pos + 1);
        },
        Layout::List(e) => {
            if pos + 4 <= b.len() {
                let count = spec_u32_from_le_bytes(b.subrange(pos as int, pos as int + 4)) as nat;
                lemma_scan_many_in_bounds(*e, b, pos + 4, count);
            }
        },
        Layout::Array(e, n) => {
            lemma_scan_many_in_bounds(*e, b, pos, n as nat);
        },
        Layout::Record(fs) => {
            lemma_scan_fields_in_bounds(fs@, b, pos);
        },
        Layout::Union(variants) => {
            if pos < b.len() {
                let d = b[pos as int];
                if (d as int) < variants@.len() {
                    lemma_scan_fields_in_bounds(variants@[d as int]@, b, pos + 1);
                }
            }
        },
        _ => {},
    }
}

/// Bound of [`lemma_scan_in_bounds`], for runs of equal shapes.
pub proof fn lemma_scan_many_in_bounds(e: Layout, b: Seq<u8>, pos: nat, count: nat)
    ensures
        spec_scan_many(e, b, pos, count) matches Ok(s) ==> pos + s <= b.len() || s == 0,
    decreases e, count,
{
    if count > 0 {
        lemma_scan_in_bounds(e, b, pos);
        if let Ok(s) = spec_scan(e, b, pos) {
            lemma_scan_many_in_bounds(e, b, pos + s, (count - 1) as nat);
        }
    }
}

/// Bound of [`lemma_scan_in_bounds`], for runs of declared fields.
pub proof fn lemma_scan_fields_in_bounds(fs: Seq<Layout>, b: Seq<u8>, pos: nat)
    ensures
        spec_scan_fields(fs, b, pos) matches Ok(s) ==> pos + s <= b.len() || s == 0,
    decreases fs, 0nat,
{
    if fs.len() > 0 {
        lemma_scan_in_bounds(fs[0], b, pos);
        if let Ok(s) = spec_scan(fs[0], b, pos) {
            lemma_scan_fields_in_bounds(fs.drop_first(), b, pos + s);
        }
    }
}

/// Whether the executable outcome `r` reports exactly the mathematical
/// outcome `sr` of a scan.
pub open spec fn scan_agrees(sr: Result<nat, LayoutError>, r: Result<usize, LayoutError>) -> bool {
    match (sr, r) {
        (Ok(sn), Ok(su)) => sn == su as nat,
        (Err(a), Err(ea)) => a == ea,
        _ => false,
    }
}

/// Computes the encoded size of the value of shape `l` at `pos` by reading
/// only the encoded prefix.
///
/// No child value is materialized; sequences and records are walked by
/// advancing a running offset.
pub fn scan_size(l: &Layout, bytes: &[u8], pos: usize) -> (r: Result<usize, LayoutError>)
    ensures
        scan_agrees(spec_scan(*l, bytes@, pos as nat), r),
    decreases *l, 0nat,
{
    match l {
        Layout::U8 => if pos < bytes.len() {
            Ok(1)
        } else {
            Err(LayoutError::TruncatedInput)
        },
        Layout::U16 => if bytes.len() >= 2 && pos <= bytes.len() - 2 {
            Ok(2)
        } else {
            Err(LayoutError::TruncatedInput)
        },
        Layout::U32 => if bytes.len() >= 4 && pos <= bytes.len() - 4 {
            Ok(4)
        } else {
            Err(LayoutError::TruncatedInput)
        },
        Layout::U64 => if bytes.len() >= 8 && pos <= bytes.len() - 8 {
            Ok(8)
        } else {
            Err(LayoutError::TruncatedInput)
        },
        Layout::Optional(p) => {
            if pos < bytes.len() {
                let flag = bytes[pos];
                if flag == 0 {
                    Ok(1)
                } else if flag == 1 {
                    match scan_size(&**p, bytes, pos + 1) {
                        Ok(s) => {
                            proof {
                                lemma_scan_in_bounds(**p, bytes@, (pos + 1) as nat);
                            }
                            Ok(1 + s)
                        },
                        Err(err) => Err(err),
                    }
                } else {
                    Err(LayoutError::InvalidDiscriminant)
                }
            } else {
                Err(LayoutError::TruncatedInput)
            }
        },
        Layout::List(e) => {
            if bytes.len() >= 4 && pos <= bytes.len() - 4 {
                let count = u32_from_le_bytes(slice_subrange(bytes, pos, pos + 4));
                match scan_many_elems(&**e, bytes, pos + 4, count as usize) {
                    Ok(s) => {
                        proof {
                            lemma_scan_many_in_bounds(**e, bytes@, (pos + 4) as nat, count as nat);
                        }
                        Ok(4 + s)
                    },
                    Err(err) => Err(err),
                }
            } else {
                Err(LayoutError::TruncatedInput)
            }
        },
        Layout::Array(e, n) => scan_many_elems(&**e, bytes, pos, *n),
        Layout::Record(fs) => scan_record_fields(fs, bytes, pos),
        Layout::Union(variants) => {
            if pos < bytes.len() {
                let d = bytes[pos];
                if (d as usize) < variants.len() {
                    match scan_record_fields(&variants[d as usize], bytes, pos + 1) {
                        Ok(s) => {
                            proof {
                                lemma_scan_fields_in_bounds(
                                    variants@[d as int]@,
                                    bytes@,
                                    (pos + 1) as nat,
                                );
                            }
                            Ok(1 + s)
                        },
                        Err(err) => Err(err),
                    }
                } else {
                    Err(LayoutError::InvalidDiscriminant)
                }
            } else {
                Err(LayoutError::TruncatedInput)
            }
        },
    }
}

/// Scans `count` consecutive encoded values of shape `e`, advancing a
/// running offset by each scanned size in turn.
pub fn scan_many_elems(e: &Layout, bytes: &[u8], pos: usize, count: usize) -> (r: Result<
    usize,
    LayoutError,
>)
    ensures
        scan_agrees(spec_scan_many(*e, bytes@, pos as nat, count as nat), r),
    decreases *e, count,
{
    let ghost full = spec_scan_many(*e, bytes@, pos as nat, count as nat);
    let blen = bytes.len();
    let mut i: usize = 0;
    let mut cur: usize = pos;
    while i < count
        invariant
            i <= count,
            blen == bytes@.len(),
            pos <= cur,
            cur <= blen || cur == pos,
            full == spec_scan_many(*e, bytes@, pos as nat, count as nat),
            match spec_scan_many(*e, bytes@, cur as nat, (count - i) as nat) {
                Ok(s) => full == Ok::<nat, LayoutError>((cur - pos + s) as nat),
                Err(err) => full == Err::<nat, LayoutError>(err),
            },
        decreases count - i,
    {
        match scan_size(e, bytes, cur) {
            Ok(s) => {
                proof {
                    lemma_scan_in_bounds(*e, bytes@, cur as nat);
                }
                cur = cur + s;
                i = i + 1;
            },
            Err(err) => {
                return Err(err);
            },
        }
    }
    Ok(cur - pos)
}

/// Scans the consecutive encoded fields of a record shape, advancing a
/// running offset by each scanned size in turn.
pub fn scan_record_fields(fs: &Vec<Layout>, bytes: &[u8], pos: usize) -> (r: Result<
    usize,
    LayoutError,
>)
    ensures
        scan_agrees(spec_scan_fields(fs@, bytes@, pos as nat), r),
    decreases *fs, 0nat,
{
    let ghost full = spec_scan_fields(fs@, bytes@, pos as nat);
    let blen = bytes.len();
    let mut i: usize = 0;
    let mut cur: usize = pos;
    proof {
        assert(fs@.skip(0) =~= fs@);
    }
    while i < fs.len()
        invariant
            i <= fs@.len(),
            blen == bytes@.len(),
            pos <= cur,
            cur <= blen || cur == pos,
            full == spec_scan_fields(fs@, bytes@, pos as nat),
            match spec_scan_fields(fs@.skip(i as int), bytes@, cur as nat) {
                Ok(s) => full == Ok::<nat, LayoutError>((cur - pos + s) as nat),
                Err(err) => full == Err::<nat, LayoutError>(err),
            },
        decreases fs@.len() - i,
    {
        proof {
            assert(fs@.skip(i as int)[0] == fs@[i as int]);
            assert(fs@.skip(i as int).drop_first() =~= fs@.skip(i as int + 1));
        }
        match scan_size(&fs[i], bytes, cur) {
            Ok(s) => {
                proof {
                    lemma_scan_in_bounds(fs@[i as int], bytes@, cur as nat);
                }
                cur = cur + s;
                i = i + 1;
            },
            Err(err) => {
                return Err(err);
            },
        }
    }
    proof {
        assert(fs@.skip(fs@.len() as int) =~= Seq::<Layout>::empty());
    }
    Ok(cur - pos)
}

} // verus!
