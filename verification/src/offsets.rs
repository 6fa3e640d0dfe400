//! Per-field offset computation for declared records and tagged unions.
//!
//! For a record with fields in declared order, a field's minimum offset is
//! the sum of the declared minimum sizes of the fields before it, and its
//! actual offset is the sum of the true encoded sizes of the corresponding
//! fields of a live instance — walked in order and stopped at the target
//! field.  A bytes-only entry point substitutes scanning for the instance
//! walk and advances a byte cursor instead.
//!
//! For a tagged union, a field is addressed by its variant and its position
//! within that variant; every offset starts with the one discriminant byte,
//! counts only fields of that variant, and the actual offset is absent
//! whenever the live instance's active variant is a different one.  Unit
//! variants have no payload fields and so contribute no offsets beyond the
//! discriminant.

use vstd::prelude::*;
use crate::error::LayoutError;
use crate::layout::{Layout, minimum_size, spec_min_size_fields, lemma_min_size_fields_split,
    lemma_min_size_fields_take_succ};
use crate::value::{Value, actual_size_of, spec_size_seq, lemma_size_seq_split,
    lemma_size_seq_take_succ};
use crate::scan::{spec_scan_fields, scan_size, lemma_scan_in_bounds};

verus! {

/// The minimum offset of field `i` of a record shape: the summed declared
/// minimum sizes of the fields before it.  With `i` equal to the field
/// count this is the record's own minimum size.
pub fn record_min_offset(fields: &Vec<Layout>, i: usize) -> (r: usize)
    requires
        i <= fields@.len(),
        spec_min_size_fields(fields@.take(i as int)) <= usize::MAX,
    ensures
        r == spec_min_size_fields(fields@.take(i as int)),
{
    let mut total: usize = 0;
    let mut j: usize = 0;
    while j < i
        invariant
            j <= i <= fields@.len(),
            spec_min_size_fields(fields@.take(i as int)) <= usize::MAX,
            total == spec_min_size_fields(fields@.take(j as int)),
        decreases i - j,
    {
        proof {
            lemma_min_size_fields_take_succ(fields@, j as int);
            lemma_min_size_fields_split(fields@.take(i as int), j as int + 1);
            assert(fields@.take(i as int).take(j as int + 1) =~= fields@.take(j as int + 1));
        }
        let m = minimum_size(&fields[j]);
        total = total + m;
        j = j + 1;
    }
    total
}

/// The actual offset of field `i` of a record instance: the summed true
/// encoded sizes of the instance's fields before it, walked in declared
/// order and stopped at the target field.
pub fn record_actual_offset(values: &Vec<Value>, i: usize) -> (r: usize)
    requires
        i <= values@.len(),
        spec_size_seq(values@.take(i as int)) <= usize::MAX,
    ensures
        r == spec_size_seq(values@.take(i as int)),
{
    let mut total: usize = 0;
    let mut j: usize = 0;
    while j < i
        invariant
            j <= i <= values@.len(),
            spec_size_seq(values@.take(i as int)) <= usize::MAX,
            total == spec_size_seq(values@.take(j as int)),
        decreases i - j,
    {
        proof {
            lemma_size_seq_take_succ(values@, j as int);
            lemma_size_seq_split(values@.take(i as int), j as int + 1);
            assert(values@.take(i as int).take(j as int + 1) =~= values@.take(j as int + 1));
        }
        let m = actual_size_of(&values[j]);
        total = total + m;
        j = j + 1;
    }
    total
}

/// The actual offset of field `i` of a record encoded at `pos`, computed
/// from the bytes alone: `pos` plus the scanned sizes of the preceding
/// fields.  A scanning failure among those fields is surfaced.
pub fn record_scan_offset(fields: &Vec<Layout>, bytes: &[u8], pos: usize, i: usize) -> (r: Result<
    usize,
    LayoutError,
>)
    requires
        i <= fields@.len(),
    ensures
        match spec_scan_fields(fields@.take(i as int), bytes@, pos as nat) {
            Ok(s) => r matches Ok(o) && o == pos + s,
            Err(err) => r matches Err(e2) && e2 == err,
        },
{
    let ghost prefix = fields@.take(i as int);
    let ghost full = spec_scan_fields(prefix, bytes@, pos as nat);
    let blen = bytes.len();
    let mut j: usize = 0;
    let mut cur: usize = pos;
    proof {
        assert(prefix.skip(0) =~= prefix);
    }
    while j < i
        invariant
            j <= i <= fields@.len(),
            blen == bytes@.len(),
            prefix == fields@.take(i as int),
            full == spec_scan_fields(prefix, bytes@, pos as nat),
            pos <= cur,
            cur <= blen || cur == pos,
            match spec_scan_fields(prefix.skip(j as int), bytes@, cur as nat) {
                Ok(s) => full == Ok::<nat, LayoutError>((cur - pos + s) as nat),
                Err(err) => full == Err::<nat, LayoutError>(err),
            },
        decreases i - j,
    {
        proof {
            assert(prefix.skip(j as int)[0] == fields@[j as int]);
            assert(prefix.skip(j as int).drop_first() =~= prefix.skip(j as int + 1));
        }
        match scan_size(&fields[j], bytes, cur) {
            Ok(s) => {
                proof {
                    lemma_scan_in_bounds(fields@[j as int], bytes@, cur as nat);
                }
                cur = cur + s;
                j = j + 1;
            },
            Err(err) => {
                return Err(err);
            },
        }
    }
    proof {
        assert(prefix.skip(i as int) =~= Seq::<Layout>::empty());
    }
    Ok(cur)
}

/// The minimum offset of field `fi` of variant `vi` of a tagged union
/// shape: one byte of discriminant plus the summed declared minimum sizes
/// of the fields before it within that variant only.
pub fn union_min_offset(variants: &Vec<Vec<Layout>>, vi: usize, fi: usize) -> (r: usize)
    requires
        vi < variants@.len(),
        fi <= variants@[vi as int]@.len(),
        1 + spec_min_size_fields(variants@[vi as int]@.take(fi as int)) <= usize::MAX,
    ensures
        r == 1 + spec_min_size_fields(variants@[vi as int]@.take(fi as int)),
{
    1 + record_min_offset(&variants[vi], fi)
}

/// The actual offset of field `fi` of variant `vi` against a live union
/// instance: absent when the instance's active variant differs from `vi`,
/// else one discriminant byte plus the summed true sizes of the preceding
/// fields of the active payload, stopped at the target field.
pub fn union_actual_offset(value: &Value, vi: usize, fi: usize) -> (r: Option<usize>)
    requires
        (*value) matches Value::Union(_, _),
        match *value {
            Value::Union(d, vs) => (d as usize) == vi ==> fi <= vs@.len() && 1 + spec_size_seq(
                vs@.take(fi as int),
            ) <= usize::MAX,
            _ => true,
        },
    ensures
        match *value {
            Value::Union(d, vs) => if (d as usize) == vi {
                r matches Some(o) && o == 1 + spec_size_seq(vs@.take(fi as int))
            } else {
                r is None
            },
            _ => true,
        },
{
    match value {
        Value::Union(d, vs) => {
            if (*d as usize) == vi {
                Some(1 + record_actual_offset(vs, fi))
            } else {
                None
            }
        },
        _ => None,
    }
}

/// The actual offset of field `fi` of variant `vi` of a union encoded at
/// `pos`, computed from the bytes alone: absent when the encoded
/// discriminant selects a different variant, else `pos` plus the
/// discriminant byte plus the scanned sizes of the preceding fields of that
/// variant.
pub fn union_scan_offset(
    variants: &Vec<Vec<Layout>>,
    bytes: &[u8],
    pos: usize,
    vi: usize,
    fi: usize,
) -> (r: Result<Option<usize>, LayoutError>)
    requires
        vi < variants@.len(),
        fi <= variants@[vi as int]@.len(),
    ensures
        pos >= bytes@.len() ==> (r matches Err(e) && e == LayoutError::TruncatedInput),
        pos < bytes@.len() ==> {
            let d = bytes@[pos as int];
            if (d as int) >= variants@.len() {
                r matches Err(e) && e == LayoutError::InvalidDiscriminant
            } else if (d as usize) != vi {
                r matches Ok(o) && o is None
            } else {
                match spec_scan_fields(
                    variants@[vi as int]@.take(fi as int),
                    bytes@,
                    pos as nat + 1,
                ) {
                    Ok(s) => r matches Ok(o) && o matches Some(off) && off == pos + 1 + s,
                    Err(err) => r matches Err(e2) && e2 == err,
                }
            }
        },
{
    if pos < bytes.len() {
        let d = bytes[pos];
        if (d as usize) >= variants.len() {
            Err(LayoutError::InvalidDiscriminant)
        } else if (d as usize) != vi {
            Ok(None)
        } else {
            match record_scan_offset(&variants[vi], bytes, pos + 1, fi) {
                Ok(off) => Ok(Some(off)),
                Err(err) => Err(err),
            }
        }
    } else {
        Err(LayoutError::TruncatedInput)
    }
}

} // verus!
