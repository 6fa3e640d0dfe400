//! Live values, their encodings, and the instance half of the size protocol.
//!
//! A [`Value`] is a fully materialized instance of some [`Layout`].  The
//! module defines what it means for a value to conform to a layout, the
//! mathematical encoding of a value as a byte sequence, and the executable
//! walk that sums a live instance's true encoded size without producing any
//! bytes.

use vstd::prelude::*;
use vstd::bytes::{spec_u16_to_le_bytes, spec_u32_to_le_bytes, spec_u64_to_le_bytes};
use vstd::bytes::{lemma_auto_spec_u16_to_from_le_bytes, lemma_auto_spec_u32_to_from_le_bytes,
    lemma_auto_spec_u64_to_from_le_bytes};
use vstd::bytes::{u16_to_le_bytes, u32_to_le_bytes, u64_to_le_bytes};
use crate::layout::Layout;

verus! {

/// A fully materialized instance of a layout.
///
/// `Optional` is an optional payload, `List` a length-prefixed sequence,
/// `Array` a fixed-size array, `Record` the fields of a record in declared
/// order, and `Union(d, fields)` the active variant `d` of a tagged union
/// together with that variant's payload fields in declared order.
#[derive(Debug, PartialEq, Eq)]
pub enum Value {
    U8(u8),
    U16(u16),
    U32(u32),
    U64(u64),
    Optional(Option<Box<Value>>),
    List(Vec<Value>),
    Array(Vec<Value>),
    Record(Vec<Value>),
    Union(u8, Vec<Value>),
}

/// Whether value `v` conforms to shape `l`: every constructor agrees, every
/// fixed-size array has exactly its declared element count, every sequence
/// count fits the 4-byte prefix, and every union discriminant selects a
/// declared variant whose fields the payload matches.
pub open spec fn value_matches(v: Value, l: Layout) -> bool
    decreases v,
{
    match (v, l) {
        (Value::U8(_), Layout::U8) => true,
        (Value::U16(_), Layout::U16) => true,
        (Value::U32(_), Layout::U32) => true,
        (Value::U64(_), Layout::U64) => true,
        (Value::Optional(o), Layout::Optional(p)) => match o {
            Option::None => true,
            Option::Some(b) => value_matches(*b, *p),
        },
        (Value::List(es), Layout::List(e)) => es@.len() <= u32::MAX
            && (forall|i: int| 0 <= i < es@.len() ==> value_matches(#[trigger] es@[i], *e)),
        (Value::Array(es), Layout::Array(e, n)) => es@.len() == n
            && (forall|i: int| 0 <= i < es@.len() ==> value_matches(#[trigger] es@[i], *e)),
        (Value::Record(vs), Layout::Record(fs)) => vs@.len() == fs@.len()
            && (forall|i: int| 0 <= i < vs@.len() ==> value_matches(#[trigger] vs@[i], fs@[i])),
        (Value::Union(d, vs), Layout::Union(variants)) => (d as int) < variants@.len()
            && vs@.len() == variants@[d as int]@.len()
            && (forall|i: int|
                0 <= i < vs@.len() ==> value_matches(#[trigger] vs@[i], variants@[d as int]@[i])),
        _ => false,
    }
}

/// Whether `v` can be encoded at all: every sequence count fits the 4-byte
/// little-endian prefix.  Conformance to any layout implies this.
pub open spec fn spec_encodable(v: Value) -> bool
    decreases v,
{
    match v {
        Value::U8(_) => true,
        Value::U16(_) => true,
        Value::U32(_) => true,
        Value::U64(_) => true,
        Value::Optional(o) => match o {
            Option::None => true,
            Option::Some(b) => spec_encodable(*b),
        },
        Value::List(es) => es@.len() <= u32::MAX
            && (forall|i: int| 0 <= i < es@.len() ==> spec_encodable(#[trigger] es@[i])),
        Value::Array(es) => forall|i: int| 0 <= i < es@.len() ==> spec_encodable(#[trigger] es@[i]),
        Value::Record(vs) => forall|i: int| 0 <= i < vs@.len() ==> spec_encodable(#[trigger] vs@[i]),
        Value::Union(_, vs) => forall|i: int|
            0 <= i < vs@.len() ==> spec_encodable(#[trigger] vs@[i]),
    }
}


/// Structural equality of two values: equal scalars, equal presence and
/// equal payloads, equal counts and pairwise equal elements, equal
/// discriminants and pairwise equal fields.
///
/// Two values that are structurally equal are interchangeable to the
/// engine: they have the same size and the same encoding.  (`Vec`-backed
/// values are compared through their contents here, which is also what the
/// derived `PartialEq` compares at run time.)
pub open spec fn same_value(v1: Value, v2: Value) -> bool
    decreases v1,
{
    match (v1, v2) {
        (Value::U8(x), Value::U8(y)) => x == y,
        (Value::U16(x), Value::U16(y)) => x == y,
        (Value::U32(x), Value::U32(y)) => x == y,
        (Value::U64(x), Value::U64(y)) => x == y,
        (Value::Optional(o1), Value::Optional(o2)) => match (o1, o2) {
            (Option::None, Option::None) => true,
            (Option::Some(a), Option::Some(b)) => same_value(*a, *b),
            _ => false,
        },
        (Value::List(a), Value::List(b)) => a@.len() == b@.len() && (forall|i: int|
            0 <= i < a@.len() ==> same_value(#[trigger] a@[i], b@[i])),
        (Value::Array(a), Value::Array(b)) => a@.len() == b@.len() && (forall|i: int|
            0 <= i < a@.len() ==> same_value(#[trigger] a@[i], b@[i])),
        (Value::Record(a), Value::Record(b)) => a@.len() == b@.len() && (forall|i: int|
            0 <= i < a@.len() ==> same_value(#[trigger] a@[i], b@[i])),
        (Value::Union(d1, a), Value::Union(d2, b)) => d1 == d2 && a@.len() == b@.len() && (
        forall|i: int| 0 <= i < a@.len() ==> same_value(#[trigger] a@[i], b@[i])),
        _ => false,
    }
}

/// Structural equality is reflexive.
pub proof fn lemma_same_value_refl(v: Value)
    ensures
        same_value(v, v),
    decreases v,
{
    match v {
        Value::Optional(o) => match o {
            Option::None => {},
            Option::Some(b) => {
                lemma_same_value_refl(*b);
            },
        },
        Value::List(es) => {
            assert forall|i: int| 0 <= i < es@.len() implies same_value(
                #[trigger] es@[i],
                es@[i],
            ) by {
                lemma_same_value_refl(es@[i]);
            }
        },
        Value::Array(es) => {
            assert forall|i: int| 0 <= i < es@.len() implies same_value(
                #[trigger] es@[i],
                es@[i],
            ) by {
                lemma_same_value_refl(es@[i]);
            }
        },
        Value::Record(vs) => {
            assert forall|i: int| 0 <= i < vs@.len() implies same_value(
                #[trigger] vs@[i],
                vs@[i],
            ) by {
                lemma_same_value_refl(vs@[i]);
            }
        },
        Value::Union(_, vs) => {
            assert forall|i: int| 0 <= i < vs@.len() implies same_value(
                #[trigger] vs@[i],
                vs@[i],
            ) by {
                lemma_same_value_refl(vs@[i]);
            }
        },
        _ => {},
    }
}

/// The true encoded byte length of `v`.
pub open spec fn spec_size(v: Value) -> nat
    decreases v,
{
    match v {
        Value::U8(_) => 1,
        Value::U16(_) => 2,
        Value::U32(_) => 4,
        Value::U64(_) => 8,
        Value::Optional(o) => match o {
            Option::None => 1,
            Option::Some(b) => 1 + spec_size(*b),
        },
        Value::List(es) => 4 + spec_size_seq(es@),
        Value::Array(es) => spec_size_seq(es@),
        Value::Record(vs) => spec_size_seq(vs@),
        Value::Union(_, vs) => 1 + spec_size_seq(vs@),
    }
}

/// The summed encoded size of consecutive values.
pub open spec fn spec_size_seq(s: Seq<Value>) -> nat
    decreases s,
{
    if s.len() == 0 {
        0
    } else {
        spec_size(s[0]) + spec_size_seq(s.drop_first())
    }
}

/// The encoding of `v` as a byte sequence: scalars little-endian, an
/// optional as its presence flag then payload, a list as its 4-byte count
/// then elements, an array or record as its parts concatenated, a union as
/// its discriminant then the active variant's fields.
pub open spec fn spec_encode(v: Value) -> Seq<u8>
    decreases v,
{
    match v {
        Value::U8(x) => seq![x],
        Value::U16(x) => spec_u16_to_le_bytes(x),
        Value::U32(x) => spec_u32_to_le_bytes(x),
        Value::U64(x) => spec_u64_to_le_bytes(x),
        Value::Optional(o) => match o {
            Option::None => seq![0u8],
            Option::Some(b) => seq![1u8] + spec_encode(*b),
        },
        Value::List(es) => spec_u32_to_le_bytes(es@.len() as u32) + spec_encode_seq(es@),
        Value::Array(es) => spec_encode_seq(es@),
        Value::Record(vs) => spec_encode_seq(vs@),
        Value::Union(d, vs) => seq![d] + spec_encode_seq(vs@),
    }
}

/// The concatenated encodings of consecutive values.
pub open spec fn spec_encode_seq(s: Seq<Value>) -> Seq<u8>
    decreases s,
{
    if s.len() == 0 {
        Seq::empty()
    } else {
        spec_encode(s[0]) + spec_encode_seq(s.drop_first())
    }
}

/// Splitting a value list anywhere splits its size sum.
pub proof fn lemma_size_seq_split(s: Seq<Value>, i: int)
    requires
        0 <= i <= s.len(),
    ensures
        spec_size_seq(s) == spec_size_seq(s.take(i)) + spec_size_seq(s.skip(i)),
    decreases i,
{
    if i == 0 {
        assert(s.take(0) =~= Seq::<Value>::empty());
        assert(s.skip(0) =~= s);
    } else {
        lemma_size_seq_split(s.drop_first(), i - 1);
        assert(s.take(i).drop_first() =~= s.drop_first().take(i - 1));
        assert(s.drop_first().skip(i - 1) =~= s.skip(i));
        assert(s.take(i)[0] == s[0]);
    }
}

/// Extending a prefix of a value list by one value adds that value's size
/// to the prefix sum.
pub proof fn lemma_size_seq_take_succ(s: Seq<Value>, i: int)
    requires
        0 <= i < s.len(),
    ensures
        spec_size_seq(s.take(i + 1)) == spec_size_seq(s.take(i)) + spec_size(s[i]),
{
    lemma_size_seq_split(s.take(i + 1), i);
    assert(s.take(i + 1).take(i) =~= s.take(i));
    let tail = s.take(i + 1).skip(i);
    assert(tail =~= seq![s[i]]);
    assert(tail.drop_first() =~= Seq::<Value>::empty());
    assert(spec_size_seq(tail) == spec_size(s[i]) + spec_size_seq(tail.drop_first()));
    assert(spec_size_seq(tail.drop_first()) == 0);
}

/// Splitting a value list anywhere splits its concatenated encoding.
pub proof fn lemma_encode_seq_split(s: Seq<Value>, i: int)
    requires
        0 <= i <= s.len(),
    ensures
        spec_encode_seq(s) == spec_encode_seq(s.take(i)) + spec_encode_seq(s.skip(i)),
    decreases i,
{
    if i == 0 {
        assert(s.take(0) =~= Seq::<Value>::empty());
        assert(s.skip(0) =~= s);
        assert(spec_encode_seq(s.take(0)) + spec_encode_seq(s.skip(0)) =~= spec_encode_seq(s));
    } else {
        lemma_encode_seq_split(s.drop_first(), i - 1);
        assert(s.take(i).drop_first() =~= s.drop_first().take(i - 1));
        assert(s.drop_first().skip(i - 1) =~= s.skip(i));
        assert(s.take(i)[0] == s[0]);
        assert(spec_encode_seq(s) =~= spec_encode_seq(s.take(i)) + spec_encode_seq(s.skip(i)));
    }
}

/// Extending a prefix of a value list by one value appends that value's
/// encoding to the prefix encoding.
pub proof fn lemma_encode_seq_take_succ(s: Seq<Value>, i: int)
    requires
        0 <= i < s.len(),
    ensures
        spec_encode_seq(s.take(i + 1)) == spec_encode_seq(s.take(i)) + spec_encode(s[i]),
{
    lemma_encode_seq_split(s.take(i + 1), i);
    assert(s.take(i + 1).take(i) =~= s.take(i));
    let tail = s.take(i + 1).skip(i);
    assert(tail =~= seq![s[i]]);
    assert(tail.drop_first() =~= Seq::<Value>::empty());
    assert(spec_encode_seq(tail) == spec_encode(s[i]) + spec_encode_seq(tail.drop_first()));
    assert(spec_encode_seq(tail) =~= spec_encode(s[i]));
}

/// The encoded byte sequence of a value is exactly as long as its size
/// protocol says: `spec_encode(v).len() == spec_size(v)`.
pub proof fn lemma_encode_len(v: Value)
    ensures
        spec_encode(v).len() == spec_size(v),
    decreases v,
{
    lemma_auto_spec_u16_to_from_le_bytes();
    lemma_auto_spec_u32_to_from_le_bytes();
    lemma_auto_spec_u64_to_from_le_bytes();
    match v {
        Value::Optional(o) => match o {
            Option::None => {},
            Option::Some(b) => {
                lemma_encode_len(*b);
            },
        },
        Value::List(es) => {
            lemma_encode_seq_len(es@);
        },
        Value::Array(es) => {
            lemma_encode_seq_len(es@);
        },
        Value::Record(vs) => {
            lemma_encode_seq_len(vs@);
        },
        Value::Union(_, vs) => {
            lemma_encode_seq_len(vs@);
        },
        _ => {},
    }
}

/// The concatenated encoding of a value list is exactly as long as the
/// summed sizes of its values.
pub proof fn lemma_encode_seq_len(s: Seq<Value>)
    ensures
        spec_encode_seq(s).len() == spec_size_seq(s),
    decreases s,
{
    if s.len() == 0 {
    } else {
        lemma_encode_len(s[0]);
        lemma_encode_seq_len(s.drop_first());
    }
}

/// Walks a live instance and sums the true encoded sizes of its parts.
///
/// No bytes are produced or read; this is the instance entry point of the
/// size protocol.
pub fn actual_size_of(v: &Value) -> (r: usize)
    requires
        spec_size(*v) <= usize::MAX,
    ensures
        r == spec_size(*v),
    decreases *v,
{
    match v {
        Value::U8(_) => 1,
        Value::U16(_) => 2,
        Value::U32(_) => 4,
        Value::U64(_) => 8,
        Value::Optional(o) => match o {
            Option::None => 1,
            Option::Some(b) => 1 + actual_size_of(&**b),
        },
        Value::List(es) => 4 + size_of_values(es),
        Value::Array(es) => size_of_values(es),
        Value::Record(vs) => size_of_values(vs),
        Value::Union(_, vs) => 1 + size_of_values(vs),
    }
}

/// Sums the true encoded sizes of consecutive values.
pub fn size_of_values(vs: &Vec<Value>) -> (r: usize)
    requires
        spec_size_seq(vs@) <= usize::MAX,
    ensures
        r == spec_size_seq(vs@),
    decreases *vs,
{
    let mut total: usize = 0;
    let mut i: usize = 0;
    while i < vs.len()
        invariant
            i <= vs@.len(),
            spec_size_seq(vs@) <= usize::MAX,
            total == spec_size_seq(vs@.take(i as int)),
        decreases vs@.len() - i,
    {
        proof {
            lemma_size_seq_take_succ(vs@, i as int);
            lemma_size_seq_split(vs@, i + 1);
        }
        let m = actual_size_of(&vs[i]);
        total = total + m;
        i = i + 1;
    }
    proof {
        assert(vs@.take(vs@.len() as int) =~= vs@);
    }
    total
}

/// Appends the encoding of `v` to `out`.
pub fn encode_into(v: &Value, out: &mut Vec<u8>)
    requires
        spec_encodable(*v),
    ensures
        final(out)@ == old(out)@ + spec_encode(*v),
    decreases *v,
{
    match v {
        Value::U8(x) => {
            out.push(*x);
            proof {
                assert(out@ =~= old(out)@ + spec_encode(*v));
            }
        },
        Value::U16(x) => {
            let mut b = u16_to_le_bytes(*x);
            out.append(&mut b);
        },
        Value::U32(x) => {
            let mut b = u32_to_le_bytes(*x);
            out.append(&mut b);
        },
        Value::U64(x) => {
            let mut b = u64_to_le_bytes(*x);
            out.append(&mut b);
        },
        Value::Optional(o) => match o {
            Option::None => {
                out.push(0u8);
                proof {
                    assert(out@ =~= old(out)@ + spec_encode(*v));
                }
            },
            Option::Some(b) => {
                out.push(1u8);
                encode_into(&**b, out);
                proof {
                    assert(old(out)@.push(1u8) + spec_encode(**b) =~= old(out)@ + spec_encode(*v));
                }
            },
        },
        Value::List(es) => {
            let count: u32 = es.len() as u32;
            let mut b = u32_to_le_bytes(count);
            out.append(&mut b);
            encode_values(es, out);
        },
        Value::Array(es) => {
            encode_values(es, out);
        },
        Value::Record(vs) => {
            encode_values(vs, out);
        },
        Value::Union(d, vs) => {
            out.push(*d);
            encode_values(vs, out);
            proof {
                assert(old(out)@.push(*d) + spec_encode_seq(vs@) =~= old(out)@ + spec_encode(*v));
            }
        },
    }
}

/// Appends the concatenated encodings of consecutive values to `out`.
pub fn encode_values(vs: &Vec<Value>, out: &mut Vec<u8>)
    requires
        forall|i: int| 0 <= i < vs@.len() ==> spec_encodable(#[trigger] vs@[i]),
    ensures
        final(out)@ == old(out)@ + spec_encode_seq(vs@),
    decreases *vs,
{
    let mut i: usize = 0;
    proof {
        assert(out@ =~= old(out)@ + spec_encode_seq(vs@.take(0)));
    }
    while i < vs.len()
        invariant
            i <= vs@.len(),
            forall|j: int| 0 <= j < vs@.len() ==> spec_encodable(#[trigger] vs@[j]),
            out@ == old(out)@ + spec_encode_seq(vs@.take(i as int)),
        decreases vs@.len() - i,
    {
        proof {
            lemma_encode_seq_take_succ(vs@, i as int);
        }
        let ghost prev = out@;
        encode_into(&vs[i], out);
        proof {
            assert(out@ =~= old(out)@ + spec_encode_seq(vs@.take(i + 1)));
        }
        i = i + 1;
    }
    proof {
        assert(vs@.take(vs@.len() as int) =~= vs@);
    }
}

/// Produces the encoding of `v` as a fresh byte vector.
pub fn encode(v: &Value) -> (r: Vec<u8>)
    requires
        spec_encodable(*v),
    ensures
        r@ == spec_encode(*v),
    decreases *v,
{
    let mut out: Vec<u8> = Vec::new();
    encode_into(v, &mut out);
    proof {
        assert(out@ =~= spec_encode(*v));
    }
    out
}

} // verus!
