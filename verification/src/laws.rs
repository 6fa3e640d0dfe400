//! The laws that tie the size protocol's entry points together.
//!
//! The size of a value can be computed three ways — from the live instance,
//! by scanning its encoded bytes, or as the length of its encoding — and
//! the proofs here show all three agree, that the declared minimum really
//! is a lower bound, and that an encoding determines its value uniquely.

use vstd::prelude::*;
use vstd::bytes::{lemma_auto_spec_u16_to_from_le_bytes, lemma_auto_spec_u32_to_from_le_bytes,
    lemma_auto_spec_u64_to_from_le_bytes};
use crate::error::LayoutError;
use crate::layout::{Layout, spec_min_size, spec_min_size_fields};
use crate::value::{Value, value_matches, same_value, spec_size, spec_size_seq, spec_encode,
    spec_encode_seq, lemma_encode_len, lemma_encode_seq_len};
use crate::scan::{spec_scan, spec_scan_many, spec_scan_fields};
use crate::decode::decoded_ok;

verus! {

/// Reading a concatenation out of a buffer splits into reading its parts:
/// if the bytes at `pos` are `front + back`, then `front` sits at `pos` and
/// `back` just after it.
pub proof fn lemma_concat_parts(b: Seq<u8>, pos: int, front: Seq<u8>, back: Seq<u8>)
    requires
        0 <= pos,
        pos + front.len() + back.len() <= b.len(),
        b.subrange(pos, pos + front.len() + back.len()) == front + back,
    ensures
        b.subrange(pos, pos + front.len()) == front,
        b.subrange(pos + front.len(), pos + front.len() + back.len()) == back,
{
    let whole = b.subrange(pos, pos + front.len() + back.len());
    assert(b.subrange(pos, pos + front.len()) =~= front) by {
        assert forall|k: int| 0 <= k < front.len() implies b.subrange(
            pos,
            pos + front.len(),
        )[k] == front[k] by {
            assert((front + back)[k] == front[k]);
            assert(whole[k] == b[pos + k]);
        }
    }
    assert(b.subrange(pos + front.len(), pos + front.len() + back.len()) =~= back) by {
        assert forall|k: int| 0 <= k < back.len() implies b.subrange(
            pos + front.len(),
            pos + front.len() + back.len(),
        )[k] == back[k] by {
            assert((front + back)[k + front.len()] == back[k]);
            assert(whole[k + front.len()] == b[pos + front.len() + k]);
        }
    }
}

/// Two equal concatenations with equally long fronts have equal fronts and
/// equal backs.
pub proof fn lemma_concat_cancel(front1: Seq<u8>, back1: Seq<u8>, front2: Seq<u8>, back2: Seq<u8>)
    requires
        front1 + back1 == front2 + back2,
        front1.len() == front2.len(),
    ensures
        front1 == front2,
        back1 == back2,
{
    assert(front1 =~= front2) by {
        assert forall|k: int| 0 <= k < front1.len() implies front1[k] == front2[k] by {
            assert((front1 + back1)[k] == front1[k]);
            assert((front2 + back2)[k] == front2[k]);
        }
    }
    assert((front1 + back1).len() == front1.len() + back1.len());
    assert((front2 + back2).len() == front2.len() + back2.len());
    assert(back1.len() == back2.len());
    assert(back1 =~= back2) by {
        assert forall|k: int| 0 <= k < back1.len() implies back1[k] == back2[k] by {
            assert(back1.len() == back2.len());
            assert((front1 + back1)[k + front1.len()] == back1[k]);
            assert((front2 + back2)[k + front2.len()] == back2[k]);
        }
    }
}

/// Size agreement: scanning the encoding of a conforming value reports
/// exactly the size computed from the live instance.  `b` may hold the
/// encoding anywhere, with arbitrary bytes around it.
pub proof fn lemma_scan_size_agrees(l: Layout, v: Value, b: Seq<u8>, pos: nat)
    requires
        value_matches(v, l),
        pos + spec_size(v) <= b.len(),
        b.subrange(pos as int, (pos + spec_size(v)) as int) == spec_encode(v),
    ensures
        spec_scan(l, b, pos) == Ok::<nat, LayoutError>(spec_size(v)),
    decreases l, 0nat,
{
    lemma_auto_spec_u16_to_from_le_bytes();
    lemma_auto_spec_u32_to_from_le_bytes();
    lemma_auto_spec_u64_to_from_le_bytes();
    lemma_encode_len(v);
    match l {
        Layout::Optional(p) => {
            match v {
                Value::Optional(o) => match o {
                    Option::None => {
                        assert(b[pos as int] == b.subrange(pos as int, pos as int + 1)[0]);
                        assert(b.subrange(pos as int, pos as int + 1) =~= spec_encode(v));
                    },
                    Option::Some(inner) => {
                        lemma_encode_len(*inner);
                        assert(spec_encode(v) == seq![1u8] + spec_encode(*inner));
                        assert(seq![1u8].len() == 1);
                        lemma_concat_parts(b, pos as int, seq![1u8], spec_encode(*inner));
                        assert(b[pos as int] == b.subrange(pos as int, pos as int + 1)[0]);
                        lemma_scan_size_agrees(*p, *inner, b, pos + 1);
                    },
                },
                _ => {},
            }
        },
        Layout::List(e) => {
            match v {
                Value::List(es) => {
                    let count = es@.len();
                    lemma_encode_seq_len(es@);
                    assert(spec_encode(v) == spec_u32_prefix(count) + spec_encode_seq(es@));
                    assert(spec_u32_prefix(count).len() == 4);
                    lemma_concat_parts(b, pos as int, spec_u32_prefix(count), spec_encode_seq(es@));
                    lemma_scan_many_agrees(*e, es@, b, pos + 4);
                    assert(vstd::bytes::spec_u32_from_le_bytes(
                        b.subrange(pos as int, pos as int + 4),
                    ) == count as u32);
                },
                _ => {},
            }
        },
        Layout::Array(e, n) => {
            match v {
                Value::Array(es) => {
                    lemma_scan_many_agrees(*e, es@, b, pos);
                },
                _ => {},
            }
        },
        Layout::Record(fs) => {
            match v {
                Value::Record(vs) => {
                    lemma_scan_fields_agrees(fs@, vs@, b, pos);
                },
                _ => {},
            }
        },
        Layout::Union(variants) => {
            match v {
                Value::Union(d, vs) => {
                    lemma_encode_seq_len(vs@);
                    assert(spec_encode(v) == seq![d] + spec_encode_seq(vs@));
                    assert(seq![d].len() == 1);
                    lemma_concat_parts(b, pos as int, seq![d], spec_encode_seq(vs@));
                    assert(b[pos as int] == b.subrange(pos as int, pos as int + 1)[0]);
                    assert(b.subrange(pos as int, pos as int + 1)[0] == seq![d][0]);
                    lemma_scan_fields_agrees(variants@[d as int]@, vs@, b, pos + 1);
                },
                _ => {},
            }
        },
        _ => {},
    }
}

/// The 4-byte little-endian count prefix written for a sequence of `count`
/// elements.
pub open spec fn spec_u32_prefix(count: nat) -> Seq<u8> {
    vstd::bytes::spec_u32_to_le_bytes(count as u32)
}

/// Size agreement for a run of values of one shape, laid out consecutively
/// at `pos`.
pub proof fn lemma_scan_many_agrees(e: Layout, es: Seq<Value>, b: Seq<u8>, pos: nat)
    requires
        forall|j: int| 0 <= j < es.len() ==> value_matches(#[trigger] es[j], e),
        pos + spec_size_seq(es) <= b.len(),
        b.subrange(pos as int, (pos + spec_size_seq(es)) as int) == spec_encode_seq(es),
    ensures
        spec_scan_many(e, b, pos, es.len()) == Ok::<nat, LayoutError>(spec_size_seq(es)),
    decreases e, es.len(),
{
    if es.len() > 0 {
        let v0 = es[0];
        let rest = es.drop_first();
        lemma_encode_len(v0);
        lemma_encode_seq_len(es);
        lemma_encode_seq_len(rest);
        assert(spec_encode_seq(es) == spec_encode(v0) + spec_encode_seq(rest));
        lemma_concat_parts(b, pos as int, spec_encode(v0), spec_encode_seq(rest));
        lemma_scan_size_agrees(e, v0, b, pos);
        lemma_scan_many_agrees(e, rest, b, pos + spec_size(v0));
    }
}

/// Size agreement for a record's fields, laid out consecutively at `pos`.
pub proof fn lemma_scan_fields_agrees(fs: Seq<Layout>, vs: Seq<Value>, b: Seq<u8>, pos: nat)
    requires
        vs.len() == fs.len(),
        forall|j: int| 0 <= j < vs.len() ==> value_matches(#[trigger] vs[j], fs[j]),
        pos + spec_size_seq(vs) <= b.len(),
        b.subrange(pos as int, (pos + spec_size_seq(vs)) as int) == spec_encode_seq(vs),
    ensures
        spec_scan_fields(fs, b, pos) == Ok::<nat, LayoutError>(spec_size_seq(vs)),
    decreases fs, 0nat,
{
    if vs.len() > 0 {
        let v0 = vs[0];
        let rest = vs.drop_first();
        lemma_encode_len(v0);
        lemma_encode_seq_len(vs);
        lemma_encode_seq_len(rest);
        assert(spec_encode_seq(vs) == spec_encode(v0) + spec_encode_seq(rest));
        lemma_concat_parts(b, pos as int, spec_encode(v0), spec_encode_seq(rest));
        lemma_scan_size_agrees(fs[0], v0, b, pos);
        assert(forall|j: int|
            0 <= j < rest.len() ==> value_matches(#[trigger] rest[j], fs.drop_first()[j]));
        lemma_scan_fields_agrees(fs.drop_first(), rest, b, pos + spec_size(v0));
    }
}

/// Whether every optional part of `v` is present.  The declared minimum of
/// an optional shape includes its payload's minimum, so an absent optional
/// may be smaller than the declared minimum; everywhere else the minimum is
/// a true lower bound.
pub open spec fn all_optionals_present(v: Value) -> bool
    decreases v,
{
    match v {
        Value::U8(_) => true,
        Value::U16(_) => true,
        Value::U32(_) => true,
        Value::U64(_) => true,
        Value::Optional(o) => match o {
            Option::None => false,
            Option::Some(b) => all_optionals_present(*b),
        },
        Value::List(es) => forall|j: int|
            0 <= j < es@.len() ==> all_optionals_present(#[trigger] es@[j]),
        Value::Array(es) => forall|j: int|
            0 <= j < es@.len() ==> all_optionals_present(#[trigger] es@[j]),
        Value::Record(vs) => forall|j: int|
            0 <= j < vs@.len() ==> all_optionals_present(#[trigger] vs@[j]),
        Value::Union(_, vs) => forall|j: int|
            0 <= j < vs@.len() ==> all_optionals_present(#[trigger] vs@[j]),
    }
}

/// Minimum bound: the declared minimum size of a shape is a lower bound on
/// the true size of every conforming value whose optional parts are all
/// present.  (An absent optional occupies one byte, while the declared
/// minimum of an optional shape also counts its payload's minimum.)
pub proof fn lemma_min_size_le_actual(l: Layout, v: Value)
    requires
        value_matches(v, l),
        all_optionals_present(v),
    ensures
        spec_min_size(l) <= spec_size(v),
    decreases l, 0nat,
{
    match l {
        Layout::Optional(p) => {
            match v {
                Value::Optional(o) => match o {
                    Option::None => {},
                    Option::Some(inner) => {
                        lemma_min_size_le_actual(*p, *inner);
                    },
                },
                _ => {},
            }
        },
        Layout::Array(e, n) => {
            match v {
                Value::Array(es) => {
                    lemma_min_size_many_le(*e, es@);
                },
                _ => {},
            }
        },
        Layout::Record(fs) => {
            match v {
                Value::Record(vs) => {
                    lemma_min_size_fields_le(fs@, vs@);
                },
                _ => {},
            }
        },
        _ => {},
    }
}

/// Minimum bound for a run of values of one shape.
pub proof fn lemma_min_size_many_le(e: Layout, es: Seq<Value>)
    requires
        forall|j: int| 0 <= j < es.len() ==> value_matches(#[trigger] es[j], e),
        forall|j: int| 0 <= j < es.len() ==> all_optionals_present(#[trigger] es[j]),
    ensures
        es.len() * spec_min_size(e) <= spec_size_seq(es),
    decreases e, es.len(),
{
    if es.len() == 0 {
        assert(es.len() * spec_min_size(e) == 0) by (nonlinear_arith)
            requires es.len() == 0;
    } else {
        lemma_min_size_le_actual(e, es[0]);
        lemma_min_size_many_le(e, es.drop_first());
        assert(es.len() * spec_min_size(e) == spec_min_size(e) + (es.len() - 1) * spec_min_size(
            e,
        )) by (nonlinear_arith);
    }
}

/// Minimum bound for a record's fields.
pub proof fn lemma_min_size_fields_le(fs: Seq<Layout>, vs: Seq<Value>)
    requires
        vs.len() == fs.len(),
        forall|j: int| 0 <= j < vs.len() ==> value_matches(#[trigger] vs[j], fs[j]),
        forall|j: int| 0 <= j < vs.len() ==> all_optionals_present(#[trigger] vs[j]),
    ensures
        spec_min_size_fields(fs) <= spec_size_seq(vs),
    decreases fs, 0nat,
{
    if vs.len() > 0 {
        lemma_min_size_le_actual(fs[0], vs[0]);
        assert(forall|j: int|
            0 <= j < vs.drop_first().len() ==> value_matches(
                #[trigger] vs.drop_first()[j],
                fs.drop_first()[j],
            ));
        lemma_min_size_fields_le(fs.drop_first(), vs.drop_first());
    }
}

/// Uniqueness: two conforming values of one shape with the same encoding
/// are structurally equal.  Together with the contracts of encoding and
/// materialization this gives the round trip: materializing the encoding of
/// `v` at offset 0 yields a value structurally equal to `v`.
pub proof fn lemma_encode_injective(l: Layout, v1: Value, v2: Value)
    requires
        value_matches(v1, l),
        value_matches(v2, l),
        spec_encode(v1) == spec_encode(v2),
    ensures
        same_value(v1, v2),
    decreases l, 0nat,
{
    lemma_auto_spec_u16_to_from_le_bytes();
    lemma_auto_spec_u32_to_from_le_bytes();
    lemma_auto_spec_u64_to_from_le_bytes();
    lemma_encode_len(v1);
    lemma_encode_len(v2);
    match l {
        Layout::U8 => {
            match (v1, v2) {
                (Value::U8(x1), Value::U8(x2)) => {
                    assert(seq![x1][0] == x1);
                    assert(seq![x2][0] == x2);
                },
                _ => {},
            }
        },
        Layout::U16 => {
            match (v1, v2) {
                (Value::U16(x1), Value::U16(x2)) => {
                    assert(vstd::bytes::spec_u16_from_le_bytes(
                        vstd::bytes::spec_u16_to_le_bytes(x1),
                    ) == x1);
                    assert(vstd::bytes::spec_u16_from_le_bytes(
                        vstd::bytes::spec_u16_to_le_bytes(x2),
                    ) == x2);
                },
                _ => {},
            }
        },
        Layout::U32 => {
            match (v1, v2) {
                (Value::U32(x1), Value::U32(x2)) => {
                    assert(vstd::bytes::spec_u32_from_le_bytes(
                        vstd::bytes::spec_u32_to_le_bytes(x1),
                    ) == x1);
                    assert(vstd::bytes::spec_u32_from_le_bytes(
                        vstd::bytes::spec_u32_to_le_bytes(x2),
                    ) == x2);
                },
                _ => {},
            }
        },
        Layout::U64 => {
            match (v1, v2) {
                (Value::U64(x1), Value::U64(x2)) => {
                    assert(vstd::bytes::spec_u64_from_le_bytes(
                        vstd::bytes::spec_u64_to_le_bytes(x1),
                    ) == x1);
                    assert(vstd::bytes::spec_u64_from_le_bytes(
                        vstd::bytes::spec_u64_to_le_bytes(x2),
                    ) == x2);
                },
                _ => {},
            }
        },
        Layout::Optional(p) => {
            match (v1, v2) {
                (Value::Optional(o1), Value::Optional(o2)) => {
                    match (o1, o2) {
                        (Option::Some(b1), Option::Some(b2)) => {
                            assert(spec_encode(v1) == seq![1u8] + spec_encode(*b1));
                            assert(spec_encode(v2) == seq![1u8] + spec_encode(*b2));
                            lemma_concat_cancel(
                                seq![1u8],
                                spec_encode(*b1),
                                seq![1u8],
                                spec_encode(*b2),
                            );
                            lemma_encode_injective(*p, *b1, *b2);
                        },
                        (Option::None, Option::Some(b2)) => {
                            assert((seq![1u8] + spec_encode(*b2))[0] == 1);
                            assert(spec_encode(v1)[0] == 0);
                        },
                        (Option::Some(b1), Option::None) => {
                            assert((seq![1u8] + spec_encode(*b1))[0] == 1);
                            assert(spec_encode(v2)[0] == 0);
                        },
                        (Option::None, Option::None) => {},
                    }
                },
                _ => {},
            }
        },
        Layout::List(e) => {
            match (v1, v2) {
                (Value::List(es1), Value::List(es2)) => {
                    let c1 = spec_u32_prefix(es1@.len());
                    let c2 = spec_u32_prefix(es2@.len());
                    assert(spec_encode(v1) == c1 + spec_encode_seq(es1@));
                    assert(spec_encode(v2) == c2 + spec_encode_seq(es2@));
                    assert(c1.len() == 4 && c2.len() == 4);
                    lemma_concat_cancel(c1, spec_encode_seq(es1@), c2, spec_encode_seq(es2@));
                    assert(vstd::bytes::spec_u32_from_le_bytes(c1) == es1@.len() as u32);
                    assert(vstd::bytes::spec_u32_from_le_bytes(c2) == es2@.len() as u32);
                    assert(es1@.len() == es2@.len());
                    lemma_encode_seq_injective(*e, es1@, es2@);
                },
                _ => {},
            }
        },
        Layout::Array(e, n) => {
            match (v1, v2) {
                (Value::Array(es1), Value::Array(es2)) => {
                    lemma_encode_seq_injective(*e, es1@, es2@);
                },
                _ => {},
            }
        },
        Layout::Record(fs) => {
            match (v1, v2) {
                (Value::Record(vs1), Value::Record(vs2)) => {
                    lemma_encode_fields_injective(fs@, vs1@, vs2@);
                },
                _ => {},
            }
        },
        Layout::Union(variants) => {
            match (v1, v2) {
                (Value::Union(d1, vs1), Value::Union(d2, vs2)) => {
                    assert(spec_encode(v1) == seq![d1] + spec_encode_seq(vs1@));
                    assert(spec_encode(v2) == seq![d2] + spec_encode_seq(vs2@));
                    lemma_concat_cancel(
                        seq![d1],
                        spec_encode_seq(vs1@),
                        seq![d2],
                        spec_encode_seq(vs2@),
                    );
                    assert(seq![d1][0] == d1 && seq![d2][0] == d2);
                    assert(d1 == d2);
                    lemma_encode_fields_injective(variants@[d1 as int]@, vs1@, vs2@);
                },
                _ => {},
            }
        },
    }
}

/// Uniqueness for runs of values of one shape with equal element counts.
pub proof fn lemma_encode_seq_injective(e: Layout, es1: Seq<Value>, es2: Seq<Value>)
    requires
        es1.len() == es2.len(),
        forall|j: int| 0 <= j < es1.len() ==> value_matches(#[trigger] es1[j], e),
        forall|j: int| 0 <= j < es2.len() ==> value_matches(#[trigger] es2[j], e),
        spec_encode_seq(es1) == spec_encode_seq(es2),
    ensures
        forall|j: int| 0 <= j < es1.len() ==> same_value(#[trigger] es1[j], es2[j]),
    decreases e, es1.len() + 2,
{
    if es1.len() > 0 {
        assert(spec_encode_seq(es1) == spec_encode(es1[0]) + spec_encode_seq(es1.drop_first()));
        assert(spec_encode_seq(es2) == spec_encode(es2[0]) + spec_encode_seq(es2.drop_first()));
        lemma_first_of_run_determined(e, es1[0], es2[0], es1.drop_first(), es2.drop_first());
        lemma_encode_seq_injective(e, es1.drop_first(), es2.drop_first());
        assert forall|k: int| 0 <= k < es1.len() implies same_value(
            #[trigger] es1[k],
            es2[k],
        ) by {
            if k > 0 {
                assert(es1.drop_first()[k - 1] == es1[k]);
                assert(es2.drop_first()[k - 1] == es2[k]);
                assert(same_value(es1.drop_first()[k - 1], es2.drop_first()[k - 1]));
            }
        }
    }
}

/// Uniqueness for the fields of a record shape.
pub proof fn lemma_encode_fields_injective(fs: Seq<Layout>, vs1: Seq<Value>, vs2: Seq<Value>)
    requires
        vs1.len() == fs.len(),
        vs2.len() == fs.len(),
        forall|j: int| 0 <= j < vs1.len() ==> value_matches(#[trigger] vs1[j], fs[j]),
        forall|j: int| 0 <= j < vs2.len() ==> value_matches(#[trigger] vs2[j], fs[j]),
        spec_encode_seq(vs1) == spec_encode_seq(vs2),
    ensures
        forall|j: int| 0 <= j < vs1.len() ==> same_value(#[trigger] vs1[j], vs2[j]),
    decreases fs, 0nat,
{
    if vs1.len() > 0 {
        assert(spec_encode_seq(vs1) == spec_encode(vs1[0]) + spec_encode_seq(vs1.drop_first()));
        assert(spec_encode_seq(vs2) == spec_encode(vs2[0]) + spec_encode_seq(vs2.drop_first()));
        lemma_first_of_run_determined(fs[0], vs1[0], vs2[0], vs1.drop_first(), vs2.drop_first());
        assert(forall|j: int|
            0 <= j < vs1.drop_first().len() ==> value_matches(
                #[trigger] vs1.drop_first()[j],
                fs.drop_first()[j],
            ));
        assert(forall|j: int|
            0 <= j < vs2.drop_first().len() ==> value_matches(
                #[trigger] vs2.drop_first()[j],
                fs.drop_first()[j],
            ));
        lemma_encode_fields_injective(fs.drop_first(), vs1.drop_first(), vs2.drop_first());
        assert forall|k: int| 0 <= k < vs1.len() implies same_value(
            #[trigger] vs1[k],
            vs2[k],
        ) by {
            if k > 0 {
                assert(vs1.drop_first()[k - 1] == vs1[k]);
                assert(vs2.drop_first()[k - 1] == vs2[k]);
                assert(same_value(vs1.drop_first()[k - 1], vs2.drop_first()[k - 1]));
            }
        }
    }
}

/// When two conforming values of one shape start two runs with the same
/// concatenated encoding, the leading values and the trailing encodings
/// both coincide.  Scanning fixes the leading size, so neither value can
/// swallow part of the other's tail.
pub proof fn lemma_first_of_run_determined(
    l: Layout,
    v1: Value,
    v2: Value,
    rest1: Seq<Value>,
    rest2: Seq<Value>,
)
    requires
        value_matches(v1, l),
        value_matches(v2, l),
        spec_encode(v1) + spec_encode_seq(rest1) == spec_encode(v2) + spec_encode_seq(rest2),
    ensures
        same_value(v1, v2),
        spec_encode_seq(rest1) == spec_encode_seq(rest2),
    decreases l, 1nat,
{
    let b = spec_encode(v1) + spec_encode_seq(rest1);
    lemma_encode_len(v1);
    lemma_encode_len(v2);
    assert(b.subrange(0, spec_size(v1) as int) =~= spec_encode(v1));
    assert(b.subrange(0, spec_size(v2) as int) =~= spec_encode(v2));
    lemma_scan_size_agrees(l, v1, b, 0);
    lemma_scan_size_agrees(l, v2, b, 0);
    assert(spec_size(v1) == spec_size(v2));
    assert(spec_encode(v1) =~= spec_encode(v2));
    lemma_encode_injective(l, v1, v2);
    assert(spec_encode_seq(rest1) =~= spec_encode_seq(rest2)) by {
        assert(forall|k: int|
            0 <= k < spec_encode_seq(rest1).len() ==> spec_encode_seq(rest1)[k] == b[k
                + spec_size(v1)] && b[k + spec_size(v2)] == spec_encode_seq(rest2)[k]);
    }
}


/// Round trip: materializing the encoding of `v` at offset 0 yields a
/// value structurally equal to `v`.  Whatever value `w` satisfies the
/// materialization contract over exactly the bytes `spec_encode(v)` is
/// `v` itself, up to structural equality.
pub proof fn lemma_round_trip(l: Layout, v: Value, w: Value)
    requires
        value_matches(v, l),
        decoded_ok(l, spec_encode(v), 0, w),
    ensures
        same_value(w, v),
{
    let b = spec_encode(v);
    lemma_encode_len(v);
    lemma_encode_len(w);
    assert(b.subrange(0, spec_size(v) as int) =~= b);
    lemma_scan_size_agrees(l, v, b, 0);
    assert(spec_size(w) == spec_size(v));
    assert(b.subrange(0, spec_size(w) as int) == spec_encode(w));
    assert(spec_encode(w) == spec_encode(v));
    lemma_encode_injective(l, w, v);
}

/// A successful scan of a run splits at any element boundary: the first
/// `i` elements scan on their own, and the remaining elements scan from
/// the offset just past them, with the two sizes summing to the whole.
pub proof fn lemma_scan_many_split(e: Layout, b: Seq<u8>, pos: nat, count: nat, i: nat)
    requires
        i <= count,
        spec_scan_many(e, b, pos, count) is Ok,
    ensures
        spec_scan_many(e, b, pos, i) is Ok,
        spec_scan_many(
            e,
            b,
            pos + spec_scan_many(e, b, pos, i)->Ok_0,
            (count - i) as nat,
        ) == Ok::<nat, LayoutError>(
            (spec_scan_many(e, b, pos, count)->Ok_0 - spec_scan_many(e, b, pos, i)->Ok_0) as nat,
        ),
        spec_scan_many(e, b, pos, i)->Ok_0 <= spec_scan_many(e, b, pos, count)->Ok_0,
    decreases i,
{
    if i > 0 {
        let s0 = spec_scan(e, b, pos)->Ok_0;
        lemma_scan_many_split(e, b, pos + s0, (count - 1) as nat, (i - 1) as nat);
    }
}


/// A successful scan of a run extends one element at a time: scanning one
/// more element appends exactly that element's scanned size.
pub proof fn lemma_scan_many_extend(e: Layout, b: Seq<u8>, pos: nat, i: nat)
    requires
        spec_scan_many(e, b, pos, i) is Ok,
        spec_scan(e, b, pos + spec_scan_many(e, b, pos, i)->Ok_0) is Ok,
    ensures
        spec_scan_many(e, b, pos, i + 1) == Ok::<nat, LayoutError>(
            spec_scan_many(e, b, pos, i)->Ok_0 + spec_scan(
                e,
                b,
                pos + spec_scan_many(e, b, pos, i)->Ok_0,
            )->Ok_0,
        ),
    decreases i,
{
    let total = spec_scan_many(e, b, pos, i)->Ok_0;
    let s = spec_scan(e, b, pos + total)->Ok_0;
    if i == 0 {
        assert(total == 0);
        assert(spec_scan_many(e, b, pos + s, 0nat) == Ok::<nat, LayoutError>(0 as nat));
        assert(spec_scan_many(e, b, pos, 1) == Ok::<nat, LayoutError>(s));
    } else {
        let s0 = spec_scan(e, b, pos)->Ok_0;
        let rest = spec_scan_many(e, b, pos + s0, (i - 1) as nat)->Ok_0;
        assert(total == s0 + rest);
        assert(pos + total == (pos + s0) + rest);
        lemma_scan_many_extend(e, b, pos + s0, (i - 1) as nat);
        assert(spec_scan_many(e, b, pos + s0, i) == Ok::<nat, LayoutError>(rest + s));
        assert(spec_scan_many(e, b, pos, i + 1) == Ok::<nat, LayoutError>(s0 + (rest + s)));
    }
}

/// Element ranges of a fixed-size run tile its encoded bytes.  When the
/// whole run of `n` elements at `start` scans successfully, element `i`
/// begins at `start` plus the scanned size of the elements before it and
/// ends exactly where element `i + 1` begins — so the ranges cover the
/// run's bytes in order with no gaps and no overlaps — and when the
/// element shape always occupies at least one byte, consecutive offsets
/// strictly increase.
pub proof fn lemma_element_ranges(e: Layout, b: Seq<u8>, start: nat, n: nat, i: nat)
    requires
        i < n,
        spec_scan_many(e, b, start, n) is Ok,
    ensures
        spec_scan_many(e, b, start, i) is Ok,
        spec_scan_many(e, b, start, i + 1) is Ok,
        spec_scan(e, b, start + spec_scan_many(e, b, start, i)->Ok_0) is Ok,
        spec_scan_many(e, b, start, i + 1)->Ok_0 == spec_scan_many(e, b, start, i)->Ok_0
            + spec_scan(e, b, start + spec_scan_many(e, b, start, i)->Ok_0)->Ok_0,
        layout_positive(e) ==> spec_scan_many(e, b, start, i)->Ok_0 < spec_scan_many(
            e,
            b,
            start,
            i + 1,
        )->Ok_0,
{
    lemma_scan_many_split(e, b, start, n, i);
    let si = spec_scan_many(e, b, start, i)->Ok_0;
    assert(spec_scan_many(e, b, start + si, (n - i) as nat) is Ok);
    if !(spec_scan(e, b, start + si) is Ok) {
        assert(false);
    }
    lemma_scan_many_extend(e, b, start, i);
    if layout_positive(e) {
        lemma_scan_positive(e, b, start + si);
    }
}

/// Whether every conforming value of shape `l` occupies at least one byte.
pub open spec fn layout_positive(l: Layout) -> bool
    decreases l,
{
    match l {
        Layout::U8 => true,
        Layout::U16 => true,
        Layout::U32 => true,
        Layout::U64 => true,
        Layout::Optional(_) => true,
        Layout::List(_) => true,
        Layout::Array(e, n) => n > 0 && layout_positive(*e),
        Layout::Record(fs) => exists|j: int|
            0 <= j < fs@.len() && layout_positive(#[trigger] fs@[j]),
        Layout::Union(_) => true,
    }
}

/// A successful scan of a positive shape consumes at least one byte.
pub proof fn lemma_scan_positive(l: Layout, b: Seq<u8>, pos: nat)
    requires
        layout_positive(l),
        spec_scan(l, b, pos) is Ok,
    ensures
        spec_scan(l, b, pos)->Ok_0 >= 1,
    decreases l, 0nat,
{
    match l {
        Layout::Array(e, n) => {
            if spec_scan(*e, b, pos) is Ok {
                lemma_scan_positive(*e, b, pos);
            } else {
                assert(spec_scan_many(*e, b, pos, n as nat) is Ok);
                assert(false);
            }
        },
        Layout::Record(fs) => {
            let j = choose|j: int| 0 <= j < fs@.len() && layout_positive(#[trigger] fs@[j]);
            lemma_scan_fields_positive(fs@, b, pos, j);
        },
        _ => {},
    }
}

/// A successful scan of a field run with a positive field consumes at
/// least one byte.
pub proof fn lemma_scan_fields_positive(fs: Seq<Layout>, b: Seq<u8>, pos: nat, j: int)
    requires
        0 <= j < fs.len(),
        layout_positive(fs[j]),
        spec_scan_fields(fs, b, pos) is Ok,
    ensures
        spec_scan_fields(fs, b, pos)->Ok_0 >= 1,
    decreases fs, 0nat,
{
    if !(spec_scan(fs[0], b, pos) is Ok) {
        assert(false);
    }
    let s0 = spec_scan(fs[0], b, pos)->Ok_0;
    if j == 0 {
        lemma_scan_positive(fs[0], b, pos);
    } else {
        assert(fs.drop_first()[j - 1] == fs[j]);
        lemma_scan_fields_positive(fs.drop_first(), b, pos + s0, j - 1);
    }
}

} // verus!
