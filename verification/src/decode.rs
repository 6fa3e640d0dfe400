//! Materializing values out of encoded bytes.
//!
//! Reading a value copies bytes into an owned [`Value`]; it is the one
//! operation of the engine that materializes.  Its contract ties the three
//! views of a value together: the returned value conforms to the requested
//! shape, its encoding is exactly the bytes that were read, and the scanned
//! size of those bytes is exactly the value's size.

use vstd::prelude::*;
use vstd::bytes::{lemma_auto_spec_u16_to_from_le_bytes, lemma_auto_spec_u32_to_from_le_bytes,
    lemma_auto_spec_u64_to_from_le_bytes};
use vstd::bytes::{u16_from_le_bytes, u32_from_le_bytes, u64_from_le_bytes};
use vstd::slice::slice_subrange;
use crate::error::LayoutError;
use crate::layout::Layout;
use crate::value::{Value, value_matches, spec_encodable, spec_size, spec_size_seq, spec_encode,
    spec_encode_seq, lemma_encode_len, lemma_size_seq_split, lemma_encode_seq_split};
use crate::scan::{spec_scan, spec_scan_many, spec_scan_fields, lemma_scan_in_bounds};

verus! {

/// What materializing at `pos` guarantees when it succeeds with `v`: the
/// value conforms to the shape, scanning the same bytes reports exactly the
/// value's size, and the bytes read are exactly the value's encoding.
pub open spec fn decoded_ok(l: Layout, b: Seq<u8>, pos: nat, v: Value) -> bool {
    &&& value_matches(v, l)
    &&& spec_encodable(v)
    &&& spec_scan(l, b, pos) == Ok::<nat, LayoutError>(spec_size(v))
    &&& pos + spec_size(v) <= b.len() ==> b.subrange(
        pos as int,
        (pos + spec_size(v)) as int,
    ) == spec_encode(v)
    &&& pos + spec_size(v) > b.len() ==> spec_size(v) == 0
}

/// Materializes the value of shape `l` at `pos`, also reporting how many
/// bytes its encoding occupies.
pub fn read_value_sized(l: &Layout, bytes: &[u8], pos: usize) -> (r: Result<
    (Value, usize),
    LayoutError,
>)
    ensures
        r matches Ok(p) ==> decoded_ok(*l, bytes@, pos as nat, p.0) && p.1 == spec_size(p.0),
        r matches Err(e) ==> spec_scan(*l, bytes@, pos as nat) == Err::<nat, LayoutError>(e),
    decreases *l, 0nat,
{
    proof {
        lemma_auto_spec_u16_to_from_le_bytes();
        lemma_auto_spec_u32_to_from_le_bytes();
        lemma_auto_spec_u64_to_from_le_bytes();
    }
    match l {
        Layout::U8 => {
            if pos < bytes.len() {
                let v = Value::U8(bytes[pos]);
                proof {
                    assert(bytes@.subrange(pos as int, pos as int + 1) =~= spec_encode(v));
                }
                Ok((v, 1))
            } else {
                Err(LayoutError::TruncatedInput)
            }
        },
        Layout::U16 => {
            if bytes.len() >= 2 && pos <= bytes.len() - 2 {
                let x = u16_from_le_bytes(slice_subrange(bytes, pos, pos + 2));
                Ok((Value::U16(x), 2))
            } else {
                Err(LayoutError::TruncatedInput)
            }
        },
        Layout::U32 => {
            if bytes.len() >= 4 && pos <= bytes.len() - 4 {
                let x = u32_from_le_bytes(slice_subrange(bytes, pos, pos + 4));
                Ok((Value::U32(x), 4))
            } else {
                Err(LayoutError::TruncatedInput)
            }
        },
        Layout::U64 => {
            if bytes.len() >= 8 && pos <= bytes.len() - 8 {
                let x = u64_from_le_bytes(slice_subrange(bytes, pos, pos + 8));
                Ok((Value::U64(x), 8))
            } else {
                Err(LayoutError::TruncatedInput)
            }
        },
        Layout::Optional(p) => {
            if pos < bytes.len() {
                let flag = bytes[pos];
                if flag == 0 {
                    let v = Value::Optional(None);
                    proof {
                        assert(bytes@.subrange(pos as int, pos as int + 1) =~= spec_encode(v));
                    }
                    Ok((v, 1))
                } else if flag == 1 {
                    match read_value_sized(&**p, bytes, pos + 1) {
                        Ok((inner, s)) => {
                            let ghost gi = inner;
                            let v = Value::Optional(Some(Box::new(inner)));
                            proof {
                                lemma_scan_in_bounds(**p, bytes@, (pos + 1) as nat);
                                assert(spec_size(v) == 1 + spec_size(gi));
                                if pos + 1 + spec_size(gi) <= bytes@.len() {
                                    assert(bytes@.subrange(
                                        pos as int,
                                        pos as int + 1 + spec_size(gi),
                                    ) =~= seq![1u8] + bytes@.subrange(
                                        pos as int + 1,
                                        pos as int + 1 + spec_size(gi),
                                    ));
                                }
                            }
                            Ok((v, 1 + s))
                        },
                        Err(err) => Err(err),
                    }
                } else {
                    Err(LayoutError::InvalidDiscriminant)
                }
            } else {
                Err(LayoutError::TruncatedInput)
            }
        },
        Layout::List(e) => {
            if bytes.len() >= 4 && pos <= bytes.len() - 4 {
                let count = u32_from_le_bytes(slice_subrange(bytes, pos, pos + 4));
                match read_many(&**e, bytes, pos + 4, count as usize) {
                    Ok((es, s)) => {
                        let ghost ges = es@;
                        let v = Value::List(es);
                        proof {
                            assert(spec_size(v) == 4 + spec_size_seq(ges));
                            assert(ges.len() == count as nat);
                            if pos + 4 + spec_size_seq(ges) <= bytes@.len() {
                                assert(bytes@.subrange(
                                    pos as int,
                                    pos as int + 4 + spec_size_seq(ges),
                                ) =~= bytes@.subrange(pos as int, pos as int + 4) + bytes@.subrange(
                                    pos as int + 4,
                                    pos as int + 4 + spec_size_seq(ges),
                                ));
                            }
                        }
                        Ok((v, 4 + s))
                    },
                    Err(err) => Err(err),
                }
            } else {
                Err(LayoutError::TruncatedInput)
            }
        },
        Layout::Array(e, n) => {
            match read_many(&**e, bytes, pos, *n) {
                Ok((es, s)) => Ok((Value::Array(es), s)),
                Err(err) => Err(err),
            }
        },
        Layout::Record(fs) => {
            match read_fields(fs, bytes, pos) {
                Ok((vs, s)) => Ok((Value::Record(vs), s)),
                Err(err) => Err(err),
            }
        },
        Layout::Union(variants) => {
            if pos < bytes.len() {
                let d = bytes[pos];
                if (d as usize) < variants.len() {
                    match read_fields(&variants[d as usize], bytes, pos + 1) {
                        Ok((vs, s)) => {
                            let ghost gvs = vs@;
                            let v = Value::Union(d, vs);
                            proof {
                                assert(spec_size(v) == 1 + spec_size_seq(gvs));
                                if pos + 1 + spec_size_seq(gvs) <= bytes@.len() {
                                    assert(bytes@.subrange(
                                        pos as int,
                                        pos as int + 1 + spec_size_seq(gvs),
                                    ) =~= seq![d] + bytes@.subrange(
                                        pos as int + 1,
                                        pos as int + 1 + spec_size_seq(gvs),
                                    ));
                                }
                            }
                            Ok((v, 1 + s))
                        },
                        Err(err) => Err(err),
                    }
                } else {
                    Err(LayoutError::InvalidDiscriminant)
                }
            } else {
                Err(LayoutError::TruncatedInput)
            }
        },
    }
}

/// What materializing a run of values guarantees when it succeeds.
pub open spec fn decoded_many_ok(
    e: Layout,
    b: Seq<u8>,
    pos: nat,
    count: nat,
    es: Seq<Value>,
) -> bool {
    &&& es.len() == count
    &&& forall|j: int|
        0 <= j < es.len() ==> value_matches(#[trigger] es[j], e) && spec_encodable(es[j])
    &&& spec_scan_many(e, b, pos, count) == Ok::<nat, LayoutError>(spec_size_seq(es))
    &&& pos + spec_size_seq(es) <= b.len() ==> b.subrange(
        pos as int,
        (pos + spec_size_seq(es)) as int,
    ) == spec_encode_seq(es)
    &&& pos + spec_size_seq(es) > b.len() ==> spec_size_seq(es) == 0
}

/// Materializes `count` consecutive values of shape `e` starting at `pos`.
pub fn read_many(e: &Layout, bytes: &[u8], pos: usize, count: usize) -> (r: Result<
    (Vec<Value>, usize),
    LayoutError,
>)
    ensures
        r matches Ok(p) ==> decoded_many_ok(*e, bytes@, pos as nat, count as nat, p.0@)
            && p.1 == spec_size_seq(p.0@),
        r matches Err(err) ==> spec_scan_many(*e, bytes@, pos as nat, count as nat) == Err::<
            nat,
            LayoutError,
        >(err),
    decreases *e, count,
{
    let ghost full = spec_scan_many(*e, bytes@, pos as nat, count as nat);
    let blen = bytes.len();
    let mut es: Vec<Value> = Vec::new();
    let mut i: usize = 0;
    let mut cur: usize = pos;
    while i < count
        invariant
            i <= count,
            blen == bytes@.len(),
            es@.len() == i,
            pos <= cur,
            cur <= blen || cur == pos,
            full == spec_scan_many(*e, bytes@, pos as nat, count as nat),
            forall|j: int|
                0 <= j < es@.len() ==> value_matches(#[trigger] es@[j], *e) && spec_encodable(
                    es@[j],
                ),
            spec_size_seq(es@) == cur - pos,
            cur <= blen ==> bytes@.subrange(pos as int, cur as int) == spec_encode_seq(es@),
            match spec_scan_many(*e, bytes@, cur as nat, (count - i) as nat) {
                Ok(s) => full == Ok::<nat, LayoutError>((cur - pos + s) as nat),
                Err(err) => full == Err::<nat, LayoutError>(err),
            },
        decreases count - i,
    {
        match read_value_sized(e, bytes, cur) {
            Ok((v, s)) => {
                let ghost gv = v;
                let ghost old_es = es@;
                let ghost old_cur = cur;
                proof {
                    lemma_scan_in_bounds(*e, bytes@, cur as nat);
                    lemma_encode_len(gv);
                    lemma_size_seq_split(old_es.push(gv), old_es.len() as int);
                    lemma_encode_seq_split(old_es.push(gv), old_es.len() as int);
                    assert(old_es.push(gv).take(old_es.len() as int) =~= old_es);
                    let tail = old_es.push(gv).skip(old_es.len() as int);
                    assert(tail =~= seq![gv]);
                    assert(tail.drop_first() =~= Seq::<Value>::empty());
                    assert(spec_size_seq(tail) == spec_size(gv) + spec_size_seq(
                        tail.drop_first(),
                    ));
                    assert(spec_encode_seq(tail) == spec_encode(tail[0]) + spec_encode_seq(
                        tail.drop_first(),
                    ));
                    assert(spec_encode_seq(tail) =~= spec_encode(gv));
                    assert(spec_size_seq(old_es.push(gv)) == spec_size_seq(old_es) + spec_size(
                        gv,
                    ));
                    assert(spec_encode_seq(old_es.push(gv)) == spec_encode_seq(old_es)
                        + spec_encode(gv));
                    if old_cur + spec_size(gv) <= blen {
                        assert(bytes@.subrange(
                            pos as int,
                            old_cur as int + spec_size(gv),
                        ) =~= bytes@.subrange(pos as int, old_cur as int) + bytes@.subrange(
                            old_cur as int,
                            old_cur as int + spec_size(gv),
                        ));
                    }
                }
                es.push(v);
                cur = cur + s;
                i = i + 1;
            },
            Err(err) => {
                return Err(err);
            },
        }
    }
    Ok((es, cur - pos))
}

/// What materializing the fields of a record shape guarantees when it
/// succeeds.
pub open spec fn decoded_fields_ok(fs: Seq<Layout>, b: Seq<u8>, pos: nat, vs: Seq<Value>) -> bool {
    &&& vs.len() == fs.len()
    &&& forall|j: int|
        0 <= j < vs.len() ==> value_matches(#[trigger] vs[j], fs[j]) && spec_encodable(vs[j])
    &&& spec_scan_fields(fs, b, pos) == Ok::<nat, LayoutError>(spec_size_seq(vs))
    &&& pos + spec_size_seq(vs) <= b.len() ==> b.subrange(
        pos as int,
        (pos + spec_size_seq(vs)) as int,
    ) == spec_encode_seq(vs)
    &&& pos + spec_size_seq(vs) > b.len() ==> spec_size_seq(vs) == 0
}

/// Materializes one value per declared field shape, in declared order,
/// starting at `pos`.
pub fn read_fields(fs: &Vec<Layout>, bytes: &[u8], pos: usize) -> (r: Result<
    (Vec<Value>, usize),
    LayoutError,
>)
    ensures
        r matches Ok(p) ==> decoded_fields_ok(fs@, bytes@, pos as nat, p.0@) && p.1
            == spec_size_seq(p.0@),
        r matches Err(err) ==> spec_scan_fields(fs@, bytes@, pos as nat) == Err::<
            nat,
            LayoutError,
        >(err),
    decreases *fs, 0nat,
{
    let ghost full = spec_scan_fields(fs@, bytes@, pos as nat);
    let blen = bytes.len();
    let mut vs: Vec<Value> = Vec::new();
    let mut i: usize = 0;
    let mut cur: usize = pos;
    proof {
        assert(fs@.skip(0) =~= fs@);
    }
    while i < fs.len()
        invariant
            i <= fs@.len(),
            blen == bytes@.len(),
            vs@.len() == i,
            pos <= cur,
            cur <= blen || cur == pos,
            full == spec_scan_fields(fs@, bytes@, pos as nat),
            forall|j: int|
                0 <= j < vs@.len() ==> value_matches(#[trigger] vs@[j], fs@[j]) && spec_encodable(
                    vs@[j],
                ),
            spec_size_seq(vs@) == cur - pos,
            cur <= blen ==> bytes@.subrange(pos as int, cur as int) == spec_encode_seq(vs@),
            match spec_scan_fields(fs@.skip(i as int), bytes@, cur as nat) {
                Ok(s) => full == Ok::<nat, LayoutError>((cur - pos + s) as nat),
                Err(err) => full == Err::<nat, LayoutError>(err),
            },
        decreases fs@.len() - i,
    {
        proof {
            assert(fs@.skip(i as int)[0] == fs@[i as int]);
            assert(fs@.skip(i as int).drop_first() =~= fs@.skip(i as int + 1));
        }
        match read_value_sized(&fs[i], bytes, cur) {
            Ok((v, s)) => {
                let ghost gv = v;
                let ghost old_vs = vs@;
                let ghost old_cur = cur;
                proof {
                    lemma_scan_in_bounds(fs@[i as int], bytes@, cur as nat);
                    lemma_encode_len(gv);
                    lemma_size_seq_split(old_vs.push(gv), old_vs.len() as int);
                    lemma_encode_seq_split(old_vs.push(gv), old_vs.len() as int);
                    assert(old_vs.push(gv).take(old_vs.len() as int) =~= old_vs);
                    let tail = old_vs.push(gv).skip(old_vs.len() as int);
                    assert(tail =~= seq![gv]);
                    assert(tail.drop_first() =~= Seq::<Value>::empty());
                    assert(spec_size_seq(tail) == spec_size(gv) + spec_size_seq(
                        tail.drop_first(),
                    ));
                    assert(spec_encode_seq(tail) == spec_encode(tail[0]) + spec_encode_seq(
                        tail.drop_first(),
                    ));
                    assert(spec_encode_seq(tail) =~= spec_encode(gv));
                    assert(spec_size_seq(old_vs.push(gv)) == spec_size_seq(old_vs) + spec_size(
                        gv,
                    ));
                    assert(spec_encode_seq(old_vs.push(gv)) == spec_encode_seq(old_vs)
                        + spec_encode(gv));
                    if old_cur + spec_size(gv) <= blen {
                        assert(bytes@.subrange(
                            pos as int,
                            old_cur as int + spec_size(gv),
                        ) =~= bytes@.subrange(pos as int, old_cur as int) + bytes@.subrange(
                            old_cur as int,
                            old_cur as int + spec_size(gv),
                        ));
                    }
                }
                vs.push(v);
                cur = cur + s;
                i = i + 1;
            },
            Err(err) => {
                return Err(err);
            },
        }
    }
    proof {
        assert(fs@.skip(fs@.len() as int) =~= Seq::<Layout>::empty());
    }
    Ok((vs, cur - pos))
}

/// Materializes the value of shape `l` encoded at `pos` in `bytes`.
///
/// On success the returned value conforms to `l` and its encoding is
/// exactly the scanned bytes; on failure the error is exactly the scanning
/// error at `pos`.
pub fn read_value(l: &Layout, bytes: &[u8], pos: usize) -> (r: Result<Value, LayoutError>)
    ensures
        r matches Ok(v) ==> decoded_ok(*l, bytes@, pos as nat, v),
        r matches Err(e) ==> spec_scan(*l, bytes@, pos as nat) == Err::<nat, LayoutError>(e),
{
    match read_value_sized(l, bytes, pos) {
        Ok((v, _)) => Ok(v),
        Err(err) => Err(err),
    }
}

} // verus!
