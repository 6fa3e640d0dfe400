//! Declared shapes and the static half of the size protocol.
//!
//! A [`Layout`] describes the encoded shape of a type: which bytes it
//! occupies and how variable-length parts are delimited.  The minimum size of
//! a layout is the definition-time constant obtained by taking every
//! variable part at its declared minimum: an empty sequence still pays its
//! 4-byte count prefix, a tagged union always pays its discriminant byte,
//! and an optional value pays its presence flag plus the payload minimum.

use vstd::prelude::*;

verus! {

/// The declared shape of an encodable type.
///
/// Scalars are fixed little-endian widths.  `Optional` is a one-byte
/// presence flag (0 = absent, 1 = present) followed by the payload when
/// present.  `List` is a 4-byte little-endian element count followed by the
/// concatenated element encodings.  `Array` is exactly `n` concatenated
/// element encodings with no prefix.  `Record` is its fields' encodings in
/// declared order.  `Union` is a one-byte discriminant selecting a variant,
/// followed by that variant's fields in declared order.
#[derive(Debug, PartialEq, Eq)]
pub enum Layout {
    U8,
    U16,
    U32,
    U64,
    Optional(Box<Layout>),
    List(Box<Layout>),
    Array(Box<Layout>, usize),
    Record(Vec<Layout>),
    Union(Vec<Vec<Layout>>),
}

/// The minimum encoded size of a value of shape `l`, assuming every
/// variable part is encoded at its declared minimum.
pub open spec fn spec_min_size(l: Layout) -> nat
    decreases l,
{
    match l {
        Layout::U8 => 1,
        Layout::U16 => 2,
        Layout::U32 => 4,
        Layout::U64 => 8,
        Layout::Optional(p) => 1 + spec_min_size(*p),
        Layout::List(_) => 4,
        Layout::Array(e, n) => (n as nat) * spec_min_size(*e),
        Layout::Record(fields) => spec_min_size_fields(fields@),
        Layout::Union(_) => 1,
    }
}

/// The sum of the minimum sizes of `fields`, in order.
pub open spec fn spec_min_size_fields(fields: Seq<Layout>) -> nat
    decreases fields,
{
    if fields.len() == 0 {
        0
    } else {
        spec_min_size(fields[0]) + spec_min_size_fields(fields.drop_first())
    }
}

/// Splitting a field list anywhere splits its minimum-size sum.
pub proof fn lemma_min_size_fields_split(fields: Seq<Layout>, i: int)
    requires
        0 <= i <= fields.len(),
    ensures
        spec_min_size_fields(fields) == spec_min_size_fields(fields.take(i))
            + spec_min_size_fields(fields.skip(i)),
    decreases i,
{
    if i == 0 {
        assert(fields.take(0) =~= Seq::<Layout>::empty());
        assert(fields.skip(0) =~= fields);
    } else {
        lemma_min_size_fields_split(fields.drop_first(), i - 1);
        assert(fields.take(i).drop_first() =~= fields.drop_first().take(i - 1));
        assert(fields.drop_first().skip(i - 1) =~= fields.skip(i));
        assert(fields.take(i)[0] == fields[0]);
    }
}

/// Extending a prefix of a field list by one field adds that field's
/// minimum size to the prefix sum.
pub proof fn lemma_min_size_fields_take_succ(fields: Seq<Layout>, i: int)
    requires
        0 <= i < fields.len(),
    ensures
        spec_min_size_fields(fields.take(i + 1)) == spec_min_size_fields(fields.take(i))
            + spec_min_size(fields[i]),
{
    lemma_min_size_fields_split(fields.take(i + 1), i);
    assert(fields.take(i + 1).take(i) =~= fields.take(i));
    let tail = fields.take(i + 1).skip(i);
    assert(tail =~= seq![fields[i]]);
    assert(tail.drop_first() =~= Seq::<Layout>::empty());
    assert(spec_min_size_fields(tail) == spec_min_size(fields[i])
        + spec_min_size_fields(tail.drop_first()));
    assert(spec_min_size_fields(tail.drop_first()) == 0);
}

/// Computes the minimum encoded size of a value of shape `l`.
///
/// This is the definition-time constant of the size protocol: no bytes are
/// read.
pub fn minimum_size(l: &Layout) -> (r: usize)
    requires
        spec_min_size(*l) <= usize::MAX,
    ensures
        r == spec_min_size(*l),
    decreases *l,
{
    match l {
        Layout::U8 => 1,
        Layout::U16 => 2,
        Layout::U32 => 4,
        Layout::U64 => 8,
        Layout::Optional(p) => 1 + minimum_size(&**p),
        Layout::List(_) => 4,
        Layout::Array(e, n) => {
            if *n == 0 {
                proof {
                    assert((*n as nat) * spec_min_size(**e) == 0) by (nonlinear_arith)
                        requires *n == 0;
                }
                0
            } else {
                proof {
                    assert(spec_min_size(**e) <= (*n as nat) * spec_min_size(**e)) by (nonlinear_arith)
                        requires *n >= 1;
                }
                let m = minimum_size(&**e);
                *n * m
            }
        },
        Layout::Record(fields) => min_size_of_fields(fields),
        Layout::Union(_) => 1,
    }
}

/// Computes the summed minimum size of a record's field list.
pub fn min_size_of_fields(fields: &Vec<Layout>) -> (r: usize)
    requires
        spec_min_size_fields(fields@) <= usize::MAX,
    ensures
        r == spec_min_size_fields(fields@),
    decreases *fields,
{
    let mut total: usize = 0;
    let mut i: usize = 0;
    while i < fields.len()
        invariant
            i <= fields@.len(),
            spec_min_size_fields(fields@) <= usize::MAX,
            total == spec_min_size_fields(fields@.take(i as int)),
        decreases fields@.len() - i,
    {
        proof {
            lemma_min_size_fields_take_succ(fields@, i as int);
            lemma_min_size_fields_split(fields@, i + 1);
            assert(fields@.take(fields@.len() as int) =~= fields@);
        }
        let m = minimum_size(&fields[i]);
        total = total + m;
        i = i + 1;
    }
    proof {
        assert(fields@.take(fields@.len() as int) =~= fields@);
    }
    total
}

} // verus!
