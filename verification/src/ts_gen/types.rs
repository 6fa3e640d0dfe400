//! Client-type rendering for the scalar wrapper types.
//!
//! Each supported type renders three pieces of client text: the literal for
//! a concrete value, the client-side type of such values, and the name of
//! its serialization schema.  Composite declarations may also register
//! generated definitions in a cache of named definitions.

use vstd::prelude::*;
use vstd::string::StringExecFns;
use crate::ts_gen::context::TsTypesCache;

verus! {

/// The decimal digit character for `d`.
pub open spec fn spec_dec_digit(d: nat) -> char {
    if d == 0 {
        '0'
    } else if d == 1 {
        '1'
    } else if d == 2 {
        '2'
    } else if d == 3 {
        '3'
    } else if d == 4 {
        '4'
    } else if d == 5 {
        '5'
    } else if d == 6 {
        '6'
    } else if d == 7 {
        '7'
    } else if d == 8 {
        '8'
    } else {
        '9'
    }
}

/// The decimal rendering of `n`, most significant digit first, with no
/// leading zeros (except for zero itself).
pub open spec fn spec_dec(n: nat) -> Seq<char>
    decreases n,
{
    if n < 10 {
        seq![spec_dec_digit(n)]
    } else {
        spec_dec(n / 10) + seq![spec_dec_digit(n % 10)]
    }
}

/// The decimal rendering of a signed number: a leading minus sign for
/// negative values.
pub open spec fn spec_dec_signed(n: int) -> Seq<char> {
    if n < 0 {
        seq!['-'] + spec_dec((-n) as nat)
    } else {
        spec_dec(n as nat)
    }
}

/// The one-character string for decimal digit `d`.
fn dec_digit_str(d: u64) -> (r: &'static str)
    requires
        d < 10,
    ensures
        r@ == seq![spec_dec_digit(d as nat)],
{
    proof {
        reveal_strlit("0");
        reveal_strlit("1");
        reveal_strlit("2");
        reveal_strlit("3");
        reveal_strlit("4");
        reveal_strlit("5");
        reveal_strlit("6");
        reveal_strlit("7");
        reveal_strlit("8");
        reveal_strlit("9");
    }
    if d == 0 {
        "0"
    } else if d == 1 {
        "1"
    } else if d == 2 {
        "2"
    } else if d == 3 {
        "3"
    } else if d == 4 {
        "4"
    } else if d == 5 {
        "5"
    } else if d == 6 {
        "6"
    } else if d == 7 {
        "7"
    } else if d == 8 {
        "8"
    } else {
        "9"
    }
}

/// Renders `n` in decimal.
pub fn u64_to_dec(n: u64) -> (r: String)
    ensures
        r@ == spec_dec(n as nat),
    decreases n,
{
    if n < 10 {
        dec_digit_str(n).to_owned()
    } else {
        let high = u64_to_dec(n / 10);
        let low = dec_digit_str(n % 10);
        high.concat(low)
    }
}

/// Renders `n` in decimal, with a leading minus sign when negative.
pub fn i64_to_dec(n: i64) -> (r: String)
    ensures
        r@ == spec_dec_signed(n as int),
{
    if n >= 0 {
        u64_to_dec(n as u64)
    } else {
        let m: u64 = ((-(n + 1)) as u64) + 1;
        proof {
            reveal_strlit("-");
            assert(("-")@ =~= seq!['-']);
        }
        let digits = u64_to_dec(m);
        let r = "-".to_owned().concat(digits.as_str());
        proof {
            assert(r@ =~= spec_dec_signed(n as int));
        }
        r
    }
}

/// A type that can render itself for the generated client: a value
/// literal, a value type, a schema name, and registration of any generated
/// definitions into a cache.
pub trait TsTypeGen {
    /// The client literal for this value.
    spec fn spec_value(&self) -> Seq<char>;

    /// The client-side type of values of this type.
    spec fn spec_value_type() -> Seq<char>;

    /// The name of this type's serialization schema.
    spec fn spec_schema_name() -> Seq<char>;

    /// The cache after this type has registered its generated type
    /// definitions.
    spec fn spec_generate_type(cache: Seq<(String, String)>) -> Seq<(String, String)>;

    /// The cache after this type has registered its generated schema
    /// definitions.
    spec fn spec_generate_schema(cache: Seq<(String, String)>) -> Seq<(String, String)>;

    /// Renders the client literal for this value.
    fn value(&self) -> (r: String)
        ensures
            r@ == self.spec_value(),
    ;

    /// Renders the client-side type of values of this type.
    fn value_type() -> (r: String)
        ensures
            r@ == Self::spec_value_type(),
    ;

    /// Renders the name of this type's serialization schema.
    fn schema_name() -> (r: String)
        ensures
            r@ == Self::spec_schema_name(),
    ;

    /// Registers this type's generated type definitions and returns its
    /// value type.
    fn generate_type(cache: &mut TsTypesCache) -> (r: String)
        ensures
            final(cache)@ == Self::spec_generate_type(old(cache)@),
            r@ == Self::spec_value_type(),
    ;

    /// Registers this type's generated schema definitions and returns its
    /// schema name.
    fn generate_schema(cache: &mut TsTypesCache) -> (r: String)
        ensures
            final(cache)@ == Self::spec_generate_schema(old(cache)@),
            r@ == Self::spec_schema_name(),
    ;
}

/// A signed integer with a variable-length client encoding.
#[derive(Debug, PartialEq, Eq, Structural)]
pub struct FnkInt(pub i64);

/// An unsigned integer with a variable-length client encoding.
#[derive(Debug, PartialEq, Eq, Structural)]
pub struct FnkUInt(pub u64);

/// An inclusive range of signed integers.
#[derive(Debug, PartialEq, Eq, Structural)]
pub struct FnkRange {
    pub from: i64,
    pub to: i64,
}

/// An inclusive range of unsigned integers.
#[derive(Debug, PartialEq, Eq, Structural)]
pub struct FnkURange {
    pub from: u64,
    pub to: u64,
}

impl FnkRange {
    /// The inclusive lower bound.
    pub open spec fn spec_from(&self) -> i64 {
        self.from
    }

    /// The inclusive upper bound.
    pub open spec fn spec_to(&self) -> i64 {
        self.to
    }

    /// Creates the inclusive range `from..=to`.
    pub fn new(from: i64, to: i64) -> (r: FnkRange)
        requires
            from <= to,
        ensures
            r.spec_from() == from,
            r.spec_to() == to,
    {
        FnkRange { from, to }
    }

    /// The inclusive lower bound.
    pub fn from(&self) -> (r: i64)
        ensures
            r == self.spec_from(),
    {
        self.from
    }

    /// The inclusive upper bound.
    pub fn to(&self) -> (r: i64)
        ensures
            r == self.spec_to(),
    {
        self.to
    }
}

impl FnkURange {
    /// The inclusive lower bound.
    pub open spec fn spec_from(&self) -> u64 {
        self.from
    }

    /// The inclusive upper bound.
    pub open spec fn spec_to(&self) -> u64 {
        self.to
    }

    /// Creates the inclusive range `from..=to`.
    pub fn new(from: u64, to: u64) -> (r: FnkURange)
        requires
            from <= to,
        ensures
            r.spec_from() == from,
            r.spec_to() == to,
    {
        FnkURange { from, to }
    }

    /// The inclusive lower bound.
    pub fn from(&self) -> (r: u64)
        ensures
            r == self.spec_from(),
    {
        self.from
    }

    /// The inclusive upper bound.
    pub fn to(&self) -> (r: u64)
        ensures
            r == self.spec_to(),
    {
        self.to
    }
}

impl TsTypeGen for FnkInt {
    open spec fn spec_value(&self) -> Seq<char> {
        ("new BN(\"")@ + spec_dec_signed(self.0 as int) + ("\")")@
    }

    open spec fn spec_value_type() -> Seq<char> {
        ("BN | bigint | number")@
    }

    open spec fn spec_schema_name() -> Seq<char> {
        ("FnkInt")@
    }

    open spec fn spec_generate_type(cache: Seq<(String, String)>) -> Seq<(String, String)> {
        cache
    }

    open spec fn spec_generate_schema(cache: Seq<(String, String)>) -> Seq<(String, String)> {
        cache
    }

    fn value(&self) -> (r: String) {
        let digits = i64_to_dec(self.0);
        "new BN(\"".to_owned().concat(digits.as_str()).concat("\")")
    }

    fn value_type() -> (r: String) {
        "BN | bigint | number".to_owned()
    }

    fn schema_name() -> (r: String) {
        "FnkInt".to_owned()
    }

    fn generate_type(cache: &mut TsTypesCache) -> (r: String) {
        Self::value_type()
    }

    fn generate_schema(cache: &mut TsTypesCache) -> (r: String) {
        Self::schema_name()
    }
}

impl TsTypeGen for FnkUInt {
    open spec fn spec_value(&self) -> Seq<char> {
        ("new BN(\"")@ + spec_dec(self.0 as nat) + ("\")")@
    }

    open spec fn spec_value_type() -> Seq<char> {
        ("BN | bigint | number")@
    }

    open spec fn spec_schema_name() -> Seq<char> {
        ("FnkUInt")@
    }

    open spec fn spec_generate_type(cache: Seq<(String, String)>) -> Seq<(String, String)> {
        cache
    }

    open spec fn spec_generate_schema(cache: Seq<(String, String)>) -> Seq<(String, String)> {
        cache
    }

    fn value(&self) -> (r: String) {
        let digits = u64_to_dec(self.0);
        "new BN(\"".to_owned().concat(digits.as_str()).concat("\")")
    }

    fn value_type() -> (r: String) {
        "BN | bigint | number".to_owned()
    }

    fn schema_name() -> (r: String) {
        "FnkUInt".to_owned()
    }

    fn generate_type(cache: &mut TsTypesCache) -> (r: String) {
        Self::value_type()
    }

    fn generate_schema(cache: &mut TsTypesCache) -> (r: String) {
        Self::schema_name()
    }
}

impl TsTypeGen for FnkRange {
    open spec fn spec_value(&self) -> Seq<char> {
        ("new FnkRange(new BN(\"")@ + spec_dec_signed(self.spec_from() as int) + ("\"), new BN(\"")@
            + spec_dec_signed(self.spec_to() as int) + ("\"))")@
    }

    open spec fn spec_value_type() -> Seq<char> {
        ("FnkRange")@
    }

    open spec fn spec_schema_name() -> Seq<char> {
        ("TFnkRange")@
    }

    open spec fn spec_generate_type(cache: Seq<(String, String)>) -> Seq<(String, String)> {
        cache
    }

    open spec fn spec_generate_schema(cache: Seq<(String, String)>) -> Seq<(String, String)> {
        cache
    }

    fn value(&self) -> (r: String) {
        let from_digits = i64_to_dec(self.from);
        let to_digits = i64_to_dec(self.to);
        "new FnkRange(new BN(\"".to_owned().concat(from_digits.as_str()).concat(
            "\"), new BN(\"",
        ).concat(to_digits.as_str()).concat("\"))")
    }

    fn value_type() -> (r: String) {
        "FnkRange".to_owned()
    }

    fn schema_name() -> (r: String) {
        "TFnkRange".to_owned()
    }

    fn generate_type(cache: &mut TsTypesCache) -> (r: String) {
        Self::value_type()
    }

    fn generate_schema(cache: &mut TsTypesCache) -> (r: String) {
        Self::schema_name()
    }
}

impl TsTypeGen for FnkURange {
    open spec fn spec_value(&self) -> Seq<char> {
        ("new FnkURange(new BN(\"")@ + spec_dec(self.spec_from() as nat) + ("\"), new BN(\"")@
            + spec_dec(self.spec_to() as nat) + ("\"))")@
    }

    open spec fn spec_value_type() -> Seq<char> {
        ("FnkURange")@
    }

    open spec fn spec_schema_name() -> Seq<char> {
        ("TFnkURange")@
    }

    open spec fn spec_generate_type(cache: Seq<(String, String)>) -> Seq<(String, String)> {
        cache
    }

    open spec fn spec_generate_schema(cache: Seq<(String, String)>) -> Seq<(String, String)> {
        cache
    }

    fn value(&self) -> (r: String) {
        let from_digits = u64_to_dec(self.from);
        let to_digits = u64_to_dec(self.to);
        "new FnkURange(new BN(\"".to_owned().concat(from_digits.as_str()).concat(
            "\"), new BN(\"",
        ).concat(to_digits.as_str()).concat("\"))")
    }

    fn value_type() -> (r: String) {
        "FnkURange".to_owned()
    }

    fn schema_name() -> (r: String) {
        "TFnkURange".to_owned()
    }

    fn generate_type(cache: &mut TsTypesCache) -> (r: String) {
        Self::value_type()
    }

    fn generate_schema(cache: &mut TsTypesCache) -> (r: String) {
        Self::schema_name()
    }
}

} // verus!
