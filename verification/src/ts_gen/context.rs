//! The build context that collects declarations for a generated client.
//!
//! A [`DataContext`] accumulates account types, constants and program
//! methods, refusing duplicate names, and finally renders them as one
//! client source file.  Entries are kept in insertion order.

use vstd::prelude::*;
use vstd::string::StringExecFns;
use crate::ts_gen::types::{TsTypeGen, spec_dec};
use crate::ts_gen::types::u64_to_dec;

verus! {

/// Named client-text definitions, in insertion order.
pub type TsTypesCache = Vec<(String, String)>;

/// A type that can render itself as a set of instruction accounts: a value
/// type, registration of generated definitions, and the code that fills an
/// account-meta list from a value of it.
///
/// The crate states contracts for this trait but leaves implementing it to
/// declarations of the embedding program.
pub trait TsInstructionAccountGen {
    /// The client-side type of values of this declaration.
    spec fn spec_value_type() -> Seq<char>;

    /// The cache after this declaration has registered its generated type
    /// definitions.
    spec fn spec_generate_type(cache: Seq<(String, String)>) -> Seq<(String, String)>;

    /// The client code that appends the account metas of `accounts`.
    spec fn spec_account_metas(accounts: Seq<char>, writable: bool, signer: bool) -> Seq<char>;

    /// Renders the client-side type of values of this declaration.
    fn value_type() -> (r: String)
        ensures
            r@ == Self::spec_value_type(),
    ;

    /// Registers this declaration's generated type definitions and returns
    /// its value type.
    fn generate_type(cache: &mut TsTypesCache) -> (r: String)
        ensures
            final(cache)@ == Self::spec_generate_type(old(cache)@),
            r@ == Self::spec_value_type(),
    ;

    /// Renders the client code that appends the account metas of
    /// `accounts`.
    fn get_account_metas(accounts: &str, writable: bool, signer: bool) -> (r: String)
        ensures
            r@ == Self::spec_account_metas(accounts@, writable, signer),
    ;
}


/// The empty instruction-account declaration: no accounts at all.
///
/// It renders the empty client object type and appends no account metas;
/// it is also the crate's own check that the trait's contracts can be met.
pub struct NoAccounts;

impl TsInstructionAccountGen for NoAccounts {
    open spec fn spec_value_type() -> Seq<char> {
        ("{}")@
    }

    open spec fn spec_generate_type(cache: Seq<(String, String)>) -> Seq<(String, String)> {
        cache
    }

    open spec fn spec_account_metas(accounts: Seq<char>, writable: bool, signer: bool) -> Seq<
        char,
    > {
        Seq::empty()
    }

    fn value_type() -> (r: String) {
        "{}".to_owned()
    }

    fn generate_type(cache: &mut TsTypesCache) -> (r: String) {
        Self::value_type()
    }

    fn get_account_metas(accounts: &str, writable: bool, signer: bool) -> (r: String) {
        let r = String::new();
        proof {
            assert(r@ =~= Self::spec_account_metas(accounts@, writable, signer));
        }
        r
    }
}

/// Whether some string in `v` reads `k`.
pub open spec fn contains_str(v: Seq<String>, k: Seq<char>) -> bool {
    exists|j: int| 0 <= j < v.len() && v[j]@ == k
}

/// Whether some entry of `v` is keyed `k`.
pub open spec fn contains_key(v: Seq<(String, String)>, k: Seq<char>) -> bool {
    exists|j: int| 0 <= j < v.len() && v[j].0@ == k
}

/// Whether some constant entry of `v` is named `k`.
pub open spec fn contains_const_key(v: Seq<(String, (String, String))>, k: Seq<char>) -> bool {
    exists|j: int| 0 <= j < v.len() && v[j].0@ == k
}

fn vec_contains_str(v: &Vec<String>, k: &String) -> (r: bool)
    ensures
        r == contains_str(v@, k@),
{
    let mut j: usize = 0;
    while j < v.len()
        invariant
            j <= v@.len(),
            forall|i: int| 0 <= i < j ==> v@[i]@ != k@,
        decreases v@.len() - j,
    {
        if v[j].eq(k) {
            return true;
        }
        j = j + 1;
    }
    false
}

fn vec_contains_key(v: &Vec<(String, String)>, k: &String) -> (r: bool)
    ensures
        r == contains_key(v@, k@),
{
    let mut j: usize = 0;
    while j < v.len()
        invariant
            j <= v@.len(),
            forall|i: int| 0 <= i < j ==> v@[i].0@ != k@,
        decreases v@.len() - j,
    {
        if v[j].0.eq(k) {
            return true;
        }
        j = j + 1;
    }
    false
}

fn vec_contains_const_key(v: &Vec<(String, (String, String))>, k: &String) -> (r: bool)
    ensures
        r == contains_const_key(v@, k@),
{
    let mut j: usize = 0;
    while j < v.len()
        invariant
            j <= v@.len(),
            forall|i: int| 0 <= i < j ==> v@[i].0@ != k@,
        decreases v@.len() - j,
    {
        if v[j].0.eq(k) {
            return true;
        }
        j = j + 1;
    }
    false
}

/// The duplicate-name message for `kind` and `name`:
/// `"Duplicated <kind>: '<name>'"`.
pub open spec fn spec_dup_msg(prefix: Seq<char>, name: Seq<char>) -> Seq<char> {
    prefix + name + ("'")@
}

fn dup_msg(prefix: &str, name: &String) -> (r: String)
    ensures
        r@ == spec_dup_msg(prefix@, name@),
{
    prefix.to_owned().concat(name.as_str()).concat("'")
}

/// Holds everything needed to build the generated client file.
pub struct DataContext {
    /// The name the generated client is registered under.
    pub program_name: String,
    /// Names already claimed by account declarations.
    pub accounts: Vec<String>,
    /// Generated type definitions, keyed by name.
    pub account_types: TsTypesCache,
    /// Generated schema definitions, keyed by name.
    pub account_schemas: TsTypesCache,
    /// Generated program methods, keyed by name.
    pub program_methods: Vec<(String, String)>,
    /// Named constants: name to value type and value literal.
    pub constants: Vec<(String, (String, String))>,
}

/// The client code of one program method without arguments.
pub open spec fn spec_program_method(name: Seq<char>, vt: Seq<char>, d: nat, metas: Seq<char>)
    -> Seq<char> {
    ("export function ")@ + name + ("(accounts: ")@ + vt + (") {\n    const data = Buffer.from([")@
        + spec_dec(d) + ("]);\n    const accountMetas: solana.AccountMeta[] = [];\n\n    ")@
        + metas + (
    "\n\n    return new solana.TransactionInstruction({\n        keys: accountMetas,\n        programId: ID,\n        data\n    });\n}\n")@
}

/// The client code of one program method that takes serialized arguments.
pub open spec fn spec_program_method_with_args(
    name: Seq<char>,
    vt: Seq<char>,
    at: Seq<char>,
    d: nat,
    metas: Seq<char>,
) -> Seq<char> {
    ("export function ")@ + name + ("(accounts: ")@ + vt + (", args: ")@ + at + (
    ") {\n    const argsBuffer = args.serialize();\n    const data = Buffer.concat([Buffer.from([")@
        + spec_dec(d) + (
    "]), argsBuffer]);\n    const accountMetas: solana.AccountMeta[] = [];\n\n    ")@ + metas + (
    "\n\n    return new solana.TransactionInstruction({\n        keys: accountMetas,\n        programId: ID,\n        data\n    });\n}\n")@
}

impl DataContext {
    /// Creates an empty build context.
    pub fn new() -> (r: DataContext)
        ensures
            r.program_name@ == ("program")@,
            r.accounts@ =~= Seq::<String>::empty(),
            r.account_types@ =~= Seq::<(String, String)>::empty(),
            r.account_schemas@ =~= Seq::<(String, String)>::empty(),
            r.program_methods@ =~= Seq::<(String, String)>::empty(),
            r.constants@ =~= Seq::<(String, (String, String))>::empty(),
    {
        DataContext {
            program_name: "program".to_owned(),
            accounts: Vec::new(),
            account_types: Vec::new(),
            account_schemas: Vec::new(),
            program_methods: Vec::new(),
            constants: Vec::new(),
        }
    }

    /// Renames the context.
    pub fn set_context_name(&mut self, name: &str) -> (r: Result<(), String>)
        ensures
            r is Ok,
            final(self).program_name@ == name@,
            final(self).accounts == old(self).accounts,
            final(self).account_types == old(self).account_types,
            final(self).account_schemas == old(self).account_schemas,
            final(self).program_methods == old(self).program_methods,
            final(self).constants == old(self).constants,
    {
        self.program_name = name.to_owned();
        Ok(())
    }

    /// Registers an account type: its generated type and schema definitions
    /// are added to the caches, unless its name is already claimed.
    pub fn add_account<T: TsTypeGen>(&mut self) -> (r: Result<(), String>)
        ensures
            contains_str(old(self).accounts@, T::spec_value_type()) ==> (r matches Err(m) && m@
                == spec_dup_msg(("Duplicated account name: '")@, T::spec_value_type()) && *final(self) == *old(self)),
            !contains_str(old(self).accounts@, T::spec_value_type()) ==> (r is Ok && final(self).account_types@ == T::spec_generate_type(old(self).account_types@) && final(self).account_schemas@ == T::spec_generate_schema(old(self).account_schemas@) && final(self).program_name == old(self).program_name && final(self).accounts == old(self).accounts
                && final(self).program_methods == old(self).program_methods && final(self).constants
                == old(self).constants),
    {
        let name = T::value_type();
        if vec_contains_str(&self.accounts, &name) {
            return Err(dup_msg("Duplicated account name: '", &name));
        }
        T::generate_type(&mut self.account_types);
        T::generate_schema(&mut self.account_schemas);
        Ok(())
    }

    /// Registers a named constant with its value type and value literal,
    /// unless the name is already taken.
    pub fn add_constant<T: TsTypeGen>(&mut self, name: &str, value: T) -> (r: Result<(), String>)
        ensures
            contains_const_key(old(self).constants@, name@) ==> (r matches Err(m) && m@
                == spec_dup_msg(("Duplicated constant name: '")@, name@) && *final(self) == *old(self)),
            !contains_const_key(old(self).constants@, name@) ==> (r is Ok && final(self).constants@.len() == old(self).constants@.len() + 1 && final(self).constants@.subrange(
                0,
                old(self).constants@.len() as int,
            ) == old(self).constants@ && final(self).constants@.last().0@ == name@ && final(self).constants@.last().1.0@ == T::spec_value_type() && final(self).constants@.last().1.1@
                == value.spec_value() && final(self).program_name == old(self).program_name && final(self).accounts == old(self).accounts && final(self).account_types == old(self).account_types
                && final(self).account_schemas == old(self).account_schemas && final(self).program_methods == old(self).program_methods),
    {
        let key = name.to_owned();
        if vec_contains_const_key(&self.constants, &key) {
            return Err(dup_msg("Duplicated constant name: '", &key));
        }
        let vt = T::value_type();
        let vv = value.value();
        self.constants.push((key, (vt, vv)));
        Ok(())
    }

    /// Registers an instruction-account declaration: its generated type
    /// definitions are added to the type cache, unless its name is already
    /// claimed.
    pub fn add_instruction_account<T: TsInstructionAccountGen>(&mut self) -> (r: Result<(), String>)
        ensures
            contains_str(old(self).accounts@, T::spec_value_type()) ==> (r matches Err(m) && m@
                == spec_dup_msg(("Duplicated instruction account: '")@, T::spec_value_type())
                && *final(self) == *old(self)),
            !contains_str(old(self).accounts@, T::spec_value_type()) ==> (r is Ok && final(self).account_types@ == T::spec_generate_type(old(self).account_types@) && final(self).program_name == old(self).program_name && final(self).accounts == old(self).accounts
                && final(self).account_schemas == old(self).account_schemas && final(self).program_methods == old(self).program_methods && final(self).constants == old(self).constants),
    {
        let name = T::value_type();
        if vec_contains_str(&self.accounts, &name) {
            return Err(dup_msg("Duplicated instruction account: '", &name));
        }
        T::generate_type(&mut self.account_types);
        Ok(())
    }

    /// Registers a program method without arguments under `name` with the
    /// given wire discriminant, unless the name is already taken.
    pub fn add_program_method<T: TsInstructionAccountGen>(
        &mut self,
        name: &str,
        discriminant: u8,
    ) -> (r: Result<(), String>)
        ensures
            contains_key(old(self).program_methods@, name@) ==> (r matches Err(m) && m@
                == spec_dup_msg(("Duplicated program method: '")@, name@) && *final(self) == *old(self)),
            !contains_key(old(self).program_methods@, name@) ==> (r is Ok && final(self).program_methods@.len() == old(self).program_methods@.len() + 1 && final(self).program_methods@.subrange(0, old(self).program_methods@.len() as int) == old(self).program_methods@ && final(self).program_methods@.last().0@ == name@ && final(self).program_methods@.last().1@ == spec_program_method(
                name@,
                T::spec_value_type(),
                discriminant as nat,
                T::spec_account_metas(("accounts")@, false, false),
            ) && final(self).program_name == old(self).program_name && final(self).accounts == old(self).accounts && final(self).account_types == old(self).account_types && final(self).account_schemas == old(self).account_schemas && final(self).constants == old(self).constants),
    {
        let key = name.to_owned();
        if vec_contains_key(&self.program_methods, &key) {
            return Err(dup_msg("Duplicated program method: '", &key));
        }
        let vt = T::value_type();
        let metas = T::get_account_metas("accounts", false, false);
        let disc = u64_to_dec(discriminant as u64);
        let method = "export function ".to_owned().concat(key.as_str()).concat(
            "(accounts: ",
        ).concat(vt.as_str()).concat(") {\n    const data = Buffer.from([").concat(
            disc.as_str(),
        ).concat("]);\n    const accountMetas: solana.AccountMeta[] = [];\n\n    ").concat(
            metas.as_str(),
        ).concat(
            "\n\n    return new solana.TransactionInstruction({\n        keys: accountMetas,\n        programId: ID,\n        data\n    });\n}\n",
        );
        self.program_methods.push((key, method));
        Ok(())
    }

    /// Registers a program method that takes serialized arguments under
    /// `name` with the given wire discriminant, unless the name is already
    /// taken.
    pub fn add_program_method_with_args<T: TsInstructionAccountGen, A: TsTypeGen>(
        &mut self,
        name: &str,
        discriminant: u8,
    ) -> (r: Result<(), String>)
        ensures
            contains_key(old(self).program_methods@, name@) ==> (r matches Err(m) && m@
                == spec_dup_msg(("Duplicated program method: '")@, name@) && *final(self) == *old(self)),
            !contains_key(old(self).program_methods@, name@) ==> (r is Ok && final(self).program_methods@.len() == old(self).program_methods@.len() + 1 && final(self).program_methods@.subrange(0, old(self).program_methods@.len() as int) == old(self).program_methods@ && final(self).program_methods@.last().0@ == name@ && final(self).program_methods@.last().1@ == spec_program_method_with_args(
                name@,
                T::spec_value_type(),
                A::spec_value_type(),
                discriminant as nat,
                T::spec_account_metas(("accounts")@, false, false),
            ) && final(self).program_name == old(self).program_name && final(self).accounts == old(self).accounts && final(self).account_types == old(self).account_types && final(self).account_schemas == old(self).account_schemas && final(self).constants == old(self).constants),
    {
        let key = name.to_owned();
        if vec_contains_key(&self.program_methods, &key) {
            return Err(dup_msg("Duplicated program method: '", &key));
        }
        let vt = T::value_type();
        let at = A::value_type();
        let metas = T::get_account_metas("accounts", false, false);
        let disc = u64_to_dec(discriminant as u64);
        let method = "export function ".to_owned().concat(key.as_str()).concat(
            "(accounts: ",
        ).concat(vt.as_str()).concat(", args: ").concat(at.as_str()).concat(
            ") {\n    const argsBuffer = args.serialize();\n    const data = Buffer.concat([Buffer.from([",
        ).concat(disc.as_str()).concat(
            "]), argsBuffer]);\n    const accountMetas: solana.AccountMeta[] = [];\n\n    ",
        ).concat(metas.as_str()).concat(
            "\n\n    return new solana.TransactionInstruction({\n        keys: accountMetas,\n        programId: ID,\n        data\n    });\n}\n",
        );
        self.program_methods.push((key, method));
        Ok(())
    }
}

/// The constants section of the client file, in insertion order.
pub open spec fn spec_constants_text(s: Seq<(String, (String, String))>) -> Seq<char>
    decreases s,
{
    if s.len() == 0 {
        Seq::empty()
    } else {
        ("export const ")@ + s[0].0@ + (": ")@ + s[0].1.0@ + (" = ")@ + s[0].1.1@ + (";\n")@
            + spec_constants_text(s.drop_first())
    }
}

/// The concatenated definition texts of `s`, in insertion order.
pub open spec fn spec_defs_text(s: Seq<(String, String)>) -> Seq<char>
    decreases s,
{
    if s.len() == 0 {
        Seq::empty()
    } else {
        s[0].1@ + spec_defs_text(s.drop_first())
    }
}

/// The import header of every generated client file.
pub open spec fn spec_ts_imports() -> Seq<char> {
    ("import * as solana from '@solana/web3.js';")@ + (
    "import * as fnk from '@suri-project/fankor/dist/esm';")@ + ("import BN from 'bn.js';")@
}

/// The whole client file rendered from a context: imports, constants,
/// type definitions, schema definitions, then program methods.
pub open spec fn spec_ts_file(c: DataContext) -> Seq<char> {
    spec_ts_imports() + spec_constants_text(c.constants@) + spec_defs_text(c.account_types@)
        + spec_defs_text(c.account_schemas@) + spec_defs_text(c.program_methods@)
}

impl DataContext {
    /// Renders the whole client file from the data collected so far.
    pub fn build_ts_file(&mut self) -> (r: String)
        ensures
            *final(self) == *old(self),
            r@ == spec_ts_file(*old(self)),
    {
        let mut buffer = "import * as solana from '@solana/web3.js';".to_owned();
        buffer.append("import * as fnk from '@suri-project/fankor/dist/esm';");
        buffer.append("import BN from 'bn.js';");
        proof {
            assert(buffer@ =~= spec_ts_imports());
        }

        let ghost base0 = buffer@;
        let mut i: usize = 0;
        proof {
            assert(self.constants@.skip(0) =~= self.constants@);
        }
        while i < self.constants.len()
            invariant
                i <= self.constants@.len(),
                *self == *old(self),
                buffer@ + spec_constants_text(self.constants@.skip(i as int)) =~= base0
                    + spec_constants_text(self.constants@),
            decreases self.constants@.len() - i,
        {
            proof {
                assert(self.constants@.skip(i as int)[0] == self.constants@[i as int]);
                assert(self.constants@.skip(i as int).drop_first() =~= self.constants@.skip(
                    i as int + 1,
                ));
            }
            let ghost before = buffer@;
            buffer.append("export const ");
            buffer.append(self.constants[i].0.as_str());
            buffer.append(": ");
            buffer.append(self.constants[i].1.0.as_str());
            buffer.append(" = ");
            buffer.append(self.constants[i].1.1.as_str());
            buffer.append(";\n");
            proof {
                assert(buffer@ + spec_constants_text(self.constants@.skip(i as int + 1)) =~= before
                    + spec_constants_text(self.constants@.skip(i as int)));
            }
            i = i + 1;
        }
        proof {
            assert(self.constants@.skip(self.constants@.len() as int) =~= Seq::<
                (String, (String, String)),
            >::empty());
            assert(buffer@ =~= base0 + spec_constants_text(self.constants@));
        }

        let ghost base1 = buffer@;
        let mut j: usize = 0;
        proof {
            assert(self.account_types@.skip(0) =~= self.account_types@);
        }
        while j < self.account_types.len()
            invariant
                j <= self.account_types@.len(),
                *self == *old(self),
                buffer@ + spec_defs_text(self.account_types@.skip(j as int)) =~= base1
                    + spec_defs_text(self.account_types@),
            decreases self.account_types@.len() - j,
        {
            proof {
                assert(self.account_types@.skip(j as int)[0] == self.account_types@[j as int]);
                assert(self.account_types@.skip(j as int).drop_first() =~= self.account_types@.skip(
                    j as int + 1,
                ));
            }
            let ghost before = buffer@;
            buffer.append(self.account_types[j].1.as_str());
            proof {
                assert(buffer@ + spec_defs_text(self.account_types@.skip(j as int + 1)) =~= before
                    + spec_defs_text(self.account_types@.skip(j as int)));
            }
            j = j + 1;
        }
        proof {
            assert(self.account_types@.skip(self.account_types@.len() as int) =~= Seq::<
                (String, String),
            >::empty());
            assert(buffer@ =~= base1 + spec_defs_text(self.account_types@));
        }

        let ghost base2 = buffer@;
        let mut k: usize = 0;
        proof {
            assert(self.account_schemas@.skip(0) =~= self.account_schemas@);
        }
        while k < self.account_schemas.len()
            invariant
                k <= self.account_schemas@.len(),
                *self == *old(self),
                buffer@ + spec_defs_text(self.account_schemas@.skip(k as int)) =~= base2
                    + spec_defs_text(self.account_schemas@),
            decreases self.account_schemas@.len() - k,
        {
            proof {
                assert(self.account_schemas@.skip(k as int)[0] == self.account_schemas@[k as int]);
                assert(self.account_schemas@.skip(k as int).drop_first()
                    =~= self.account_schemas@.skip(k as int + 1));
            }
            let ghost before = buffer@;
            buffer.append(self.account_schemas[k].1.as_str());
            proof {
                assert(buffer@ + spec_defs_text(self.account_schemas@.skip(k as int + 1)) =~= before
                    + spec_defs_text(self.account_schemas@.skip(k as int)));
            }
            k = k + 1;
        }
        proof {
            assert(self.account_schemas@.skip(self.account_schemas@.len() as int) =~= Seq::<
                (String, String),
            >::empty());
            assert(buffer@ =~= base2 + spec_defs_text(self.account_schemas@));
        }

        let ghost base3 = buffer@;
        let mut m: usize = 0;
        proof {
            assert(self.program_methods@.skip(0) =~= self.program_methods@);
        }
        while m < self.program_methods.len()
            invariant
                m <= self.program_methods@.len(),
                *self == *old(self),
                buffer@ + spec_defs_text(self.program_methods@.skip(m as int)) =~= base3
                    + spec_defs_text(self.program_methods@),
            decreases self.program_methods@.len() - m,
        {
            proof {
                assert(self.program_methods@.skip(m as int)[0] == self.program_methods@[m as int]);
                assert(self.program_methods@.skip(m as int).drop_first()
                    =~= self.program_methods@.skip(m as int + 1));
            }
            let ghost before = buffer@;
            buffer.append(self.program_methods[m].1.as_str());
            proof {
                assert(buffer@ + spec_defs_text(self.program_methods@.skip(m as int + 1)) =~= before
                    + spec_defs_text(self.program_methods@.skip(m as int)));
            }
            m = m + 1;
        }
        proof {
            assert(self.program_methods@.skip(self.program_methods@.len() as int) =~= Seq::<
                (String, String),
            >::empty());
            assert(buffer@ =~= base3 + spec_defs_text(self.program_methods@));
            assert(buffer@ =~= spec_ts_file(*old(self)));
        }

        buffer
    }
}

} // verus!
