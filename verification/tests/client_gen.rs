//! The client build context and the scalar wrapper types' rendering.

use fankor::ts_gen::context::DataContext;
use fankor::ts_gen::context::NoAccounts;
use fankor::ts_gen::types::FnkInt;
use fankor::ts_gen::types::FnkRange;
use fankor::ts_gen::types::FnkUInt;
use fankor::ts_gen::types::FnkURange;
use fankor::ts_gen::types::TsTypeGen;
use fankor::ts_gen::types::i64_to_dec;
use fankor::ts_gen::types::u64_to_dec;

#[test]
fn decimal_rendering() {
    assert_eq!(u64_to_dec(0), "0");
    assert_eq!(u64_to_dec(7), "7");
    assert_eq!(u64_to_dec(10), "10");
    assert_eq!(u64_to_dec(90210), "90210");
    assert_eq!(u64_to_dec(u64::MAX), "18446744073709551615");
    assert_eq!(i64_to_dec(0), "0");
    assert_eq!(i64_to_dec(-1), "-1");
    assert_eq!(i64_to_dec(42), "42");
    assert_eq!(i64_to_dec(i64::MIN), "-9223372036854775808");
    assert_eq!(i64_to_dec(i64::MAX), "9223372036854775807");
}

#[test]
fn scalar_wrapper_rendering() {
    assert_eq!(FnkInt(-12).value(), "new BN(\"-12\")");
    assert_eq!(FnkInt::value_type(), "BN | bigint | number");
    assert_eq!(FnkInt::schema_name(), "FnkInt");
    assert_eq!(FnkUInt(500).value(), "new BN(\"500\")");
    assert_eq!(FnkUInt::value_type(), "BN | bigint | number");
    assert_eq!(FnkUInt::schema_name(), "FnkUInt");
}

#[test]
fn range_wrapper_rendering() {
    let r = FnkRange::new(-3, 8);
    assert_eq!(r.from(), -3);
    assert_eq!(r.to(), 8);
    assert_eq!(r.value(), "new FnkRange(new BN(\"-3\"), new BN(\"8\"))");
    assert_eq!(FnkRange::value_type(), "FnkRange");
    assert_eq!(FnkRange::schema_name(), "TFnkRange");
    let u = FnkURange::new(2, 9);
    assert_eq!(u.from(), 2);
    assert_eq!(u.to(), 9);
    assert_eq!(u.value(), "new FnkURange(new BN(\"2\"), new BN(\"9\"))");
    assert_eq!(FnkURange::value_type(), "FnkURange");
    assert_eq!(FnkURange::schema_name(), "TFnkURange");
}

#[test]
fn context_names_and_constants() {
    let mut ctx = DataContext::new();
    assert_eq!(ctx.program_name, "program");
    ctx.set_context_name("my_program").unwrap();
    assert_eq!(ctx.program_name, "my_program");

    ctx.add_constant("LIMIT", FnkUInt(10)).unwrap();
    assert_eq!(
        ctx.add_constant("LIMIT", FnkUInt(11)),
        Err("Duplicated constant name: 'LIMIT'".to_string()),
    );
    assert_eq!(ctx.constants.len(), 1);
    assert_eq!(ctx.constants[0].0, "LIMIT");
    assert_eq!(ctx.constants[0].1.0, "BN | bigint | number");
    assert_eq!(ctx.constants[0].1.1, "new BN(\"10\")");
}

#[test]
fn context_accounts_and_duplicates() {
    let mut ctx = DataContext::new();
    ctx.add_account::<FnkUInt>().unwrap();
    // The claimed-names set is filled by the embedding program; a claimed
    // name is refused.
    ctx.accounts.push("BN | bigint | number".to_string());
    assert_eq!(
        ctx.add_account::<FnkUInt>(),
        Err("Duplicated account name: 'BN | bigint | number'".to_string()),
    );
    assert_eq!(
        ctx.add_instruction_account::<NoAccounts>().ok(),
        Some(()),
    );
    ctx.accounts.push("{}".to_string());
    assert_eq!(
        ctx.add_instruction_account::<NoAccounts>(),
        Err("Duplicated instruction account: '{}'".to_string()),
    );
}

#[test]
fn program_methods_and_build() {
    let mut ctx = DataContext::new();
    ctx.add_program_method::<NoAccounts>("initialize", 3).unwrap();
    assert_eq!(
        ctx.add_program_method::<NoAccounts>("initialize", 4),
        Err("Duplicated program method: 'initialize'".to_string()),
    );
    ctx.add_program_method_with_args::<NoAccounts, FnkUInt>("update", 7).unwrap();
    assert_eq!(ctx.program_methods.len(), 2);
    let first = &ctx.program_methods[0].1;
    assert!(first.starts_with("export function initialize(accounts: {}) {"));
    assert!(first.contains("Buffer.from([3])"));
    let second = &ctx.program_methods[1].1;
    assert!(second.contains("args: BN | bigint | number"));
    assert!(second.contains("Buffer.from([7]), argsBuffer"));

    ctx.add_constant("VERSION", FnkInt(2)).unwrap();
    let file = ctx.build_ts_file();
    assert!(file.starts_with("import * as solana from '@solana/web3.js';"));
    assert!(file.contains("import BN from 'bn.js';"));
    assert!(file.contains("export const VERSION: BN | bigint | number = new BN(\"2\");\n"));
    assert!(file.contains("export function initialize"));
    assert!(file.contains("export function update"));
}
