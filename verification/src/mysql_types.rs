//! The types and calls of the `mysql` crate that the library works with.
//! Each item here is believed by Verus without proof.
use vstd::prelude::*;

verus! {

/// A single MySQL value (`mysql::Value`); opaque to the verifier.
#[verifier::external_type_specification]
#[verifier::external_body]
pub struct ExValue(mysql::Value);

/// The parameters of a statement (`mysql::Params`); opaque to the verifier.
#[verifier::external_type_specification]
#[verifier::external_body]
pub struct ExParams(mysql::Params);

/// A pool of connections to a MySQL server (`mysql::Pool`); opaque to the verifier.
#[verifier::external_type_specification]
#[verifier::external_body]
pub struct ExPool(mysql::Pool);

/// `<mysql::Value as Clone>::clone`. `Value` derives `Clone`, so the copy is
/// equal to the original; that is all this claims.
pub assume_specification[ <mysql::Value as Clone>::clone ](v: &mysql::Value) -> (r: mysql::Value)
    ensures
        r == *v,
;

/// `mysql::Params::Empty`, the parameters of a statement that takes none.
/// Nothing about the value is stated.
#[verifier::external_body]
pub fn empty_params() -> mysql::Params {
    mysql::Params::Empty
}

/// `<mysql::Params as From<Vec<(&str, &str)>>>::from` on the single pair
/// `("table_name", table_name)`, which builds named parameters. The result
/// holds a hash map seeded per process, so nothing about it is stated.
#[verifier::external_body]
pub fn table_name_params(table_name: &str) -> mysql::Params {
    mysql::Params::from(vec![("table_name", table_name)])
}

/// Whether a byte is an ASCII decimal digit.
pub open spec fn is_digit_byte(b: u8) -> bool {
    0x30 <= b <= 0x39
}

/// The number that a sequence of ASCII decimal digits spells.
pub open spec fn digits_value(digits: Seq<u8>) -> nat
    decreases digits.len(),
{
    if digits.len() == 0 {
        0
    } else {
        digits_value(digits.drop_last()) * 10 + (digits.last() - 0x30) as nat
    }
}

/// The number that `bytes` spell as decimal text with an optional leading
/// `+` or `-`, when it is a `u32`: at least one digit after the sign, only
/// digits, and in range; behind a `-` only zeros are in range.
pub open spec fn mysql_u32_from_text(bytes: Seq<u8>) -> Option<u32> {
    let signed = bytes.len() > 0 && (bytes[0] == 0x2b || bytes[0] == 0x2d);
    let negative = bytes.len() > 0 && bytes[0] == 0x2d;
    let digits = if signed {
        bytes.drop_first()
    } else {
        bytes
    };
    if digits.len() == 0 || !(forall|i: int| 0 <= i < digits.len() ==> is_digit_byte(#[trigger] digits[i])) {
        None
    } else if negative {
        if digits_value(digits) == 0 {
            Some(0u32)
        } else {
            None
        }
    } else if digits_value(digits) <= u32::MAX {
        Some(digits_value(digits) as u32)
    } else {
        None
    }
}

/// `mysql::from_value_opt::<u32>(mysql::Value::Bytes(bytes))`, the conversion
/// that `Row::get::<u32>` applies to a cell of the text protocol; `None` where
/// the conversion fails. For bytes it parses with `btoi::btoi::<u32>`, whose
/// documented result `mysql_u32_from_text` states.
#[verifier::external_body]
pub fn u32_from_text(bytes: &Vec<u8>) -> (r: Option<u32>)
    ensures
        r == mysql_u32_from_text(bytes@),
{
    mysql::from_value_opt::<u32>(mysql::Value::Bytes(bytes.clone())).ok()
}

} // verus!
