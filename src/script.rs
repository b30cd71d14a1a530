//! The script of a fund request: a JSON object whose `fund` member is the
//! requested amount, written as a decimal string (`{"fund": "1000"}`).
use vstd::prelude::*;
use crate::decimal::{decimal_value, parse_decimal};

verus! {

/// The text of the string member `fund` of the JSON object that `s` holds,
/// if `s` is such an object with such a member.
pub uninterp spec fn json_fund_field(s: Seq<char>) -> Option<Seq<char>>;

pub open spec fn opt_string_view(o: Option<String>) -> Option<Seq<char>> {
    match o {
        Some(t) => Some(t@),
        None => None,
    }
}

/// The amount that a `fund` member's text states, if it states one that fits in `u128`.
pub open spec fn amount_of_field(field: Option<Seq<char>>) -> Option<u128> {
    match field {
        Some(f) => match decimal_value(f, u128::MAX as nat) {
            Some(v) => Some(v as u128),
            None => None,
        },
        None => None,
    }
}

/// The amount that a fund request's script asks for.
pub open spec fn script_fund(s: Seq<char>) -> Option<u128> {
    amount_of_field(json_fund_field(s))
}

/// Relies on serde_json::from_str (into a `serde_json::Value`) and on the
/// value's `get` and `as_str`: the text of the `fund` member, which depends
/// on the script's characters alone.
#[verifier::external_body]
fn fund_field(script: &str) -> (r: Option<String>)
    ensures
        opt_string_view(r) == json_fund_field(script@),
{
    match serde_json::from_str::<serde_json::Value>(script) {
        Ok(v) => v.get("fund").and_then(|f| f.as_str()).map(|f| f.to_string()),
        Err(_) => None,
    }
}

/// Reads the amount from the text of a script's `fund` member, as a
/// `near_sdk::json_types::U128` is read: a decimal string of a `u128`.
pub fn fund_amount(field: Option<String>) -> (r: Option<u128>)
    ensures
        r == amount_of_field(opt_string_view(field)),
{
    match field {
        Some(f) => parse_decimal(f.as_str(), u128::MAX),
        None => None,
    }
}

/// The amount that a fund request's script asks for, if it states one.
pub fn requested_fund(script: &str) -> (r: Option<u128>)
    ensures
        r == script_fund(script@),
{
    let field = fund_field(script);
    fund_amount(field)
}

} // verus!
