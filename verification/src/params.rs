//! Reading numbers out of the parameter mapping of a voice.
//!
//! The mapping is a `serde_json::Value`, which Verus cannot look into. What
//! this crate needs of it, the numeric members of a JSON object, is named by
//! [`json_numbers`]; the single function that touches the value is trusted to
//! agree with that name.
use vstd::prelude::*;

verus! {

/// `serde_json::Value`, opaque to the verifier.
#[verifier::external_type_specification]
#[verifier::external_body]
pub struct ExJsonValue(serde_json::Value);

/// The members of a JSON object that are numbers, by key, each as the bit
/// pattern of the double that `serde_json::Value::as_f64` gives for it.
/// A value that is no object has no such members.
pub uninterp spec fn json_numbers(value: serde_json::Value) -> Map<Seq<char>, u64>;

/// The number stored under `key`, or `fallback` where the value is no object,
/// has no such key, or holds something other than a number there.
pub open spec fn number_or(value: serde_json::Value, key: Seq<char>, fallback: u64) -> u64 {
    if json_numbers(value).contains_key(key) {
        json_numbers(value)[key]
    } else {
        fallback
    }
}

/// Calls `serde_json::Value::get` with a string key and, on the member found,
/// `serde_json::Value::as_f64`, and hands the double out as its bit pattern.
///
/// Trusted: `get` finds a member only in an object that has the key, and
/// `as_f64` gives a double for a number and for nothing else.
#[verifier::external_body]
fn number_member(value: &serde_json::Value, key: &str) -> (found: Option<u64>)
    ensures
        found == (if json_numbers(*value).contains_key(key@) {
            Some(json_numbers(*value)[key@])
        } else {
            None
        }),
{
    value.get(key).and_then(|member| member.as_f64()).map(|number| number.to_bits())
}

/// The number stored under `key` as the bit pattern of a double, or
/// `fallback` where there is none. Never fails.
pub fn number_param(value: &serde_json::Value, key: &str, fallback: u64) -> (bits: u64)
    ensures
        bits == number_or(*value, key@, fallback),
{
    match number_member(value, key) {
        Some(bits) => bits,
        None => fallback,
    }
}

} // verus!
