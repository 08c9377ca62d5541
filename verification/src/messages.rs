//! The error messages the library reports.
//!
//! Every failure carries a human-readable `String`. The spec functions here
//! state each message as a sequence of characters, and the builders produce
//! exactly that text, so contracts elsewhere can pin the reported message
//! down to the character.

use vstd::prelude::*;

verus! {

/// Message for a schema token of the wrong length.
pub open spec fn malformed_token_msg(tok: Seq<char>) -> Seq<char> {
    "Wrong schema argument format: "@ + tok
}

/// Message for a schema token whose type marker is unknown.
pub open spec fn unsupported_type_msg(tok: Seq<char>) -> Seq<char> {
    "Unsupported schema argument type: "@ + tok
}

/// Message for a flag character declared twice in one template.
pub open spec fn duplicate_flag_msg(c: char) -> Seq<char> {
    "Provided duplicate flag in schema: "@.push(c)
}

/// Message for a raw token that does not start with `-`.
pub open spec fn missing_prefix_msg(tok: Seq<char>) -> Seq<char> {
    "Arguments should start with a '-': "@ + tok
}

/// Message for a raw token that ends right after the `-` prefix.
pub open spec fn missing_key_msg(tok: Seq<char>) -> Seq<char> {
    "Invalid argument format: "@ + tok
}

/// Message for a raw token whose flag key the schema does not declare.
pub open spec fn unknown_flag_msg(tok: Seq<char>) -> Seq<char> {
    "Argument not found in schema: "@ + tok
}

/// Message for a value that should parse as an integer but does not.
pub open spec fn invalid_int_msg(value: Seq<char>) -> Seq<char> {
    "Provided argument value '"@ + value + "' is not of a type integer"@
}

/// Message for an accessor call on a key the schema does not declare.
pub open spec fn unknown_argument_msg(c: char) -> Seq<char> {
    "No argument '"@.push(c) + "' was provided in schema"@
}

/// Message for a boolean accessor call on a non-boolean slot.
pub open spec fn not_bool_msg(c: char) -> Seq<char> {
    "Provided argument is not of a type boolean: "@.push(c)
}

/// Message for an integer accessor call on a non-integer slot.
pub open spec fn not_int_msg(c: char) -> Seq<char> {
    "Provided argument is not of a type integer: "@.push(c)
}

/// Message for a text accessor call on a non-text slot.
pub open spec fn not_string_msg(c: char) -> Seq<char> {
    "Provided argument is not of a type string: "@.push(c)
}

/// Relies on `String::push`: appends exactly the one given character.
#[verifier::external_body]
pub(crate) fn push_char(s: &mut String, c: char)
    ensures
        final(s)@ == old(s)@.push(c),
{
    s.push(c);
}

/// Builds `prefix` followed by the single character `c`.
fn prefix_then_char(prefix: &str, c: char) -> (r: String)
    ensures
        r@ == prefix@.push(c),
{
    let mut s = String::from_str(prefix);
    push_char(&mut s, c);
    proof {
        assert(s@ =~= prefix@.push(c));
    }
    s
}

/// Builds the [`malformed_token_msg`] text.
pub fn malformed_token_message(tok: &str) -> (r: String)
    ensures
        r@ == malformed_token_msg(tok@),
{
    let mut s = String::from_str("Wrong schema argument format: ");
    s.append(tok);
    s
}

/// Builds the [`unsupported_type_msg`] text.
pub fn unsupported_type_message(tok: &str) -> (r: String)
    ensures
        r@ == unsupported_type_msg(tok@),
{
    let mut s = String::from_str("Unsupported schema argument type: ");
    s.append(tok);
    s
}

/// Builds the [`duplicate_flag_msg`] text.
pub fn duplicate_flag_message(c: char) -> (r: String)
    ensures
        r@ == duplicate_flag_msg(c),
{
    prefix_then_char("Provided duplicate flag in schema: ", c)
}

/// Builds the [`missing_prefix_msg`] text.
pub fn missing_prefix_message(tok: &str) -> (r: String)
    ensures
        r@ == missing_prefix_msg(tok@),
{
    let mut s = String::from_str("Arguments should start with a '-': ");
    s.append(tok);
    s
}

/// Builds the [`missing_key_msg`] text.
pub fn missing_key_message(tok: &str) -> (r: String)
    ensures
        r@ == missing_key_msg(tok@),
{
    let mut s = String::from_str("Invalid argument format: ");
    s.append(tok);
    s
}

/// Builds the [`unknown_flag_msg`] text.
pub fn unknown_flag_message(tok: &str) -> (r: String)
    ensures
        r@ == unknown_flag_msg(tok@),
{
    let mut s = String::from_str("Argument not found in schema: ");
    s.append(tok);
    s
}

/// Builds the [`invalid_int_msg`] text.
pub fn invalid_int_message(value: &str) -> (r: String)
    ensures
        r@ == invalid_int_msg(value@),
{
    let mut s = String::from_str("Provided argument value '");
    s.append(value);
    s.append("' is not of a type integer");
    s
}

/// Builds the [`unknown_argument_msg`] text.
pub fn unknown_argument_message(c: char) -> (r: String)
    ensures
        r@ == unknown_argument_msg(c),
{
    let mut s = prefix_then_char("No argument '", c);
    s.append("' was provided in schema");
    s
}

/// Builds the [`not_bool_msg`] text.
pub fn not_bool_message(c: char) -> (r: String)
    ensures
        r@ == not_bool_msg(c),
{
    prefix_then_char("Provided argument is not of a type boolean: ", c)
}

/// Builds the [`not_int_msg`] text.
pub fn not_int_message(c: char) -> (r: String)
    ensures
        r@ == not_int_msg(c),
{
    prefix_then_char("Provided argument is not of a type integer: ", c)
}

/// Builds the [`not_string_msg`] text.
pub fn not_string_message(c: char) -> (r: String)
    ensures
        r@ == not_string_msg(c),
{
    prefix_then_char("Provided argument is not of a type string: ", c)
}

} // verus!
