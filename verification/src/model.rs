//! The mathematical model of schema compilation and argument matching.
//!
//! A compiled schema is a map from flag character to [`SlotValue`]. The
//! spec functions here say, character by character, what compiling a
//! template and matching a list of raw tokens produce — including the
//! exact error text on the first failure — and the executable code in
//! [`crate::args`] is proved against them.

use vstd::prelude::*;

use crate::intparse::int_literal_ok;
use crate::intparse::int_literal_val;
use crate::messages::duplicate_flag_msg;
use crate::messages::invalid_int_msg;
use crate::messages::malformed_token_msg;
use crate::messages::missing_key_msg;
use crate::messages::missing_prefix_msg;
use crate::messages::not_bool_msg;
use crate::messages::not_int_msg;
use crate::messages::not_string_msg;
use crate::messages::unknown_argument_msg;
use crate::messages::unknown_flag_msg;
use crate::messages::unsupported_type_msg;

verus! {

/// The schema token marker that declares an integer slot.
pub const INTEGER_CHAR_TYPE: char = '#';

/// The schema token marker that declares a text slot.
pub const STRING_CHAR_TYPE: char = '*';

/// The prefix every raw argument token must start with.
pub const FLAG_PREFIX: char = '-';

/// The value held by one schema slot: a boolean flag, a signed 32-bit
/// integer, or text.
pub ghost enum SlotValue {
    Bool(bool),
    Int(int),
    Text(Seq<char>),
}

/// The value every slot of a freshly compiled schema holds: false, 0,
/// or the empty string, by kind.
pub open spec fn is_default_slot(v: SlotValue) -> bool {
    ||| v == SlotValue::Bool(false)
    ||| v == SlotValue::Int(0)
    ||| v == SlotValue::Text(Seq::<char>::empty())
}

/// One schema token applied to the partial schema `m`. The token's first
/// character is the flag key; a second character, if any, is its type
/// marker. Errors carry the exact reported message.
pub open spec fn compile_token(m: Map<char, SlotValue>, tok: Seq<char>) -> Result<
    Map<char, SlotValue>,
    Seq<char>,
> {
    if tok.len() == 0 {
        Err(malformed_token_msg(tok))
    } else if m.contains_key(tok[0]) {
        Err(duplicate_flag_msg(tok[0]))
    } else if tok.len() == 1 {
        Ok(m.insert(tok[0], SlotValue::Bool(false)))
    } else if tok.len() == 2 {
        if tok[1] == INTEGER_CHAR_TYPE {
            Ok(m.insert(tok[0], SlotValue::Int(0)))
        } else if tok[1] == STRING_CHAR_TYPE {
            Ok(m.insert(tok[0], SlotValue::Text(Seq::empty())))
        } else {
            Err(unsupported_type_msg(tok))
        }
    } else {
        Err(malformed_token_msg(tok))
    }
}

/// Compiles the remaining template text `t` into `m`, with `cur` the token
/// read so far: a comma ends the current token, and the template's end ends
/// the last one.
pub open spec fn compile_rest(
    m: Map<char, SlotValue>,
    cur: Seq<char>,
    t: Seq<char>,
) -> Result<Map<char, SlotValue>, Seq<char>>
    decreases t.len(),
{
    if t.len() == 0 {
        compile_token(m, cur)
    } else if t[0] == ',' {
        match compile_token(m, cur) {
            Ok(m2) => compile_rest(m2, Seq::empty(), t.drop_first()),
            Err(e) => Err(e),
        }
    } else {
        compile_rest(m, cur.push(t[0]), t.drop_first())
    }
}

/// The schema a template compiles to, or the first error. An empty
/// template yields an empty schema.
pub open spec fn compile_spec(t: Seq<char>) -> Result<Map<char, SlotValue>, Seq<char>> {
    if t.len() == 0 {
        Ok(Map::empty())
    } else {
        compile_rest(Map::empty(), Seq::empty(), t)
    }
}

/// A raw value written into one slot: booleans are set by presence alone,
/// integer slots parse the value as decimal, text slots take it verbatim.
pub open spec fn slot_set(v: SlotValue, value: Seq<char>) -> Result<SlotValue, Seq<char>> {
    match v {
        SlotValue::Bool(_) => Ok(SlotValue::Bool(true)),
        SlotValue::Int(_) => if int_literal_ok(value) {
            Ok(SlotValue::Int(int_literal_val(value)))
        } else {
            Err(invalid_int_msg(value))
        },
        SlotValue::Text(_) => Ok(SlotValue::Text(value)),
    }
}

/// One raw token applied to the schema `m`: after the `-` prefix, the
/// first character names the flag and the rest is its raw value.
pub open spec fn match_token(m: Map<char, SlotValue>, tok: Seq<char>) -> Result<
    Map<char, SlotValue>,
    Seq<char>,
> {
    if tok.len() == 0 || tok[0] != FLAG_PREFIX {
        Err(missing_prefix_msg(tok))
    } else if tok.len() == 1 {
        Err(missing_key_msg(tok))
    } else if !m.contains_key(tok[1]) {
        Err(unknown_flag_msg(tok))
    } else {
        match slot_set(m[tok[1]], tok.subrange(2, tok.len() as int)) {
            Ok(v) => Ok(m.insert(tok[1], v)),
            Err(e) => Err(e),
        }
    }
}

/// The raw tokens applied to `m` in order, stopping at the first error.
pub open spec fn match_from(m: Map<char, SlotValue>, toks: Seq<Seq<char>>) -> Result<
    Map<char, SlotValue>,
    Seq<char>,
>
    decreases toks.len(),
{
    if toks.len() == 0 {
        Ok(m)
    } else {
        match match_token(m, toks[0]) {
            Ok(m2) => match_from(m2, toks.drop_first()),
            Err(e) => Err(e),
        }
    }
}

/// Compiling a template and then matching the raw tokens, as
/// [`crate::args::Args::build`] does.
pub open spec fn build_spec(t: Seq<char>, toks: Seq<Seq<char>>) -> Result<
    Map<char, SlotValue>,
    Seq<char>,
> {
    match compile_spec(t) {
        Ok(m) => match_from(m, toks),
        Err(e) => Err(e),
    }
}

/// Every slot `compile_token` inserts still holds its default value.
proof fn lemma_compile_token_defaults(m: Map<char, SlotValue>, tok: Seq<char>)
    requires
        compile_token(m, tok) is Ok,
        forall|c: char| #[trigger] m.contains_key(c) ==> is_default_slot(m[c]),
    ensures
        forall|c: char|
            #[trigger] compile_token(m, tok)->Ok_0.contains_key(c) ==> is_default_slot(
                compile_token(m, tok)->Ok_0[c],
            ),
{
}

/// Every slot of a schema built by `compile_rest` from default slots still
/// holds its default value.
proof fn lemma_compile_rest_defaults(m: Map<char, SlotValue>, cur: Seq<char>, t: Seq<char>)
    requires
        compile_rest(m, cur, t) is Ok,
        forall|c: char| #[trigger] m.contains_key(c) ==> is_default_slot(m[c]),
    ensures
        forall|c: char|
            #[trigger] compile_rest(m, cur, t)->Ok_0.contains_key(c) ==> is_default_slot(
                compile_rest(m, cur, t)->Ok_0[c],
            ),
    decreases t.len(),
{
    if t.len() == 0 {
        lemma_compile_token_defaults(m, cur);
    } else if t[0] == ',' {
        lemma_compile_token_defaults(m, cur);
        lemma_compile_rest_defaults(compile_token(m, cur)->Ok_0, Seq::empty(), t.drop_first());
    } else {
        lemma_compile_rest_defaults(m, cur.push(t[0]), t.drop_first());
    }
}

/// A schema compiled from a valid template and then matched against an
/// empty token list is returned unchanged, and every one of its slots
/// still holds its default value: false, 0, or the empty string.
pub proof fn lemma_defaults_after_empty_match(t: Seq<char>)
    requires
        compile_spec(t) is Ok,
    ensures
        build_spec(t, Seq::empty()) == compile_spec(t),
        forall|c: char|
            #[trigger] compile_spec(t)->Ok_0.contains_key(c) ==> is_default_slot(
                compile_spec(t)->Ok_0[c],
            ),
        forall|c: char|
            compile_spec(t)->Ok_0.contains_key(c) && #[trigger] compile_spec(t)->Ok_0[c] is Bool
                ==> get_bool_spec(compile_spec(t)->Ok_0, c) == Ok::<bool, Seq<char>>(false),
        forall|c: char|
            compile_spec(t)->Ok_0.contains_key(c) && #[trigger] compile_spec(t)->Ok_0[c] is Int
                ==> get_int_spec(compile_spec(t)->Ok_0, c) == Ok::<int, Seq<char>>(0),
        forall|c: char|
            compile_spec(t)->Ok_0.contains_key(c) && #[trigger] compile_spec(t)->Ok_0[c] is Text
                ==> get_string_spec(compile_spec(t)->Ok_0, c) == Ok::<Seq<char>, Seq<char>>(
                    Seq::empty(),
                ),
{
    if t.len() != 0 {
        lemma_compile_rest_defaults(Map::empty(), Seq::empty(), t);
    }
}

/// Matching `-<key><literal>` against a schema whose slot for `key` is an
/// integer slot writes exactly the literal's value into that slot, and the
/// integer accessor then returns it — for every decimal literal an `i32`
/// can represent, negative values and zero included.
pub proof fn lemma_int_round_trip(m: Map<char, SlotValue>, key: char, lit: Seq<char>)
    requires
        m.contains_key(key),
        m[key] is Int,
        int_literal_ok(lit),
    ensures
        match_token(m, seq![FLAG_PREFIX, key] + lit) == Ok::<Map<char, SlotValue>, Seq<char>>(
            m.insert(key, SlotValue::Int(int_literal_val(lit))),
        ),
        get_int_spec(m.insert(key, SlotValue::Int(int_literal_val(lit))), key) == Ok::<
            int,
            Seq<char>,
        >(int_literal_val(lit)),
{
    let tok = seq![FLAG_PREFIX, key] + lit;
    assert(tok[0] == FLAG_PREFIX);
    assert(tok[1] == key);
    assert(tok.subrange(2, tok.len() as int) =~= lit);
}

/// Matching two raw tokens that name the same flag leaves the second
/// token's value: the first write is overwritten — no error from the
/// repeat, and no accumulation of the two values.
pub proof fn lemma_last_write_wins(m: Map<char, SlotValue>, tok1: Seq<char>, tok2: Seq<char>)
    requires
        match_token(m, tok1) is Ok,
        tok1[1] == tok2[1],
    ensures
        match_token(match_token(m, tok1)->Ok_0, tok2) == match_token(m, tok2),
{
    let key = tok1[1];
    let m1 = match_token(m, tok1)->Ok_0;
    let v1 = slot_set(m[key], tok1.subrange(2, tok1.len() as int))->Ok_0;
    assert(m1 == m.insert(key, v1));
    if tok2.len() >= 2 && tok2[0] == FLAG_PREFIX {
        match m[key] {
            SlotValue::Bool(_) => {
                assert(v1 is Bool);
            },
            SlotValue::Int(_) => {
                assert(v1 is Int);
            },
            SlotValue::Text(_) => {
                assert(v1 is Text);
            },
        }
        let val2 = tok2.subrange(2, tok2.len() as int);
        match slot_set(m1[key], val2) {
            Ok(v2) => {
                assert(m1.insert(key, v2) =~= m.insert(key, v2));
            },
            Err(_) => {},
        }
    }
}

/// What the boolean accessor returns for key `c` on schema `m`.
pub open spec fn get_bool_spec(m: Map<char, SlotValue>, c: char) -> Result<bool, Seq<char>> {
    if !m.contains_key(c) {
        Err(unknown_argument_msg(c))
    } else {
        match m[c] {
            SlotValue::Bool(b) => Ok(b),
            _ => Err(not_bool_msg(c)),
        }
    }
}

/// What the integer accessor returns for key `c` on schema `m`.
pub open spec fn get_int_spec(m: Map<char, SlotValue>, c: char) -> Result<int, Seq<char>> {
    if !m.contains_key(c) {
        Err(unknown_argument_msg(c))
    } else {
        match m[c] {
            SlotValue::Int(v) => Ok(v),
            _ => Err(not_int_msg(c)),
        }
    }
}

/// What the text accessor returns for key `c` on schema `m`.
pub open spec fn get_string_spec(m: Map<char, SlotValue>, c: char) -> Result<
    Seq<char>,
    Seq<char>,
> {
    if !m.contains_key(c) {
        Err(unknown_argument_msg(c))
    } else {
        match m[c] {
            SlotValue::Text(s) => Ok(s),
            _ => Err(not_string_msg(c)),
        }
    }
}

} // verus!

