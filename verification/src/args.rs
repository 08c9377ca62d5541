//! The compiled schema and the operations on it.
//!
//! [`Args::build`] compiles a schema template such as `"l,p#,d*"`, matches
//! a list of raw tokens such as `-p5050` against it, and the typed
//! accessors read the resulting values. Every operation is proved against
//! the model in [`crate::model`], down to the exact error message.

use vstd::prelude::*;

use crate::intparse::parse_i32;
use crate::messages::duplicate_flag_message;
use crate::messages::invalid_int_message;
use crate::messages::malformed_token_message;
use crate::messages::missing_key_message;
use crate::messages::missing_prefix_message;
use crate::messages::not_bool_message;
use crate::messages::not_int_message;
use crate::messages::not_string_message;
use crate::messages::push_char;
use crate::messages::unknown_argument_message;
use crate::messages::unknown_argument_msg;
use crate::messages::unknown_flag_message;
use crate::messages::unsupported_type_message;
use crate::model::build_spec;
use crate::model::compile_rest;
use crate::model::compile_spec;
use crate::model::compile_token;
use crate::model::get_bool_spec;
use crate::model::get_int_spec;
use crate::model::get_string_spec;
use crate::model::match_from;
use crate::model::slot_set;
use crate::model::SlotValue;
use crate::model::FLAG_PREFIX;
use crate::model::INTEGER_CHAR_TYPE;
use crate::model::STRING_CHAR_TYPE;

verus! {

/// One typed slot: a boolean flag, a signed 32-bit integer, or text.
#[derive(Debug)]
enum Arg {
    Int(i32),
    Bool(bool),
    Text(String),
}

impl View for Arg {
    type V = SlotValue;

    closed spec fn view(&self) -> SlotValue {
        match self {
            Arg::Int(v) => SlotValue::Int(*v as int),
            Arg::Bool(b) => SlotValue::Bool(*b),
            Arg::Text(s) => SlotValue::Text(s@),
        }
    }
}

impl Arg {
    /// Writes a raw value into the slot, by the slot's kind: presence sets
    /// a boolean, integers parse the value, text takes it verbatim.
    fn set_value(&mut self, value: String) -> (r: Result<(), String>)
        ensures
            match slot_set(old(self)@, value@) {
                Ok(v) => r is Ok && final(self)@ == v,
                Err(e) => r matches Err(s) && s@ == e && final(self)@ == old(self)@,
            },
    {
        match self {
            Arg::Int(v) => {
                match parse_i32(value.as_str()) {
                    Some(parsed_value) => {
                        *v = parsed_value;
                    },
                    None => {
                        return Err(invalid_int_message(value.as_str()));
                    },
                }
            },
            Arg::Bool(v) => {
                *v = true;
            },
            Arg::Text(v) => {
                *v = value;
            },
        }
        Ok(())
    }
}

/// The schema an association list denotes: a later entry for a key
/// overrides an earlier one (with unique keys, position does not matter).
spec fn assoc_map(s: Seq<(char, Arg)>) -> Map<char, SlotValue>
    decreases s.len(),
{
    if s.len() == 0 {
        Map::empty()
    } else {
        assoc_map(s.drop_last()).insert(s.last().0, s.last().1@)
    }
}

/// Pairwise-distinct flag characters.
spec fn keys_unique(s: Seq<(char, Arg)>) -> bool {
    forall|i: int, j: int|
        0 <= i < j < s.len() ==> (#[trigger] s[i]).0 != (#[trigger] s[j]).0
}

/// A key is in the denoted schema exactly when some entry holds it.
proof fn lemma_assoc_contains(s: Seq<(char, Arg)>, c: char)
    ensures
        assoc_map(s).contains_key(c) <==> exists|i: int|
            0 <= i < s.len() && (#[trigger] s[i]).0 == c,
    decreases s.len(),
{
    if s.len() > 0 {
        lemma_assoc_contains(s.drop_last(), c);
        if s.last().0 == c {
            assert((s[s.len() - 1]).0 == c);
        } else {
            if assoc_map(s).contains_key(c) {
                let i = choose|i: int|
                    0 <= i < s.drop_last().len() && (#[trigger] s.drop_last()[i]).0 == c;
                assert((s[i]).0 == c);
            }
            if exists|i: int| 0 <= i < s.len() && (#[trigger] s[i]).0 == c {
                let i = choose|i: int| 0 <= i < s.len() && (#[trigger] s[i]).0 == c;
                assert((s.drop_last()[i]).0 == c);
            }
        }
    }
}

/// With unique keys, the entry at `i` is what the denoted schema holds.
proof fn lemma_assoc_at(s: Seq<(char, Arg)>, i: int)
    requires
        keys_unique(s),
        0 <= i < s.len(),
    ensures
        assoc_map(s).contains_key((s[i]).0),
        assoc_map(s)[(s[i]).0] == (s[i]).1@,
    decreases s.len(),
{
    if i < s.len() - 1 {
        assert forall|a: int, b: int| 0 <= a < b < s.drop_last().len() implies (#[trigger] s
            .drop_last()[a]).0 != (#[trigger] s.drop_last()[b]).0 by {
            assert((s[a]).0 != (s[b]).0);
        }
        lemma_assoc_at(s.drop_last(), i);
        assert((s[i]).0 != s.last().0);
    }
}

/// Appending a fresh entry inserts its slot into the denoted schema.
proof fn lemma_assoc_push(s: Seq<(char, Arg)>, c: char, a: Arg)
    ensures
        assoc_map(s.push((c, a))) == assoc_map(s).insert(c, a@),
{
    assert(s.push((c, a)).drop_last() =~= s);
    assert(s.push((c, a)).last() == (c, a));
}

/// With unique keys, overwriting the entry at `i` updates its key alone.
proof fn lemma_assoc_update(s: Seq<(char, Arg)>, i: int, a: Arg)
    requires
        keys_unique(s),
        0 <= i < s.len(),
    ensures
        assoc_map(s.update(i, ((s[i]).0, a))) =~= assoc_map(s).insert((s[i]).0, a@),
        keys_unique(s.update(i, ((s[i]).0, a))),
    decreases s.len(),
{
    let s2 = s.update(i, ((s[i]).0, a));
    assert forall|x: int, y: int| 0 <= x < y < s2.len() implies (#[trigger] s2[x]).0
        != (#[trigger] s2[y]).0 by {
        assert((s[x]).0 != (s[y]).0);
    }
    if i == s.len() - 1 {
        assert(s2.drop_last() =~= s.drop_last());
        assert(assoc_map(s2) =~= assoc_map(s).insert((s[i]).0, a@));
    } else {
        assert forall|x: int, y: int| 0 <= x < y < s.drop_last().len() implies (#[trigger] s
            .drop_last()[x]).0 != (#[trigger] s.drop_last()[y]).0 by {
            assert((s[x]).0 != (s[y]).0);
        }
        lemma_assoc_update(s.drop_last(), i, a);
        assert(s2.drop_last() =~= s.drop_last().update(i, ((s[i]).0, a)));
        assert(s2.last() == s.last());
        assert((s[i]).0 != s.last().0);
        assert(assoc_map(s2) =~= assoc_map(s).insert((s[i]).0, a@));
    }
}

/// A compiled schema: a small association list from flag character to its
/// typed slot, with pairwise-distinct keys.
#[derive(Debug)]
pub struct Args(Vec<(char, Arg)>);

impl View for Args {
    type V = Map<char, SlotValue>;

    closed spec fn view(&self) -> Map<char, SlotValue> {
        assoc_map(self.0@)
    }
}

impl Args {
    /// The schema's internal invariant: no flag character appears twice.
    pub closed spec fn wf(&self) -> bool {
        keys_unique(self.0@)
    }

    /// The position of `c`'s entry, if the schema declares that flag.
    fn find_index(&self, c: char) -> (r: Option<usize>)
        ensures
            match r {
                Some(i) => i < self.0@.len() && (self.0@[i as int]).0 == c,
                None => forall|k: int| 0 <= k < self.0@.len() ==> (#[trigger] self.0@[k]).0 != c,
            },
    {
        let n = self.0.len();
        let mut i: usize = 0;
        while i < n
            invariant
                i <= n,
                n == self.0@.len(),
                forall|k: int| 0 <= k < i ==> (#[trigger] self.0@[k]).0 != c,
            decreases n - i,
        {
            if self.0[i].0 == c {
                return Some(i);
            }
            i = i + 1;
        }
        None
    }

    /// Compiles `schema_template` and matches `args_list` against it,
    /// returning the populated schema or the first error.
    pub fn build(schema_template: &str, args_list: Vec<String>) -> (r: Result<Args, String>)
        ensures
            match build_spec(schema_template@, args_list.deep_view()) {
                Ok(m) => r matches Ok(a) && a@ == m && a.wf(),
                Err(e) => r matches Err(s) && s@ == e,
            },
    {
        let args = Args(Vec::new());
        proof {
            assert(args@ =~= Map::<char, SlotValue>::empty());
        }
        let args = match parse_schema(args, schema_template) {
            Ok(a) => a,
            Err(e) => {
                return Err(e);
            },
        };
        let args = match parse_args(args, args_list) {
            Ok(a) => a,
            Err(e) => {
                return Err(e);
            },
        };
        Ok(args)
    }

    /// Reads the boolean flag `c`: true exactly when a raw token set it.
    pub fn get_bool(&self, c: char) -> (r: Result<bool, String>)
        requires
            self.wf(),
        ensures
            match get_bool_spec(self@, c) {
                Ok(b) => r matches Ok(v) && v == b,
                Err(e) => r matches Err(s) && s@ == e,
            },
    {
        let entry = match self.try_get_entry(c) {
            Ok(a) => a,
            Err(e) => {
                return Err(e);
            },
        };
        if let Arg::Bool(value) = entry {
            Ok(*value)
        } else {
            Err(not_bool_message(c))
        }
    }

    /// Reads the integer flag `c`: the last matched value, or 0.
    pub fn get_int(&self, c: char) -> (r: Result<i32, String>)
        requires
            self.wf(),
        ensures
            match get_int_spec(self@, c) {
                Ok(v) => r matches Ok(x) && x as int == v,
                Err(e) => r matches Err(s) && s@ == e,
            },
    {
        let entry = match self.try_get_entry(c) {
            Ok(a) => a,
            Err(e) => {
                return Err(e);
            },
        };
        if let Arg::Int(value) = entry {
            Ok(*value)
        } else {
            Err(not_int_message(c))
        }
    }

    /// Reads the text flag `c`: the last matched value, or the empty string.
    pub fn get_string(&self, c: char) -> (r: Result<String, String>)
        requires
            self.wf(),
        ensures
            match get_string_spec(self@, c) {
                Ok(v) => r matches Ok(x) && x@ == v,
                Err(e) => r matches Err(s) && s@ == e,
            },
    {
        let entry = match self.try_get_entry(c) {
            Ok(a) => a,
            Err(e) => {
                return Err(e);
            },
        };
        if let Arg::Text(value) = entry {
            Ok(value.clone())
        } else {
            Err(not_string_message(c))
        }
    }

    /// The slot for `c`, or the unknown-argument error.
    fn try_get_entry(&self, c: char) -> (r: Result<&Arg, String>)
        requires
            self.wf(),
        ensures
            self@.contains_key(c) ==> (r matches Ok(a) && a@ == self@[c]),
            !self@.contains_key(c) ==> (r matches Err(s) && s@ == unknown_argument_msg(c)),
    {
        proof {
            lemma_assoc_contains(self.0@, c);
        }
        match self.find_index(c) {
            Some(i) => {
                proof {
                    lemma_assoc_at(self.0@, i as int);
                }
                Ok(&self.0[i].1)
            },
            None => Err(unknown_argument_message(c)),
        }
    }
}

/// One schema token added to the schema under construction.
fn compile_schema_token(args: Args, token: &str) -> (r: Result<Args, String>)
    requires
        args.wf(),
    ensures
        match compile_token(args@, token@) {
            Ok(m) => r matches Ok(a) && a@ == m && a.wf(),
            Err(e) => r matches Err(s) && s@ == e,
        },
{
    let n = token.unicode_len();
    if n == 0 {
        return Err(malformed_token_message(token));
    }
    let flag = token.get_char(0);
    proof {
        lemma_assoc_contains(args.0@, flag);
    }
    let mut args = args;
    match args.find_index(flag) {
        Some(i) => {
            proof {
                assert((args.0@[i as int]).0 == flag);
            }
            return Err(duplicate_flag_message(flag));
        },
        None => {},
    }
    let ghost s0 = args.0@;
    if n == 1 {
        args.0.push((flag, Arg::Bool(false)));
        proof {
            lemma_assoc_push(s0, flag, Arg::Bool(false));
            lemma_push_fresh_unique(s0, flag, Arg::Bool(false));
        }
        return Ok(args);
    }
    if n == 2 {
        let arg_type = token.get_char(1);
        if arg_type == INTEGER_CHAR_TYPE {
            args.0.push((flag, Arg::Int(0)));
            proof {
                lemma_assoc_push(s0, flag, Arg::Int(0));
                lemma_push_fresh_unique(s0, flag, Arg::Int(0));
            }
            return Ok(args);
        }
        if arg_type == STRING_CHAR_TYPE {
            let empty_text = String::new();
            let ghost fresh = Arg::Text(empty_text);
            args.0.push((flag, Arg::Text(empty_text)));
            proof {
                lemma_assoc_push(s0, flag, fresh);
                lemma_push_fresh_unique(s0, flag, fresh);
            }
            return Ok(args);
        }
        return Err(unsupported_type_message(token));
    }
    Err(malformed_token_message(token))
}

/// Appending an entry whose key no entry holds keeps the keys unique.
proof fn lemma_push_fresh_unique(s: Seq<(char, Arg)>, c: char, a: Arg)
    requires
        keys_unique(s),
        forall|k: int| 0 <= k < s.len() ==> (#[trigger] s[k]).0 != c,
    ensures
        keys_unique(s.push((c, a))),
{
    let s2 = s.push((c, a));
    assert forall|x: int, y: int| 0 <= x < y < s2.len() implies (#[trigger] s2[x]).0
        != (#[trigger] s2[y]).0 by {
        if y < s.len() {
            assert((s[x]).0 != (s[y]).0);
        } else {
            assert((s[x]).0 != c);
        }
    }
}

/// Compiles a schema template into `args`, token by token: a comma ends a
/// token and the template's end ends the last one.
fn parse_schema(args: Args, schema_template: &str) -> (r: Result<Args, String>)
    requires
        args.wf(),
        args@ == Map::<char, SlotValue>::empty(),
    ensures
        match compile_spec(schema_template@) {
            Ok(m) => r matches Ok(a) && a@ == m && a.wf(),
            Err(e) => r matches Err(s) && s@ == e,
        },
{
    let n = schema_template.unicode_len();
    if n == 0 {
        return Ok(args);
    }
    proof {
        assert(schema_template@.subrange(0, n as int) =~= schema_template@);
    }
    let mut args = args;
    let mut cur = String::new();
    let mut i: usize = 0;
    while i < n
        invariant
            i <= n,
            n == schema_template@.len(),
            0 < n,
            args.wf(),
            compile_spec(schema_template@) == compile_rest(
                args@,
                cur@,
                schema_template@.subrange(i as int, n as int),
            ),
        decreases n - i,
    {
        let c = schema_template.get_char(i);
        proof {
            let rest = schema_template@.subrange(i as int, n as int);
            assert(rest[0] == c);
            assert(rest.drop_first() =~= schema_template@.subrange(i as int + 1, n as int));
        }
        if c == ',' {
            args = match compile_schema_token(args, cur.as_str()) {
                Ok(a) => a,
                Err(e) => {
                    return Err(e);
                },
            };
            cur = String::new();
        } else {
            push_char(&mut cur, c);
        }
        i = i + 1;
    }
    proof {
        assert(schema_template@.subrange(n as int, n as int) =~= Seq::<char>::empty());
    }
    compile_schema_token(args, cur.as_str())
}

/// Applies each raw token to the schema, in order, stopping at the first
/// error.
#[verifier::loop_isolation(false)]
fn parse_args(args: Args, args_list: Vec<String>) -> (r: Result<Args, String>)
    requires
        args.wf(),
    ensures
        match match_from(args@, args_list.deep_view()) {
            Ok(m) => r matches Ok(a) && a@ == m && a.wf(),
            Err(e) => r matches Err(s) && s@ == e,
        },
{
    let ghost m0 = args@;
    let ghost toks = args_list.deep_view();
    let mut args = args;
    let n = args_list.len();
    proof {
        assert(toks.subrange(0, n as int) =~= toks);
    }
    let mut idx: usize = 0;
    while idx < n
        invariant
            idx <= n,
            n == args_list@.len(),
            toks == args_list.deep_view(),
            toks.len() == n,
            args.wf(),
            match_from(m0, toks) == match_from(args@, toks.subrange(idx as int, n as int)),
        decreases n - idx,
    {
        proof {
            let rest = toks.subrange(idx as int, n as int);
            assert(rest[0] == toks[idx as int]);
            assert(rest.drop_first() =~= toks.subrange(idx as int + 1, n as int));
            assert(toks[idx as int] == args_list@[idx as int]@);
        }
        let token = &args_list[idx];
        let s = token.as_str();
        let tn = s.unicode_len();
        if tn == 0 {
            return Err(missing_prefix_message(s));
        }
        let first_char = s.get_char(0);
        if first_char != FLAG_PREFIX {
            return Err(missing_prefix_message(s));
        }
        if tn == 1 {
            return Err(missing_key_message(s));
        }
        let flag = s.get_char(1);
        let flag_value = s.substring_char(2, tn);
        proof {
            lemma_assoc_contains(args.0@, flag);
        }
        match args.find_index(flag) {
            Some(i) => {
                proof {
                    lemma_assoc_at(args.0@, i as int);
                }
                let ghost s_before = args.0@;
                let ghost m_before = args@;
                let result = args.0[i].1.set_value(String::from_str(flag_value));
                proof {
                    lemma_assoc_update(s_before, i as int, (args.0@[i as int]).1);
                }
                match result {
                    Ok(_) => {},
                    Err(e) => {
                        proof {
                            assert(args@ =~= m_before);
                        }
                        return Err(e);
                    },
                }
            },
            None => {
                return Err(unknown_flag_message(s));
            },
        }
        idx = idx + 1;
    }
    proof {
        assert(toks.subrange(n as int, n as int) =~= Seq::<Seq<char>>::empty());
    }
    Ok(args)
}

} // verus!
