//! Command-line flags of the console helpers: `--flag value` pairs from a
//! closed set, each at most once, and the numbers and descriptors they
//! carry.

use vstd::prelude::*;
use crate::text::{
    chars_of, debug_quoted, debug_text, owned, parse_unsigned, parse_unsigned_chars, push_str,
    same_text,
};

verus! {

/// What the arguments ask for: help, or these flag values.
#[derive(Debug)]
pub enum Arguments {
    Help,
    Flags(Vec<(String, String)>),
}

pub open spec fn is_help(flag: Seq<char>) -> bool {
    flag == "--help"@ || flag == "-h"@
}

pub open spec fn flag_index(values: Seq<(Seq<char>, Seq<char>)>, flag: Seq<char>) -> Option<int> {
    if exists|i: int| 0 <= i < values.len() && (#[trigger] values[i]).0 == flag {
        Some(choose|i: int| 0 <= i < values.len() && (#[trigger] values[i]).0 == flag)
    } else {
        None
    }
}

/// Reading the arguments from position `i` on, with the flags read so far:
/// help where `--help` or `-h` comes first; an unknown flag, a flag
/// without a value or a repeated flag refused.
pub open spec fn flags_from(
    arguments: Seq<Seq<char>>,
    allowed: Seq<Seq<char>>,
    i: int,
    values: Seq<(Seq<char>, Seq<char>)>,
) -> Result<Option<Seq<(Seq<char>, Seq<char>)>>, Seq<char>>
    decreases arguments.len() - i,
{
    if i < 0 || i >= arguments.len() {
        Ok(Some(values))
    } else {
        let flag = arguments[i];
        if is_help(flag) {
            Ok(None)
        } else if !allowed.contains(flag) {
            Err("unknown argument "@ + debug_text(flag))
        } else if i + 1 >= arguments.len() {
            Err(flag + " requires a value"@)
        } else if flag_index(values, flag) is Some {
            Err("duplicate argument "@ + flag)
        } else {
            flags_from(arguments, allowed, i + 2, values.push((flag, arguments[i + 1])))
        }
    }
}

pub open spec fn arguments_view(r: Result<Arguments, String>) -> Result<Option<Seq<(Seq<char>, Seq<char>)>>, Seq<char>> {
    match r {
        Ok(Arguments::Help) => Ok(None),
        Ok(Arguments::Flags(values)) => Ok(Some(flag_values(values@))),
        Err(m) => Err(m@),
    }
}

pub open spec fn flag_values(values: Seq<(String, String)>) -> Seq<(Seq<char>, Seq<char>)> {
    values.map_values(|v: (String, String)| (v.0@, v.1@))
}

pub open spec fn texts_of(values: Seq<&str>) -> Seq<Seq<char>> {
    values.map_values(|v: &str| v@)
}

fn is_allowed(flag: &str, allowed: &[&str]) -> (r: bool)
    ensures
        r == texts_of(allowed@).contains(flag@),
{
    let mut i: usize = 0;
    while i < allowed.len()
        invariant
            i <= allowed@.len(),
            forall|j: int| 0 <= j < i ==> texts_of(allowed@)[j] != flag@,
        decreases allowed@.len() - i,
    {
        if same_text(allowed[i], flag) {
            assert(texts_of(allowed@)[i as int] == flag@);
            return true;
        }
        i = i + 1;
    }
    false
}

fn find_flag(values: &Vec<(String, String)>, flag: &str) -> (r: Option<usize>)
    ensures
        match r {
            Some(i) => i < values@.len() && flag_index(flag_values(values@), flag@) is Some && values@[i as int].0@
                == flag@,
            None => flag_index(flag_values(values@), flag@) is None,
        },
{
    let mut i: usize = 0;
    while i < values.len()
        invariant
            i <= values@.len(),
            forall|j: int| 0 <= j < i ==> (#[trigger] flag_values(values@)[j]).0 != flag@,
        decreases values@.len() - i,
    {
        if same_text(values[i].0.as_str(), flag) {
            assert(flag_values(values@)[i as int].0 == flag@);
            return Some(i);
        }
        i = i + 1;
    }
    None
}

/// Reads `--flag value` pairs, each flag one of `allowed` and given once.
pub fn parse_arguments(arguments: &Vec<String>, allowed: &[&str]) -> (r: Result<Arguments, String>)
    ensures
        arguments_view(r) == flags_from(arguments@.map_values(|a: String| a@), texts_of(allowed@), 0, Seq::empty()),
{
    let ghost args = arguments@.map_values(|a: String| a@);
    let ghost names = texts_of(allowed@);
    let mut values: Vec<(String, String)> = Vec::new();
    let mut i: usize = 0;
    assert(flag_values(values@) =~= Seq::<(Seq<char>, Seq<char>)>::empty());
    while i < arguments.len()
        invariant
            args == arguments@.map_values(|a: String| a@),
            names == texts_of(allowed@),
            i <= arguments@.len(),
            flags_from(args, names, 0, Seq::empty()) == flags_from(args, names, i as int, flag_values(values@)),
        decreases arguments@.len() - i,
    {
        let flag = arguments[i].as_str();
        assert(args[i as int] == flag@);
        if same_text(flag, "--help") || same_text(flag, "-h") {
            return Ok(Arguments::Help);
        }
        if !is_allowed(flag, allowed) {
            let mut message = owned("unknown argument ");
            push_str(&mut message, debug_quoted(flag).as_str());
            return Err(message);
        }
        if i + 1 >= arguments.len() {
            let mut message = owned(flag);
            push_str(&mut message, " requires a value");
            return Err(message);
        }
        if find_flag(&values, flag).is_some() {
            let mut message = owned("duplicate argument ");
            push_str(&mut message, flag);
            return Err(message);
        }
        let ghost before = flag_values(values@);
        values.push((arguments[i].clone(), arguments[i + 1].clone()));
        assert(flag_values(values@) =~= before.push((args[i as int], args[i + 1])));
        i = i + 2;
    }
    Ok(Arguments::Flags(values))
}

pub open spec fn flag_value(values: Seq<(Seq<char>, Seq<char>)>, flag: Seq<char>) -> Option<Seq<char>> {
    match flag_index(values, flag) {
        Some(i) => Some(values[i].1),
        None => None,
    }
}

/// Keys that occur once each.
pub open spec fn distinct_flags(values: Seq<(Seq<char>, Seq<char>)>) -> bool {
    forall|i: int, j: int| 0 <= i < j < values.len() ==> (#[trigger] values[i]).0 != (#[trigger] values[j]).0
}

/// The value of a flag given once, or `missing required argument {flag}`.
pub fn required(values: &Vec<(String, String)>, flag: &str) -> (r: Result<String, String>)
    requires
        distinct_flags(flag_values(values@)),
    ensures
        match flag_value(flag_values(values@), flag@) {
            Some(v) => r matches Ok(t) && t@ == v,
            None => r matches Err(m) && m@ == "missing required argument "@ + flag@,
        },
{
    match find_flag(values, flag) {
        Some(i) => {
            proof {
                let c = choose|c: int| 0 <= c < values@.len() && (#[trigger] flag_values(values@)[c]).0 == flag@;
                if c != i {
                    if c < i {
                        assert(flag_values(values@)[c].0 != flag_values(values@)[i as int].0);
                    } else {
                        assert(flag_values(values@)[i as int].0 != flag_values(values@)[c].0);
                    }
                }
            }
            Ok(values[i].1.clone())
        },
        None => {
            let mut message = owned("missing required argument ");
            push_str(&mut message, flag);
            Err(message)
        },
    }
}

/// The unsigned number, no larger than `max`, that a flag's value states.
pub fn number_flag(values: &Vec<(String, String)>, flag: &str, max: u64) -> (r: Result<u64, String>)
    requires
        distinct_flags(flag_values(values@)),
    ensures
        match flag_value(flag_values(values@), flag@) {
            None => r matches Err(m) && m@ == "missing required argument "@ + flag@,
            Some(v) => match parse_unsigned(v, max as nat) {
                Some(n) => r == Ok::<u64, String>(n as u64),
                None => r matches Err(m) && m@ == flag@ + " must be an unsigned integer"@,
            },
        },
{
    let text = match required(values, flag) {
        Ok(text) => text,
        Err(m) => return Err(m),
    };
    let chars = chars_of(text.as_str());
    match parse_unsigned_chars(chars.as_slice(), max) {
        Some(n) => Ok(n),
        None => {
            let mut message = owned(flag);
            push_str(&mut message, " must be an unsigned integer");
            Err(message)
        },
    }
}

/// The number a flag states, where it is given.
pub fn optional_number(values: &Vec<(String, String)>, flag: &str, max: u64) -> (r: Result<Option<u64>, String>)
    requires
        distinct_flags(flag_values(values@)),
    ensures
        match flag_value(flag_values(values@), flag@) {
            None => r == Ok::<Option<u64>, String>(None),
            Some(v) => match parse_unsigned(v, max as nat) {
                Some(n) => r == Ok::<Option<u64>, String>(Some(n as u64)),
                None => r matches Err(m) && m@ == flag@ + " must be an unsigned integer"@,
            },
        },
{
    match find_flag(values, flag) {
        None => Ok(None),
        Some(_) => match number_flag(values, flag, max) {
            Ok(n) => Ok(Some(n)),
            Err(m) => Err(m),
        },
    }
}

/// What `i32::from_str` reads: an optional sign and at least one digit,
/// with the value in range.
pub open spec fn parse_i32(text: Seq<char>) -> Option<int> {
    if text.len() > 0 && text[0] == '-' {
        let rest = text.skip(1);
        if rest.len() > 0 && rest[0] == '+' {
            None
        } else {
            match parse_unsigned(rest, 0x8000_0000) {
                Some(n) => Some(-n),
                None => None,
            }
        }
    } else {
        match parse_unsigned(text, 0x7fff_ffff) {
            Some(n) => Some(n as int),
            None => None,
        }
    }
}

/// The file descriptor a flag names: a non-negative `i32`.
pub fn file_descriptor(values: &Vec<(String, String)>, flag: &str) -> (r: Result<i32, String>)
    requires
        distinct_flags(flag_values(values@)),
    ensures
        match flag_value(flag_values(values@), flag@) {
            None => r matches Err(m) && m@ == "missing required argument "@ + flag@,
            Some(v) => match parse_i32(v) {
                None => r matches Err(m) && m@ == flag@ + " must be a file descriptor"@,
                Some(n) => if n < 0 {
                    r matches Err(m) && m@ == flag@ + " must be non-negative"@
                } else {
                    r == Ok::<i32, String>(n as i32)
                },
            },
        },
{
    let text = match required(values, flag) {
        Ok(text) => text,
        Err(m) => return Err(m),
    };
    let chars = chars_of(text.as_str());
    let parsed: Option<i64> = if chars.len() > 0 && chars[0] == '-' {
        let mut rest: Vec<char> = Vec::new();
        let mut k: usize = 1;
        while k < chars.len()
            invariant
                1 <= k <= chars@.len(),
                rest@ == chars@.subrange(1, k as int),
            decreases chars@.len() - k,
        {
            rest.push(chars[k]);
            assert(rest@ =~= chars@.subrange(1, k + 1));
            k = k + 1;
        }
        assert(rest@ =~= chars@.skip(1));
        if rest.len() > 0 && rest[0] == '+' {
            None
        } else {
            match parse_unsigned_chars(rest.as_slice(), 0x8000_0000) {
                Some(n) => Some(0 - (n as i64)),
                None => None,
            }
        }
    } else {
        match parse_unsigned_chars(chars.as_slice(), 0x7fff_ffff) {
            Some(n) => Some(n as i64),
            None => None,
        }
    };
    match parsed {
        None => {
            let mut message = owned(flag);
            push_str(&mut message, " must be a file descriptor");
            Err(message)
        },
        Some(n) => if n < 0 {
            let mut message = owned(flag);
            push_str(&mut message, " must be non-negative");
            Err(message)
        } else {
            Ok(n as i32)
        },
    }
}

/// Flags read by `parse_arguments` occur once each.
pub proof fn law_parsed_flags_are_distinct(arguments: Seq<Seq<char>>, allowed: Seq<Seq<char>>)
    ensures
        flags_from(arguments, allowed, 0, Seq::empty()) matches Ok(Some(values)) ==> distinct_flags(values),
{
    lemma_flags_distinct(arguments, allowed, 0, Seq::empty());
}

proof fn lemma_flags_distinct(
    arguments: Seq<Seq<char>>,
    allowed: Seq<Seq<char>>,
    i: int,
    values: Seq<(Seq<char>, Seq<char>)>,
)
    requires
        distinct_flags(values),
    ensures
        flags_from(arguments, allowed, i, values) matches Ok(Some(result)) ==> distinct_flags(result),
    decreases arguments.len() - i,
{
    if i >= 0 && i < arguments.len() {
        let flag = arguments[i];
        if !is_help(flag) && allowed.contains(flag) && i + 1 < arguments.len() && flag_index(values, flag) is None {
            let next = values.push((flag, arguments[i + 1]));
            assert forall|a: int, b: int| 0 <= a < b < next.len() implies (#[trigger] next[a]).0 != (#[trigger] next[b]).0 by {
                if b == values.len() {
                    assert(values[a].0 != flag);
                } else {
                    assert(values[a].0 != values[b].0);
                }
            }
            lemma_flags_distinct(arguments, allowed, i + 2, next);
        }
    }
}

} // verus!
