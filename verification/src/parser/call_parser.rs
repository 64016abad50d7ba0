//! Function calls: `name(arg, arg, ...)`.
use vstd::prelude::*;
use crate::text::{chars_of, split_once, split_once_index, string_of};
use crate::utility::{split_by_chars, split_by_spec, strings_view};

verus! {

pub open spec fn no_closing_message() -> Seq<char> {
    "No closing parenthesis found on function call."@
}

pub open spec fn invalid_call_message() -> Seq<char> {
    "Failed to parse call.\nInvalid function."@
}

/// What `parse_call(call)` returns: the text before the first `(` and the
/// arguments between it and the final `)`, split by `split_by` at commas.
pub open spec fn parse_call_spec(call: Seq<char>) -> Result<(Seq<char>, Seq<Seq<char>>), Seq<char>> {
    match split_once(call, '(') {
        Some((name, rest)) => {
            if rest.len() > 0 && rest.last() == ')' {
                match split_by_spec(rest.drop_last(), ',') {
                    Ok(args) => Ok((name, args)),
                    Err(e) => Err(e),
                }
            } else {
                Err(no_closing_message())
            }
        },
        None => Err(invalid_call_message()),
    }
}

/// Parses a function call into the name of the function and its arguments.
pub fn parse_call(call: &str) -> (r: Result<(String, Vec<String>), String>)
    ensures
        match (r, parse_call_spec(call@)) {
            (Ok((name, args)), Ok((n, a))) => name@ == n && strings_view(args@) == a,
            (Err(e), Err(m)) => e@ == m,
            _ => false,
        },
{
    let v = chars_of(call);
    match split_once_index(&v, '(') {
        Some(k) => {
            let n = v.len();
            if k + 1 < n && v[n - 1] == ')' {
                let inner = crate::text::slice_vec(&v, k + 1, n - 1);
                assert(inner@ =~= v@.subrange(k + 1, n as int).drop_last());
                match split_by_chars(&inner, ',') {
                    Ok(args) => Ok((string_of(&v, 0, k), args)),
                    Err(e) => Err(e),
                }
            } else {
                Err(String::from_str("No closing parenthesis found on function call."))
            }
        },
        None => Err(String::from_str("Failed to parse call.\nInvalid function.")),
    }
}

} // verus!
