//! Scope headers: `loop...:`, `if...:`, `elif...:`, `else:` and `name(args):`.
use vstd::prelude::*;
use crate::text::{
    chars_of, slice_vec, split_once, split_once_index, string_of_all, trim_end,
    trim_end_index, trim_start, trim_start_index};
use crate::utility::ExpressionType;

verus! {

/// The scope name and its arguments, each present only when non-empty (and
/// the arguments only with a name).
pub open spec fn scope_result(name: Seq<char>, args: Seq<char>) -> (Option<Seq<char>>, Option<Seq<char>>) {
    if name.len() > 0 {
        (Some(name), if args.len() > 0 { Some(args) } else { None })
    } else {
        (None, None)
    }
}

pub open spec fn colon_message(t: ExpressionType) -> Seq<char> {
    t.name_spec() + " expressions need to end with a ':'"@
}

/// What `parse_scope(exp, t)` returns.
pub open spec fn parse_scope_spec(exp: Seq<char>, t: ExpressionType) -> Result<(Option<Seq<char>>, Option<Seq<char>>), Seq<char>> {
    if exp.last() != ':' {
        Err(colon_message(t))
    } else {
        match t {
            ExpressionType::Loop => Ok(scope_result("loop"@, trim_end(trim_start(exp, "loop"@), ":"@))),
            ExpressionType::If => Ok(scope_result("if"@, trim_end(trim_start(exp, "if"@), ":"@))),
            ExpressionType::Elif => Ok(scope_result(
                "elif"@,
                trim_end(trim_start(trim_start(exp, "elif"@), "elseif"@), ":"@),
            )),
            ExpressionType::Else => Ok(scope_result("else"@, Seq::empty())),
            ExpressionType::Function => match split_once(exp, '(') {
                Some((name, rest)) => Ok(scope_result(name, trim_end(rest, "):"@))),
                None => Err("Failed to parse function."@),
            },
            _ => Ok((None, None)),
        }
    }
}

pub open spec fn opt_view(o: Option<String>) -> Option<Seq<char>> {
    match o {
        Some(s) => Some(s@),
        None => None,
    }
}

/// `handle_scope_result` for a name and its arguments.
pub fn handle_scope_result(name: &Vec<char>, args: &Vec<char>) -> (r: (Option<String>, Option<String>))
    ensures
        (opt_view(r.0), opt_view(r.1)) == scope_result(name@, args@),
{
    if name.len() > 0 {
        let a = if args.len() > 0 {
            Some(string_of_all(args))
        } else {
            None
        };
        (Some(string_of_all(name)), a)
    } else {
        (None, None)
    }
}

/// `trim_end(trim_start(v, front), back)` as a fresh vector.
fn trim_both(v: &Vec<char>, front: &str, back: &str) -> (r: Vec<char>)
    ensures
        r@ == trim_end(trim_start(v@, front@), back@),
{
    let f = chars_of(front);
    let b = chars_of(back);
    let k = trim_start_index(v, &f);
    let mid = slice_vec(v, k, v.len());
    let e = trim_end_index(&mid, &b);
    slice_vec(&mid, 0, e)
}

/// Splits a scope header into the scope's name and its arguments.
pub fn parse_scope(exp: &str, expression_type: &ExpressionType) -> (r: Result<(Option<String>, Option<String>), String>)
    requires
        exp@.len() > 0,
    ensures
        match (r, parse_scope_spec(exp@, *expression_type)) {
            (Ok((a, b)), Ok((sa, sb))) => opt_view(a) == sa && opt_view(b) == sb,
            (Err(e), Err(se)) => e@ == se,
            _ => false,
        },
{
    let v = chars_of(exp);
    if v[v.len() - 1] != ':' {
        let mut e = expression_type.name();
        e.append(" expressions need to end with a ':'");
        return Err(e);
    }
    match expression_type {
        ExpressionType::Loop => {
            let args = trim_both(&v, "loop", ":");
            let name = chars_of("loop");
            Ok(handle_scope_result(&name, &args))
        },
        ExpressionType::If => {
            let args = trim_both(&v, "if", ":");
            let name = chars_of("if");
            Ok(handle_scope_result(&name, &args))
        },
        ExpressionType::Elif => {
            let f = chars_of("elif");
            let k = trim_start_index(&v, &f);
            let rest = slice_vec(&v, k, v.len());
            let args = trim_both(&rest, "elseif", ":");
            let name = chars_of("elif");
            Ok(handle_scope_result(&name, &args))
        },
        ExpressionType::Else => {
            let name = chars_of("else");
            let args: Vec<char> = Vec::new();
            assert(args@ =~= Seq::<char>::empty());
            Ok(handle_scope_result(&name, &args))
        },
        ExpressionType::Function => {
            match split_once_index(&v, '(') {
                Some(k) => {
                    let name = slice_vec(&v, 0, k);
                    let rest = slice_vec(&v, k + 1, v.len());
                    let close = chars_of("):");
                    let e = trim_end_index(&rest, &close);
                    let args = slice_vec(&rest, 0, e);
                    Ok(handle_scope_result(&name, &args))
                },
                None => Err(String::from_str("Failed to parse function.")),
            }
        },
        _ => Ok((None, None)),
    }
}

} // verus!
