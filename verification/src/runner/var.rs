//! Checking a variable definition: a plain name and a plain value.
use vstd::prelude::*;
use crate::text::{alphanumeric, chars_of, is_alphanumeric};

verus! {

pub open spec fn is_special(c: char) -> bool {
    c == '+' || c == '-' || c == '*' || c == '/' || c == '%' || c == '|' || c == '&' || c == '^'
}

pub open spec fn var_message(text: Seq<char>) -> Seq<char> {
    "Failed to parse variable:\n"@ + text
}

/// What `check_var((name, value), ..)` returns.
pub open spec fn check_var_spec(name: Seq<char>, value: Seq<char>) -> Result<(), Seq<char>> {
    if name.len() == 0 {
        Err(var_message("The variable name is empty."@))
    } else if value.len() == 0 {
        Err(var_message("The variable value is empty."@))
    } else if !(forall|k: int| 0 <= k < name.len() ==> alphanumeric(#[trigger] name[k])) {
        Err(var_message("The variable name contains special characters."@))
    } else if !(forall|k: int|
        0 <= k < value.len() ==> alphanumeric(#[trigger] value[k]) || is_special(value[k])) {
        Err(var_message("The variable value contains special characters."@))
    } else {
        Ok(())
    }
}

fn message(text: &str) -> (r: String)
    ensures
        r@ == var_message(text@),
{
    let mut r = String::from_str("Failed to parse variable:\n");
    r.append(text);
    r
}

/// Checks that a variable has an alphanumeric name and a value made of
/// alphanumeric characters and operator symbols.
pub fn check_var(var: (&String, &String), _var_list: &Vec<String>, _func_list: &Vec<String>) -> (r: Result<(), String>)
    ensures
        match (r, check_var_spec(var.0@, var.1@)) {
            (Ok(()), Ok(())) => true,
            (Err(e), Err(m)) => e@ == m,
            _ => false,
        },
{
    let name = chars_of(var.0.as_str());
    let value = chars_of(var.1.as_str());
    if name.len() == 0 {
        return Err(message("The variable name is empty."));
    }
    if value.len() == 0 {
        return Err(message("The variable value is empty."));
    }
    let mut i: usize = 0;
    while i < name.len()
        invariant
            i <= name.len(),
            name@ == var.0@,
            value@ == var.1@,
            name.len() > 0,
            value.len() > 0,
            forall|k: int| 0 <= k < i ==> alphanumeric(#[trigger] name@[k]),
        decreases name.len() - i,
    {
        if !is_alphanumeric(name[i]) {
            assert(!alphanumeric(name@[i as int]));
            return Err(message("The variable name contains special characters."));
        }
        i = i + 1;
    }
    let mut j: usize = 0;
    while j < value.len()
        invariant
            j <= value.len(),
            name@ == var.0@,
            value@ == var.1@,
            name.len() > 0,
            value.len() > 0,
            forall|k: int| 0 <= k < name.len() ==> alphanumeric(#[trigger] name@[k]),
            forall|k: int| 0 <= k < j ==> alphanumeric(#[trigger] value@[k]) || is_special(value@[k]),
        decreases value.len() - j,
    {
        let c = value[j];
        if !(is_alphanumeric(c) || c == '+' || c == '-' || c == '*' || c == '/' || c == '%' || c
            == '|' || c == '&' || c == '^') {
            assert(!(alphanumeric(value@[j as int]) || is_special(value@[j as int])));
            return Err(message("The variable value contains special characters."));
        }
        j = j + 1;
    }
    Ok(())
}

} // verus!
