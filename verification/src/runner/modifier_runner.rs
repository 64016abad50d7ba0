//! Modifiers on a variable definition.
use vstd::prelude::*;
use crate::types::{Token, TokenV, VariableModifier, ModifierV, SingleOp, tokens_view};
use crate::parser::operation_parser::lemma_tokens_view_index;
use super::operation_runner::{Host, VarsV, display_text, display_of};
use super::vars::{Var, VarV, Vars};

verus! {

/// The name `Debug` prints for a modifier that has no text of its own.
pub open spec fn modifier_name(m: ModifierV) -> Seq<char> {
    match m {
        ModifierV::External => "External"@,
        ModifierV::Public => "Public"@,
        ModifierV::Const => "Const"@,
        ModifierV::Alias => "Alias"@,
        ModifierV::Unkown(s) => s,
    }
}

pub open spec fn unknown_message(m: Seq<char>, name: Seq<char>) -> Seq<char> {
    "Unkown modifier '"@ + m + "' on variable '"@ + name + "'."@
}

pub open spec fn scope_message(m: ModifierV) -> Seq<char> {
    "Identifier '"@ + modifier_name(m)
        + "' is not allowed inside a scope. Place the variable definition outside a function."@
}

pub open spec fn alias_message(found: Seq<char>) -> Seq<char> {
    "Alias modifier expects a reference to another variable/function. Found: '"@ + found + "'"@
}

pub open spec fn external_message() -> Seq<char> {
    "External variables require a string path."@
}

pub open spec fn allowed_in_scope(m: ModifierV) -> bool {
    m is Const || m is Alias
}

/// The error for the first modifier, from `i` on, that is unknown or not
/// allowed where the variable is defined.
pub open spec fn modifiers_error(mods: Seq<ModifierV>, name: Seq<char>, is_scope: bool, i: int) -> Option<Seq<char>>
    decreases mods.len() - i,
{
    if i < 0 || i >= mods.len() {
        None
    } else {
        match mods[i] {
            ModifierV::Unkown(m) => Some(unknown_message(m, name)),
            m => if is_scope && !allowed_in_scope(m) {
                Some(scope_message(m))
            } else {
                modifiers_error(mods, name, is_scope, i + 1)
            },
        }
    }
}

/// What defining a variable with modifiers does: the error, or the
/// variables with the definition made. `None` where it panics (an alias
/// with no value), or where the error shows a float, whose text the host gives.
pub open spec fn modifiers_spec(
    vars: VarsV,
    name: Seq<char>,
    tokens: Seq<TokenV>,
    result: TokenV,
    mods: Seq<ModifierV>,
    is_scope: bool,
) -> Option<(Result<(), Seq<char>>, VarsV)> {
    match modifiers_error(mods, name, is_scope, 0) {
        Some(m) => Some((Err(m), vars)),
        None => if mods.contains(ModifierV::Alias) {
            if tokens.len() == 0 {
                None
            } else {
                match tokens[0] {
                    TokenV::Var(_) | TokenV::Call(_, _) => Some(
                        (
                            Ok(()),
                            vars.insert(
                                name,
                                VarV { value: tokens[0], external: false, modifiers: seq![ModifierV::Alias] },
                            ),
                        ),
                    ),
                    t => match display_text(t) {
                        Some(d) => Some((Err(alias_message(d)), vars)),
                        None => None,
                    },
                }
            }
        } else if mods.contains(ModifierV::External) {
            match result {
                TokenV::Str(_) => Some(
                    (Ok(()), vars.insert(name, VarV { value: result, external: false, modifiers: mods })),
                ),
                _ => Some((Err(external_message()), vars)),
            }
        } else {
            Some((Ok(()), vars.insert(name, VarV { value: result, external: false, modifiers: mods })))
        },
    }
}

pub open spec fn mods_view(v: Seq<VariableModifier>) -> Seq<ModifierV> {
    v.map_values(|m: VariableModifier| m@)
}

fn modifier_name_of(m: &VariableModifier) -> (r: String)
    ensures
        r@ == modifier_name(m@),
{
    match m {
        VariableModifier::External => String::from_str("External"),
        VariableModifier::Public => String::from_str("Public"),
        VariableModifier::Const => String::from_str("Const"),
        VariableModifier::Alias => String::from_str("Alias"),
        VariableModifier::Unkown(s) => s.clone(),
    }
}

fn has_modifier(v: &Vec<VariableModifier>, alias: bool) -> (r: bool)
    ensures
        r == mods_view(v@).contains(if alias { ModifierV::Alias } else { ModifierV::External }),
{
    let ghost target = if alias { ModifierV::Alias } else { ModifierV::External };
    let mut i: usize = 0;
    while i < v.len()
        invariant
            i <= v.len(),
            target == if alias { ModifierV::Alias } else { ModifierV::External },
            mods_view(v@).len() == v@.len(),
            forall|k: int| 0 <= k < i ==> mods_view(v@)[k] != target,
        decreases v.len() - i,
    {
        assert(mods_view(v@)[i as int] == v@[i as int]@);
        let hit = match &v[i] {
            VariableModifier::Alias => alias,
            VariableModifier::External => !alias,
            _ => false,
        };
        if hit {
            assert(mods_view(v@)[i as int] == target);
            return true;
        }
        i = i + 1;
    }
    proof {
        if mods_view(v@).contains(target) {
            let k = choose|k: int| 0 <= k < mods_view(v@).len() && mods_view(v@)[k] == target;
            assert(mods_view(v@)[k] != target);
        }
    }
    false
}

/// Defines a variable with modifiers, checking them first: an unknown
/// modifier, or one not allowed in a scope, is an error; an alias holds the
/// variable or call it refers to; an external variable needs a string path.
pub fn handle_variable_modifiers<H: Host>(
    host: &mut H,
    vars: &mut Vars,
    variable: &SingleOp,
    operation_result: Token,
    modifier_list: Vec<VariableModifier>,
    is_scope: bool,
) -> (r: Result<(), String>)
    requires
        old(vars).wf(),
    ensures
        final(vars).wf(),
        modifiers_spec(
            old(vars)@,
            variable.0@,
            tokens_view(variable.2@),
            operation_result@,
            mods_view(modifier_list@),
            is_scope,
        ) matches Some((x, m)) ==> final(vars)@ == m && match (r, x) {
            (Ok(()), Ok(())) => true,
            (Err(e), Err(w)) => e@ == w,
            _ => false,
        },
{
    let ghost mv = mods_view(modifier_list@);
    let ghost name = variable.0@;
    let mut i: usize = 0;
    while i < modifier_list.len()
        invariant
            i <= modifier_list.len(),
            vars.wf(),
            vars@ == old(vars)@,
            mv == mods_view(modifier_list@),
            name == variable.0@,
            modifiers_error(mv, name, is_scope, 0) == modifiers_error(mv, name, is_scope, i as int),
        decreases modifier_list.len() - i,
    {
        match &modifier_list[i] {
            VariableModifier::Unkown(m) => {
                let mut e = String::from_str("Unkown modifier '");
                e.append(m.as_str());
                e.append("' on variable '");
                e.append(variable.0.as_str());
                e.append("'.");
                return Err(e);
            },
            m => {
                if is_scope && !m.check_scope_allowed() {
                    let mut e = String::from_str("Identifier '");
                    e.append(modifier_name_of(m).as_str());
                    e.append("' is not allowed inside a scope. Place the variable definition outside a function.");
                    return Err(e);
                }
            },
        }
        i = i + 1;
    }
    proof {
        lemma_tokens_view_index(variable.2@);
    }
    if has_modifier(&modifier_list, true) {
        if variable.2.len() == 0 {
            host.fail("index out of bounds");
            return Err(String::from_str("index out of bounds"));
        }
        match &variable.2[0] {
            Token::Var(_) | Token::Call(_, _) => {
                let mods = vec![VariableModifier::Alias];
                proof {
                    assert(mods_view(mods@) =~= seq![ModifierV::Alias]);
                }
                let var = Var { value: variable.2[0].duplicate(), external: false, modifiers: mods };
                vars.insert(variable.0.clone(), var);
                Ok(())
            },
            t => {
                let d = display_of(host, t);
                let mut e = String::from_str("Alias modifier expects a reference to another variable/function. Found: '");
                e.append(d.as_str());
                e.append("'");
                Err(e)
            },
        }
    } else if has_modifier(&modifier_list, false) {
        match &operation_result {
            Token::String(_) => {
                let var = Var { value: operation_result, external: false, modifiers: modifier_list };
                vars.insert(variable.0.clone(), var);
                Ok(())
            },
            _ => Err(String::from_str("External variables require a string path.")),
        }
    } else {
        let var = Var { value: operation_result, external: false, modifiers: modifier_list };
        vars.insert(variable.0.clone(), var);
        Ok(())
    }
}

} // verus!
