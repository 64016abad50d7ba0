//! Calling a function of the script, and setting a script up to run.
use vstd::prelude::*;
use crate::text::{decimal, decimal_string, str_is};
use crate::types::{Token, TokenV, ExpressionList, ExpressionListV, tokens_view, token_view};
use crate::utility::{split_by, split_by_spec, strings_view};
use crate::error::{ErrorManager, ErrorRecord, RuntimeError, errors_view, error_view};
use crate::external::{get_lib, library_spec};
use crate::parser::operation_parser::lemma_tokens_view_index;
use super::operation_runner::{Host, VarsV, run_operation};
use super::internal_function::{handle_scope, keeps, scope_view};
use super::vars::{Var, VarV, Vars};

verus! {

/// The first inner scope named `name`: the functions of a script.
pub open spec fn function_index(internals: Seq<(ExpressionListV, usize)>, name: Seq<char>) -> Option<int>
    decreases internals.len(),
{
    if internals.len() == 0 {
        None
    } else {
        match function_index(internals.drop_last(), name) {
            Some(i) => Some(i),
            None => if internals.last().0.scope_info.0 == Some(name) {
                Some(internals.len() - 1)
            } else {
                None
            },
        }
    }
}

/// Finds the function called `name` among the inner scopes of a list.
pub fn find_function(list: &ExpressionList, name: &str) -> (r: Option<usize>)
    ensures
        match r {
            Some(i) => i < list.internal_expressions@.len() && function_index(list@.internals, name@) == Some(i as int),
            None => function_index(list@.internals, name@) is None,
        },
{
    let ghost iv = list@.internals;
    proof {
        lemma_internals_index(list.internal_expressions@);
    }
    let mut i: usize = 0;
    while i < list.internal_expressions.len()
        invariant
            i <= list.internal_expressions@.len(),
            iv == list@.internals,
            iv.len() == list.internal_expressions@.len(),
            forall|k: int| 0 <= k < iv.len() ==> (#[trigger] iv[k]).0 == list.internal_expressions@[k].0@,
            function_index(iv.subrange(0, i as int), name@) is None,
        decreases list.internal_expressions.len() - i,
    {
        let found = match &list.internal_expressions[i].0.scope_info.0 {
            Some(n) => str_is(n.as_str(), name),
            None => false,
        };
        proof {
            let pre = iv.subrange(0, i + 1);
            assert(pre.drop_last() =~= iv.subrange(0, i as int));
            assert(pre.last() == iv[i as int]);
        }
        if found {
            proof {
                assert(iv.subrange(0, i + 1).subrange(0, i + 1) =~= iv.subrange(0, i + 1));
                lemma_function_index_prefix(iv, i + 1, name@);
            }
            return Some(i);
        }
        i = i + 1;
    }
    assert(iv.subrange(0, iv.len() as int) =~= iv);
    None
}

pub proof fn lemma_internals_index(s: Seq<(ExpressionList, usize)>)
    ensures
        crate::types::internals_view(s).len() == s.len(),
        forall|k: int| 0 <= k < s.len() ==> (#[trigger] crate::types::internals_view(s)[k]).0 == s[k].0@
            && crate::types::internals_view(s)[k].1 == s[k].1,
    decreases s.len(),
{
    if s.len() > 0 {
        let f = s.subrange(0, s.len() - 1);
        lemma_internals_index(f);
        assert forall|k: int| 0 <= k < s.len() implies (#[trigger] crate::types::internals_view(s)[k]).0 == s[k].0@
            && crate::types::internals_view(s)[k].1 == s[k].1 by {
            if k < s.len() - 1 {
                assert(f[k] == s[k]);
            }
        }
    }
}

/// Where the first match lies within a prefix, it is the first match of the whole.
pub proof fn lemma_function_index_prefix(s: Seq<(ExpressionListV, usize)>, k: int, name: Seq<char>)
    requires
        0 <= k <= s.len(),
        function_index(s.subrange(0, k), name) is Some,
    ensures
        function_index(s, name) == function_index(s.subrange(0, k), name),
    decreases s.len() - k,
{
    if k < s.len() {
        let p = s.subrange(0, k + 1);
        assert(p.drop_last() =~= s.subrange(0, k));
        assert(p.subrange(0, k) =~= s.subrange(0, k));
        lemma_function_index_prefix(s, k + 1, name);
    } else {
        assert(s.subrange(0, k) =~= s);
    }
}

pub open spec fn no_function_message(name: Seq<char>) -> Seq<char> {
    "No function called '"@ + name + "' exists."@
}

pub open spec fn args_count_message(expected: nat, got: nat) -> Seq<char> {
    "Expected "@ + decimal(expected) + " arguments, but only recieved "@ + decimal(got) + "."@
}

/// The arguments of a call, named by the parameter list of the function.
pub open spec fn bind_spec(expected: Option<Seq<char>>, args: Seq<TokenV>, line: usize) -> Result<Seq<(Seq<char>, TokenV)>, (Seq<char>, usize)> {
    match expected {
        None => Ok(seq![]),
        Some(e) => match split_by_spec(e, ',') {
            Err(m) => Err((m, line)),
            Ok(names) => if names.len() == args.len() {
                Ok(Seq::new(names.len(), |i: int| (names[i], args[i])))
            } else {
                Err((args_count_message(names.len(), args.len()), line))
            },
        },
    }
}

/// The variables with the named arguments added (a later one of a name wins).
pub open spec fn with_bindings(m: VarsV, b: Seq<(Seq<char>, TokenV)>) -> VarsV
    decreases b.len(),
{
    if b.len() == 0 {
        m
    } else {
        with_bindings(m, b.drop_last()).insert(b.last().0, VarV { value: b.last().1, external: false, modifiers: seq![] })
    }
}

/// Calls a function of the script: its parameters are bound to the
/// arguments on top of a copy of the global variables, its body runs, and
/// on success those variables (parameters included; the body's own
/// variables removed) are the new globals.
pub fn call_internal<H: Host>(host: &mut H, globals: &Vars, function: &ExpressionList, arguments: Vec<Token>) -> (r: (Result<Option<Token>, (String, usize)>, Option<Vars>))
    requires
        globals.wf(),
    ensures
        match bind_spec(function@.scope_info.1, tokens_view(arguments@), function.line_start) {
            Err(x) => r.1 is None && match r.0 {
                Err((e, l)) => (e@, l) == x,
                _ => false,
            },
            Ok(b) => (r.0 is Ok <==> r.1 is Some) && (r.1 matches Some(g) ==> g.wf() && keeps(
                with_bindings(globals@, b),
                g@,
            )) && (super::internal_function::scope_spec(function@, with_bindings(globals@, b), false) matches Some((res, v))
                ==> scope_view(r.0) == res && (res is Ok ==> (r.1 matches Some(g) && g@ == v))),
        },
{
    let ghost av = tokens_view(arguments@);
    proof {
        lemma_tokens_view_index(arguments@);
    }
    let mut scope_vars = globals.duplicate();
    match &function.scope_info.1 {
        Some(expected_args) => {
            let names = match split_by(expected_args.as_str(), ',') {
                Ok(n) => n,
                Err(e) => {
                    return (Err((e, function.line_start)), None);
                },
            };
            if names.len() != arguments.len() {
                let mut m = String::from_str("Expected ");
                m.append(decimal_string(names.len()).as_str());
                m.append(" arguments, but only recieved ");
                m.append(decimal_string(arguments.len()).as_str());
                m.append(".");
                return (Err((m, function.line_start)), None);
            }
            let ghost nv = strings_view(names@);
            let ghost b = Seq::new(nv.len(), |i: int| (nv[i], av[i]));
            let mut i: usize = 0;
            while i < names.len()
                invariant
                    i <= names.len(),
                    names.len() == arguments.len(),
                    nv == strings_view(names@),
                    nv.len() == names.len(),
                    av == tokens_view(arguments@),
                    av.len() == arguments.len(),
                    forall|k: int| 0 <= k < arguments.len() ==> av[k] == token_view(#[trigger] arguments@[k]),
                    b == Seq::new(nv.len(), |i: int| (nv[i], av[i])),
                    scope_vars.wf(),
                    scope_vars@ == with_bindings(globals@, b.subrange(0, i as int)),
                decreases names.len() - i,
            {
                let ghost before = scope_vars@;
                let var = Var { value: arguments[i].duplicate(), external: false, modifiers: Vec::new() };
                proof {
                    assert(var.modifiers@.map_values(|m: crate::types::VariableModifier| m@) =~= Seq::<crate::types::ModifierV>::empty());
                    assert(nv[i as int] == names@[i as int]@);
                    let p = b.subrange(0, i + 1);
                    assert(p.drop_last() =~= b.subrange(0, i as int));
                }
                scope_vars.insert(names[i].clone(), var);
                i = i + 1;
            }
            proof {
                assert(b.subrange(0, names.len() as int) =~= b);
            }
        },
        None => {
            proof {
                assert(scope_vars@ == with_bindings(globals@, seq![]));
            }
        },
    }
    let ghost bound = scope_vars@;
    let result = handle_scope(host, function, &mut scope_vars, false);
    match result {
        Ok(r) => (Ok(r), Some(scope_vars)),
        Err(e) => (Err(e), None),
    }
}

/// What calling the script's function `name` with `args` gives: its result
/// `res`, and the globals `after` it (none when it fails). A missing
/// function, or arguments that do not bind, fail; otherwise the function's
/// body runs with the globals and its parameters, and gives what the body
/// gives wherever the host decides nothing of it.
pub open spec fn script_call(
    list: ExpressionListV,
    globals: VarsV,
    name: Seq<char>,
    args: Seq<TokenV>,
    line_number: usize,
    res: Result<Option<TokenV>, (Seq<char>, usize)>,
    after: Option<VarsV>,
) -> bool {
    match function_index(list.internals, name) {
        None => after is None && res == Err::<Option<TokenV>, (Seq<char>, usize)>((no_function_message(name), line_number)),
        Some(i) => match bind_spec(list.internals[i].0.scope_info.1, args, list.internals[i].0.line_start) {
            Err(x) => after is None && res == Err::<Option<TokenV>, (Seq<char>, usize)>(x),
            Ok(b) => (res is Ok <==> after is Some) && (after matches Some(g) ==> keeps(with_bindings(globals, b), g))
                && (super::internal_function::scope_spec(list.internals[i].0, with_bindings(globals, b), false) matches Some(
                (rs, v),
            ) ==> res == rs && (rs is Ok ==> after == Some(v))),
        },
    }
}

pub open spec fn opt_vars_view(g: Option<Vars>) -> Option<VarsV> {
    match g {
        Some(v) => Some(v@),
        None => None,
    }
}

/// Calls the function of the script called `name`, or tells that there is none.
pub fn call<H: Host>(host: &mut H, globals: &Vars, list: &ExpressionList, name: &str, arguments: Vec<Token>, line_number: usize) -> (r: (Result<Option<Token>, (String, usize)>, Option<Vars>))
    requires
        globals.wf(),
    ensures
        r.1 matches Some(g) ==> g.wf(),
        script_call(list@, globals@, name@, tokens_view(arguments@), line_number, scope_view(r.0), opt_vars_view(r.1)),
{
    proof {
        lemma_internals_index(list.internal_expressions@);
    }
    match find_function(list, name) {
        Some(i) => call_internal(host, globals, &list.internal_expressions[i].0, arguments),
        None => {
            let mut m = String::from_str("No function called '");
            m.append(name);
            m.append("' exists.");
            (Err((m, line_number)), None)
        },
    }
}


/// The errors that including libraries gives: one for each name that is no library.
pub open spec fn include_errors(includes: Seq<(Seq<char>, usize)>) -> Seq<crate::error::ErrorV>
    decreases includes.len(),
{
    if includes.len() == 0 {
        seq![]
    } else {
        let rest = include_errors(includes.drop_last());
        match library_spec(includes.last().0) {
            Err(m) => rest.push(crate::error::ErrorV::Runtime(includes.last().1, None, m)),
            Ok(_) => rest,
        }
    }
}

/// The errors the top-level assignments report, in order; `None` where
/// the host decides one of them.
pub open spec fn global_errors(singles: Seq<crate::types::SingleV>) -> Option<Seq<crate::error::ErrorV>>
    decreases singles.len(),
{
    if singles.len() == 0 {
        Some(seq![])
    } else {
        match (global_errors(singles.drop_last()), super::operation_runner::run_spec(singles.last().2, Map::empty())) {
            (Some(es), Some(Err(m))) => Some(es.push(crate::error::ErrorV::Runtime(singles.last().3, None, m))),
            (Some(es), Some(Ok(_))) => Some(es),
            _ => None,
        }
    }
}

/// The value the last assignment to a top-level variable gives it.
pub open spec fn set_by_last(singles: Seq<crate::types::SingleV>, upto: int, vars: VarsV) -> bool {
    forall|k: int|
        0 <= k < upto && (forall|j: int| k < j < upto ==> singles[j].0 != (#[trigger] singles[k]).0) ==> (
        super::operation_runner::run_spec(singles[k].2, Map::empty()) matches Some(Ok(Some(v))) ==> vars.contains_key(
            singles[k].0,
        ) && vars[singles[k].0] == VarV { value: v, external: false, modifiers: seq![] })
}

/// Sets a script up to run: each included library is registered (its
/// variables become external variables) or reported, then each top-level
/// assignment is run, with no variables in sight, and its value set, or
/// its error reported.
pub fn run_setup<H: Host>(host: &mut H, global: &ExpressionList, vars: &mut Vars, error_manager: &mut ErrorManager)
    requires
        old(vars).wf(),
    ensures
        final(vars).wf(),
        ({
            let p = errors_view(old(error_manager).errors@) + include_errors(global@.includes);
            p.len() <= final(error_manager).errors@.len() && errors_view(final(error_manager).errors@).subrange(0, p.len() as int) == p
        }),
        global_errors(global@.singles) matches Some(ge) ==> errors_view(final(error_manager).errors@) == errors_view(
            old(error_manager).errors@,
        ) + include_errors(global@.includes) + ge,
        set_by_last(global@.singles, global@.singles.len() as int, final(vars)@),
{
    let ghost start = errors_view(error_manager.errors@);
    let ghost inc = global@.includes;
    let mut i: usize = 0;
    while i < global.includes.len()
        invariant
            i <= global.includes@.len(),
            vars.wf(),
            inc == global@.includes,
            inc == crate::types::includes_view(global.includes@),
            errors_view(error_manager.errors@) == start + include_errors(inc.subrange(0, i as int)),
        decreases global.includes.len() - i,
    {
        let name = &global.includes[i].0;
        let line = global.includes[i].1;
        proof {
            let pre = inc.subrange(0, i + 1);
            assert(pre.drop_last() =~= inc.subrange(0, i as int));
            assert(pre.last() == inc[i as int]);
            assert(inc[i as int] == (name@, line));
        }
        match get_lib(name.as_str()) {
            Ok(lib) => {
                let lib_vars = host.register_library(lib);
                let mut j: usize = 0;
                while j < lib_vars.len()
                    invariant
                        vars.wf(),
                        j <= lib_vars.len(),
                    decreases lib_vars.len() - j,
                {
                    let var = Var { value: lib_vars[j].1.duplicate(), external: true, modifiers: Vec::new() };
                    vars.insert(lib_vars[j].0.clone(), var);
                    j = j + 1;
                }
            },
            Err(e) => {
                let ghost before = error_manager.errors@;
                let err = RuntimeError::new(line, None, e.as_str());
                error_manager.add_error(ErrorRecord::Runtime(err));
                proof {
                    assert(errors_view(error_manager.errors@) =~= errors_view(before).push(error_view(ErrorRecord::Runtime(err))));
                }
            },
        }
        i = i + 1;
    }
    proof {
        assert(inc.subrange(0, inc.len() as int) =~= inc);
    }
    let ghost p = errors_view(error_manager.errors@);
    let ghost sv = global@.singles;
    let mut k: usize = 0;
    while k < global.single_op.len()
        invariant
            k <= global.single_op@.len(),
            sv == global@.singles,
            sv.len() == global.single_op@.len(),
            vars.wf(),
            p.len() <= error_manager.errors@.len(),
            errors_view(error_manager.errors@).subrange(0, p.len() as int) == p,
            global_errors(sv.subrange(0, k as int)) matches Some(ge) ==> errors_view(error_manager.errors@) == p + ge,
            set_by_last(sv, k as int, vars@),
        decreases global.single_op.len() - k,
    {
        let x = &global.single_op[k];
        let empty = Vars::new();
        let ghost before_vars = vars@;
        let ghost before_errs = errors_view(error_manager.errors@);
        proof {
            assert(sv[k as int] == crate::types::single_view(*x));
            let pre = sv.subrange(0, k + 1);
            assert(pre.drop_last() =~= sv.subrange(0, k as int));
            assert(pre.last() == sv[k as int]);
        }
        match run_operation(host, &x.2, &empty) {
            Ok(Some(result)) => {
                let var = Var { value: result, external: false, modifiers: Vec::new() };
                proof {
                    assert(var.modifiers@.map_values(|m: crate::types::VariableModifier| m@) =~= Seq::<crate::types::ModifierV>::empty());
                }
                vars.insert(x.0.clone(), var);
            },
            Ok(None) => {},
            Err(e) => {
                let err = RuntimeError::new(x.3, None, e.as_str());
                let ghost b4 = error_manager.errors@;
                error_manager.add_error(ErrorRecord::Runtime(err));
                proof {
                    let after = errors_view(error_manager.errors@);
                    assert(after =~= errors_view(b4).push(crate::error::ErrorV::Runtime(x.3, None, e@)));
                    assert(after.subrange(0, p.len() as int) =~= before_errs.subrange(0, p.len() as int));
                    if let Some(ge) = global_errors(sv.subrange(0, k + 1)) {
                        let ge0 = global_errors(sv.subrange(0, k as int)).unwrap();
                        assert(ge == ge0.push(crate::error::ErrorV::Runtime(x.3, None, e@)));
                        assert(after =~= p + ge);
                    }
                }
            },
        }
        proof {
            assert forall|k2: int|
                0 <= k2 < k + 1 && (forall|j: int| k2 < j < k + 1 ==> sv[j].0 != (#[trigger] sv[k2]).0) implies (
                super::operation_runner::run_spec(sv[k2].2, Map::empty()) matches Some(Ok(Some(v))) ==> vars@.contains_key(
                    sv[k2].0,
                ) && vars@[sv[k2].0] == VarV { value: v, external: false, modifiers: seq![] }) by {
                if k2 < k {
                    assert(sv[k as int].0 != sv[k2].0);
                    assert(forall|j: int| k2 < j < k ==> sv[j].0 != sv[k2].0);
                }
            }
        }
        k = k + 1;
    }
    proof {
        assert(sv.subrange(0, sv.len() as int) =~= sv);
    }
}


/// What the embedding program has registered under a name.
pub enum Registered {
    /// Nothing: the script's own function of that name is called.
    Absent,
    /// The name, without a function: the call gives nothing.
    Empty,
    /// A function, and what it answered.
    Answered(Result<Option<Token>, String>),
}

/// Calls `name` from a running script: a function the embedding program
/// registered under the name wins over the script's own (its error comes
/// with line 0); otherwise the script's function runs with the globals, which
/// then take the globals it leaves.
pub fn call_by_name<H: Host>(host: &mut H, registered: Registered, globals: &mut Vars, list: &ExpressionList, name: &str, args: Vec<Token>, line_number: usize) -> (r: Result<Option<Token>, (String, usize)>)
    requires
        old(globals).wf(),
    ensures
        final(globals).wf(),
        match registered {
            Registered::Answered(Ok(v)) => r == Ok::<Option<Token>, (String, usize)>(v) && final(globals)@ == old(globals)@,
            Registered::Answered(Err(e)) => scope_view(r) == Err::<Option<TokenV>, (Seq<char>, usize)>((e@, 0usize))
                && final(globals)@ == old(globals)@,
            Registered::Empty => r == Ok::<Option<Token>, (String, usize)>(None) && final(globals)@ == old(globals)@,
            Registered::Absent => script_call(
                list@,
                old(globals)@,
                name@,
                tokens_view(args@),
                line_number,
                scope_view(r),
                if r is Ok { Some(final(globals)@) } else { None },
            ) && (r is Err ==> final(globals)@ == old(globals)@),
        },
{
    match registered {
        Registered::Answered(Ok(v)) => Ok(v),
        Registered::Answered(Err(e)) => Err((e, 0)),
        Registered::Empty => Ok(None),
        Registered::Absent => {
            let (result, after) = call(host, globals, list, name, args, line_number);
            match after {
                Some(g) => {
                    *globals = g;
                },
                None => {},
            }
            result
        },
    }
}

/// What a call for the embedding program gives, once the function has
/// answered: its value, or nothing with its error reported under the
/// function's name and the line it came from.
pub fn report_call_result(function_name: &String, result: Result<Option<Token>, (String, usize)>, error_manager: &mut ErrorManager) -> (r: Option<Token>)
    ensures
        match result {
            Ok(v) => r == v && final(error_manager).errors@ == old(error_manager).errors@,
            Err((e, line)) => r is None && final(error_manager).errors@.len() == old(error_manager).errors@.len() + 1
                && final(error_manager).errors@.drop_last() == old(error_manager).errors@
                && error_view(final(error_manager).errors@.last()) == crate::error::ErrorV::Runtime(
                line,
                Some(function_name@),
                e@,
            ),
        },
{
    match result {
        Ok(v) => v,
        Err((error, line_number)) => {
            let ghost before = error_manager.errors@;
            let err = RuntimeError::new(line_number, Some(function_name.clone()), error.as_str());
            error_manager.add_error(ErrorRecord::Runtime(err));
            proof {
                assert(error_manager.errors@.drop_last() =~= before);
            }
            None
        },
    }
}

/// Calls a function for the embedding program: on an error, it is reported
/// with the function's name and the line it came from, and nothing is
/// returned (see `report_call_result`). Which of the two happens, and the
/// value returned, are the host's answer.
pub fn call_function<H: Host>(host: &mut H, function_name: &String, args: Vec<Token>, error_manager: &mut ErrorManager) -> (r: Option<Token>)
    ensures
        final(error_manager).errors@.len() <= old(error_manager).errors@.len() + 1,
        final(error_manager).errors@.subrange(0, old(error_manager).errors@.len() as int) == old(error_manager).errors@,
        final(error_manager).errors@.len() == old(error_manager).errors@.len() + 1 ==> r is None && exists|line: usize, m: Seq<char>|
            error_view(#[trigger] final(error_manager).errors@.last()) == crate::error::ErrorV::Runtime(line, Some(function_name@), m),
{
    let ghost before = error_manager.errors@;
    let answer = host.call_function(function_name, args);
    let r = report_call_result(function_name, answer, error_manager);
    proof {
        let after = error_manager.errors@;
        if after == before {
            assert(after.subrange(0, before.len() as int) =~= before);
        } else {
            assert(after.subrange(0, before.len() as int) =~= after.drop_last());
        }
    }
    r
}


/// Arguments bind by position: the `i`-th parameter named in the function's
/// header gets the `i`-th argument, and after binding, a parameter whose
/// name no later parameter repeats holds its argument.
pub proof fn lemma_bind_positional(expected: Option<Seq<char>>, args: Seq<TokenV>, line: usize, m: VarsV)
    ensures
        bind_spec(expected, args, line) matches Ok(b) ==> (expected is Some ==> b.len() == args.len()) && (expected is None
            ==> b.len() == 0),
        bind_spec(expected, args, line) matches Ok(b) ==> forall|i: int| 0 <= i < b.len() ==> (#[trigger] b[i]).1 == args[i],
        bind_spec(expected, args, line) matches Ok(b) ==> (expected matches Some(e) ==> (split_by_spec(e, ',') matches Ok(
            names,
        ) && forall|i: int| 0 <= i < b.len() ==> (#[trigger] b[i]).0 == names[i])),
        bind_spec(expected, args, line) matches Ok(b) ==> forall|i: int|
            0 <= i < b.len() && (forall|j: int| i < j < b.len() ==> b[j].0 != b[i].0) ==> with_bindings(m, b).contains_key(
                (#[trigger] b[i]).0,
            ) && with_bindings(m, b)[b[i].0].value == args[i],
{
    if let Ok(b) = bind_spec(expected, args, line) {
        assert forall|i: int|
            0 <= i < b.len() && (forall|j: int| i < j < b.len() ==> b[j].0 != b[i].0) implies with_bindings(m, b).contains_key(
                (#[trigger] b[i]).0,
            ) && with_bindings(m, b)[b[i].0].value == args[i] by {
            lemma_with_bindings_holds(m, b, i);
        }
    }
}

proof fn lemma_with_bindings_holds(m: VarsV, b: Seq<(Seq<char>, TokenV)>, i: int)
    requires
        0 <= i < b.len(),
        forall|j: int| i < j < b.len() ==> b[j].0 != b[i].0,
    ensures
        with_bindings(m, b).contains_key(b[i].0),
        with_bindings(m, b)[b[i].0].value == b[i].1,
    decreases b.len(),
{
    if i < b.len() - 1 {
        let d = b.drop_last();
        assert(d[i] == b[i]);
        assert forall|j: int| i < j < d.len() implies d[j].0 != d[i].0 by {
            assert(d[j] == b[j]);
        }
        lemma_with_bindings_holds(m, d, i);
        assert(b.last().0 != b[i].0);
    }
}

} // verus!
