//! Running a scope: the lines of a function body, of a branch or of a loop.
use vstd::prelude::*;
use crate::text::str_is;
use crate::types::{Token, TokenV, ExpressionList, ExpressionListV, ExpressionListType, names_view, tokens_view};
use crate::parser::operation_parser::{parse_operation, lemma_tokens_view_push};
use super::operation_runner::{Host, VarsV, EvalV, eval_view, run_operation, run_spec};
use super::token_impl::{variant_eq, lemma_all_pairs_variant};
use super::vars::{Var, VarV, Vars};

verus! {

/// A loop scope that never breaks stops after this many rounds.
pub const LOOP_LIMIT: u64 = 18446744073709551615;

/// Which kind of value a token is.
pub open spec fn kind_of(t: TokenV) -> nat {
    match t {
        TokenV::Null => 0,
        TokenV::Int(_) => 1,
        TokenV::Float(_) => 2,
        TokenV::Bool(_) => 3,
        TokenV::Str(_) => 4,
        TokenV::Char(_) => 5,
        TokenV::Collection(_) => 6,
        TokenV::Var(_) => 7,
        TokenV::Call(_, _) => 8,
        TokenV::Operation(_) => 9,
        TokenV::Operator(_) => 10,
        TokenV::Accessor(_, _) => 11,
        TokenV::Break => 12,
    }
}

/// Values of the same kind, in the sense of `variant_equal`, are of one kind.
pub proof fn lemma_variant_eq_kind(a: TokenV, b: TokenV)
    requires
        variant_eq(a, b),
    ensures
        kind_of(a) == kind_of(b),
{
}

/// An external variable may take `cur` in place of `old`: the same value,
/// or one of its kind in the sense of `variant_equal`.
pub open spec fn same_kind(cur: TokenV, old: TokenV) -> bool {
    cur == old || variant_eq(cur, old)
}

/// The variables of `old` are all still in `cur`, each as external as it
/// was, with its modifiers, and an external one holding the value it held
/// or one of its kind.
pub open spec fn keeps(old: VarsV, cur: VarsV) -> bool {
    forall|k: Seq<char>| #[trigger] old.contains_key(k) ==> {
        &&& cur.contains_key(k)
        &&& cur[k].external == old[k].external
        &&& cur[k].modifiers == old[k].modifiers
        &&& (old[k].external ==> same_kind(cur[k].value, old[k].value))
    }
}

/// Being of one kind carries over from value to value.
pub proof fn lemma_variant_eq_trans(a: TokenV, b: TokenV, c: TokenV)
    requires
        variant_eq(a, b),
        variant_eq(b, c),
    ensures
        variant_eq(a, c),
    decreases a,
{
    if let (TokenV::Collection(x), TokenV::Collection(y), TokenV::Collection(z)) = (a, b, c) {
        lemma_all_pairs_variant(x, y);
        lemma_all_pairs_variant(y, z);
        lemma_all_pairs_variant(x, z);
        if y.len() > 0 {
            assert forall|i: int, k: int| 0 <= i < x.len() && 0 <= k < z.len() implies #[trigger] variant_eq(x[i], z[k]) by {
                assert(variant_eq(x[i], y[0]));
                assert(variant_eq(y[0], z[k]));
                lemma_variant_eq_trans(x[i], y[0], z[k]);
            }
        }
    }
}

/// `keeps` holds of any variables and themselves.
pub proof fn lemma_keeps_refl(m: VarsV)
    ensures
        keeps(m, m),
{
}

/// `keeps` composes: what one scope keeps, and the next keeps of that, is kept.
pub proof fn lemma_keeps_trans(a: VarsV, b: VarsV, c: VarsV)
    requires
        keeps(a, b),
        keeps(b, c),
    ensures
        keeps(a, c),
{
    assert forall|k: Seq<char>| #[trigger] a.contains_key(k) implies {
        &&& c.contains_key(k)
        &&& c[k].external == a[k].external
        &&& c[k].modifiers == a[k].modifiers
        &&& (a[k].external ==> same_kind(c[k].value, a[k].value))
    } by {
        assert(b.contains_key(k));
        if a[k].external && c[k].value != a[k].value && c[k].value != b[k].value && b[k].value != a[k].value {
            lemma_variant_eq_trans(c[k].value, b[k].value, a[k].value);
        }
    }
}

/// What assigning `value` to the variable `name` does: a new name becomes a
/// variable of the scope; an existing variable takes the value, unless it
/// is external and the value is not of its kind.
pub open spec fn assigned(m: VarsV, name: Seq<char>, value: TokenV) -> VarsV {
    if m.contains_key(name) {
        let v = m[name];
        if !v.external || variant_eq(value, v.value) {
            m.insert(name, VarV { value: value, ..v })
        } else {
            m
        }
    } else {
        m.insert(name, VarV { value: value, external: false, modifiers: seq![] })
    }
}

/// An assignment keeps every variable that was there.
pub proof fn lemma_assigned_keeps(m: VarsV, name: Seq<char>, value: TokenV)
    ensures
        keeps(m, assigned(m, name, value)),
{

}

/// Assigns `value` to the variable `name`. Says whether the name is new,
/// and whether the variable is an external one.
pub fn assign(vars: &mut Vars, name: &String, value: Token) -> (r: (bool, bool))
    requires
        old(vars).wf(),
    ensures
        final(vars).wf(),
        final(vars)@ == assigned(old(vars)@, name@, value@),
        r.0 == !old(vars)@.contains_key(name@),
        r.1 == (old(vars)@.contains_key(name@) && old(vars)@[name@].external),
{
    let (found, ext, ok) = match vars.get(name.as_str()) {
        Some(v) => {
            let ext = v.external;
            let ok = !ext || value.variant_equal(&v.value);
            (true, ext, ok)
        },
        None => (false, false, false),
    };
    if found {
        if ok {
            vars.set_value(name.as_str(), value);
        }
        (false, ext)
    } else {
        let var = Var { value, external: false, modifiers: Vec::new() };
        proof {
            assert(var.modifiers@.map_values(|m: crate::types::VariableModifier| m@) =~= Seq::<crate::types::ModifierV>::empty());
            assert(super::vars::var_view(var) =~= VarV { value: value@, external: false, modifiers: seq![] });
        }
        vars.insert(name.clone(), var);
        (true, false)
    }
}

fn line_at(start: usize, i: usize) -> (r: usize)
    ensures
        r == if start + i <= usize::MAX { (start + i) as usize } else { usize::MAX },
{
    if start <= usize::MAX - i {
        start + i
    } else {
        usize::MAX
    }
}

fn index_error() -> (r: (String, usize))
    ensures
        r.0@ == "index out of bounds"@,
        r.1 == 0,
{
    (String::from_str("index out of bounds"), 0)
}

/// Whether a loop round's result ends the loop, and what the loop then gives:
/// a `break` ends it with nothing, a returned value ends it with the value;
/// anything else (no value, or an error) runs the loop again.
pub open spec fn loop_end(r: Result<Option<TokenV>, (Seq<char>, usize)>) -> Option<Result<Option<TokenV>, (Seq<char>, usize)>> {
    match r {
        Ok(Some(TokenV::Break)) => Some(Ok(None)),
        Ok(Some(t)) => Some(Ok(Some(t))),
        _ => None,
    }
}

pub open spec fn scope_view(r: Result<Option<Token>, (String, usize)>) -> Result<Option<TokenV>, (Seq<char>, usize)> {
    match r {
        Ok(Some(t)) => Ok(Some(t@)),
        Ok(None) => Ok(None),
        Err((e, l)) => Err((e@, l)),
    }
}

/// Decides what a loop round's result means for the loop.
pub fn loop_step(r: Result<Option<Token>, (String, usize)>) -> (s: Option<Result<Option<Token>, (String, usize)>>)
    ensures
        match (s, loop_end(scope_view(r))) {
            (Some(a), Some(b)) => scope_view(a) == b,
            (None, None) => true,
            _ => false,
        },
{
    match r {
        Ok(Some(Token::Break)) => Some(Ok(None)),
        Ok(Some(t)) => Some(Ok(Some(t))),
        _ => None,
    }
}

// ---------------------------------------------------------------------------
// What running a scope gives
// ---------------------------------------------------------------------------

/// Whether a result is the marker a `break` leaves.
pub open spec fn breaks(r: ScopeRes) -> bool {
    r == Ok::<Option<TokenV>, (Seq<char>, usize)>(Some(TokenV::Break))
}

/// A scope's result: a returned value, or an error and its line.
pub type ScopeRes = Result<Option<TokenV>, (Seq<char>, usize)>;

/// Where a scope's run stands between two lines.
pub struct ScopeSt {
    pub vars: VarsV,
    pub result: ScopeRes,
    pub locals: Seq<Seq<char>>,
    pub prev_failed: bool,
    pub single: int,
    pub multi: int,
    pub internal: int,
}

/// What one line does to a scope's run: it goes on, it stops the run (a
/// `break` or `continue` in a loop), or it fails, leaving the variables as
/// they are.
pub enum Flow {
    Next(ScopeSt),
    Stop(ScopeSt),
    Fail(ScopeRes, VarsV),
}

pub open spec fn line_at_spec(start: usize, i: int) -> usize {
    if start + i <= usize::MAX { (start + i) as usize } else { usize::MAX }
}

/// The variables with the given names removed, in order.
pub open spec fn remove_names(m: VarsV, names: Seq<Seq<char>>) -> VarsV
    decreases names.len(),
{
    if names.len() == 0 {
        m
    } else {
        remove_names(m, names.drop_last()).remove(names.last())
    }
}

/// Whether `n` is no longer there once the names are removed, or was never
/// there.
pub proof fn lemma_remove_names(m: VarsV, names: Seq<Seq<char>>, k: Seq<char>)
    ensures
        remove_names(m, names).contains_key(k) <==> (m.contains_key(k) && !names.contains(k)),
    decreases names.len(),
{
    if names.len() > 0 {
        lemma_remove_names(m, names.drop_last(), k);
        if names.contains(k) && !names.drop_last().contains(k) {
            let j = choose|j: int| 0 <= j < names.len() && names[j] == k;
            if j < names.len() - 1 {
                assert(names.drop_last()[j] == k);
            }
        }
        if names.drop_last().contains(k) {
            let j = choose|j: int| 0 <= j < names.drop_last().len() && names.drop_last()[j] == k;
            assert(names[j] == k);
        }
    }
}

/// Whether a line of `f` itself assigns to `n`.
pub open spec fn single_assigns(f: ExpressionListV, n: Seq<char>) -> bool {
    exists|j: int| 0 <= j < f.singles.len() && (#[trigger] f.singles[j]).0 == n
}

/// Whether a line of `f`, or of a scope inside it at any depth, assigns to `n`.
pub open spec fn assigns(f: ExpressionListV, n: Seq<char>) -> bool
    decreases f,
{
    single_assigns(f, n) || any_assigns(f.internals, n)
}

/// Whether one of the scopes assigns to `n`, at any depth.
pub open spec fn any_assigns(s: Seq<(ExpressionListV, usize)>, n: Seq<char>) -> bool
    decreases s,
{
    if s.len() == 0 {
        false
    } else {
        any_assigns(s.drop_last(), n) || assigns(s.last().0, n)
    }
}

/// Whether a line of `f` itself is a `return`.
pub open spec fn single_returns(f: ExpressionListV) -> bool {
    exists|j: int| 0 <= j < f.singles.len() && (#[trigger] f.singles[j]).0 == "return"@
}

/// Whether `f`, or a scope inside it at any depth, has a `return` line.
pub open spec fn returns_in(f: ExpressionListV) -> bool
    decreases f,
{
    single_returns(f) || any_returns(f.internals)
}

/// Whether one of the scopes has a `return` line, at any depth.
pub open spec fn any_returns(s: Seq<(ExpressionListV, usize)>) -> bool
    decreases s,
{
    if s.len() == 0 {
        false
    } else {
        any_returns(s.drop_last()) || returns_in(s.last().0)
    }
}

proof fn lemma_any_returns_at(s: Seq<(ExpressionListV, usize)>, j: int)
    requires
        0 <= j < s.len(),
        returns_in(s[j].0),
    ensures
        any_returns(s),
    decreases s.len(),
{
    if j < s.len() - 1 {
        assert(s.drop_last()[j] == s[j]);
        lemma_any_returns_at(s.drop_last(), j);
    }
}

/// Whether a line of a scope inside `f`, at any depth, assigns to `n`.
pub open spec fn inner_assigns(f: ExpressionListV, n: Seq<char>) -> bool {
    any_assigns(f.internals, n)
}

proof fn lemma_any_assigns_at(s: Seq<(ExpressionListV, usize)>, n: Seq<char>, j: int)
    requires
        0 <= j < s.len(),
        assigns(s[j].0, n),
    ensures
        any_assigns(s, n),
    decreases s.len(),
{
    if j < s.len() - 1 {
        assert(s.drop_last()[j] == s[j]);
        lemma_any_assigns_at(s.drop_last(), n, j);
    }
}

proof fn lemma_assigns(f: ExpressionListV, n: Seq<char>)
    ensures
        assigns(f, n) == (single_assigns(f, n) || inner_assigns(f, n)),
{
}

/// The names the scopes inside `f` assign to, at any depth.
pub open spec fn inner_names(f: ExpressionListV) -> Set<Seq<char>> {
    Set::new(|n: Seq<char>| inner_assigns(f, n))
}

/// Every variable of `cur` was in `old`, or is assigned somewhere in `f`.
pub open spec fn grown(old: VarsV, cur: VarsV, f: ExpressionListV) -> bool {
    forall|k: Seq<char>| #[trigger] cur.contains_key(k) ==> old.contains_key(k) || assigns(f, k)
}

/// Every variable of `cur` was in `old`, or is assigned in a scope inside `f`.
pub open spec fn grown_inner(old: VarsV, cur: VarsV, f: ExpressionListV) -> bool {
    forall|k: Seq<char>| #[trigger] cur.contains_key(k) ==> old.contains_key(k) || inner_assigns(f, k)
}

proof fn lemma_grown_trans(a: VarsV, b: VarsV, c: VarsV, f: ExpressionListV)
    requires
        grown(a, b, f),
        grown(b, c, f),
    ensures
        grown(a, c, f),
{
    assert forall|k: Seq<char>| #[trigger] c.contains_key(k) implies a.contains_key(k) || assigns(f, k) by {
        if !assigns(f, k) {
            assert(b.contains_key(k));
        }
    }
}

/// What a scope's run holds: every variable is one it was given, one of its
/// own, or one assigned in a scope inside it; and its own are assigned by
/// its lines.
pub open spec fn run_bounds(start: VarsV, cur: VarsV, locals: Seq<Seq<char>>, f: ExpressionListV) -> bool {
    &&& forall|k: Seq<char>| #[trigger] cur.contains_key(k) ==> start.contains_key(k) || locals.contains(k) || inner_assigns(f, k)
    &&& forall|j: int| 0 <= j < locals.len() ==> single_assigns(f, #[trigger] locals[j])
}

proof fn lemma_run_bounds_grown(start: VarsV, cur: VarsV, locals: Seq<Seq<char>>, f: ExpressionListV)
    requires
        run_bounds(start, cur, locals, f),
    ensures
        grown(start, cur, f),
{
    assert forall|k: Seq<char>| #[trigger] cur.contains_key(k) implies start.contains_key(k) || assigns(f, k) by {
        if locals.contains(k) {
            let j = choose|j: int| 0 <= j < locals.len() && locals[j] == k;
            assert(single_assigns(f, locals[j]));
        }
        lemma_assigns(f, k);
    }
}

/// The end of a run: its result, and its variables without its own.
pub open spec fn finish_scope(st: ScopeSt) -> (ScopeRes, VarsV) {
    (st.result, remove_names(st.vars, st.locals))
}

pub open spec fn scope_start(vars: VarsV) -> ScopeSt {
    ScopeSt { vars, result: Ok(None), locals: seq![], prev_failed: false, single: 0, multi: 0, internal: 0 }
}

/// What running a scope gives: its result and the variables after it.
/// `None` where the host decides (calls, float arithmetic, a failing
/// index).
pub open spec fn scope_spec(f: ExpressionListV, vars: VarsV, is_loop: bool) -> Option<(ScopeRes, VarsV)>
    decreases f, 1int, f.order.len() + 2,
{
    scope_loop(f, is_loop, 0, scope_start(vars))
}

/// The run of a scope from line `i` on.
pub open spec fn scope_loop(f: ExpressionListV, is_loop: bool, i: int, st: ScopeSt) -> Option<(ScopeRes, VarsV)>
    decreases f, 1int, f.order.len() - i + 1,
{
    if i < 0 || i >= f.order.len() {
        Some(finish_scope(st))
    } else {
        match line_step(f, is_loop, i, st) {
            None => None,
            Some(Flow::Fail(r, v)) => Some((r, v)),
            Some(Flow::Stop(st2)) => Some(finish_scope(st2)),
            Some(Flow::Next(st2)) => if st2.result matches Ok(Some(_)) {
                Some(finish_scope(st2))
            } else {
                scope_loop(f, is_loop, i + 1, st2)
            },
        }
    }
}

/// The rounds of a loop scope, from round `n` on: the result that ends the
/// loop (none if it runs out of rounds) and the variables after it.
pub open spec fn loop_spec(body: ExpressionListV, vars: VarsV, n: int) -> Option<(Option<ScopeRes>, VarsV)>
    decreases body, 2int, LOOP_LIMIT - n,
{
    if n < 0 || n >= LOOP_LIMIT {
        Some((None, vars))
    } else {
        match scope_spec(body, vars, true) {
            None => None,
            Some((r, v)) => match loop_end(r) {
                Some(end) => Some((Some(end), v)),
                None => loop_spec(body, v, n + 1),
            },
        }
    }
}

/// What an inner scope's run makes of the outer run.
pub open spec fn after_inner(inner: Option<(ScopeRes, VarsV)>, st: ScopeSt) -> Option<Flow> {
    match inner {
        None => None,
        Some((r, v)) => Some(Flow::Next(ScopeSt { vars: v, result: r, ..st })),
    }
}

/// An `if`, or an `elif` after a failed condition: its condition is parsed
/// and run, and the scope runs when it is `true`.
pub open spec fn conditional(sub: (ExpressionListV, usize), is_loop: bool, st: ScopeSt) -> Option<Flow>
    decreases sub.0, 3int, 0int,
{
    match sub.0.scope_info.1 {
        None => Some(Flow::Next(st)),
        Some(cond) => match crate::parser::operation_parser::parse_operation_spec(cond) {
            Err(m) => Some(Flow::Fail(Err((m, sub.1)), st.vars)),
            Ok(ops) => match run_spec(ops, st.vars) {
                None => None,
                Some(Err(m)) => Some(Flow::Fail(Err((m, sub.1)), st.vars)),
                Some(Ok(Some(TokenV::Bool(true)))) => match after_inner(scope_spec(sub.0, st.vars, is_loop), st) {
                    Some(Flow::Next(st2)) => Some(Flow::Next(ScopeSt { prev_failed: false, ..st2 })),
                    other => other,
                },
                Some(Ok(_)) => Some(Flow::Next(ScopeSt { prev_failed: true, ..st })),
            },
        },
    }
}

/// What a return, assignment, `break` or `continue` line does (its index
/// already counted in `st`).
pub open spec fn single_step(e: crate::types::SingleV, line: usize, is_loop: bool, st: ScopeSt) -> Option<Flow> {
    match run_spec(e.2, st.vars) {
        None => None,
        Some(op) => Some(single_after(e, line, is_loop, st, op)),
    }
}

/// What a return, assignment, `break` or `continue` line does once its
/// operation has given `op`.
pub open spec fn single_after(e: crate::types::SingleV, line: usize, is_loop: bool, st: ScopeSt, op: EvalV) -> Flow {
    if e.0 == "return"@ {
        match op {
            Ok(r) => Flow::Next(ScopeSt { result: Ok(r), ..st }),
            Err(m) => Flow::Fail(Err((m, line)), st.vars),
        }
    } else if e.0 == "break"@ {
        if is_loop {
            Flow::Stop(ScopeSt { result: Ok(Some(TokenV::Break)), ..st })
        } else {
            Flow::Next(st)
        }
    } else if e.0 == "continue"@ {
        if is_loop {
            Flow::Stop(st)
        } else {
            Flow::Next(st)
        }
    } else {
        match op {
            Ok(Some(v)) => Flow::Next(ScopeSt {
                vars: assigned(st.vars, e.0, v),
                locals: if st.vars.contains_key(e.0) { st.locals } else { st.locals.push(e.0) },
                ..st
            }),
            Ok(None) => Flow::Next(st),
            Err(m) => Flow::Fail(Err((m, line)), st.vars),
        }
    }
}

/// What an inner scope line does (its index already counted in `st`).
pub open spec fn internal_step(sub: (ExpressionListV, usize), is_loop: bool, st: ScopeSt) -> Option<Flow>
    decreases sub.0, 4int, 0int,
{
    match sub.0.scope_info.0 {
        Some(name) => if name == "if"@ || (name == "elif"@ && st.prev_failed) {
            conditional(sub, is_loop, st)
        } else if name == "elif"@ {
            Some(Flow::Next(st))
        } else if name == "else"@ {
            if st.prev_failed {
                after_inner(scope_spec(sub.0, st.vars, is_loop), st)
            } else {
                Some(Flow::Next(st))
            }
        } else if name == "loop"@ {
            match loop_spec(sub.0, st.vars, 0) {
                None => None,
                Some((end, v)) => Some(Flow::Next(ScopeSt {
                    vars: v,
                    result: match end {
                        Some(r) => r,
                        None => st.result,
                    },
                    ..st
                })),
            }
        } else {
            after_inner(scope_spec(sub.0, st.vars, is_loop), st)
        },
        None => after_inner(scope_spec(sub.0, st.vars, is_loop), st),
    }
}

/// What line `i` of a scope does.
pub open spec fn line_step(f: ExpressionListV, is_loop: bool, i: int, st: ScopeSt) -> Option<Flow>
    decreases f, 1int, f.order.len() - i,
{
    let line = line_at_spec(f.line_start, i);
    match f.order[i] {
        ExpressionListType::Single => if st.single < 0 || st.single >= f.singles.len() {
            None
        } else {
            single_step(f.singles[st.single], line, is_loop, ScopeSt { single: st.single + 1, ..st })
        },
        ExpressionListType::Multi => if st.multi < 0 || st.multi >= f.multis.len() {
            None
        } else {
            match args_spec(f.multis[st.multi].1, st.vars) {
                Some(Err(m)) => Some(Flow::Fail(Err((m, line)), st.vars)),
                _ => None,
            }
        },
        ExpressionListType::Internal => if st.internal < 0 || st.internal >= f.internals.len() {
            None
        } else {
            internal_step(f.internals[st.internal], is_loop, ScopeSt { internal: st.internal + 1, ..st })
        },
        _ => Some(Flow::Next(st)),
    }
}

/// What the arguments of a call line give, in order: their values (one
/// that gives none is left out), or the first error.
pub open spec fn args_spec(ops: Seq<Seq<TokenV>>, vars: VarsV) -> Option<Result<Seq<TokenV>, Seq<char>>>
    decreases ops.len(),
{
    if ops.len() == 0 {
        Some(Ok(seq![]))
    } else {
        match args_spec(ops.drop_last(), vars) {
            Some(Ok(a)) => match run_spec(ops.last(), vars) {
                Some(Ok(Some(v))) => Some(Ok(a.push(v))),
                Some(Ok(None)) => Some(Ok(a)),
                Some(Err(m)) => Some(Err(m)),
                None => None,
            },
            other => other,
        }
    }
}

proof fn lemma_args_prefix(s: Seq<Seq<TokenV>>, k: int, vars: VarsV)
    requires
        0 <= k <= s.len(),
        !(args_spec(s.subrange(0, k), vars) is Some && args_spec(s.subrange(0, k), vars).unwrap() is Ok),
    ensures
        args_spec(s, vars) == args_spec(s.subrange(0, k), vars),
    decreases s.len() - k,
{
    if k < s.len() {
        let p = s.subrange(0, k + 1);
        assert(p.drop_last() =~= s.subrange(0, k));
        lemma_args_prefix(s, k + 1, vars);
    } else {
        assert(s.subrange(0, k) =~= s);
    }
}

/// Runs the arguments of a call line in order, up to the first error.
pub fn call_arguments<H: Host>(host: &mut H, ops: &Vec<Vec<Token>>, vars: &Vars) -> (r: Result<Vec<Token>, String>)
    requires
        vars.wf(),
    ensures
        args_spec(ops@.map_values(|v: Vec<Token>| tokens_view(v@)), vars@) matches Some(x) ==> match (r, x) {
            (Ok(a), Ok(s)) => tokens_view(a@) == s,
            (Err(e), Err(m)) => e@ == m,
            _ => false,
        },
{
    let ghost ov = ops@.map_values(|v: Vec<Token>| tokens_view(v@));
    proof {
        assert(ov.subrange(0, 0) =~= Seq::<Seq<TokenV>>::empty());
        assert(tokens_view(Seq::<Token>::empty()) =~= Seq::<TokenV>::empty());
    }
    let mut args: Vec<Token> = Vec::new();
    let mut j: usize = 0;
    while j < ops.len()
        invariant
            j <= ops.len(),
            vars.wf(),
            ov == ops@.map_values(|v: Vec<Token>| tokens_view(v@)),
            ov.len() == ops.len(),
            args_spec(ov.subrange(0, j as int), vars@) matches Some(x) ==> x == Ok::<Seq<TokenV>, Seq<char>>(tokens_view(args@)),
        decreases ops.len() - j,
    {
        proof {
            let pre = ov.subrange(0, j + 1);
            assert(pre.drop_last() =~= ov.subrange(0, j as int));
            assert(pre.last() == tokens_view(ops@[j as int]@));
        }
        match run_operation(host, &ops[j], vars) {
            Ok(Some(v)) => {
                proof {
                    lemma_tokens_view_push(args@, v);
                }
                args.push(v);
            },
            Ok(None) => {},
            Err(e) => {
                proof {
                    lemma_args_prefix(ov, j + 1, vars@);
                }
                return Err(e);
            },
        }
        j = j + 1;
    }
    proof {
        assert(ov.subrange(0, ops.len() as int) =~= ov);
    }
    Ok(args)
}

// ---------------------------------------------------------------------------
// Running a scope
// ---------------------------------------------------------------------------

/// Where a scope's run stands: the result so far, the variables it added,
/// whether the last condition failed, and how many lines of each kind ran.
pub struct Run {
    pub result: Result<Option<Token>, (String, usize)>,
    pub locals: Vec<String>,
    pub prev_failed: bool,
    pub single: usize,
    pub multi: usize,
    pub internal: usize,
}

pub open spec fn run_view(run: Run, vars: VarsV) -> ScopeSt {
    ScopeSt {
        vars,
        result: scope_view(run.result),
        locals: names_view(run.locals@),
        prev_failed: run.prev_failed,
        single: run.single as int,
        multi: run.multi as int,
        internal: run.internal as int,
    }
}

/// How a line ended.
pub enum LineEnd {
    Next,
    Stop,
    Fail(Result<Option<Token>, (String, usize)>),
}

/// A line's end and the run after it are what the specification says.
pub open spec fn line_matches(r: LineEnd, flow: Flow, run: Run, vars: VarsV) -> bool {
    match (r, flow) {
        (LineEnd::Next, Flow::Next(st)) => run_view(run, vars) == st,
        (LineEnd::Stop, Flow::Stop(st)) => run_view(run, vars) == st,
        (LineEnd::Fail(e), Flow::Fail(x, v)) => scope_view(e) == x && vars == v,
        _ => false,
    }
}

/// A line adds at most one name to the scope's own variables, and only a
/// name that was no variable.
pub open spec fn locals_grow(before: Seq<String>, after: Seq<String>, vars: VarsV) -> bool {
    after == before || exists|n: String| after == before.push(n) && !vars.contains_key(n@)
}

/// What a call line does once the function has answered: the scope goes
/// on, whatever the function returned, or fails with the call's error.
pub fn call_line_end(answer: Result<Option<Token>, (String, usize)>) -> (r: LineEnd)
    ensures
        match answer {
            Ok(_) => r is Next,
            Err(e) => r == LineEnd::Fail(Err(e)),
        },
{
    match answer {
        Ok(_) => LineEnd::Next,
        Err(e) => LineEnd::Fail(Err(e)),
    }
}

/// A return, assignment, `break` or `continue` line.
fn single_line<H: Host>(host: &mut H, e: &crate::types::SingleOp, line: usize, vars: &mut Vars, is_loop: bool, run: &mut Run) -> (r: LineEnd)
    requires
        old(vars).wf(),
    ensures
        final(vars).wf(),
        keeps(old(vars)@, final(vars)@),
        locals_grow(old(run).locals@, final(run).locals@, old(vars)@),
        single_step(crate::types::single_view(*e), line, is_loop, run_view(*old(run), old(vars)@)) matches Some(flow)
            ==> line_matches(r, flow, *final(run), final(vars)@),
        names_view(final(run).locals@) == names_view(old(run).locals@) || names_view(final(run).locals@) == names_view(
            old(run).locals@,
        ).push(e.0@),
        forall|k: Seq<char>| #[trigger] final(vars)@.contains_key(k) ==> old(vars)@.contains_key(k) || names_view(
            final(run).locals@,
        ).contains(k),
        r matches LineEnd::Fail(x) ==> x is Err,
        !is_loop && breaks(scope_view(final(run).result)) ==> breaks(scope_view(old(run).result)) || e.0@ == "return"@,
{
    let operation = run_operation(host, &e.2, vars);
    single_line_after(host, e, line, operation, vars, is_loop, run)
}

/// What a return, assignment, `break` or `continue` line does once its
/// operation has given `operation`: exactly `single_after`.
pub fn single_line_after<H: Host>(
    host: &mut H,
    e: &crate::types::SingleOp,
    line: usize,
    operation: Result<Option<Token>, String>,
    vars: &mut Vars,
    is_loop: bool,
    run: &mut Run,
) -> (r: LineEnd)
    requires
        old(vars).wf(),
    ensures
        final(vars).wf(),
        keeps(old(vars)@, final(vars)@),
        locals_grow(old(run).locals@, final(run).locals@, old(vars)@),
        line_matches(
            r,
            single_after(crate::types::single_view(*e), line, is_loop, run_view(*old(run), old(vars)@), eval_view(operation)),
            *final(run),
            final(vars)@,
        ),
        names_view(final(run).locals@) == names_view(old(run).locals@) || names_view(final(run).locals@) == names_view(
            old(run).locals@,
        ).push(e.0@),
        forall|k: Seq<char>| #[trigger] final(vars)@.contains_key(k) ==> old(vars)@.contains_key(k) || names_view(
            final(run).locals@,
        ).contains(k),
        r matches LineEnd::Fail(x) ==> x is Err,
        !is_loop && breaks(scope_view(final(run).result)) ==> breaks(scope_view(old(run).result)) || e.0@ == "return"@,
{
    let name = &e.0;
    if str_is(name.as_str(), "return") {
        match operation {
            Ok(result) => {
                run.result = Ok(result);
                LineEnd::Next
            },
            Err(m) => LineEnd::Fail(Err((m, line))),
        }
    } else if str_is(name.as_str(), "break") {
        if is_loop {
            run.result = Ok(Some(Token::Break));
            LineEnd::Stop
        } else {
            LineEnd::Next
        }
    } else if str_is(name.as_str(), "continue") {
        if is_loop {
            LineEnd::Stop
        } else {
            LineEnd::Next
        }
    } else {
        match operation {
            Ok(Some(result)) => {
                let ghost before = vars@;
                let ghost l0 = run.locals@;
                let (new_local, external) = assign(vars, name, result);
                proof {
                    lemma_assigned_keeps(before, name@, result@);
                }
                let ghost lv0 = names_view(l0);
                if external {
                    host.mark_changed(name);
                }
                if new_local {
                    run.locals.push(name.clone());
                    proof {
                        assert(names_view(run.locals@) =~= names_view(l0).push(name@));
                        assert(names_view(run.locals@)[lv0.len() as int] == name@);
                    }
                }
                proof {
                    assert forall|k: Seq<char>| #[trigger] vars@.contains_key(k) implies before.contains_key(k)
                        || names_view(run.locals@).contains(k) by {
                        if !before.contains_key(k) {
                            assert(k == name@);
                            assert(names_view(run.locals@)[lv0.len() as int] == k);
                        }
                    }
                }
                LineEnd::Next
            },
            Ok(None) => LineEnd::Next,
            Err(m) => LineEnd::Fail(Err((m, line))),
        }
    }
}

/// The rounds of a loop scope, until one ends it or the rounds run out.
fn run_loop<H: Host>(host: &mut H, body: &ExpressionList, vars: &mut Vars) -> (r: Option<Result<Option<Token>, (String, usize)>>)
    requires
        old(vars).wf(),
    ensures
        final(vars).wf(),
        keeps(old(vars)@, final(vars)@),
        grown(old(vars)@, final(vars)@, body@),
        r matches Some(x) ==> !breaks(scope_view(x)),
        loop_spec(body@, old(vars)@, 0) matches Some((end, v)) ==> final(vars)@ == v && match (r, end) {
            (Some(a), Some(b)) => scope_view(a) == b,
            (None, None) => true,
            _ => false,
        },
    decreases body, 2int,
{
    let ghost total = loop_spec(body@, vars@, 0);
    let ghost start = vars@;
    let mut end: Option<Result<Option<Token>, (String, usize)>> = None;
    let mut n: u64 = 0;
    while n < LOOP_LIMIT && end.is_none()
        invariant
            vars.wf(),
            keeps(start, vars@),
            grown(start, vars@, body@),
            end matches Some(x) ==> !breaks(scope_view(x)),
            total == loop_spec(body@, start, 0),
            total is Some ==> match end {
                Some(a) => total == Some((Some(scope_view(a)), vars@)),
                None => total == loop_spec(body@, vars@, n as int),
            },
        decreases LOOP_LIMIT - n,
    {
        let ghost round = vars@;
        let result = handle_scope(host, body, vars, true);
        proof {
            lemma_keeps_trans(start, round, vars@);
            lemma_grown_trans(start, round, vars@, body@);
        }
        match loop_step(result) {
            Some(e) => {
                end = Some(e);
            },
            None => {},
        }
        n = n + 1;
    }
    end
}

/// An `if`, or an `elif` after a failed condition.
fn run_conditional<H: Host>(host: &mut H, sub: &(ExpressionList, usize), is_loop: bool, vars: &mut Vars, run: &mut Run) -> (r: LineEnd)
    requires
        old(vars).wf(),
    ensures
        final(vars).wf(),
        keeps(old(vars)@, final(vars)@),
        final(run).locals@ == old(run).locals@,
        grown(old(vars)@, final(vars)@, sub.0@),
        r matches LineEnd::Fail(x) ==> x is Err,
        !is_loop && breaks(scope_view(final(run).result)) ==> breaks(scope_view(old(run).result)) || returns_in(sub.0@),
        conditional((sub.0@, sub.1), is_loop, run_view(*old(run), old(vars)@)) matches Some(flow)
            ==> line_matches(r, flow, *final(run), final(vars)@),
    decreases sub.0, 3int,
{
    match &sub.0.scope_info.1 {
        None => LineEnd::Next,
        Some(if_op) => match parse_operation(if_op.as_str()) {
            Err(e) => LineEnd::Fail(Err((e, sub.1))),
            Ok(operation) => match run_operation(host, &operation, vars) {
                Ok(Some(Token::Bool(true))) => {
                    let result = handle_scope(host, &sub.0, vars, is_loop);
                    run.result = result;
                    run.prev_failed = false;
                    LineEnd::Next
                },
                Err(e) => LineEnd::Fail(Err((e, sub.1))),
                _ => {
                    run.prev_failed = true;
                    LineEnd::Next
                },
            },
        },
    }
}

/// An inner scope line.
fn internal_line<H: Host>(host: &mut H, sub: &(ExpressionList, usize), is_loop: bool, vars: &mut Vars, run: &mut Run) -> (r: LineEnd)
    requires
        old(vars).wf(),
    ensures
        final(vars).wf(),
        keeps(old(vars)@, final(vars)@),
        final(run).locals@ == old(run).locals@,
        grown(old(vars)@, final(vars)@, sub.0@),
        r matches LineEnd::Fail(x) ==> x is Err,
        !is_loop && breaks(scope_view(final(run).result)) ==> breaks(scope_view(old(run).result)) || returns_in(sub.0@),
        internal_step((sub.0@, sub.1), is_loop, run_view(*old(run), old(vars)@)) matches Some(flow)
            ==> line_matches(r, flow, *final(run), final(vars)@),
    decreases sub.0, 4int,
{
    match &sub.0.scope_info.0 {
        Some(scope_name) => {
            let is_if = str_is(scope_name.as_str(), "if");
            let is_elif = str_is(scope_name.as_str(), "elif");
            if is_if || (is_elif && run.prev_failed) {
                run_conditional(host, sub, is_loop, vars, run)
            } else if is_elif {
                LineEnd::Next
            } else if str_is(scope_name.as_str(), "else") {
                if run.prev_failed {
                    run.result = handle_scope(host, &sub.0, vars, is_loop);
                }
                LineEnd::Next
            } else if str_is(scope_name.as_str(), "loop") {
                match run_loop(host, &sub.0, vars) {
                    Some(end) => {
                        run.result = end;
                    },
                    None => {},
                }
                LineEnd::Next
            } else {
                run.result = handle_scope(host, &sub.0, vars, is_loop);
                LineEnd::Next
            }
        },
        None => {
            run.result = handle_scope(host, &sub.0, vars, is_loop);
            LineEnd::Next
        },
    }
}

/// Runs the lines of a scope in order: assignments, returns, `break` and
/// `continue` (in a loop), calls, and inner scopes (`if`, `elif`, `else`,
/// `loop`, and any other). Every variable it was given stays, each as
/// external as it was, an external one holding its value or one of its kind
/// (`variant_equal`). Every variable it leaves was given or is assigned in
/// it; when it ends without an error, the variables it assigned itself are
/// removed, so only those of a scope inside it that failed can be left (none,
/// where it has no scope inside it). Where the host decides
/// nothing of the run, its result and variables are `scope_spec`'s.
pub fn handle_scope<H: Host>(host: &mut H, function: &ExpressionList, vars: &mut Vars, is_loop: bool) -> (r: Result<Option<Token>, (String, usize)>)
    requires
        old(vars).wf(),
    ensures
        final(vars).wf(),
        keeps(old(vars)@, final(vars)@),
        grown(old(vars)@, final(vars)@, function@),
        r is Ok ==> grown_inner(old(vars)@, final(vars)@, function@),
        r is Ok && function@.internals.len() == 0 ==> final(vars)@.dom() == old(vars)@.dom(),
        old(vars)@.dom().subset_of(final(vars)@.dom()),
        r is Ok ==> final(vars)@.dom().subset_of(old(vars)@.dom().union(inner_names(function@))),
        !is_loop && breaks(scope_view(r)) ==> returns_in(function@),
        scope_spec(function@, old(vars)@, is_loop) matches Some((res, v)) ==> scope_view(r) == res && final(vars)@ == v,
    decreases function, 1int,
{
    let ghost start = vars@;
    let ghost fv = function@;
    let ghost total = scope_spec(fv, start, is_loop);
    let mut run = Run { result: Ok(None), locals: Vec::new(), prev_failed: false, single: 0, multi: 0, internal: 0 };
    proof {
        assert(names_view(run.locals@) =~= Seq::<Seq<char>>::empty());
        assert(run_view(run, vars@) == scope_start(start));
    }
    let mut done = false;
    let mut i: usize = 0;
    while i < function.expression_order.len() && !done
        invariant
            vars.wf(),
            start == old(vars)@,
            fv == function@,
            total == scope_spec(fv, start, is_loop),
            keeps(start, vars@),
            forall|j: int| 0 <= j < run.locals@.len() ==> !start.contains_key(#[trigger] run.locals@[j]@),
            run_bounds(start, vars@, names_view(run.locals@), fv),
            !is_loop && breaks(scope_view(run.result)) ==> returns_in(fv),
            i <= function.expression_order.len(),
            total is Some ==> if done {
                total == Some(finish_scope(run_view(run, vars@)))
            } else {
                total == scope_loop(fv, is_loop, i as int, run_view(run, vars@))
            },
        decreases function.expression_order.len() - i, if done { 0int } else { 1int },
    {
        let line = line_at(function.line_start, i);
        let ghost st = run_view(run, vars@);
        let ghost before = vars@;
        let ghost l0 = run.locals@;
        let end = match function.expression_order[i] {
            ExpressionListType::Single => {
                proof {
                    assert(fv.order[i as int] == ExpressionListType::Single);
                    assert(fv.singles.len() == function.single_op@.len());
                }
                if run.single >= function.single_op.len() {
                    proof {
                        assert(line_step(fv, is_loop, i as int, st) is None);
                    }
                    proof {
                        lemma_run_bounds_grown(start, vars@, names_view(run.locals@), fv);
                    }
                    host.fail("index out of bounds");
                    return Err(index_error());
                }
                let e = &function.single_op[run.single];
                run.single = run.single + 1;
                proof {
                    assert(fv.singles[st.single] == crate::types::single_view(*e));
                    assert(run_view(run, before) == ScopeSt { single: st.single + 1, ..st });
                    assert(line_step(fv, is_loop, i as int, st) == single_step(crate::types::single_view(*e), line, is_loop, run_view(run, before)));
                }
                let ghost lv = names_view(run.locals@);
                let end = single_line(host, e, line, vars, is_loop, &mut run);
                proof {
                    if e.0@ == "return"@ {
                        assert(fv.singles[st.single].0 == e.0@);
                        assert(single_returns(fv));
                    }
                    let nv = names_view(run.locals@);
                    assert(single_assigns(fv, e.0@)) by {
                        assert(fv.singles[st.single].0 == e.0@);
                    }
                    assert forall|k: Seq<char>| #[trigger] vars@.contains_key(k) implies start.contains_key(k)
                        || nv.contains(k) || inner_assigns(fv, k) by {
                        if before.contains_key(k) && !start.contains_key(k) && !inner_assigns(fv, k) {
                            assert(lv.contains(k));
                            let j = choose|j: int| 0 <= j < lv.len() && lv[j] == k;
                            assert(nv[j] == k);
                        }
                    }
                    assert forall|j: int| 0 <= j < nv.len() implies single_assigns(fv, #[trigger] nv[j]) by {
                        if j < lv.len() {
                            assert(nv[j] == lv[j]);
                        }
                    }
                }
                end
            },
            ExpressionListType::Multi => {
                proof {
                    assert(fv.order[i as int] == ExpressionListType::Multi);
                    assert(fv.multis.len() == function.multi_ops@.len());
                }
                if run.multi >= function.multi_ops.len() {
                    proof {
                        assert(line_step(fv, is_loop, i as int, st) is None);
                    }
                    proof {
                        lemma_run_bounds_grown(start, vars@, names_view(run.locals@), fv);
                    }
                    host.fail("index out of bounds");
                    return Err(index_error());
                }
                let expression = &function.multi_ops[run.multi];
                proof {
                    assert(fv.multis[st.multi] == crate::types::multi_view(*expression));
                }
                run.multi = run.multi + 1;
                match call_arguments(host, &expression.1, vars) {
                    Err(e) => LineEnd::Fail(Err((e, line))),
                    Ok(args) => {
                        proof {
                            assert(line_step(fv, is_loop, i as int, st) is None);
                        }
                        let answer = host.call_function(&expression.0, args);
                        call_line_end(answer)
                    },
                }
            },
            ExpressionListType::Internal => {
                proof {
                    assert(fv.order[i as int] == ExpressionListType::Internal);
                    crate::runner::function::lemma_internals_index(function.internal_expressions@);
                    assert(fv.internals.len() == function.internal_expressions@.len());
                }
                if run.internal >= function.internal_expressions.len() {
                    proof {
                        assert(line_step(fv, is_loop, i as int, st) is None);
                    }
                    proof {
                        lemma_run_bounds_grown(start, vars@, names_view(run.locals@), fv);
                    }
                    host.fail("index out of bounds");
                    return Err(index_error());
                }
                let sub = &function.internal_expressions[run.internal];
                run.internal = run.internal + 1;
                proof {
                    assert(fv.internals[st.internal] == (sub.0@, sub.1));
                    assert(run_view(run, before) == ScopeSt { internal: st.internal + 1, ..st });
                    assert(line_step(fv, is_loop, i as int, st) == internal_step((sub.0@, sub.1), is_loop, run_view(run, before)));
                }
                assert(decreases_to!(*function => sub.0)) by {
                    assert(decreases_to!(*function => function.internal_expressions));
                    assert(decreases_to!(function.internal_expressions => function.internal_expressions@));
                    assert(decreases_to!(function.internal_expressions@ => function.internal_expressions@[run.internal - 1]));
                }
                let end = internal_line(host, sub, is_loop, vars, &mut run);
                proof {
                    if returns_in(sub.0@) {
                        lemma_any_returns_at(fv.internals, st.internal);
                    }
                    assert forall|k: Seq<char>| #[trigger] vars@.contains_key(k) implies start.contains_key(k)
                        || names_view(run.locals@).contains(k) || inner_assigns(fv, k) by {
                        if !before.contains_key(k) {
                            assert(assigns(fv.internals[st.internal].0, k));
                            lemma_any_assigns_at(fv.internals, k, st.internal);
                        }
                    }
                }
                end
            },
            _ => {
                proof {
                    assert(line_step(fv, is_loop, i as int, st) == Some(Flow::Next(st)));
                }
                LineEnd::Next
            },
        };
        proof {
            if total is Some {
                assert(line_step(fv, is_loop, i as int, st) is Some);
                assert(line_matches(end, line_step(fv, is_loop, i as int, st).unwrap(), run, vars@));
            }
            lemma_keeps_trans(start, before, vars@);
            if run.locals@ != l0 {
                let n = choose|n: String| run.locals@ == l0.push(n) && !before.contains_key(n@);
                assert forall|j: int| 0 <= j < run.locals@.len() implies !start.contains_key(#[trigger] run.locals@[j]@) by {
                    if j == l0.len() {
                        assert(run.locals@[j] == n);
                    } else {
                        assert(run.locals@[j] == l0[j]);
                    }
                }
            }
        }
        proof {
            if end is Fail {
                lemma_run_bounds_grown(start, vars@, names_view(run.locals@), fv);
            }
        }
        match end {
            LineEnd::Fail(e) => {
                return e;
            },
            LineEnd::Stop => {
                done = true;
            },
            LineEnd::Next => {
                if let Ok(Some(_)) = &run.result {
                    done = true;
                } else {
                    i = i + 1;
                }
            },
        }
    }
    let ghost v_exit = vars@;
    let ghost locals_exit = names_view(run.locals@);
    assert(run_bounds(start, v_exit, locals_exit, fv));
    let mut k: usize = 0;
    while k < run.locals.len()
        invariant
            vars.wf(),
            keeps(start, vars@),
            forall|j: int| 0 <= j < run.locals@.len() ==> !start.contains_key(#[trigger] run.locals@[j]@),
            locals_exit == names_view(run.locals@),
            vars@ == remove_names(v_exit, locals_exit.subrange(0, k as int)),
            k <= run.locals.len(),
        decreases run.locals.len() - k,
    {
        let ghost before = vars@;
        vars.remove(run.locals[k].as_str());
        proof {
            assert(!start.contains_key(run.locals@[k as int]@));
            assert forall|key: Seq<char>| #[trigger] start.contains_key(key) implies vars@.contains_key(key) && vars@[key] == before[key] by {
                assert(key != run.locals@[k as int]@);
            }
            let p = locals_exit.subrange(0, k + 1);
            assert(p.drop_last() =~= locals_exit.subrange(0, k as int));
            assert(p.last() == run.locals@[k as int]@);
        }
        k = k + 1;
    }
    proof {
        assert(locals_exit.subrange(0, locals_exit.len() as int) =~= locals_exit);
        assert forall|k: Seq<char>| #[trigger] vars@.contains_key(k) implies start.contains_key(k) || inner_assigns(fv, k) by {
            lemma_remove_names(v_exit, locals_exit, k);
        }
        assert forall|k: Seq<char>| #[trigger] vars@.contains_key(k) implies start.contains_key(k) || assigns(fv, k) by {
            lemma_assigns(fv, k);
        }
        if fv.internals.len() == 0 {
            assert(vars@.dom() =~= start.dom());
        }
        assert(vars@.dom().subset_of(start.dom().union(inner_names(fv))));
    }
    run.result
}


/// In a loop body, `continue` ends the round and leaves its state, the
/// result included, as it was; `break` ends the round with the break marker;
/// and no other line ends a round with the marker that was not there.
pub proof fn lemma_loop_controls(e: crate::types::SingleV, line: usize, st: ScopeSt, op: EvalV)
    ensures
        e.0 == "continue"@ ==> single_after(e, line, true, st, op) == Flow::Stop(st),
        e.0 == "break"@ ==> single_after(e, line, true, st, op) == Flow::Stop(
            ScopeSt { result: Ok(Some(TokenV::Break)), ..st },
        ),
        (single_after(e, line, true, st, op) matches Flow::Stop(s2) && breaks(s2.result) && !breaks(st.result))
            ==> e.0 == "break"@,
{
    reveal_strlit("continue");
    reveal_strlit("break");
    reveal_strlit("return");
    assert("continue"@ != "break"@) by {
        assert("continue"@[0] != "break"@[0]);
    }
    assert("return"@ != "break"@) by {
        assert("return"@[0] != "break"@[0]);
    }
    assert("return"@ != "continue"@) by {
        assert("return"@[0] != "continue"@[0]);
    }
}

/// A loop's round that ends with nothing (as a `continue` leaves it, where
/// no `return` ran) or with an error runs another round; one that ends with
/// the break marker ends the loop with nothing; one that returns a value
/// ends the loop with that value.
pub proof fn lemma_loop_rounds(t: TokenV, err: (Seq<char>, usize))
    ensures
        loop_end(Ok(None)) is None,
        loop_end(Err(err)) is None,
        loop_end(Ok(Some(TokenV::Break))) == Some(Ok::<Option<TokenV>, (Seq<char>, usize)>(None)),
        !(t is Break) ==> loop_end(Ok(Some(t))) == Some(Ok::<Option<TokenV>, (Seq<char>, usize)>(Some(t))),
{
}

} // verus!
