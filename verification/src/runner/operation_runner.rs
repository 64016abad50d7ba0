//! Running an operation: the tokens of an expression in the order the
//! parser gives them, evaluated with a stack from the last token to the first.
//!
//! Parenthesised parts are evaluated the same way, recursively: a part
//! nests one level deeper than the expression around it, which is what
//! makes the recursion end. The arguments of a call, and an item picked out
//! of a collection by an index, are evaluated recursively too; each such
//! step takes one unit of a fuel of `EVAL_FUEL` units.
//!
//! What the evaluation cannot do itself it asks of a `Host`: calling a
//! function by name (the embedding program holds the registered Rust
//! functions, and the script's program and global variables between calls;
//! `function::call_by_name` is the verified dispatch it is meant to use),
//! computing in `f32`, the text of a float, and stopping where arithmetic or
//! indexing panics. Nothing is assumed of how a host answers: every result
//! below holds whatever it does, and where the value of an operation depends
//! on the host, the specification says so (`None`).
use vstd::prelude::*;
use crate::text::{int_text, bool_text, chars_of};
use crate::types::{Token, TokenV, tokens_view, token_view};
use crate::utility::{split_by, split_by_spec, strings_view};
use crate::parser::operation_parser::{lemma_tokens_view_index, lemma_tokens_view_push, parse_operation};
use super::token_impl::{
    Outcome, FloatTask, outcome_view, outcomes_view, float_free,
    all_float_free, settled, settle, operation_by_type, operation_defined, operation_defined_of,
    run_operation_by_type, lemma_outcomes_view_push, lemma_outcomes_view_index, opt_token_view,
    int_string, bool_string, depth, seq_depth, lemma_seq_depth, lemma_binary_flat, lemma_settled_flat, size, seq_size, lemma_seq_size};
use super::vars::{Vars, VarV};

verus! {

/// The work an evaluation hands to its host.
pub trait Host {
    /// Calls the function `name` with evaluated arguments: a registered Rust
    /// function, or the script's own (through `function::call_by_name`); an
    /// error comes with the line it was found on.
    fn call_function(&mut self, name: &String, args: Vec<Token>) -> Result<Option<Token>, (String, usize)>;

    /// Computes a float task.
    fn compute(&mut self, task: &FloatTask) -> Token;

    /// The text `f32` displays for a float written `text`.
    fn float_text(&mut self, text: &String) -> String;

    /// Arithmetic or indexing that panics: the host stops the script.
    fn fail(&mut self, message: &str);

    /// Notes that an external variable was assigned to.
    fn mark_changed(&mut self, name: &String);

    /// Registers the functions of an included library; gives its variables.
    fn register_library(&mut self, library: crate::external::Library) -> Vec<(String, Token)>;
}

pub type VarsV = Map<Seq<char>, VarV>;

/// An evaluation's result, as the specifications see it.
pub type EvalV = Result<Option<TokenV>, Seq<char>>;

pub open spec fn eval_view(r: Result<Option<Token>, String>) -> EvalV {
    match r {
        Ok(t) => Ok(opt_token_view(t)),
        Err(e) => Err(e@),
    }
}

pub open spec fn var_missing(name: Seq<char>) -> Seq<char> {
    "Could not find a variable by the name: "@ + name
}

pub open spec fn string_index_message() -> Seq<char> {
    "Tried to access a string index out of range."@
}

pub open spec fn failed_parse_message() -> Seq<char> {
    "Failed to parse operation. Try breaking down the statement into steps."@
}

pub open spec fn cannot_apply(op: Seq<char>, a: Seq<char>, b: Seq<char>) -> Seq<char> {
    "Cannot apply operation '"@ + op + "' to '"@ + a + "' and '"@ + b + "'."@
}

/// A variable's value, or the error for a missing one.
pub open spec fn lookup(vars: VarsV, name: Seq<char>) -> EvalV {
    if vars.contains_key(name) {
        Ok(Some(vars[name].value))
    } else {
        Err(var_missing(name))
    }
}

/// Values that evaluate to themselves.
pub open spec fn is_plain(t: TokenV) -> bool {
    match t {
        TokenV::Null | TokenV::Int(_) | TokenV::Float(_) | TokenV::Bool(_) | TokenV::Str(_)
        | TokenV::Char(_) | TokenV::Operator(_) | TokenV::Break => true,
        _ => false,
    }
}

/// The text `Display` gives a value; `None` where a float's text, which
/// the host gives, is part of it.
pub open spec fn display_text(t: TokenV) -> Option<Seq<char>>
    decreases t,
{
    match t {
        TokenV::Int(i) => Some(int_text(i as int)),
        TokenV::Float(_) => None,
        TokenV::Bool(b) => Some(bool_text(b)),
        TokenV::Str(s) => Some(seq!['"'] + s + seq!['"']),
        TokenV::Char(c) => Some(seq!['\'', c, '\'']),
        TokenV::Collection(items) => match items_text(items) {
            Some(body) => Some(if items.len() == 0 { seq![']'] } else { seq!['['] + body + seq![']'] }),
            None => None,
        },
        _ => Some(seq![]),
    }
}

/// The texts of the items, with a comma between two.
pub open spec fn items_text(items: Seq<TokenV>) -> Option<Seq<char>>
    decreases items,
{
    if items.len() == 0 {
        Some(seq![])
    } else {
        match (items_text(items.drop_last()), display_text(items.last())) {
            (Some(a), Some(b)) => Some(if items.len() == 1 { b } else { a + seq![','] + b }),
            _ => None,
        }
    }
}

/// How deeply evaluation may nest through items picked out of collections
/// and through the arguments of calls: each such step takes one unit.
pub const EVAL_FUEL: u64 = 18446744073709551615;

/// An item picked out of a collection by an index, evaluated: handled, and
/// given back as it is where handling gives no value.
pub open spec fn pick(t: TokenV, vars: VarsV, fuel: nat) -> Option<EvalV>
    decreases fuel, 0int, 0int, 0int,
{
    if is_plain(t) {
        Some(Ok(Some(t)))
    } else {
        match t {
            TokenV::Var(n) => Some(Ok(Some(
                match lookup(vars, n) {
                    Ok(Some(v)) => v,
                    _ => t,
                },
            ))),
            _ => if fuel == 0 {
                None
            } else {
                match handle_spec(t, vars, false, (fuel - 1) as nat) {
                    Some(Ok(Some(r))) => Some(Ok(Some(r))),
                    Some(_) => Some(Ok(Some(t))),
                    None => None,
                }
            },
        }
    }
}

/// What handling a token gives: variables looked up, collections handled
/// item by item, accessors resolved, parenthesised parts run, items picked
/// out of collections handled. `None` where the host decides (calls, float
/// arithmetic), where indexing panics, or where `fuel` runs out.
pub open spec fn handle_spec(t: TokenV, vars: VarsV, ro: bool, fuel: nat) -> Option<EvalV>
    decreases fuel, depth(t), 0int, size(t),
{
    match t {
        TokenV::Call(_, _) => None,
        TokenV::Operation(op) => run_fuel(op, vars, fuel),
        TokenV::Var(name) => Some(lookup(vars, name)),
        TokenV::Collection(items) => match handle_items(items, vars, fuel) {
            Some(n) => Some(Ok(Some(TokenV::Collection(n)))),
            None => None,
        },
        TokenV::Accessor(p, a) => match (handle_spec(*p, vars, false, fuel), handle_spec(*a, vars, true, fuel)) {
            (Some(prev), Some(cur)) => match (prev, cur) {
                (Ok(Some(TokenV::Collection(c))), Ok(Some(TokenV::Int(i)))) => if 0 <= i < c.len() {
                    pick(c[i as int], vars, fuel)
                } else {
                    None
                },
                (Ok(Some(TokenV::Str(v))), Ok(Some(TokenV::Str(s)))) => Some(lookup(vars, v + seq!['.'] + s)),
                (Ok(Some(TokenV::Str(_))), Ok(Some(TokenV::Call(_, _)))) => None,
                (Ok(Some(TokenV::Str(v))), Ok(Some(TokenV::Int(i)))) => Some(
                    if 0 <= i < v.len() {
                        Ok(Some(TokenV::Str(seq![v[i as int]])))
                    } else {
                        Err(string_index_message())
                    },
                ),
                (Err(e), _) => Some(Err(e)),
                (_, Err(e)) => Some(Err(e)),
                _ => Some(Ok(None)),
            },
            _ => None,
        },
        _ => Some(Ok(if ro { Some(t) } else { None })),
    }
}

/// The items of a collection, each handled; an item that gives nothing, or
/// an error, stays as it was.
pub open spec fn handle_items(items: Seq<TokenV>, vars: VarsV, fuel: nat) -> Option<Seq<TokenV>>
    decreases fuel, seq_depth(items), 0int, seq_size(items),
{
    if items.len() == 0 {
        Some(seq![])
    } else {
        match (handle_items(items.drop_last(), vars, fuel), handle_spec(items.last(), vars, false, fuel)) {
            (Some(s), Some(Ok(Some(r)))) => Some(s.push(r)),
            (Some(s), Some(_)) => Some(s.push(items.last())),
            _ => None,
        }
    }
}

/// The error for an operator that does not apply to its operands.
pub open spec fn apply_error(op: Seq<char>, u1: TokenV, u2: TokenV) -> Option<EvalV> {
    match (display_text(u1), display_text(u2)) {
        (Some(d1), Some(d2)) => Some(Err(cannot_apply(op, d1, d2))),
        _ => None,
    }
}

/// The value left on the stack, handled.
pub open spec fn finish(stack: Seq<TokenV>, vars: VarsV, fuel: nat) -> Option<EvalV>
    decreases fuel, (if stack.len() == 0 { 0 } else { depth(stack.last()) }), 1int, 0int,
{
    if stack.len() == 0 {
        Some(Err(failed_parse_message()))
    } else {
        let t = stack.last();
        match handle_spec(t, vars, false, fuel) {
            Some(Ok(Some(r))) => Some(Ok(Some(r))),
            Some(Ok(None)) => Some(Ok(Some(t))),
            Some(Err(e)) => Some(Err(e)),
            None => None,
        }
    }
}

/// Applies the operator `op` to the two values on top of the stack.
#[verifier::opaque]
pub open spec fn apply_top(op: Seq<char>, u1: TokenV, u2: TokenV, vars: VarsV, fuel: nat) -> Option<Result<TokenV, Seq<char>>>
    decreases fuel, (if depth(u1) >= depth(u2) { depth(u1) } else { depth(u2) }), 1int, 0int,
{
    match (handle_spec(u1, vars, false, fuel), handle_spec(u2, vars, false, fuel)) {
        (Some(Err(e)), Some(_)) => Some(Err(e)),
        (Some(Ok(_)), Some(Err(e))) => Some(Err(e)),
        (Some(Ok(o1)), Some(Ok(o2))) => {
            let a = match o1 {
                Some(t) => t,
                None => u1,
            };
            let b = match o2 {
                Some(t) => t,
                None => u2,
            };
            if !operation_defined(a, b, op) {
                None
            } else {
                match operation_by_type(a, b, op) {
                    None => match apply_error(op, u1, u2) {
                        Some(Err(e)) => Some(Err(e)),
                        _ => None,
                    },
                    Some(o) => if !float_free(o) {
                        None
                    } else {
                        match settled(o) {
                            Some(t) => Some(Ok(t)),
                            None => match apply_error(op, u1, u2) {
                                Some(Err(e)) => Some(Err(e)),
                                _ => None,
                            },
                        }
                    },
                }
            }
        },
        _ => None,
    }
}

/// Values no deeper than `d`.
pub open spec fn stack_ok(stack: Seq<TokenV>, d: nat) -> bool {
    forall|k: int| 0 <= k < stack.len() ==> depth(#[trigger] stack[k]) <= d
}

/// The evaluation of `ops[0..i]`, from its last token down, with `stack`
/// holding the values so far (none nested deeper than `ops` itself).
#[verifier::opaque]
pub open spec fn rpn(ops: Seq<TokenV>, vars: VarsV, i: int, stack: Seq<TokenV>, fuel: nat) -> Option<EvalV>
    decreases fuel, seq_depth(ops), 1int, (if i < 0 { 0 } else { i }) + 1,
{
    if !stack_ok(stack, seq_depth(ops)) {
        None
    } else if i <= 0 || i > ops.len() {
        proof {
            if stack.len() > 0 {
                assert(depth(stack[stack.len() - 1]) <= seq_depth(ops));
            }
        }
        finish(stack, vars, fuel)
    } else {
        match ops[i - 1] {
            TokenV::Operator(op) => if stack.len() >= 2 {
                let u2 = stack.last();
                let u1 = stack[stack.len() - 2];
                proof {
                    assert(depth(stack[stack.len() - 1]) <= seq_depth(ops));
                }
                let rest = stack.subrange(0, stack.len() - 2);
                match apply_top(op, u1, u2, vars, fuel) {
                    Some(Ok(t)) => rpn(ops, vars, i - 1, rest.push(t), fuel),
                    Some(Err(e)) => Some(Err(e)),
                    None => None,
                }
            } else {
                rpn(ops, vars, i - 1, seq![], fuel)
            },
            t => rpn(ops, vars, i - 1, stack.push(t), fuel),
        }
    }
}

/// What running an operation gives, with `fuel`; `None` where the host
/// decides.
pub open spec fn run_fuel(ops: Seq<TokenV>, vars: VarsV, fuel: nat) -> Option<EvalV>
    decreases fuel, seq_depth(ops), 1int, ops.len() + 2,
{
    rpn(ops, vars, ops.len() as int, seq![], fuel)
}

/// What running an operation gives; `None` where the host decides.
pub open spec fn run_spec(ops: Seq<TokenV>, vars: VarsV) -> Option<EvalV> {
    run_fuel(ops, vars, EVAL_FUEL as nat)
}

/// What handling a token gives; `None` where the host decides.
pub open spec fn handled(t: TokenV, vars: VarsV, ro: bool) -> Option<EvalV> {
    handle_spec(t, vars, ro, EVAL_FUEL as nat)
}


// ---------------------------------------------------------------------------
// Executable evaluation
// ---------------------------------------------------------------------------

/// `Display` of a value; a float's text comes from the host.
pub fn display_of<H: Host>(host: &mut H, t: &Token) -> (r: String)
    ensures
        display_text(t@) matches Some(s) ==> r@ == s,
    decreases t,
{
    match t {
        Token::Int(i) => int_string(*i),
        Token::Float(f) => host.float_text(f),
        Token::Bool(b) => bool_string(*b),
        Token::String(s) => {
            let mut r = String::new();
            crate::text::push_char(&mut r, '"');
            r.append(s.as_str());
            crate::text::push_char(&mut r, '"');
            assert(r@ =~= seq!['"'] + s@ + seq!['"']);
            r
        },
        Token::Char(c) => {
            let mut r = String::new();
            crate::text::push_char(&mut r, '\'');
            crate::text::push_char(&mut r, *c);
            crate::text::push_char(&mut r, '\'');
            assert(r@ =~= seq!['\'', *c, '\'']);
            r
        },
        Token::Collection(items) => {
            let ghost tv = tokens_view(items@);
            proof {
                lemma_tokens_view_index(items@);
            }
            let mut body = String::new();
            let mut i: usize = 0;
            while i < items.len()
                invariant
                    i <= items.len(),
                    *t == Token::Collection(*items),
                    tv == tokens_view(items@),
                    tv.len() == items.len(),
                    forall|k: int| 0 <= k < items.len() ==> tv[k] == token_view(#[trigger] items@[k]),
                    items_text(tv.subrange(0, i as int)) matches Some(b) ==> body@ == b,
                decreases items.len() - i,
            {
                assert(decreases_to!(*t => items@[i as int])) by {
                    assert((*t)->Collection_0 == *items);
                    assert(decreases_to!(*t => (*t)->Collection_0));
                    assert(decreases_to!(*items => items@));
                    assert(decreases_to!(items@ => items@[i as int]));
                }
                let ghost before = body@;
                if i > 0 {
                    crate::text::push_char(&mut body, ',');
                }
                let d = display_of(host, &items[i]);
                body.append(d.as_str());
                proof {
                    let pre = tv.subrange(0, i + 1);
                    assert(pre.drop_last() =~= tv.subrange(0, i as int));
                    assert(pre.last() == tv[i as int]);
                    if items_text(pre) is Some {
                        if i == 0 {
                            assert(before =~= seq![]);
                            assert(body@ =~= d@);
                        } else {
                            assert(body@ =~= before + seq![','] + d@);
                        }
                    }
                }
                i = i + 1;
            }
            assert(tv.subrange(0, items.len() as int) =~= tv);
            if items.len() == 0 {
                let mut r = String::new();
                crate::text::push_char(&mut r, ']');
                assert(r@ =~= seq![']']);
                r
            } else {
                let mut r = String::new();
                crate::text::push_char(&mut r, '[');
                r.append(body.as_str());
                crate::text::push_char(&mut r, ']');
                proof {
                    if items_text(tv) is Some {
                        assert(r@ =~= seq!['['] + items_text(tv).unwrap() + seq![']']);
                    }
                }
                r
            }
        },
        _ => String::new(),
    }
}

/// The outcome with every float task computed by the host.
pub fn compute_floats<H: Host>(host: &mut H, o: Outcome) -> (r: Outcome)
    ensures
        float_free(r@),
        float_free(o@) ==> r@ == o@,
    decreases o,
{
    match o {
        Outcome::Float(t) => Outcome::Value(Some(host.compute(&t))),
        Outcome::Value(v) => Outcome::Value(v),
        Outcome::Negate(b) => {
            assert(decreases_to!(o => *b));
            let inner = compute_floats(host, *b);
            Outcome::Negate(Box::new(inner))
        },
        Outcome::Each(items) => {
            assert(decreases_to!(o => items@)) by {
                assert(decreases_to!(o => items));
                assert(decreases_to!(items => items@));
            }
            Outcome::Each(compute_all(host, items))
        },
        Outcome::Pairwise(items) => {
            assert(decreases_to!(o => items@)) by {
                assert(decreases_to!(o => items));
                assert(decreases_to!(items => items@));
            }
            Outcome::Pairwise(compute_all(host, items))
        },
        Outcome::AllTrue(items) => {
            assert(decreases_to!(o => items@)) by {
                assert(decreases_to!(o => items));
                assert(decreases_to!(items => items@));
            }
            Outcome::AllTrue(compute_all(host, items))
        },
    }
}

fn compute_all<H: Host>(host: &mut H, items: Vec<Outcome>) -> (r: Vec<Outcome>)
    ensures
        all_float_free(outcomes_view(r@)),
        all_float_free(outcomes_view(items@)) ==> outcomes_view(r@) == outcomes_view(items@),
    decreases items@,
{
    let ghost orig = items@;
    let ghost ov = outcomes_view(orig);
    proof {
        lemma_outcomes_view_index(orig);
        if all_float_free(ov) {
            super::token_impl::lemma_all_float_free(ov);
        }
        assert(outcomes_view(Seq::<Outcome>::empty()) =~= seq![]);
        assert(ov.subrange(0, 0) =~= seq![]);
    }
    let n = items.len();
    let mut rest = items;
    let mut r: Vec<Outcome> = Vec::new();
    let mut k: usize = 0;
    while rest.len() > 0
        invariant
            k <= n,
            n == orig.len(),
            orig == items@,
            rest@ == orig.subrange(k as int, n as int),
            ov == outcomes_view(orig),
            ov.len() == orig.len(),
            forall|j: int| 0 <= j < orig.len() ==> ov[j] == outcome_view(#[trigger] orig[j]),
            all_float_free(ov) ==> forall|j: int| 0 <= j < ov.len() ==> float_free(#[trigger] ov[j]),
            all_float_free(outcomes_view(r@)),
            all_float_free(ov) ==> outcomes_view(r@) == ov.subrange(0, k as int),
        decreases rest.len(),
    {
        assert(rest@.len() == n - k);
        let x = rest.remove(0);
        assert(x == orig[k as int]);
        assert(decreases_to!(orig => orig[k as int]));
        let y = compute_floats(host, x);
        proof {
            lemma_outcomes_view_push(r@, y);
            let rv = outcomes_view(r@);
            assert(rv.push(y@).drop_last() =~= rv);
            if all_float_free(ov) {
                assert(float_free(ov[k as int]));
                assert(ov.subrange(0, k + 1) =~= ov.subrange(0, k as int).push(ov[k as int]));
            }
            assert(rest@ =~= orig.subrange(k + 1, n as int));
        }
        r.push(y);
        k = k + 1;
    }
    proof {
        assert(ov.subrange(0, n as int) =~= ov);
    }
    r
}

/// A variable's value.
pub fn lookup_of(vars: &Vars, name: &String) -> (r: Result<Option<Token>, String>)
    requires
        vars.wf(),
    ensures
        eval_view(r) == lookup(vars@, name@),
{
    match vars.get(name.as_str()) {
        Some(v) => Ok(Some(v.value.duplicate())),
        None => {
            let mut m = String::from_str("Could not find a variable by the name: ");
            m.append(name.as_str());
            Err(m)
        },
    }
}

/// The first error parsing the arguments of a call gives, if any.
pub open spec fn first_parse_error(pieces: Seq<Seq<char>>) -> Option<Seq<char>>
    decreases pieces.len(),
{
    if pieces.len() == 0 {
        None
    } else {
        match first_parse_error(pieces.drop_last()) {
            Some(e) => Some(e),
            None => match crate::parser::operation_parser::parse_operation_spec(pieces.last()) {
                Err(e) => Some(e),
                Ok(_) => None,
            },
        }
    }
}

/// The values of a call's arguments: each piece parsed and run (with one
/// unit of fuel less; none run, with no fuel left); a piece that gives no
/// value, or an error, is left out. `None` where the host decides.
pub open spec fn arg_values(pieces: Seq<Seq<char>>, vars: VarsV, fuel: nat) -> Option<Seq<TokenV>>
    decreases pieces.len(),
{
    if pieces.len() == 0 {
        Some(seq![])
    } else {
        match arg_values(pieces.drop_last(), vars, fuel) {
            None => None,
            Some(a) => match crate::parser::operation_parser::parse_operation_spec(pieces.last()) {
                Err(_) => Some(a),
                Ok(ops) => if fuel == 0 {
                    Some(a)
                } else {
                    match run_fuel(ops, vars, (fuel - 1) as nat) {
                        Some(Ok(Some(v))) => Some(a.push(v)),
                        Some(_) => Some(a),
                        None => None,
                    }
                },
            },
        }
    }
}

/// The arguments of a call, as `arg_values` gives them; the error of
/// splitting them at commas, or of the first piece that does not parse.
fn evaluate_arguments<H: Host>(host: &mut H, args: &String, vars: &Vars, fuel: u64) -> (r: Result<Vec<Token>, String>)
    requires
        vars.wf(),
    ensures
        split_by_spec(args@, ',') matches Err(m) ==> (r matches Err(e) && e@ == m),
        split_by_spec(args@, ',') matches Ok(pieces) ==> match first_parse_error(pieces) {
            Some(m) => r matches Err(e) && e@ == m,
            None => arg_values(pieces, vars@, fuel as nat) matches Some(a) ==> (r matches Ok(v) && tokens_view(v@) == a),
        },
    decreases fuel, 0int, 0int, 0int,
{
    let pieces = match split_by(args.as_str(), ',') {
        Ok(p) => p,
        Err(e) => {
            return Err(e);
        },
    };
    let ghost pv = strings_view(pieces@);
    let mut parsed: Vec<Token> = Vec::new();
    let mut i: usize = 0;
    proof {
        assert(pv.subrange(0, 0) =~= Seq::<Seq<char>>::empty());
        assert(tokens_view(parsed@) =~= Seq::<TokenV>::empty());
    }
    while i < pieces.len()
        invariant
            i <= pieces.len(),
            split_by_spec(args@, ',') == Ok::<Seq<Seq<char>>, Seq<char>>(pv),
            pv == strings_view(pieces@),
            pv.len() == pieces.len(),
            vars.wf(),
            first_parse_error(pv.subrange(0, i as int)) is None,
            arg_values(pv.subrange(0, i as int), vars@, fuel as nat) matches Some(a) ==> tokens_view(parsed@) == a,
        decreases pieces.len() - i,
    {
        proof {
            let pre = pv.subrange(0, i + 1);
            assert(pre.drop_last() =~= pv.subrange(0, i as int));
            assert(pre.last() == pieces@[i as int]@);
        }
        match parse_operation(pieces[i].as_str()) {
            Err(e) => {
                proof {
                    lemma_first_parse_error_prefix(pv, i + 1);
                }
                return Err(e);
            },
            Ok(op) => if fuel > 0 {
                match run_with_fuel(host, &op, vars, fuel - 1) {
                    Ok(Some(t)) => {
                        proof {
                            lemma_tokens_view_push(parsed@, t);
                        }
                        parsed.push(t);
                    },
                    _ => {},
                }
            },
        }
        i = i + 1;
    }
    proof {
        assert(pv.subrange(0, pieces.len() as int) =~= pv);
    }
    Ok(parsed)
}

/// A call written in an expression: its arguments are evaluated
/// (`evaluate_arguments`), then the host calls the function with them. A
/// call that returns nothing gives the call token itself, so a call never
/// gives `Ok(None)`.
pub fn call_expression<H: Host>(host: &mut H, name: String, args: &String, vars: &Vars, call_token: Token, fuel: u64) -> (r: Result<Option<Token>, String>)
    requires
        vars.wf(),
    ensures
        split_by_spec(args@, ',') matches Err(m) ==> eval_view(r) == Err::<Option<TokenV>, Seq<char>>(m),
        split_by_spec(args@, ',') matches Ok(pieces) ==> (first_parse_error(pieces) matches Some(m) ==> eval_view(r)
            == Err::<Option<TokenV>, Seq<char>>(m)),
        !(r matches Ok(None)),
    decreases fuel, 0int, 0int, 1int,
{
    let arguments = match evaluate_arguments(host, args, vars, fuel) {
        Ok(a) => a,
        Err(e) => {
            return Err(e);
        },
    };
    let answer = host.call_function(&name, arguments);
    settle_call(answer, call_token)
}

/// What a call in an expression gives once the function has answered: its
/// value; the call token itself where it returned nothing; its error, where
/// it failed (the line is dropped).
pub fn settle_call(answer: Result<Option<Token>, (String, usize)>, call_token: Token) -> (r: Result<Option<Token>, String>)
    ensures
        r == match answer {
            Ok(None) => Ok::<Option<Token>, String>(Some(call_token)),
            Ok(Some(t)) => Ok(Some(t)),
            Err(e) => Err(e.0),
        },
{
    match answer {
        Ok(None) => Ok(Some(call_token)),
        Ok(Some(t)) => Ok(Some(t)),
        Err(e) => Err(e.0),
    }
}

proof fn lemma_first_parse_error_prefix(s: Seq<Seq<char>>, k: int)
    requires
        0 <= k <= s.len(),
        first_parse_error(s.subrange(0, k)) is Some,
    ensures
        first_parse_error(s) == first_parse_error(s.subrange(0, k)),
    decreases s.len() - k,
{
    if k < s.len() {
        let p = s.subrange(0, k + 1);
        assert(p.drop_last() =~= s.subrange(0, k));
        lemma_first_parse_error_prefix(s, k + 1);
    } else {
        assert(s.subrange(0, k) =~= s);
    }
}

fn is_plain_of(t: &Token) -> (r: bool)
    ensures
        r == is_plain(t@),
{
    match t {
        Token::Null | Token::Int(_) | Token::Float(_) | Token::Bool(_) | Token::String(_)
        | Token::Char(_) | Token::Operator(_) | Token::Break => true,
        _ => false,
    }
}

fn pick_of<H: Host>(host: &mut H, t: &Token, vars: &Vars, fuel: u64) -> (r: Result<Option<Token>, String>)
    requires
        vars.wf(),
    ensures
        pick(t@, vars@, fuel as nat) matches Some(x) ==> eval_view(r) == x,
    decreases fuel, 0int, 0int, 0int,
{
    if is_plain_of(t) {
        return Ok(Some(t.duplicate()));
    }
    match t {
        Token::Var(n) => match lookup_of(vars, n) {
            Ok(Some(v)) => Ok(Some(v)),
            _ => Ok(Some(t.duplicate())),
        },
        _ => if fuel == 0 {
            Ok(Some(t.duplicate()))
        } else {
            match handle_with_fuel(host, t, vars, false, fuel - 1) {
                Ok(Some(r)) => Ok(Some(r)),
                _ => Ok(Some(t.duplicate())),
            }
        },
    }
}


/// Handles a token: looks variables up, handles the items of a collection,
/// resolves accessors, runs parenthesised parts and the arguments of calls,
/// and has the host run the calls. With `return_original`, a token that
/// needs no handling is given back.
pub fn handle_token_type<H: Host>(host: &mut H, token: &Token, vars: &Vars, return_original: bool) -> (r: Result<Option<Token>, String>)
    requires
        vars.wf(),
    ensures
        handled(token@, vars@, return_original) matches Some(x) ==> eval_view(r) == x,
{
    handle_with_fuel(host, token, vars, return_original, EVAL_FUEL)
}

/// `handle_token_type`, with `fuel` for picked items and call arguments.
fn handle_with_fuel<H: Host>(host: &mut H, token: &Token, vars: &Vars, return_original: bool, fuel: u64) -> (r: Result<Option<Token>, String>)
    requires
        vars.wf(),
    ensures
        handle_spec(token@, vars@, return_original, fuel as nat) matches Some(x) ==> eval_view(r) == x,
    decreases fuel, depth(token@), 0int, size(token@) + 1,
{
    match token {
        Token::Call(name, args) => call_expression(host, name.clone(), args, vars, token.duplicate(), fuel),
        Token::Operation(op) => run_with_fuel(host, op, vars, fuel),
        Token::Var(name) => lookup_of(vars, name),
        Token::Collection(items) => {
            let ghost tv = tokens_view(items@);
            proof {
                lemma_tokens_view_index(items@);
                lemma_tokens_view_index(Seq::<Token>::empty());
                assert(tv.subrange(0, 0) =~= seq![]);
                lemma_seq_depth(tv);
                lemma_seq_size(tv);
            }
            let mut out: Vec<Token> = Vec::new();
            let mut i: usize = 0;
            while i < items.len()
                invariant
                    i <= items.len(),
                    vars.wf(),
                    *token == Token::Collection(*items),
                    tv == tokens_view(items@),
                    tv.len() == items.len(),
                    forall|k: int| 0 <= k < items.len() ==> tv[k] == token_view(#[trigger] items@[k]),
                    forall|k: int| 0 <= k < tv.len() ==> depth(#[trigger] tv[k]) <= seq_depth(tv),
                    forall|k: int| 0 <= k < tv.len() ==> size(#[trigger] tv[k]) < seq_size(tv),
                    handle_items(tv.subrange(0, i as int), vars@, fuel as nat) matches Some(h) ==> tokens_view(out@) == h,
                decreases items.len() - i,
            {
                assert(depth(tv[i as int]) <= seq_depth(tv));
                assert(size(tv[i as int]) < seq_size(tv));
                let h = handle_with_fuel(host, &items[i], vars, false, fuel);
                let ghost before = out@;
                let t = match h {
                    Ok(Some(t)) => t,
                    _ => items[i].duplicate(),
                };
                proof {
                    lemma_tokens_view_push(out@, t);
                    let pre = tv.subrange(0, i + 1);
                    assert(pre.drop_last() =~= tv.subrange(0, i as int));
                    assert(pre.last() == tv[i as int]);
                }
                out.push(t);
                i = i + 1;
            }
            assert(tv.subrange(0, items.len() as int) =~= tv);
            Ok(Some(Token::Collection(out)))
        },
        Token::Accessor(p, a) => {
            let prev = handle_with_fuel(host, p, vars, false, fuel);
            let cur = handle_with_fuel(host, a, vars, true, fuel);
            match (&prev, &cur) {
                (Ok(Some(Token::Collection(c))), Ok(Some(Token::Int(i)))) => {
                    proof {
                        lemma_tokens_view_index(c@);
                    }
                    let i = *i;
                    if i < 0 || (i as usize) >= c.len() {
                        host.fail("index out of bounds");
                        return Err(String::from_str("index out of bounds"));
                    }
                    pick_of(host, &c[i as usize], vars, fuel)
                },
                (Ok(Some(Token::String(v))), Ok(Some(Token::String(s)))) => {
                    let mut name = v.clone();
                    crate::text::push_char(&mut name, '.');
                    name.append(s.as_str());
                    assert(name@ =~= v@ + seq!['.'] + s@);
                    lookup_of(vars, &name)
                },
                (Ok(Some(Token::String(v))), Ok(Some(Token::Call(name, args)))) => {
                    let mut full = v.clone();
                    crate::text::push_char(&mut full, '.');
                    full.append(name.as_str());
                    let call = Token::Call(full.clone(), args.clone());
                    call_expression(host, full, args, vars, call, fuel)
                },
                (Ok(Some(Token::String(v))), Ok(Some(Token::Int(i)))) => {
                    let chars = chars_of(v.as_str());
                    if *i >= 0 && (*i as usize) < chars.len() {
                        let mut one = String::new();
                        crate::text::push_char(&mut one, chars[*i as usize]);
                        assert(one@ =~= seq![v@[*i as int]]);
                        Ok(Some(Token::String(one)))
                    } else {
                        Err(String::from_str("Tried to access a string index out of range."))
                    }
                },
                _ => {
                    if let Token::Call(name, args) = &**a {
                        if let Ok(Some(ap)) = &prev {
                            let mut text = display_of(host, ap);
                            crate::text::push_char(&mut text, ',');
                            text.append(args.as_str());
                            let call = Token::Call(name.clone(), text.clone());
                            if let Ok(result) = call_expression(host, name.clone(), &text, vars, call, fuel) {
                                return Ok(result);
                            }
                        }
                    }
                    match (prev, cur) {
                        (Err(e), _) => Err(e),
                        (_, Err(e)) => Err(e),
                        _ => Ok(None),
                    }
                },
            }
        },
        _ => Ok(
            if return_original {
                Some(token.duplicate())
            } else {
                None
            },
        ),
    }
}

/// Runs an operation: its tokens, from the last to the first, go on a
/// stack; an operator applies to the two values on top of it (handled
/// first), and the value left at the end is handled and returned.
pub fn run_operation<H: Host>(host: &mut H, operations: &Vec<Token>, vars: &Vars) -> (r: Result<Option<Token>, String>)
    requires
        vars.wf(),
    ensures
        run_spec(tokens_view(operations@), vars@) matches Some(x) ==> eval_view(r) == x,
{
    run_with_fuel(host, operations, vars, EVAL_FUEL)
}

/// `run_operation`, with `fuel` for picked items and call arguments.
fn run_with_fuel<H: Host>(host: &mut H, operations: &Vec<Token>, vars: &Vars, fuel: u64) -> (r: Result<Option<Token>, String>)
    requires
        vars.wf(),
    ensures
        run_fuel(tokens_view(operations@), vars@, fuel as nat) matches Some(x) ==> eval_view(r) == x,
    decreases fuel, seq_depth(tokens_view(operations@)), 2int, 0int,
{
    let ghost opsv = tokens_view(operations@);
    let ghost d = seq_depth(opsv);
    let ghost f = fuel as nat;
    let ghost total = run_fuel(opsv, vars@, f);
    proof {
        lemma_tokens_view_index(operations@);
        lemma_tokens_view_index(Seq::<Token>::empty());
        lemma_seq_depth(opsv);
        lemma_rpn_start(opsv, vars@, f);
        assert(tokens_view(Seq::<Token>::empty()) =~= seq![]);
    }
    // `hosted[k]` marks a value computed by the host, handled with one unit of fuel less.
    let mut stack: Vec<Token> = Vec::new();
    let mut hosted: Vec<bool> = Vec::new();
    let mut i: usize = operations.len();
    while i > 0
        invariant
            i <= operations.len(),
            vars.wf(),
            opsv == tokens_view(operations@),
            opsv.len() == operations.len(),
            d == seq_depth(opsv),
            forall|k: int| 0 <= k < operations.len() ==> opsv[k] == token_view(#[trigger] operations@[k]),
            forall|k: int| 0 <= k < opsv.len() ==> depth(#[trigger] opsv[k]) <= d,
            hosted@.len() == stack@.len(),
            forall|k: int| 0 <= k < stack@.len() && !hosted@[k] ==> depth(#[trigger] stack@[k]@) <= d,
            f == fuel as nat,
            total == run_fuel(opsv, vars@, f),
            total is Some ==> (forall|k: int| 0 <= k < hosted@.len() ==> !#[trigger] hosted@[k]),
            total is Some ==> total == rpn(opsv, vars@, i as int, tokens_view(stack@), f),
        decreases i,
    {
        let k = i - 1;
        let ghost sv = stack@;
        let ghost hv = hosted@;
        let ghost st = tokens_view(sv);
        proof {
            lemma_tokens_view_index(sv);
            if total is Some {
                assert(stack_ok(st, d)) by {
                    assert forall|j: int| 0 <= j < st.len() implies depth(#[trigger] st[j]) <= d by {
                        assert(!hv[j]);
                        assert(st[j] == sv[j]@);
                    }
                }
            }
        }
        match &operations[k] {
            Token::Operator(op) => {
                assert(opsv[k as int] == TokenV::Operator(op@));
                let second = stack.pop();
                let first = stack.pop();
                let h2 = hosted.pop();
                let h1 = hosted.pop();
                match (first, second, h1, h2) {
                    (Some(u1), Some(u2), Some(f1), Some(f2)) => {
                        proof {
                            assert(sv.len() >= 2);
                            assert(stack@ =~= sv.subrange(0, sv.len() - 2));
                            assert(hosted@ =~= hv.subrange(0, hv.len() - 2));
                            crate::parser::operation_parser::lemma_tokens_view_prefix(sv, sv.len() - 2);
                            assert(u2@ == st.last());
                            assert(u1@ == st[st.len() - 2]);
                            assert(f2 == hv[hv.len() - 1]);
                            assert(f1 == hv[hv.len() - 2]);
                            assert(!f1 ==> depth(sv[sv.len() - 2]@) <= d);
                            assert(!f2 ==> depth(sv[sv.len() - 1]@) <= d);
                        }
                        proof {
                            if total is Some {
                                lemma_rpn_step(opsv, vars@, k + 1, st, f);
                            }
                        }
                        match apply_top_of(host, op, &u1, &u2, f1, f2, vars, fuel) {
                            Ok(t) => {
                                let flat = is_flat(&t);
                                proof {
                                    lemma_tokens_view_push(stack@, t);
                                    if total is Some {
                                        lemma_rpn_step(opsv, vars@, k + 1, st, f);
                                        assert(apply_top(op@, st[st.len() - 2], st.last(), vars@, f) == Some(Ok::<TokenV, Seq<char>>(t@)));
                                        lemma_apply_top_flat(op@, st[st.len() - 2], st.last(), vars@, f);
                                    }
                                }
                                stack.push(t);
                                hosted.push(!flat);
                            },
                            Err(e) => {
                                return Err(e);
                            },
                        }
                    },
                    _ => {
                        proof {
                            assert(sv.len() < 2);
                            if total is Some {
                                lemma_rpn_step(opsv, vars@, k + 1, st, f);
                            }
                        }
                        stack = Vec::new();
                        hosted = Vec::new();
                        proof {
                            assert(tokens_view(stack@) =~= seq![]);
                        }
                    },
                }
            },
            t => {
                let dt = t.duplicate();
                proof {
                    lemma_tokens_view_push(stack@, dt);
                    assert(opsv[k as int] == t@);
                    if total is Some {
                        lemma_rpn_step(opsv, vars@, k + 1, st, f);
                    }
                }
                stack.push(dt);
                hosted.push(false);
            },
        }
        i = k;
    }
    proof {
        lemma_tokens_view_index(stack@);
        if total is Some {
            let st = tokens_view(stack@);
            assert(stack_ok(st, d)) by {
                assert forall|j: int| 0 <= j < st.len() implies depth(#[trigger] st[j]) <= d by {
                    assert(!hosted@[j]);
                    assert(st[j] == stack@[j]@);
                }
            }
            lemma_rpn_end(opsv, vars@, st, f);
        }
    }
    let last_hosted = match hosted.pop() {
        Some(f) => f,
        None => false,
    };
    match stack.pop() {
        Some(t) => {
            let h = if !last_hosted {
                handle_with_fuel(host, &t, vars, false, fuel)
            } else if fuel > 0 {
                handle_with_fuel(host, &t, vars, false, fuel - 1)
            } else {
                Ok(None)
            };
            match h {
                Ok(Some(r)) => Ok(Some(r)),
                Ok(None) => Ok(Some(t)),
                Err(e) => Err(e),
            }
        },
        None => Err(String::from_str("Failed to parse operation. Try breaking down the statement into steps.")),
    }
}

/// One step of the evaluation.
proof fn lemma_rpn_step(ops: Seq<TokenV>, vars: VarsV, i: int, stack: Seq<TokenV>, fuel: nat)
    requires
        0 < i <= ops.len(),
        stack_ok(stack, seq_depth(ops)),
    ensures
        rpn(ops, vars, i, stack, fuel) == match ops[i - 1] {
            TokenV::Operator(op) => if stack.len() >= 2 {
                match apply_top(op, stack[stack.len() - 2], stack.last(), vars, fuel) {
                    Some(Ok(t)) => rpn(ops, vars, i - 1, stack.subrange(0, stack.len() - 2).push(t), fuel),
                    Some(Err(e)) => Some(Err(e)),
                    None => None,
                }
            } else {
                rpn(ops, vars, i - 1, seq![], fuel)
            },
            t => rpn(ops, vars, i - 1, stack.push(t), fuel),
        },
{
    reveal(rpn);
    reveal(apply_top);
    assert(!(i <= 0 || i > ops.len()));
    if let TokenV::Operator(op) = ops[i - 1] {
        if stack.len() >= 2 {
            let u2 = stack.last();
            let u1 = stack[stack.len() - 2];
            let rest = stack.subrange(0, stack.len() - 2);
            assert(rpn(ops, vars, i, stack, fuel) == match apply_top(op, u1, u2, vars, fuel) {
                Some(Ok(t)) => rpn(ops, vars, i - 1, rest.push(t), fuel),
                Some(Err(e)) => Some(Err(e)),
                None => None,
            });
        } else {
            assert(rpn(ops, vars, i, stack, fuel) == rpn(ops, vars, i - 1, seq![], fuel));
        }
    } else {
        assert(rpn(ops, vars, i, stack, fuel) == rpn(ops, vars, i - 1, stack.push(ops[i - 1]), fuel));
    }
}

/// The start of the evaluation.
proof fn lemma_rpn_start(ops: Seq<TokenV>, vars: VarsV, fuel: nat)
    ensures
        run_fuel(ops, vars, fuel) == rpn(ops, vars, ops.len() as int, seq![], fuel),
{
    reveal(rpn);
}

/// The end of the evaluation.
proof fn lemma_rpn_end(ops: Seq<TokenV>, vars: VarsV, stack: Seq<TokenV>, fuel: nat)
    requires
        stack_ok(stack, seq_depth(ops)),
    ensures
        rpn(ops, vars, 0, stack, fuel) == finish(stack, vars, fuel),
{
    reveal(rpn);
}

/// Whether a value holds no parenthesised part.
fn is_flat(t: &Token) -> (r: bool)
    ensures
        r == (depth(t@) == 0),
    decreases t,
{
    match t {
        Token::Operation(_) => false,
        Token::Collection(items) => {
            let ghost tv = tokens_view(items@);
            proof {
                lemma_tokens_view_index(items@);
                lemma_seq_depth(tv);
                assert(tv.subrange(0, 0) =~= seq![]);
            }
            let mut i: usize = 0;
            while i < items.len()
                invariant
                    i <= items.len(),
                    *t == Token::Collection(*items),
                    tv == tokens_view(items@),
                    tv.len() == items.len(),
                    forall|k: int| 0 <= k < items.len() ==> tv[k] == token_view(#[trigger] items@[k]),
                    forall|k: int| 0 <= k < tv.len() ==> depth(#[trigger] tv[k]) <= seq_depth(tv),
                    seq_depth(tv.subrange(0, i as int)) == 0,
                decreases items.len() - i,
            {
                assert(decreases_to!(*t => items@[i as int])) by {
                    assert((*t)->Collection_0 == *items);
                    assert(decreases_to!(*t => (*t)->Collection_0));
                    assert(decreases_to!(*items => items@));
                    assert(decreases_to!(items@ => items@[i as int]));
                }
                if !is_flat(&items[i]) {
                    assert(depth(tv[i as int]) > 0);
                    return false;
                }
                proof {
                    let pre = tv.subrange(0, i + 1);
                    assert(pre.drop_last() =~= tv.subrange(0, i as int));
                    assert(pre.last() == tv[i as int]);
                }
                i = i + 1;
            }
            assert(tv.subrange(0, items.len() as int) =~= tv);
            true
        },
        Token::Accessor(p, a) => {
            assert(decreases_to!(*t => **p)) by {
                assert(decreases_to!(*t => (*t)->Accessor_0));
            }
            assert(decreases_to!(*t => **a)) by {
                assert(decreases_to!(*t => (*t)->Accessor_1));
            }
            is_flat(p) && is_flat(a)
        },
        _ => true,
    }
}

/// What an operator gives when it applies holds no parenthesised part.
proof fn lemma_apply_top_flat(op: Seq<char>, u1: TokenV, u2: TokenV, vars: VarsV, fuel: nat)
    ensures
        apply_top(op, u1, u2, vars, fuel) matches Some(Ok(t)) ==> depth(t) == 0,
{
    reveal(apply_top);
    if let Some(Ok(t)) = apply_top(op, u1, u2, vars, fuel) {
        let (o1, o2) = (handle_spec(u1, vars, false, fuel), handle_spec(u2, vars, false, fuel));
        let a = match o1 {
            Some(Ok(Some(x))) => x,
            _ => u1,
        };
        let b = match o2 {
            Some(Ok(Some(x))) => x,
            _ => u2,
        };
        let (bop, negate) = super::token_impl::operator_spec(op).unwrap();
        lemma_binary_flat(bop, a, b);
        let o = operation_by_type(a, b, op).unwrap();
        lemma_settled_flat(o);
    }
}

/// Applies the operator `op` to two values taken off the stack.
/// A value computed by the host (`f1`, `f2`) is handled with one unit of
/// fuel less (none, with no fuel left).
fn apply_top_of<H: Host>(host: &mut H, op: &String, u1: &Token, u2: &Token, f1: bool, f2: bool, vars: &Vars, fuel: u64) -> (r: Result<Token, String>)
    requires
        vars.wf(),
    ensures
        !f1 && !f2 ==> (apply_top(op@, u1@, u2@, vars@, fuel as nat) matches Some(x) ==> match (r, x) {
            (Ok(t), Ok(v)) => t@ == v,
            (Err(e), Err(m)) => e@ == m,
            _ => false,
        }),
    decreases fuel, ({
        let d1 = if f1 { 0 } else { depth(u1@) };
        let d2 = if f2 { 0 } else { depth(u2@) };
        if d1 >= d2 { d1 } else { d2 }
    }), 1int, 0int,
{
    reveal(apply_top);
    let h1 = if !f1 {
        handle_with_fuel(host, u1, vars, false, fuel)
    } else if fuel > 0 {
        handle_with_fuel(host, u1, vars, false, fuel - 1)
    } else {
        Ok(None)
    };
    let h2 = if !f2 {
        handle_with_fuel(host, u2, vars, false, fuel)
    } else if fuel > 0 {
        handle_with_fuel(host, u2, vars, false, fuel - 1)
    } else {
        Ok(None)
    };
    let h1 = match h1 {
        Err(e) => {
            return Err(e);
        },
        Ok(x) => x,
    };
    let h2 = match h2 {
        Err(e) => {
            return Err(e);
        },
        Ok(x) => x,
    };
    let a = match &h1 {
        Some(t) => t,
        None => u1,
    };
    let b = match &h2 {
        Some(t) => t,
        None => u2,
    };
    if !operation_defined_of(a, b, op.as_str()) {
        host.fail("attempt to compute with overflow");
        return Err(String::from_str("attempt to compute with overflow"));
    }
    match run_operation_by_type(a, b, op.as_str()) {
        None => {
            let d1 = display_of(host, u1);
            let d2 = display_of(host, u2);
            Err(cannot_apply_of(op, &d1, &d2))
        },
        Some(o) => {
            let o2 = compute_floats(host, o);
            match settle(&o2) {
                Some(t) => Ok(t),
                None => {
                    let d1 = display_of(host, u1);
                    let d2 = display_of(host, u2);
                    Err(cannot_apply_of(op, &d1, &d2))
                },
            }
        },
    }
}

fn cannot_apply_of(op: &String, d1: &String, d2: &String) -> (r: String)
    ensures
        r@ == cannot_apply(op@, d1@, d2@),
{
    let mut m = String::from_str("Cannot apply operation '");
    m.append(op.as_str());
    m.append("' to '");
    m.append(d1.as_str());
    m.append("' and '");
    m.append(d2.as_str());
    m.append("'.");
    m
}


/// An operation of one value evaluates to that value; of one variable, to
/// the variable's value (or the error for a missing variable); an operation
/// with no tokens fails.
pub proof fn lemma_single_token(t: TokenV, vars: VarsV)
    ensures
        is_plain(t) && !(t is Operator) ==> run_spec(seq![t], vars) == Some(Ok::<Option<TokenV>, Seq<char>>(Some(t))),
        t matches TokenV::Var(n) ==> run_spec(seq![t], vars) == Some(lookup(vars, n)),
        run_spec(Seq::<TokenV>::empty(), vars) == Some(Err::<Option<TokenV>, Seq<char>>(failed_parse_message())),
{
    let ops = seq![t];
    let empty = Seq::<TokenV>::empty();
    lemma_rpn_start(empty, vars, EVAL_FUEL as nat);
    lemma_rpn_end(empty, vars, seq![], EVAL_FUEL as nat);
    lemma_rpn_start(ops, vars, EVAL_FUEL as nat);
    if !(t is Operator) {
        lemma_seq_depth(ops);
        assert(ops[0] == t);
        lemma_rpn_step(ops, vars, 1, seq![], EVAL_FUEL as nat);
        assert(Seq::<TokenV>::empty().push(t) =~= seq![t]);
        assert(stack_ok(seq![t], seq_depth(ops)));
        lemma_rpn_end(ops, vars, seq![t], EVAL_FUEL as nat);
        assert(seq![t].last() == t);
    }
}


/// `a op b` is held as `[op, b, a]` and evaluates to `op` applied to `a`
/// and `b`, in that order: its value when that is a plain value, its error
/// when it fails.
pub proof fn lemma_binary_operation(a: TokenV, o: Seq<char>, b: TokenV, vars: VarsV)
    requires
        !(a is Operator),
        !(b is Operator),
    ensures
        crate::parser::operation_parser::populate_spec(seq![a, TokenV::Operator(o), b]) == seq![TokenV::Operator(o), b, a],
        match apply_top(o, a, b, vars, EVAL_FUEL as nat) {
            Some(Ok(t)) => is_plain(t) ==> run_spec(seq![TokenV::Operator(o), b, a], vars) == Some(
                Ok::<Option<TokenV>, Seq<char>>(Some(t)),
            ),
            Some(Err(e)) => run_spec(seq![TokenV::Operator(o), b, a], vars) == Some(Err::<Option<TokenV>, Seq<char>>(e)),
            None => true,
        },
{
    let op = TokenV::Operator(o);
    let toks = seq![a, op, b];
    reveal_with_fuel(crate::parser::operation_parser::shunt, 4);
    reveal_with_fuel(crate::parser::operation_parser::pop_while, 2);
    assert(crate::parser::operation_parser::shunt(toks, 0, seq![], seq![]) == crate::parser::operation_parser::shunt(toks, 1, seq![], seq![a]));
    assert(crate::parser::operation_parser::shunt(toks, 1, seq![], seq![a]) == crate::parser::operation_parser::shunt(toks, 2, seq![op], seq![a]));
    assert(crate::parser::operation_parser::shunt(toks, 2, seq![op], seq![a]) == crate::parser::operation_parser::shunt(toks, 3, seq![op], seq![a, b]));
    assert((seq![a, b] + seq![op].reverse()).reverse() =~= seq![op, b, a]);
    lemma_rpn_operation(a, o, b, vars);
}

proof fn lemma_rpn_operation(a: TokenV, o: Seq<char>, b: TokenV, vars: VarsV)
    requires
        !(a is Operator),
        !(b is Operator),
    ensures
        match apply_top(o, a, b, vars, EVAL_FUEL as nat) {
            Some(Ok(t)) => is_plain(t) ==> run_spec(seq![TokenV::Operator(o), b, a], vars) == Some(
                Ok::<Option<TokenV>, Seq<char>>(Some(t)),
            ),
            Some(Err(e)) => run_spec(seq![TokenV::Operator(o), b, a], vars) == Some(Err::<Option<TokenV>, Seq<char>>(e)),
            None => true,
        },
{
    let op = TokenV::Operator(o);
    let ops = seq![op, b, a];
    let d = seq_depth(ops);
    lemma_seq_depth(ops);
    assert(ops[1] == b && ops[2] == a && ops[0] == op);
    lemma_rpn_start(ops, vars, EVAL_FUEL as nat);
    lemma_rpn_step(ops, vars, 3, seq![], EVAL_FUEL as nat);
    assert(Seq::<TokenV>::empty().push(a) =~= seq![a]);
    assert(stack_ok(seq![a], d));
    lemma_rpn_step(ops, vars, 2, seq![a], EVAL_FUEL as nat);
    assert(seq![a].push(b) =~= seq![a, b]);
    assert(stack_ok(seq![a, b], d));
    lemma_rpn_step(ops, vars, 1, seq![a, b], EVAL_FUEL as nat);
    let st = seq![a, b];
    assert(st.subrange(0, 0) =~= Seq::<TokenV>::empty());
    assert(st.last() == b && st[0] == a);
    lemma_apply_top_flat(o, a, b, vars, EVAL_FUEL as nat);
    if let Some(Ok(t)) = apply_top(o, a, b, vars, EVAL_FUEL as nat) {
        assert(Seq::<TokenV>::empty().push(t) =~= seq![t]);
        assert(stack_ok(seq![t], d));
        lemma_rpn_end(ops, vars, seq![t], EVAL_FUEL as nat);
        assert(seq![t].last() == t);
    }
}

/// An evaluation never ends without a value unless it fails.
proof fn lemma_rpn_gives_value(ops: Seq<TokenV>, vars: VarsV, i: int, stack: Seq<TokenV>, fuel: nat)
    ensures
        rpn(ops, vars, i, stack, fuel) != Some(Ok::<Option<TokenV>, Seq<char>>(None)),
    decreases (if i < 0 { 0 } else { i }),
{
    if !stack_ok(stack, seq_depth(ops)) {
        reveal(rpn);
    } else if !(0 < i <= ops.len()) {
        reveal(rpn);
        assert(rpn(ops, vars, i, stack, fuel) == finish(stack, vars, fuel));
    } else {
        lemma_rpn_step(ops, vars, i, stack, fuel);
        match ops[i - 1] {
            TokenV::Operator(op) => if stack.len() >= 2 {
                if let Some(Ok(t)) = apply_top(op, stack[stack.len() - 2], stack.last(), vars, fuel) {
                    lemma_rpn_gives_value(ops, vars, i - 1, stack.subrange(0, stack.len() - 2).push(t), fuel);
                }
            } else {
                lemma_rpn_gives_value(ops, vars, i - 1, seq![], fuel);
            },
            t => lemma_rpn_gives_value(ops, vars, i - 1, stack.push(t), fuel),
        }
    }
}

/// Parentheses around an expression do not change what it evaluates to.
pub proof fn lemma_parenthesised(ops: Seq<TokenV>, vars: VarsV)
    ensures
        run_spec(seq![TokenV::Operation(ops)], vars) == run_spec(ops, vars),
{
    let f = EVAL_FUEL as nat;
    let t = TokenV::Operation(ops);
    let outer = seq![t];
    lemma_seq_depth(outer);
    assert(outer[0] == t);
    lemma_rpn_start(outer, vars, f);
    lemma_rpn_step(outer, vars, 1, seq![], f);
    assert(Seq::<TokenV>::empty().push(t) =~= seq![t]);
    assert(stack_ok(seq![t], seq_depth(outer)));
    lemma_rpn_end(outer, vars, seq![t], f);
    assert(seq![t].last() == t);
    lemma_rpn_start(ops, vars, f);
    lemma_rpn_gives_value(ops, vars, ops.len() as int, seq![], f);
}

} // verus!
