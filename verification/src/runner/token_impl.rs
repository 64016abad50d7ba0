//! The operators of the language on values.
//!
//! An operation on two values gives an `Outcome`: the value itself where
//! integers, booleans, characters, strings and collections decide it, and a
//! `FloatTask` wherever a float takes part, which the host computes in `f32`.
//! `settle` then puts a float-free outcome together into the resulting value.
use vstd::prelude::*;
use crate::text::{int_text, bool_text, decimal_string, push_char, str_is};
use crate::types::{Token, TokenV, tokens_view, token_view};
use crate::parser::operation_parser::{lemma_tokens_view_index, lemma_tokens_view_push};

verus! {

// ---------------------------------------------------------------------------
// Outcomes
// ---------------------------------------------------------------------------

/// An operand of a float computation, converted to `f32` by the host: an
/// integer by `as f32`, a boolean as `0.0` or `1.0`, a float by parsing its text.
pub enum Num {
    Int(i32),
    Float(String),
    Bool(bool),
}

pub enum NumV {
    Int(i32),
    Float(Seq<char>),
    Bool(bool),
}

/// The arithmetic operators.
#[derive(Debug, Clone, Copy, PartialEq, Eq, Structural)]
pub enum ArithOp {
    Add,
    Subtract,
    Multiply,
    Divide,
    Modulos,
}

/// The comparisons computed on floats.
#[derive(Debug, Clone, Copy, PartialEq, Eq, Structural)]
pub enum CmpOp {
    Eq,
    Gte,
    Gt,
}

/// A computation on `f32` values, and the value it gives.
pub enum FloatTask {
    /// `Float(a op b)`.
    Arith(ArithOp, Num, Num),
    /// `Bool(a op b)`.
    Compare(CmpOp, Num, Num),
    /// `Bool(a != 0 && b != 0)` when the flag is set, else `Bool(a != 0 || b != 0)`.
    Logic(bool, Num, Num),
    /// `Bool(a != 0)`.
    NonZero(Num),
    /// `Bool((a != 0) == b)`.
    NonZeroIs(Num, bool),
    /// `String(s + a.to_string())`.
    Concat(String, Num),
    /// `Bool(s == a.to_string())`.
    TextIs(String, Num),
}

pub enum FloatTaskV {
    Arith(ArithOp, NumV, NumV),
    Compare(CmpOp, NumV, NumV),
    Logic(bool, NumV, NumV),
    NonZero(NumV),
    NonZeroIs(NumV, bool),
    Concat(Seq<char>, NumV),
    TextIs(Seq<char>, NumV),
}

/// What an operation gives, before the float computations in it are done.
pub enum Outcome {
    /// The result itself.
    Value(Option<Token>),
    /// A value the host computes.
    Float(FloatTask),
    /// A collection of the items' results, `Null` standing for a missing one.
    Each(Vec<Outcome>),
    /// A collection of the items' results, missing ones left out.
    Pairwise(Vec<Outcome>),
    /// `Bool`: whether every item gives `Bool(true)`.
    AllTrue(Vec<Outcome>),
    /// The negation of a boolean result; no result for any other.
    Negate(Box<Outcome>),
}

pub enum OutcomeV {
    Value(Option<TokenV>),
    Float(FloatTaskV),
    Each(Seq<OutcomeV>),
    Pairwise(Seq<OutcomeV>),
    AllTrue(Seq<OutcomeV>),
    Negate(Box<OutcomeV>),
}

pub open spec fn num_view(n: Num) -> NumV {
    match n {
        Num::Int(i) => NumV::Int(i),
        Num::Float(f) => NumV::Float(f@),
        Num::Bool(b) => NumV::Bool(b),
    }
}

pub open spec fn task_view(t: FloatTask) -> FloatTaskV {
    match t {
        FloatTask::Arith(op, a, b) => FloatTaskV::Arith(op, num_view(a), num_view(b)),
        FloatTask::Compare(op, a, b) => FloatTaskV::Compare(op, num_view(a), num_view(b)),
        FloatTask::Logic(and, a, b) => FloatTaskV::Logic(and, num_view(a), num_view(b)),
        FloatTask::NonZero(a) => FloatTaskV::NonZero(num_view(a)),
        FloatTask::NonZeroIs(a, b) => FloatTaskV::NonZeroIs(num_view(a), b),
        FloatTask::Concat(s, a) => FloatTaskV::Concat(s@, num_view(a)),
        FloatTask::TextIs(s, a) => FloatTaskV::TextIs(s@, num_view(a)),
    }
}

pub open spec fn opt_token_view(t: Option<Token>) -> Option<TokenV> {
    match t {
        Some(t) => Some(t@),
        None => None,
    }
}

pub open spec fn outcomes_view(s: Seq<Outcome>) -> Seq<OutcomeV>
    decreases s,
{
    if s.len() == 0 {
        seq![]
    } else {
        outcomes_view(s.subrange(0, s.len() - 1)).push(outcome_view(s[s.len() - 1]))
    }
}

pub open spec fn outcome_view(o: Outcome) -> OutcomeV
    decreases o,
{
    match o {
        Outcome::Value(v) => OutcomeV::Value(opt_token_view(v)),
        Outcome::Float(t) => OutcomeV::Float(task_view(t)),
        Outcome::Each(v) => OutcomeV::Each(outcomes_view(v@)),
        Outcome::Pairwise(v) => OutcomeV::Pairwise(outcomes_view(v@)),
        Outcome::AllTrue(v) => OutcomeV::AllTrue(outcomes_view(v@)),
        Outcome::Negate(b) => OutcomeV::Negate(Box::new(outcome_view(*b))),
    }
}

impl View for Outcome {
    type V = OutcomeV;

    open spec fn view(&self) -> OutcomeV {
        outcome_view(*self)
    }
}

pub open spec fn opt_outcome_view(o: Option<Outcome>) -> Option<OutcomeV> {
    match o {
        Some(o) => Some(o@),
        None => None,
    }
}

pub proof fn lemma_outcomes_view_push(s: Seq<Outcome>, o: Outcome)
    ensures
        outcomes_view(s.push(o)) == outcomes_view(s).push(o@),
{
    assert(s.push(o).subrange(0, s.len() as int) =~= s);
}

pub proof fn lemma_outcomes_view_index(s: Seq<Outcome>)
    ensures
        outcomes_view(s).len() == s.len(),
        forall|k: int| 0 <= k < s.len() ==> outcomes_view(s)[k] == outcome_view(#[trigger] s[k]),
    decreases s.len(),
{
    if s.len() > 0 {
        let front = s.subrange(0, s.len() - 1);
        lemma_outcomes_view_index(front);
        assert forall|k: int| 0 <= k < s.len() implies outcomes_view(s)[k] == outcome_view(
            #[trigger] s[k],
        ) by {
            if k < s.len() - 1 {
                assert(front[k] == s[k]);
            }
        }
    }
}

// ---------------------------------------------------------------------------
// The operators
// ---------------------------------------------------------------------------

/// The binary operators of the language.
#[derive(Debug, Clone, Copy, PartialEq, Eq, Structural)]
pub enum BinOp {
    Add,
    Subtract,
    Multiply,
    Divide,
    Modulos,
    And,
    Or,
    Eq,
    Gte,
    Gt,
}

pub open spec fn b01(b: bool) -> int {
    if b { 1 } else { 0 }
}

pub open spec fn abs(x: int) -> int {
    if x < 0 { -x } else { x }
}

/// Division truncated toward zero, as `i32::div` computes it.
pub open spec fn trunc_div(x: int, y: int) -> int {
    let q = abs(x) / abs(y);
    if (x < 0) != (y < 0) { -q } else { q }
}

/// The remainder that goes with `trunc_div`, as `i32::rem` computes it.
pub open spec fn trunc_rem(x: int, y: int) -> int {
    let r = abs(x) % abs(y);
    if x < 0 { -r } else { r }
}

pub open spec fn fits_i32(x: int) -> bool {
    i32::MIN <= x <= i32::MAX
}

/// The `i32` result of an arithmetic operator; `None` where `i32`
/// arithmetic panics (overflow, division by zero).
pub open spec fn int_arith(op: ArithOp, x: int, y: int) -> Option<i32> {
    let v = match op {
        ArithOp::Add => x + y,
        ArithOp::Subtract => x - y,
        ArithOp::Multiply => x * y,
        ArithOp::Divide => if y == 0 { 0 } else { trunc_div(x, y) },
        ArithOp::Modulos => if y == 0 { 0 } else { trunc_rem(x, y) },
    };
    if (op == ArithOp::Divide || op == ArithOp::Modulos) && (y == 0 || (x == i32::MIN && y == -1)) {
        None
    } else if fits_i32(v) {
        Some(v as i32)
    } else {
        None
    }
}

pub open spec fn value(t: TokenV) -> Option<OutcomeV> {
    Some(OutcomeV::Value(Some(t)))
}

pub open spec fn no_value() -> Option<OutcomeV> {
    Some(OutcomeV::Value(None))
}

pub open spec fn float_task(t: FloatTaskV) -> Option<OutcomeV> {
    Some(OutcomeV::Float(t))
}

pub open spec fn int_value(op: ArithOp, x: int, y: int) -> Option<OutcomeV> {
    match int_arith(op, x, y) {
        Some(v) => value(TokenV::Int(v)),
        None => None,
    }
}

/// `+` on two values that are not collections.
pub open spec fn add_leaf(a: TokenV, b: TokenV) -> Option<OutcomeV> {
    let op = ArithOp::Add;
    match (a, b) {
        (TokenV::Int(x), TokenV::Int(y)) => int_value(op, x as int, y as int),
        (TokenV::Float(x), TokenV::Float(y)) => float_task(FloatTaskV::Arith(op, NumV::Float(x), NumV::Float(y))),
        (TokenV::Bool(x), TokenV::Bool(y)) => int_value(op, b01(x), b01(y)),
        (TokenV::Char(x), TokenV::Char(y)) => value(TokenV::Str(seq![x, y])),
        (TokenV::Str(x), TokenV::Str(y)) => value(TokenV::Str(x + y)),
        (TokenV::Int(x), TokenV::Float(y)) => float_task(FloatTaskV::Arith(op, NumV::Int(x), NumV::Float(y))),
        (TokenV::Float(y), TokenV::Int(x)) => float_task(FloatTaskV::Arith(op, NumV::Int(x), NumV::Float(y))),
        (TokenV::Int(x), TokenV::Bool(y)) => int_value(op, x as int, b01(y)),
        (TokenV::Bool(y), TokenV::Int(x)) => int_value(op, x as int, b01(y)),
        (TokenV::Float(x), TokenV::Bool(y)) => float_task(FloatTaskV::Arith(op, NumV::Float(x), NumV::Bool(y))),
        (TokenV::Bool(y), TokenV::Float(x)) => float_task(FloatTaskV::Arith(op, NumV::Float(x), NumV::Bool(y))),
        (TokenV::Str(x), TokenV::Int(y)) => value(TokenV::Str(x + int_text(y as int))),
        (TokenV::Int(y), TokenV::Str(x)) => value(TokenV::Str(x + int_text(y as int))),
        (TokenV::Str(x), TokenV::Float(y)) => float_task(FloatTaskV::Concat(x, NumV::Float(y))),
        (TokenV::Float(y), TokenV::Str(x)) => float_task(FloatTaskV::Concat(x, NumV::Float(y))),
        (TokenV::Str(x), TokenV::Bool(y)) => value(TokenV::Str(x + bool_text(y))),
        (TokenV::Bool(y), TokenV::Str(x)) => value(TokenV::Str(x + bool_text(y))),
        (TokenV::Str(x), TokenV::Char(y)) => value(TokenV::Str(x.push(y))),
        (TokenV::Char(y), TokenV::Str(x)) => value(TokenV::Str(x.push(y))),
        (TokenV::Char(x), TokenV::Int(y)) => value(TokenV::Str(seq![x] + int_text(y as int))),
        (TokenV::Int(y), TokenV::Char(x)) => value(TokenV::Str(seq![x] + int_text(y as int))),
        (TokenV::Char(x), TokenV::Float(y)) => float_task(FloatTaskV::Concat(seq![x], NumV::Float(y))),
        (TokenV::Float(y), TokenV::Char(x)) => float_task(FloatTaskV::Concat(seq![x], NumV::Float(y))),
        (TokenV::Char(x), TokenV::Bool(y)) => value(TokenV::Str(seq![x] + bool_text(y))),
        (TokenV::Bool(y), TokenV::Char(x)) => value(TokenV::Str(seq![x] + bool_text(y))),
        _ => no_value(),
    }
}

/// `*` on two values that are not collections.
pub open spec fn mul_leaf(a: TokenV, b: TokenV) -> Option<OutcomeV> {
    let op = ArithOp::Multiply;
    match (a, b) {
        (TokenV::Int(x), TokenV::Int(y)) => int_value(op, x as int, y as int),
        (TokenV::Float(x), TokenV::Float(y)) => float_task(FloatTaskV::Arith(op, NumV::Float(x), NumV::Float(y))),
        (TokenV::Bool(x), TokenV::Bool(y)) => int_value(op, b01(x), b01(y)),
        (TokenV::Int(x), TokenV::Float(y)) => float_task(FloatTaskV::Arith(op, NumV::Int(x), NumV::Float(y))),
        (TokenV::Float(y), TokenV::Int(x)) => float_task(FloatTaskV::Arith(op, NumV::Int(x), NumV::Float(y))),
        (TokenV::Int(x), TokenV::Bool(y)) => int_value(op, x as int, b01(y)),
        (TokenV::Bool(y), TokenV::Int(x)) => int_value(op, x as int, b01(y)),
        (TokenV::Float(x), TokenV::Bool(y)) => float_task(FloatTaskV::Arith(op, NumV::Float(x), NumV::Bool(y))),
        (TokenV::Bool(y), TokenV::Float(x)) => float_task(FloatTaskV::Arith(op, NumV::Float(x), NumV::Bool(y))),
        _ => no_value(),
    }
}

/// `-`, `/` and `%` on two values that are not collections: the operands
/// stay in their order.
pub open spec fn ordered_leaf(op: ArithOp, a: TokenV, b: TokenV) -> Option<OutcomeV> {
    match (a, b) {
        (TokenV::Int(x), TokenV::Int(y)) => int_value(op, x as int, y as int),
        (TokenV::Float(x), TokenV::Float(y)) => float_task(FloatTaskV::Arith(op, NumV::Float(x), NumV::Float(y))),
        (TokenV::Bool(x), TokenV::Bool(y)) => int_value(op, b01(x), b01(y)),
        (TokenV::Int(x), TokenV::Float(y)) => float_task(FloatTaskV::Arith(op, NumV::Int(x), NumV::Float(y))),
        (TokenV::Float(x), TokenV::Int(y)) => float_task(FloatTaskV::Arith(op, NumV::Float(x), NumV::Int(y))),
        (TokenV::Int(x), TokenV::Bool(y)) => int_value(op, x as int, b01(y)),
        (TokenV::Bool(x), TokenV::Int(y)) => int_value(op, b01(x), y as int),
        (TokenV::Float(x), TokenV::Bool(y)) => float_task(FloatTaskV::Arith(op, NumV::Float(x), NumV::Bool(y))),
        (TokenV::Bool(x), TokenV::Float(y)) => float_task(FloatTaskV::Arith(op, NumV::Bool(x), NumV::Float(y))),
        _ => no_value(),
    }
}

/// `&&` and `||` on two values that are not collections.
pub open spec fn logic_leaf(and: bool, a: TokenV, b: TokenV) -> Option<OutcomeV> {
    let nz = |x: i32| x != 0;
    match (a, b) {
        (TokenV::Int(x), TokenV::Int(y)) => value(TokenV::Bool(if and { nz(x) && nz(y) } else { nz(x) || nz(y) })),
        (TokenV::Float(x), TokenV::Float(y)) => float_task(FloatTaskV::Logic(and, NumV::Float(x), NumV::Float(y))),
        (TokenV::Bool(x), TokenV::Bool(y)) => value(TokenV::Bool(if and { x && y } else { x || y })),
        (TokenV::Int(x), TokenV::Float(y)) => float_task(if and {
            FloatTaskV::Logic(and, NumV::Int(x), NumV::Float(y))
        } else {
            FloatTaskV::Logic(and, NumV::Float(y), NumV::Int(x))
        }),
        (TokenV::Float(y), TokenV::Int(x)) => float_task(if and {
            FloatTaskV::Logic(and, NumV::Int(x), NumV::Float(y))
        } else {
            FloatTaskV::Logic(and, NumV::Float(y), NumV::Int(x))
        }),
        (TokenV::Int(x), TokenV::Bool(y)) => value(TokenV::Bool(if and { nz(x) && y } else { y || nz(x) })),
        (TokenV::Bool(y), TokenV::Int(x)) => value(TokenV::Bool(if and { nz(x) && y } else { y || nz(x) })),
        (TokenV::Float(x), TokenV::Bool(y)) => float_task(if and {
            FloatTaskV::Logic(and, NumV::Float(x), NumV::Bool(y))
        } else {
            FloatTaskV::Logic(and, NumV::Bool(y), NumV::Float(x))
        }),
        (TokenV::Bool(y), TokenV::Float(x)) => float_task(if and {
            FloatTaskV::Logic(and, NumV::Float(x), NumV::Bool(y))
        } else {
            FloatTaskV::Logic(and, NumV::Bool(y), NumV::Float(x))
        }),
        _ => no_value(),
    }
}

/// `==` on two values that are not collections.
pub open spec fn eq_leaf(a: TokenV, b: TokenV) -> Option<OutcomeV> {
    match (a, b) {
        (TokenV::Int(x), TokenV::Int(y)) => value(TokenV::Bool(x == y)),
        (TokenV::Float(x), TokenV::Float(y)) => float_task(FloatTaskV::Compare(CmpOp::Eq, NumV::Float(x), NumV::Float(y))),
        (TokenV::Bool(x), TokenV::Bool(y)) => value(TokenV::Bool(x == y)),
        (TokenV::Str(x), TokenV::Str(y)) => value(TokenV::Bool(x == y)),
        (TokenV::Char(x), TokenV::Char(y)) => value(TokenV::Bool(x == y)),
        (TokenV::Int(x), TokenV::Float(y)) => float_task(FloatTaskV::Compare(CmpOp::Eq, NumV::Int(x), NumV::Float(y))),
        (TokenV::Float(y), TokenV::Int(x)) => float_task(FloatTaskV::Compare(CmpOp::Eq, NumV::Int(x), NumV::Float(y))),
        (TokenV::Int(x), TokenV::Char(y)) => value(TokenV::Bool(int_text(x as int) == seq![y])),
        (TokenV::Char(y), TokenV::Int(x)) => value(TokenV::Bool(int_text(x as int) == seq![y])),
        (TokenV::Int(x), TokenV::Bool(y)) => value(TokenV::Bool((x != 0) == y)),
        (TokenV::Bool(y), TokenV::Int(x)) => value(TokenV::Bool((x != 0) == y)),
        (TokenV::Float(x), TokenV::Bool(y)) => float_task(FloatTaskV::NonZeroIs(NumV::Float(x), y)),
        (TokenV::Bool(y), TokenV::Float(x)) => float_task(FloatTaskV::NonZeroIs(NumV::Float(x), y)),
        (TokenV::Str(x), TokenV::Char(y)) => value(TokenV::Bool(x == seq![y])),
        (TokenV::Char(y), TokenV::Str(x)) => value(TokenV::Bool(x == seq![y])),
        (TokenV::Str(x), TokenV::Int(y)) => value(TokenV::Bool(x == int_text(y as int))),
        (TokenV::Int(y), TokenV::Str(x)) => value(TokenV::Bool(x == int_text(y as int))),
        (TokenV::Str(x), TokenV::Float(y)) => float_task(FloatTaskV::TextIs(x, NumV::Float(y))),
        (TokenV::Float(y), TokenV::Str(x)) => float_task(FloatTaskV::TextIs(x, NumV::Float(y))),
        (TokenV::Str(x), TokenV::Bool(y)) => value(TokenV::Bool(x == bool_text(y))),
        (TokenV::Bool(y), TokenV::Str(x)) => value(TokenV::Bool(x == bool_text(y))),
        _ => no_value(),
    }
}

/// `>=` (strict: `>`) on two values that are not collections; an integer
/// and a float are compared integer first, whatever their order.
pub open spec fn order_leaf(strict: bool, a: TokenV, b: TokenV) -> Option<OutcomeV> {
    let op = if strict { CmpOp::Gt } else { CmpOp::Gte };
    match (a, b) {
        (TokenV::Int(x), TokenV::Int(y)) => value(TokenV::Bool(if strict { x > y } else { x >= y })),
        (TokenV::Float(x), TokenV::Float(y)) => float_task(FloatTaskV::Compare(op, NumV::Float(x), NumV::Float(y))),
        (TokenV::Int(x), TokenV::Float(y)) => float_task(FloatTaskV::Compare(op, NumV::Int(x), NumV::Float(y))),
        (TokenV::Float(y), TokenV::Int(x)) => float_task(FloatTaskV::Compare(op, NumV::Int(x), NumV::Float(y))),
        _ => no_value(),
    }
}

/// An operator on two values that are not collections.
pub open spec fn leaf(op: BinOp, a: TokenV, b: TokenV) -> Option<OutcomeV> {
    match op {
        BinOp::Add => add_leaf(a, b),
        BinOp::Subtract => ordered_leaf(ArithOp::Subtract, a, b),
        BinOp::Multiply => mul_leaf(a, b),
        BinOp::Divide => ordered_leaf(ArithOp::Divide, a, b),
        BinOp::Modulos => ordered_leaf(ArithOp::Modulos, a, b),
        BinOp::And => logic_leaf(true, a, b),
        BinOp::Or => logic_leaf(false, a, b),
        BinOp::Eq => eq_leaf(a, b),
        BinOp::Gte => order_leaf(false, a, b),
        BinOp::Gt => order_leaf(true, a, b),
    }
}

/// The comparisons, whose results on collections say whether every item compares true.
pub open spec fn is_comparison(op: BinOp) -> bool {
    op == BinOp::Eq || op == BinOp::Gte || op == BinOp::Gt
}

/// The kinds of values the operator applies to each item of a collection.
pub open spec fn with_collection(op: BinOp, s: TokenV) -> bool {
    match s {
        TokenV::Int(_) => true,
        TokenV::Float(_) => true,
        TokenV::Bool(_) => op == BinOp::Add || op == BinOp::And || op == BinOp::Or || op == BinOp::Eq,
        TokenV::Str(_) => op == BinOp::Add || op == BinOp::Eq,
        TokenV::Char(_) => op == BinOp::Eq,
        _ => false,
    }
}

pub open spec fn wrap(op: BinOp, items: Seq<OutcomeV>) -> OutcomeV {
    if is_comparison(op) {
        OutcomeV::AllTrue(items)
    } else {
        OutcomeV::Each(items)
    }
}

pub open spec fn push_some(s: Option<Seq<OutcomeV>>, o: Option<OutcomeV>) -> Option<Seq<OutcomeV>> {
    match (s, o) {
        (Some(s), Some(o)) => Some(s.push(o)),
        _ => None,
    }
}

/// `x op s`, for a value `s` that is not a collection.
pub open spec fn scalar_op(op: BinOp, x: TokenV, s: TokenV) -> Option<OutcomeV>
    decreases x,
{
    match x {
        TokenV::Collection(items) => if with_collection(op, s) {
            match scalar_each(op, items, s) {
                Some(v) => Some(wrap(op, v)),
                None => None,
            }
        } else {
            no_value()
        },
        _ => leaf(op, x, s),
    }
}

/// `item op s` for each item.
pub open spec fn scalar_each(op: BinOp, items: Seq<TokenV>, s: TokenV) -> Option<Seq<OutcomeV>>
    decreases items,
{
    if items.len() == 0 {
        Some(seq![])
    } else {
        push_some(scalar_each(op, items.drop_last(), s), scalar_op(op, items.last(), s))
    }
}

/// `a op b`: `None` where the integer arithmetic in it panics.
pub open spec fn binary(op: BinOp, a: TokenV, b: TokenV) -> Option<OutcomeV>
    decreases a,
{
    match (a, b) {
        (TokenV::Collection(x), TokenV::Collection(y)) => if op == BinOp::Gte || op == BinOp::Gt {
            no_value()
        } else if x.len() != y.len() {
            if op == BinOp::Eq {
                value(TokenV::Bool(false))
            } else {
                value(TokenV::Null)
            }
        } else {
            match pair_each(op, x, y) {
                Some(v) => Some(if op == BinOp::Eq {
                    OutcomeV::AllTrue(v)
                } else {
                    OutcomeV::Pairwise(v)
                }),
                None => None,
            }
        },
        (TokenV::Collection(_), _) => scalar_op(op, a, b),
        (_, TokenV::Collection(_)) => scalar_op(op, b, a),
        _ => leaf(op, a, b),
    }
}

/// `x[i] op y[i]` for each index of `x`.
pub open spec fn pair_each(op: BinOp, x: Seq<TokenV>, y: Seq<TokenV>) -> Option<Seq<OutcomeV>>
    decreases x,
{
    if x.len() == 0 {
        Some(seq![])
    } else {
        push_some(
            pair_each(op, x.drop_last(), y.subrange(0, x.len() - 1)),
            binary(op, x.last(), y[x.len() - 1]),
        )
    }
}

/// The truth test of a value.
pub open spec fn check_spec(t: TokenV) -> OutcomeV
    decreases t,
{
    match t {
        TokenV::Int(x) => OutcomeV::Value(Some(TokenV::Bool(x != 0))),
        TokenV::Float(x) => OutcomeV::Float(FloatTaskV::NonZero(NumV::Float(x))),
        TokenV::Bool(x) => OutcomeV::Value(Some(TokenV::Bool(x))),
        TokenV::Collection(items) => OutcomeV::Each(check_each(items)),
        _ => OutcomeV::Value(None),
    }
}

pub open spec fn check_each(items: Seq<TokenV>) -> Seq<OutcomeV>
    decreases items,
{
    if items.len() == 0 {
        seq![]
    } else {
        check_each(items.drop_last()).push(check_spec(items.last()))
    }
}

/// Whether two values are of the same kind; two collections are when they
/// have as many items and every item of one is of the kind of every item
/// of the other.
pub open spec fn variant_eq(a: TokenV, b: TokenV) -> bool
    decreases a, b,
{
    match (a, b) {
        (TokenV::Int(_), TokenV::Int(_)) => true,
        (TokenV::Float(_), TokenV::Float(_)) => true,
        (TokenV::Str(_), TokenV::Str(_)) => true,
        (TokenV::Char(_), TokenV::Char(_)) => true,
        (TokenV::Bool(_), TokenV::Bool(_)) => true,
        (TokenV::Collection(c1), TokenV::Collection(c2)) => c1.len() == c2.len() && all_pairs_variant(c1, c2),
        _ => false,
    }
}

/// Every item of `c1` is of the kind of every item of `c2`.
pub open spec fn all_pairs_variant(c1: Seq<TokenV>, c2: Seq<TokenV>) -> bool
    decreases c1, c2,
{
    if c1.len() == 0 {
        true
    } else {
        all_pairs_variant(c1.drop_last(), c2) && all_variant_with(c1.last(), c2)
    }
}

/// `x` is of the kind of every item of `c2`.
pub open spec fn all_variant_with(x: TokenV, c2: Seq<TokenV>) -> bool
    decreases x, c2,
{
    if c2.len() == 0 {
        true
    } else {
        all_variant_with(x, c2.drop_last()) && variant_eq(x, c2.last())
    }
}

pub proof fn lemma_all_variant_with(x: TokenV, c2: Seq<TokenV>)
    ensures
        all_variant_with(x, c2) == forall|b: int| 0 <= b < c2.len() ==> #[trigger] variant_eq(x, c2[b]),
    decreases c2.len(),
{
    if c2.len() > 0 {
        lemma_all_variant_with(x, c2.drop_last());
        if all_variant_with(x, c2) {
            assert forall|b: int| 0 <= b < c2.len() implies #[trigger] variant_eq(x, c2[b]) by {
                if b < c2.len() - 1 {
                    assert(c2.drop_last()[b] == c2[b]);
                }
            }
        } else if !all_variant_with(x, c2.drop_last()) {
            let b = choose|b: int| 0 <= b < c2.len() - 1 && !variant_eq(x, c2.drop_last()[b]);
            assert(c2.drop_last()[b] == c2[b]);
        } else {
            assert(!variant_eq(x, c2[c2.len() - 1]));
        }
    }
}

pub proof fn lemma_all_pairs_variant(c1: Seq<TokenV>, c2: Seq<TokenV>)
    ensures
        all_pairs_variant(c1, c2) == forall|a: int, b: int|
            0 <= a < c1.len() && 0 <= b < c2.len() ==> #[trigger] variant_eq(c1[a], c2[b]),
    decreases c1.len(),
{
    if c1.len() > 0 {
        lemma_all_pairs_variant(c1.drop_last(), c2);
        lemma_all_variant_with(c1.last(), c2);
        if all_pairs_variant(c1, c2) {
            assert forall|a: int, b: int|
                0 <= a < c1.len() && 0 <= b < c2.len() implies #[trigger] variant_eq(c1[a], c2[b]) by {
                if a < c1.len() - 1 {
                    assert(c1.drop_last()[a] == c1[a]);
                }
            }
        } else if !all_pairs_variant(c1.drop_last(), c2) {
            let (a, b) = choose|a: int, b: int|
                0 <= a < c1.len() - 1 && 0 <= b < c2.len() && !variant_eq(c1.drop_last()[a], c2[b]);
            assert(c1.drop_last()[a] == c1[a]);
        } else {
            let b = choose|b: int| 0 <= b < c2.len() && !variant_eq(c1.last(), c2[b]);
            assert(c1.last() == c1[c1.len() - 1]);
        }
    }
}

// ---------------------------------------------------------------------------
// Settling an outcome
// ---------------------------------------------------------------------------

/// Whether an outcome has no float computation left in it.
pub open spec fn float_free(o: OutcomeV) -> bool
    decreases o,
{
    match o {
        OutcomeV::Value(_) => true,
        OutcomeV::Float(_) => false,
        OutcomeV::Each(s) => all_float_free(s),
        OutcomeV::Pairwise(s) => all_float_free(s),
        OutcomeV::AllTrue(s) => all_float_free(s),
        OutcomeV::Negate(b) => float_free(*b),
    }
}

pub open spec fn all_float_free(s: Seq<OutcomeV>) -> bool
    decreases s,
{
    if s.len() == 0 {
        true
    } else {
        all_float_free(s.drop_last()) && float_free(s.last())
    }
}

/// The value an outcome stands for.
pub open spec fn settled(o: OutcomeV) -> Option<TokenV>
    decreases o,
{
    match o {
        OutcomeV::Value(v) => v,
        OutcomeV::Float(_) => None,
        OutcomeV::Each(s) => Some(TokenV::Collection(settled_each(s))),
        OutcomeV::Pairwise(s) => Some(TokenV::Collection(settled_kept(s))),
        OutcomeV::AllTrue(s) => Some(TokenV::Bool(settled_all_true(s))),
        OutcomeV::Negate(b) => match settled(*b) {
            Some(TokenV::Bool(v)) => Some(TokenV::Bool(!v)),
            _ => None,
        },
    }
}

/// The items' values, `Null` for a missing one.
pub open spec fn settled_each(s: Seq<OutcomeV>) -> Seq<TokenV>
    decreases s,
{
    if s.len() == 0 {
        seq![]
    } else {
        settled_each(s.drop_last()).push(
            match settled(s.last()) {
                Some(t) => t,
                None => TokenV::Null,
            },
        )
    }
}

/// The items' values, missing ones left out.
pub open spec fn settled_kept(s: Seq<OutcomeV>) -> Seq<TokenV>
    decreases s,
{
    if s.len() == 0 {
        seq![]
    } else {
        match settled(s.last()) {
            Some(t) => settled_kept(s.drop_last()).push(t),
            None => settled_kept(s.drop_last()),
        }
    }
}

/// Whether every item's value is `Bool(true)`.
pub open spec fn settled_all_true(s: Seq<OutcomeV>) -> bool
    decreases s,
{
    if s.len() == 0 {
        true
    } else {
        settled_all_true(s.drop_last()) && settled(s.last()) == Some(TokenV::Bool(true))
    }
}


// ---------------------------------------------------------------------------
// Executable operators
// ---------------------------------------------------------------------------

/// `x.to_string()` for an `i32`.
pub fn int_string(x: i32) -> (r: String)
    ensures
        r@ == int_text(x as int),
{
    if x < 0 {
        let mut r = String::new();
        push_char(&mut r, '-');
        let n: i64 = -(x as i64);
        let d = decimal_string(n as usize);
        r.append(d.as_str());
        proof {
            assert(r@ =~= seq!['-'] + crate::text::decimal((-(x as int)) as nat));
        }
        r
    } else {
        decimal_string(x as usize)
    }
}

/// `b.to_string()`.
pub fn bool_string(b: bool) -> (r: String)
    ensures
        r@ == bool_text(b),
{
    let mut r = String::new();
    if b {
        push_char(&mut r, 't');
        push_char(&mut r, 'r');
        push_char(&mut r, 'u');
        push_char(&mut r, 'e');
    } else {
        push_char(&mut r, 'f');
        push_char(&mut r, 'a');
        push_char(&mut r, 'l');
        push_char(&mut r, 's');
        push_char(&mut r, 'e');
    }
    assert(r@ =~= bool_text(b));
    r
}

/// `c.to_string()`.
pub fn char_string(c: char) -> (r: String)
    ensures
        r@ == seq![c],
{
    let mut r = String::new();
    push_char(&mut r, c);
    assert(r@ =~= seq![c]);
    r
}

fn join(a: &String, b: &String) -> (r: String)
    ensures
        r@ == a@ + b@,
{
    crate::text::concat(a, b)
}

fn b01_of(b: bool) -> (r: i32)
    ensures
        r == b01(b),
{
    if b { 1 } else { 0 }
}

/// The `i32` arithmetic of an operator; `None` where it would panic.
pub fn int_arith_of(op: ArithOp, x: i32, y: i32) -> (r: Option<i32>)
    ensures
        r == int_arith(op, x as int, y as int),
{
    let a = x as i64;
    let b = y as i64;
    match op {
        ArithOp::Add => {
            let v = a + b;
            if v < i32::MIN as i64 || v > i32::MAX as i64 { None } else { Some(v as i32) }
        },
        ArithOp::Subtract => {
            let v = a - b;
            if v < i32::MIN as i64 || v > i32::MAX as i64 { None } else { Some(v as i32) }
        },
        ArithOp::Multiply => {
            assert(-2147483648 * 2147483648 <= a * b <= 2147483648 * 2147483648) by (nonlinear_arith)
                requires -2147483648 <= a <= 2147483647, -2147483648 <= b <= 2147483647;
            let v = a * b;
            if v < i32::MIN as i64 || v > i32::MAX as i64 { None } else { Some(v as i32) }
        },
        ArithOp::Divide | ArithOp::Modulos => {
            if y == 0 || (x == i32::MIN && y == -1) {
                None
            } else {
                let ua: i64 = if a < 0 { -a } else { a };
                let ub: i64 = if b < 0 { -b } else { b };
                let q: i64 = ua / ub;
                let m: i64 = ua % ub;
                assert(0 <= q <= ua && (ub >= 2 ==> q < 2147483648) && 0 <= m < ub) by (nonlinear_arith)
                    requires ua >= 0, ua <= 2147483648, ub >= 1, q == ua / ub, m == ua % ub;
                if op == ArithOp::Divide {
                    let v: i64 = if (x < 0) != (y < 0) { -q } else { q };
                    Some(v as i32)
                } else {
                    let v: i64 = if x < 0 { -m } else { m };
                    Some(v as i32)
                }
            }
        },
    }
}

fn val(t: Token) -> (r: Option<Outcome>)
    ensures
        opt_outcome_view(r) == value(t@),
{
    Some(Outcome::Value(Some(t)))
}

fn none_val() -> (r: Option<Outcome>)
    ensures
        opt_outcome_view(r) == no_value(),
{
    Some(Outcome::Value(None))
}

fn fl(t: FloatTask) -> (r: Option<Outcome>)
    ensures
        opt_outcome_view(r) == float_task(task_view(t)),
{
    Some(Outcome::Float(t))
}

fn int_val(op: ArithOp, x: i32, y: i32) -> (r: Option<Outcome>)
    ensures
        opt_outcome_view(r) == int_value(op, x as int, y as int),
{
    match int_arith_of(op, x, y) {
        Some(v) => val(Token::Int(v)),
        None => None,
    }
}

fn nf(s: &String) -> (r: Num)
    ensures
        num_view(r) == NumV::Float(s@),
{
    Num::Float(s.clone())
}

fn add_leaf_of(a: &Token, b: &Token) -> (r: Option<Outcome>)
    ensures
        opt_outcome_view(r) == add_leaf(a@, b@),
{
    let op = ArithOp::Add;
    match (a, b) {
        (Token::Int(x), Token::Int(y)) => int_val(op, *x, *y),
        (Token::Float(x), Token::Float(y)) => fl(FloatTask::Arith(op, nf(x), nf(y))),
        (Token::Bool(x), Token::Bool(y)) => int_val(op, b01_of(*x), b01_of(*y)),
        (Token::Char(x), Token::Char(y)) => {
            let mut s = char_string(*x);
            push_char(&mut s, *y);
            assert(s@ =~= seq![*x, *y]);
            val(Token::String(s))
        },
        (Token::String(x), Token::String(y)) => val(Token::String(join(x, y))),
        (Token::Int(x), Token::Float(y)) | (Token::Float(y), Token::Int(x)) => fl(
            FloatTask::Arith(op, Num::Int(*x), nf(y)),
        ),
        (Token::Int(x), Token::Bool(y)) | (Token::Bool(y), Token::Int(x)) => int_val(op, *x, b01_of(*y)),
        (Token::Float(x), Token::Bool(y)) | (Token::Bool(y), Token::Float(x)) => fl(
            FloatTask::Arith(op, nf(x), Num::Bool(*y)),
        ),
        (Token::String(x), Token::Int(y)) | (Token::Int(y), Token::String(x)) => val(
            Token::String(join(x, &int_string(*y))),
        ),
        (Token::String(x), Token::Float(y)) | (Token::Float(y), Token::String(x)) => fl(
            FloatTask::Concat(x.clone(), nf(y)),
        ),
        (Token::String(x), Token::Bool(y)) | (Token::Bool(y), Token::String(x)) => val(
            Token::String(join(x, &bool_string(*y))),
        ),
        (Token::String(x), Token::Char(y)) | (Token::Char(y), Token::String(x)) => {
            let mut s = x.clone();
            push_char(&mut s, *y);
            val(Token::String(s))
        },
        (Token::Char(x), Token::Int(y)) | (Token::Int(y), Token::Char(x)) => val(
            Token::String(join(&char_string(*x), &int_string(*y))),
        ),
        (Token::Char(x), Token::Float(y)) | (Token::Float(y), Token::Char(x)) => fl(
            FloatTask::Concat(char_string(*x), nf(y)),
        ),
        (Token::Char(x), Token::Bool(y)) | (Token::Bool(y), Token::Char(x)) => val(
            Token::String(join(&char_string(*x), &bool_string(*y))),
        ),
        _ => none_val(),
    }
}

fn mul_leaf_of(a: &Token, b: &Token) -> (r: Option<Outcome>)
    ensures
        opt_outcome_view(r) == mul_leaf(a@, b@),
{
    let op = ArithOp::Multiply;
    match (a, b) {
        (Token::Int(x), Token::Int(y)) => int_val(op, *x, *y),
        (Token::Float(x), Token::Float(y)) => fl(FloatTask::Arith(op, nf(x), nf(y))),
        (Token::Bool(x), Token::Bool(y)) => int_val(op, b01_of(*x), b01_of(*y)),
        (Token::Int(x), Token::Float(y)) | (Token::Float(y), Token::Int(x)) => fl(
            FloatTask::Arith(op, Num::Int(*x), nf(y)),
        ),
        (Token::Int(x), Token::Bool(y)) | (Token::Bool(y), Token::Int(x)) => int_val(op, *x, b01_of(*y)),
        (Token::Float(x), Token::Bool(y)) | (Token::Bool(y), Token::Float(x)) => fl(
            FloatTask::Arith(op, nf(x), Num::Bool(*y)),
        ),
        _ => none_val(),
    }
}

fn ordered_leaf_of(op: ArithOp, a: &Token, b: &Token) -> (r: Option<Outcome>)
    ensures
        opt_outcome_view(r) == ordered_leaf(op, a@, b@),
{
    match (a, b) {
        (Token::Int(x), Token::Int(y)) => int_val(op, *x, *y),
        (Token::Float(x), Token::Float(y)) => fl(FloatTask::Arith(op, nf(x), nf(y))),
        (Token::Bool(x), Token::Bool(y)) => int_val(op, b01_of(*x), b01_of(*y)),
        (Token::Int(x), Token::Float(y)) => fl(FloatTask::Arith(op, Num::Int(*x), nf(y))),
        (Token::Float(x), Token::Int(y)) => fl(FloatTask::Arith(op, nf(x), Num::Int(*y))),
        (Token::Int(x), Token::Bool(y)) => int_val(op, *x, b01_of(*y)),
        (Token::Bool(x), Token::Int(y)) => int_val(op, b01_of(*x), *y),
        (Token::Float(x), Token::Bool(y)) => fl(FloatTask::Arith(op, nf(x), Num::Bool(*y))),
        (Token::Bool(x), Token::Float(y)) => fl(FloatTask::Arith(op, Num::Bool(*x), nf(y))),
        _ => none_val(),
    }
}

fn logic_leaf_of(and: bool, a: &Token, b: &Token) -> (r: Option<Outcome>)
    ensures
        opt_outcome_view(r) == logic_leaf(and, a@, b@),
{
    match (a, b) {
        (Token::Int(x), Token::Int(y)) => val(
            Token::Bool(if and { *x != 0 && *y != 0 } else { *x != 0 || *y != 0 }),
        ),
        (Token::Float(x), Token::Float(y)) => fl(FloatTask::Logic(and, nf(x), nf(y))),
        (Token::Bool(x), Token::Bool(y)) => val(Token::Bool(if and { *x && *y } else { *x || *y })),
        (Token::Int(x), Token::Float(y)) | (Token::Float(y), Token::Int(x)) => fl(
            if and {
                FloatTask::Logic(and, Num::Int(*x), nf(y))
            } else {
                FloatTask::Logic(and, nf(y), Num::Int(*x))
            },
        ),
        (Token::Int(x), Token::Bool(y)) | (Token::Bool(y), Token::Int(x)) => val(
            Token::Bool(if and { *x != 0 && *y } else { *y || *x != 0 }),
        ),
        (Token::Float(x), Token::Bool(y)) | (Token::Bool(y), Token::Float(x)) => fl(
            if and {
                FloatTask::Logic(and, nf(x), Num::Bool(*y))
            } else {
                FloatTask::Logic(and, Num::Bool(*y), nf(x))
            },
        ),
        _ => none_val(),
    }
}

fn eq_leaf_of(a: &Token, b: &Token) -> (r: Option<Outcome>)
    ensures
        opt_outcome_view(r) == eq_leaf(a@, b@),
{
    match (a, b) {
        (Token::Int(x), Token::Int(y)) => val(Token::Bool(*x == *y)),
        (Token::Float(x), Token::Float(y)) => fl(FloatTask::Compare(CmpOp::Eq, nf(x), nf(y))),
        (Token::Bool(x), Token::Bool(y)) => val(Token::Bool(*x == *y)),
        (Token::String(x), Token::String(y)) => val(Token::Bool(str_is(x.as_str(), y.as_str()))),
        (Token::Char(x), Token::Char(y)) => val(Token::Bool(*x == *y)),
        (Token::Int(x), Token::Float(y)) | (Token::Float(y), Token::Int(x)) => fl(
            FloatTask::Compare(CmpOp::Eq, Num::Int(*x), nf(y)),
        ),
        (Token::Int(x), Token::Char(y)) | (Token::Char(y), Token::Int(x)) => {
            let s = int_string(*x);
            let c = char_string(*y);
            val(Token::Bool(str_is(s.as_str(), c.as_str())))
        },
        (Token::Int(x), Token::Bool(y)) | (Token::Bool(y), Token::Int(x)) => val(
            Token::Bool((*x != 0) == *y),
        ),
        (Token::Float(x), Token::Bool(y)) | (Token::Bool(y), Token::Float(x)) => fl(
            FloatTask::NonZeroIs(nf(x), *y),
        ),
        (Token::String(x), Token::Char(y)) | (Token::Char(y), Token::String(x)) => {
            let c = char_string(*y);
            val(Token::Bool(str_is(x.as_str(), c.as_str())))
        },
        (Token::String(x), Token::Int(y)) | (Token::Int(y), Token::String(x)) => {
            let s = int_string(*y);
            val(Token::Bool(str_is(x.as_str(), s.as_str())))
        },
        (Token::String(x), Token::Float(y)) | (Token::Float(y), Token::String(x)) => fl(
            FloatTask::TextIs(x.clone(), nf(y)),
        ),
        (Token::String(x), Token::Bool(y)) | (Token::Bool(y), Token::String(x)) => {
            let s = bool_string(*y);
            val(Token::Bool(str_is(x.as_str(), s.as_str())))
        },
        _ => none_val(),
    }
}

fn order_leaf_of(strict: bool, a: &Token, b: &Token) -> (r: Option<Outcome>)
    ensures
        opt_outcome_view(r) == order_leaf(strict, a@, b@),
{
    let op = if strict { CmpOp::Gt } else { CmpOp::Gte };
    match (a, b) {
        (Token::Int(x), Token::Int(y)) => val(Token::Bool(if strict { *x > *y } else { *x >= *y })),
        (Token::Float(x), Token::Float(y)) => fl(FloatTask::Compare(op, nf(x), nf(y))),
        (Token::Int(x), Token::Float(y)) | (Token::Float(y), Token::Int(x)) => fl(
            FloatTask::Compare(op, Num::Int(*x), nf(y)),
        ),
        _ => none_val(),
    }
}

fn leaf_of(op: BinOp, a: &Token, b: &Token) -> (r: Option<Outcome>)
    ensures
        opt_outcome_view(r) == leaf(op, a@, b@),
{
    match op {
        BinOp::Add => add_leaf_of(a, b),
        BinOp::Subtract => ordered_leaf_of(ArithOp::Subtract, a, b),
        BinOp::Multiply => mul_leaf_of(a, b),
        BinOp::Divide => ordered_leaf_of(ArithOp::Divide, a, b),
        BinOp::Modulos => ordered_leaf_of(ArithOp::Modulos, a, b),
        BinOp::And => logic_leaf_of(true, a, b),
        BinOp::Or => logic_leaf_of(false, a, b),
        BinOp::Eq => eq_leaf_of(a, b),
        BinOp::Gte => order_leaf_of(false, a, b),
        BinOp::Gt => order_leaf_of(true, a, b),
    }
}


fn with_collection_of(op: BinOp, s: &Token) -> (r: bool)
    ensures
        r == with_collection(op, s@),
{
    match s {
        Token::Int(_) => true,
        Token::Float(_) => true,
        Token::Bool(_) => op == BinOp::Add || op == BinOp::And || op == BinOp::Or || op == BinOp::Eq,
        Token::String(_) => op == BinOp::Add || op == BinOp::Eq,
        Token::Char(_) => op == BinOp::Eq,
        _ => false,
    }
}

fn wrap_of(op: BinOp, items: Vec<Outcome>) -> (r: Outcome)
    ensures
        r@ == wrap(op, outcomes_view(items@)),
{
    if op == BinOp::Eq || op == BinOp::Gte || op == BinOp::Gt {
        Outcome::AllTrue(items)
    } else {
        Outcome::Each(items)
    }
}

/// `x op s` where `s` is not a collection.
fn scalar_op_of(op: BinOp, x: &Token, s: &Token) -> (r: Option<Outcome>)
    ensures
        opt_outcome_view(r) == scalar_op(op, x@, s@),
    decreases x,
{
    match x {
        Token::Collection(items) => {
            if with_collection_of(op, s) {
                match scalar_each_of(op, items, s) {
                    Some(v) => Some(wrap_of(op, v)),
                    None => None,
                }
            } else {
                none_val()
            }
        },
        _ => leaf_of(op, x, s),
    }
}

fn scalar_each_of(op: BinOp, items: &Vec<Token>, s: &Token) -> (r: Option<Vec<Outcome>>)
    ensures
        match r {
            Some(v) => scalar_each(op, tokens_view(items@), s@) == Some(outcomes_view(v@)),
            None => scalar_each(op, tokens_view(items@), s@) is None,
        },
    decreases items@,
{
    let ghost tv = tokens_view(items@);
    proof {
        lemma_tokens_view_index(items@);
        assert(tv.subrange(0, 0) =~= seq![]);
        assert(outcomes_view(Seq::<Outcome>::empty()) =~= seq![]);
    }
    let mut out: Vec<Outcome> = Vec::new();
    let mut ok = true;
    let mut i: usize = 0;
    while i < items.len()
        invariant
            i <= items.len(),
            tv == tokens_view(items@),
            tv.len() == items.len(),
            forall|k: int| 0 <= k < items.len() ==> tv[k] == token_view(#[trigger] items@[k]),
            ok ==> scalar_each(op, tv.subrange(0, i as int), s@) == Some(outcomes_view(out@)),
            !ok ==> scalar_each(op, tv.subrange(0, i as int), s@) is None,
        decreases items.len() - i,
    {
        assert(decreases_to!(items@ => items@[i as int]));
        let o = scalar_op_of(op, &items[i], s);
        proof {
            let pre = tv.subrange(0, i + 1);
            assert(pre.drop_last() =~= tv.subrange(0, i as int));
            assert(pre.last() == tv[i as int]);
        }
        match o {
            Some(o) => {
                if ok {
                    proof {
                        lemma_outcomes_view_push(out@, o);
                    }
                    out.push(o);
                }
            },
            None => {
                ok = false;
            },
        }
        i = i + 1;
    }
    assert(tv.subrange(0, items.len() as int) =~= tv);
    if ok {
        Some(out)
    } else {
        None
    }
}

/// `a op b`; `None` where the integer arithmetic in it panics.
pub fn try_binary(op: BinOp, a: &Token, b: &Token) -> (r: Option<Outcome>)
    ensures
        opt_outcome_view(r) == binary(op, a@, b@),
    decreases a,
{
    match (a, b) {
        (Token::Collection(x), Token::Collection(y)) => {
            proof {
                lemma_tokens_view_index(x@);
                lemma_tokens_view_index(y@);
            }
            if op == BinOp::Gte || op == BinOp::Gt {
                return none_val();
            }
            if x.len() != y.len() {
                if op == BinOp::Eq {
                    return val(Token::Bool(false));
                } else {
                    return val(Token::Null);
                }
            }
            let ghost xv = tokens_view(x@);
            let ghost yv = tokens_view(y@);
            proof {
                assert(xv.subrange(0, 0) =~= seq![]);
                assert(outcomes_view(Seq::<Outcome>::empty()) =~= seq![]);
            }
            let mut out: Vec<Outcome> = Vec::new();
            let mut ok = true;
            let mut i: usize = 0;
            while i < x.len()
                invariant
                    i <= x.len(),
                    x.len() == y.len(),
                    *a == Token::Collection(*x),
                    xv == tokens_view(x@),
                    yv == tokens_view(y@),
                    xv.len() == x.len(),
                    yv.len() == y.len(),
                    forall|k: int| 0 <= k < x.len() ==> xv[k] == token_view(#[trigger] x@[k]),
                    forall|k: int| 0 <= k < y.len() ==> yv[k] == token_view(#[trigger] y@[k]),
                    ok ==> pair_each(op, xv.subrange(0, i as int), yv.subrange(0, i as int)) == Some(
                        outcomes_view(out@),
                    ),
                    !ok ==> pair_each(op, xv.subrange(0, i as int), yv.subrange(0, i as int)) is None,
                decreases x.len() - i,
            {
                assert(decreases_to!(*a => x@[i as int])) by {
                    assert((*a)->Collection_0 == *x);
                    assert(decreases_to!(*a => (*a)->Collection_0));
                    assert(decreases_to!(*x => x@));
                    assert(decreases_to!(x@ => x@[i as int]));
                }
                let o = try_binary(op, &x[i], &y[i]);
                proof {
                    let px = xv.subrange(0, i + 1);
                    let py = yv.subrange(0, i + 1);
                    assert(px.drop_last() =~= xv.subrange(0, i as int));
                    assert(py.subrange(0, i as int) =~= yv.subrange(0, i as int));
                    assert(px.last() == xv[i as int]);
                    assert(py[i as int] == yv[i as int]);
                }
                match o {
                    Some(o) => {
                        if ok {
                            proof {
                                lemma_outcomes_view_push(out@, o);
                            }
                            out.push(o);
                        }
                    },
                    None => {
                        ok = false;
                    },
                }
                i = i + 1;
            }
            assert(xv.subrange(0, x.len() as int) =~= xv);
            assert(yv.subrange(0, y.len() as int) =~= yv);
            if !ok {
                None
            } else if op == BinOp::Eq {
                Some(Outcome::AllTrue(out))
            } else {
                Some(Outcome::Pairwise(out))
            }
        },
        (Token::Collection(_), _) => scalar_op_of(op, a, b),
        (_, Token::Collection(_)) => scalar_op_of(op, b, a),
        _ => leaf_of(op, a, b),
    }
}


fn check_of(t: &Token) -> (r: Outcome)
    ensures
        r@ == check_spec(t@),
    decreases t,
{
    match t {
        Token::Int(x) => Outcome::Value(Some(Token::Bool(*x != 0))),
        Token::Float(x) => Outcome::Float(FloatTask::NonZero(nf(x))),
        Token::Bool(x) => Outcome::Value(Some(Token::Bool(*x))),
        Token::Collection(items) => {
            let ghost tv = tokens_view(items@);
            proof {
                lemma_tokens_view_index(items@);
                assert(tv.subrange(0, 0) =~= seq![]);
                assert(outcomes_view(Seq::<Outcome>::empty()) =~= seq![]);
            }
            let mut out: Vec<Outcome> = Vec::new();
            let mut i: usize = 0;
            while i < items.len()
                invariant
                    i <= items.len(),
                    *t == Token::Collection(*items),
                    tv == tokens_view(items@),
                    tv.len() == items.len(),
                    forall|k: int| 0 <= k < items.len() ==> tv[k] == token_view(#[trigger] items@[k]),
                    outcomes_view(out@) == check_each(tv.subrange(0, i as int)),
                decreases items.len() - i,
            {
                assert(decreases_to!(*t => items@[i as int])) by {
                    assert((*t)->Collection_0 == *items);
                    assert(decreases_to!(*t => (*t)->Collection_0));
                    assert(decreases_to!(*items => items@));
                    assert(decreases_to!(items@ => items@[i as int]));
                }
                let o = check_of(&items[i]);
                proof {
                    let pre = tv.subrange(0, i + 1);
                    assert(pre.drop_last() =~= tv.subrange(0, i as int));
                    assert(pre.last() == tv[i as int]);
                    lemma_outcomes_view_push(out@, o);
                }
                out.push(o);
                i = i + 1;
            }
            assert(tv.subrange(0, items.len() as int) =~= tv);
            Outcome::Each(out)
        },
        _ => Outcome::Value(None),
    }
}

pub proof fn lemma_all_float_free(s: Seq<OutcomeV>)
    requires
        all_float_free(s),
    ensures
        forall|k: int| 0 <= k < s.len() ==> float_free(#[trigger] s[k]),
    decreases s.len(),
{
    if s.len() > 0 {
        lemma_all_float_free(s.drop_last());
        assert forall|k: int| 0 <= k < s.len() implies float_free(#[trigger] s[k]) by {
            if k < s.len() - 1 {
                assert(s.drop_last()[k] == s[k]);
            }
        }
    }
}

/// The value a float-free outcome stands for.
pub fn settle(o: &Outcome) -> (r: Option<Token>)
    requires
        float_free(o@),
    ensures
        opt_token_view(r) == settled(o@),
    decreases o,
{
    match o {
        Outcome::Value(v) => match v {
            Some(t) => Some(t.duplicate()),
            None => None,
        },
        Outcome::Float(_) => None,
        Outcome::Negate(b) => {
            assert(decreases_to!(*o => **b));
            match settle(b) {
                Some(Token::Bool(v)) => Some(Token::Bool(!v)),
                _ => None,
            }
        },
        Outcome::Each(items) | Outcome::Pairwise(items) | Outcome::AllTrue(items) => {
            let ghost ov = outcomes_view(items@);
            proof {
                lemma_outcomes_view_index(items@);
                lemma_all_float_free(ov);
                lemma_tokens_view_index(Seq::<Token>::empty());
                assert(ov.subrange(0, 0) =~= seq![]);
            }
            let is_each = match o {
                Outcome::Each(_) => true,
                _ => false,
            };
            let mut out: Vec<Token> = Vec::new();
            let mut all = true;
            let mut i: usize = 0;
            while i < items.len()
                invariant
                    i <= items.len(),
                    ov == outcomes_view(items@),
                    ov.len() == items.len(),
                    forall|k: int| 0 <= k < items.len() ==> ov[k] == outcome_view(#[trigger] items@[k]),
                    forall|k: int| 0 <= k < ov.len() ==> float_free(#[trigger] ov[k]),
                    o@ is Each ==> tokens_view(out@) == settled_each(ov.subrange(0, i as int)),
                    o@ is Pairwise ==> tokens_view(out@) == settled_kept(ov.subrange(0, i as int)),
                    all == settled_all_true(ov.subrange(0, i as int)),
                    is_each == (o@ is Each),
                    *o == Outcome::Each(*items) || *o == Outcome::Pairwise(*items) || *o == Outcome::AllTrue(*items),
                decreases items.len() - i,
            {
                assert(decreases_to!(*o => items@[i as int])) by {
                    if *o == Outcome::Each(*items) {
                        assert(decreases_to!(*o => (*o)->Each_0));
                    } else if *o == Outcome::Pairwise(*items) {
                        assert(decreases_to!(*o => (*o)->Pairwise_0));
                    } else {
                        assert(decreases_to!(*o => (*o)->AllTrue_0));
                    }
                    assert(decreases_to!(*items => items@));
                    assert(decreases_to!(items@ => items@[i as int]));
                }
                assert(float_free(ov[i as int]));
                let t = settle(&items[i]);
                proof {
                    let pre = ov.subrange(0, i + 1);
                    assert(pre.drop_last() =~= ov.subrange(0, i as int));
                    assert(pre.last() == ov[i as int]);
                }
                match &t {
                    Some(Token::Bool(true)) => {},
                    _ => {
                        all = false;
                    },
                }
                match t {
                    Some(t) => {
                        proof {
                            lemma_tokens_view_push(out@, t);
                        }
                        out.push(t);
                    },
                    None => {
                        if is_each {
                            proof {
                                lemma_tokens_view_push(out@, Token::Null);
                            }
                            out.push(Token::Null);
                        }
                    },
                }
                i = i + 1;
            }
            assert(ov.subrange(0, items.len() as int) =~= ov);
            match o {
                Outcome::AllTrue(_) => Some(Token::Bool(all)),
                _ => Some(Token::Collection(out)),
            }
        },
    }
}

/// When two collections are of the same kind.
pub proof fn lemma_variant_collections(v1: Seq<TokenV>, v2: Seq<TokenV>)
    ensures
        variant_eq(TokenV::Collection(v1), TokenV::Collection(v2)) == (v1.len() == v2.len() && forall|
            a: int,
            b: int,
        | 0 <= a < v1.len() && 0 <= b < v2.len() ==> #[trigger] variant_eq(v1[a], v2[b])),
{
    lemma_all_pairs_variant(v1, v2);
}

impl Token {
    /// Whether two values are of the same kind; two collections are when
    /// they have as many items and every item of one is of the kind of
    /// every item of the other.
    pub fn variant_equal(&self, other: &Token) -> (r: bool)
        ensures
            r == variant_eq(self@, other@),
        decreases self,
    {
        match (self, other) {
            (Token::Int(_), Token::Int(_)) => true,
            (Token::Float(_), Token::Float(_)) => true,
            (Token::String(_), Token::String(_)) => true,
            (Token::Char(_), Token::Char(_)) => true,
            (Token::Bool(_), Token::Bool(_)) => true,
            (Token::Collection(c1), Token::Collection(c2)) => {
                let ghost v1 = tokens_view(c1@);
                let ghost v2 = tokens_view(c2@);
                proof {
                    lemma_tokens_view_index(c1@);
                    lemma_tokens_view_index(c2@);
                }
                if c1.len() != c2.len() {
                    assert(self@ == TokenV::Collection(v1));
                    assert(other@ == TokenV::Collection(v2));
                    return false;
                }
                let mut all_equal = true;
                let mut i: usize = 0;
                while i < c1.len()
                    invariant
                        i <= c1.len(),
                        c1.len() == c2.len(),
                        *self == Token::Collection(*c1),
                        v1 == tokens_view(c1@),
                        v2 == tokens_view(c2@),
                        v1.len() == c1.len(),
                        v2.len() == c2.len(),
                        forall|k: int| 0 <= k < c1.len() ==> v1[k] == token_view(#[trigger] c1@[k]),
                        forall|k: int| 0 <= k < c2.len() ==> v2[k] == token_view(#[trigger] c2@[k]),
                        all_equal == (forall|a: int, b: int|
                            0 <= a < i && 0 <= b < v2.len() ==> #[trigger] variant_eq(v1[a], v2[b])),
                    decreases c1.len() - i,
                {
                    let mut j: usize = 0;
                    let ghost before = all_equal;
                    while j < c2.len()
                        invariant
                            i < c1.len(),
                            j <= c2.len(),
                            *self == Token::Collection(*c1),
                            v1 == tokens_view(c1@),
                            v2 == tokens_view(c2@),
                            v1.len() == c1.len(),
                            v2.len() == c2.len(),
                            forall|k: int| 0 <= k < c1.len() ==> v1[k] == token_view(#[trigger] c1@[k]),
                            forall|k: int| 0 <= k < c2.len() ==> v2[k] == token_view(#[trigger] c2@[k]),
                            before == (forall|a: int, b: int|
                                0 <= a < i && 0 <= b < v2.len() ==> #[trigger] variant_eq(v1[a], v2[b])),
                            all_equal == (before && forall|b: int|
                                0 <= b < j ==> #[trigger] variant_eq(v1[i as int], v2[b])),
                        decreases c2.len() - j,
                    {
                        assert(decreases_to!(*self => c1@[i as int])) by {
                            assert((*self)->Collection_0 == *c1);
                            assert(decreases_to!(*self => (*self)->Collection_0));
                            assert(decreases_to!(*c1 => c1@));
                            assert(decreases_to!(c1@ => c1@[i as int]));
                        }
                        if !c1[i].variant_equal(&c2[j]) {
                            all_equal = false;
                        }
                        j = j + 1;
                    }
                    proof {
                        assert(all_equal == (forall|a: int, b: int|
                            0 <= a < i + 1 && 0 <= b < v2.len() ==> #[trigger] variant_eq(v1[a], v2[b]))) by {
                            if all_equal {
                                assert forall|a: int, b: int|
                                    0 <= a < i + 1 && 0 <= b < v2.len() implies #[trigger] variant_eq(v1[a], v2[b]) by {
                                    if a < i {
                                    } else {
                                        assert(a == i);
                                    }
                                }
                            } else if !before {
                            } else {
                                let b = choose|b: int| 0 <= b < v2.len() && !variant_eq(v1[i as int], v2[b]);
                                assert(!variant_eq(v1[i as int], v2[b]));
                            }
                        }
                    }
                    i = i + 1;
                }
                assert(self@ == TokenV::Collection(v1));
                assert(other@ == TokenV::Collection(v2));
                proof {
                    lemma_variant_collections(v1, v2);
                    if !all_equal {
                        let (a, b) = choose|a: int, b: int|
                            0 <= a < i && 0 <= b < v2.len() && !variant_eq(v1[a], v2[b]);
                        assert(!variant_eq(v1[a], v2[b]));
                    }
                }
                all_equal
            },
            _ => false,
        }
    }
}


/// The operators with no integer arithmetic in them.
pub open spec fn never_panics(op: BinOp) -> bool {
    op == BinOp::And || op == BinOp::Or || op == BinOp::Eq || op == BinOp::Gte || op == BinOp::Gt
}

pub proof fn lemma_scalar_op_total(op: BinOp, x: TokenV, s: TokenV)
    requires
        never_panics(op),
    ensures
        scalar_op(op, x, s) is Some,
    decreases x,
{
    if let TokenV::Collection(items) = x {
        lemma_scalar_each_total(op, items, s);
    }
}

pub proof fn lemma_scalar_each_total(op: BinOp, items: Seq<TokenV>, s: TokenV)
    requires
        never_panics(op),
    ensures
        scalar_each(op, items, s) is Some,
    decreases items,
{
    if items.len() > 0 {
        lemma_scalar_each_total(op, items.drop_last(), s);
        lemma_scalar_op_total(op, items.last(), s);
    }
}

/// Comparisons and the logical operators give an outcome for every pair of values.
pub proof fn lemma_binary_total(op: BinOp, a: TokenV, b: TokenV)
    requires
        never_panics(op),
    ensures
        binary(op, a, b) is Some,
    decreases a,
{
    match (a, b) {
        (TokenV::Collection(x), TokenV::Collection(y)) => {
            if x.len() == y.len() {
                lemma_pair_each_total(op, x, y);
            }
        },
        (TokenV::Collection(_), _) => lemma_scalar_op_total(op, a, b),
        (_, TokenV::Collection(_)) => lemma_scalar_op_total(op, b, a),
        _ => {},
    }
}

pub proof fn lemma_pair_each_total(op: BinOp, x: Seq<TokenV>, y: Seq<TokenV>)
    requires
        never_panics(op),
    ensures
        pair_each(op, x, y) is Some,
    decreases x,
{
    if x.len() > 0 {
        lemma_pair_each_total(op, x.drop_last(), y.subrange(0, x.len() - 1));
        lemma_binary_total(op, x.last(), y[x.len() - 1]);
    }
}

/// The operator a symbol stands for, and whether its result is negated
/// (`!=`, `<` and `<=` are the negations of `==`, `>=` and `>`).
pub open spec fn operator_spec(s: Seq<char>) -> Option<(BinOp, bool)> {
    if s == "+"@ {
        Some((BinOp::Add, false))
    } else if s == "-"@ {
        Some((BinOp::Subtract, false))
    } else if s == "*"@ {
        Some((BinOp::Multiply, false))
    } else if s == "/"@ {
        Some((BinOp::Divide, false))
    } else if s == "%"@ {
        Some((BinOp::Modulos, false))
    } else if s == "||"@ {
        Some((BinOp::Or, false))
    } else if s == "&&"@ {
        Some((BinOp::And, false))
    } else if s == ">="@ {
        Some((BinOp::Gte, false))
    } else if s == ">"@ {
        Some((BinOp::Gt, false))
    } else if s == "<="@ {
        Some((BinOp::Gt, true))
    } else if s == "<"@ {
        Some((BinOp::Gte, true))
    } else if s == "=="@ {
        Some((BinOp::Eq, false))
    } else if s == "!="@ {
        Some((BinOp::Eq, true))
    } else {
        None
    }
}

/// Whether applying the operator panics nowhere (an unknown symbol applies nothing).
pub open spec fn operation_defined(a: TokenV, b: TokenV, s: Seq<char>) -> bool {
    match operator_spec(s) {
        Some((op, _)) => binary(op, a, b) is Some,
        None => true,
    }
}

/// What applying the operator written `s` to `a` and `b` gives.
pub open spec fn operation_by_type(a: TokenV, b: TokenV, s: Seq<char>) -> Option<OutcomeV> {
    match operator_spec(s) {
        Some((op, negate)) => {
            let o = binary(op, a, b).unwrap();
            Some(if negate { OutcomeV::Negate(Box::new(o)) } else { o })
        },
        None => None,
    }
}

/// The operator a symbol stands for.
pub fn operator_of(s: &str) -> (r: Option<(BinOp, bool)>)
    ensures
        r == operator_spec(s@),
{
    if str_is(s, "+") {
        Some((BinOp::Add, false))
    } else if str_is(s, "-") {
        Some((BinOp::Subtract, false))
    } else if str_is(s, "*") {
        Some((BinOp::Multiply, false))
    } else if str_is(s, "/") {
        Some((BinOp::Divide, false))
    } else if str_is(s, "%") {
        Some((BinOp::Modulos, false))
    } else if str_is(s, "||") {
        Some((BinOp::Or, false))
    } else if str_is(s, "&&") {
        Some((BinOp::And, false))
    } else if str_is(s, ">=") {
        Some((BinOp::Gte, false))
    } else if str_is(s, ">") {
        Some((BinOp::Gt, false))
    } else if str_is(s, "<=") {
        Some((BinOp::Gt, true))
    } else if str_is(s, "<") {
        Some((BinOp::Gte, true))
    } else if str_is(s, "==") {
        Some((BinOp::Eq, false))
    } else if str_is(s, "!=") {
        Some((BinOp::Eq, true))
    } else {
        None
    }
}

/// Whether applying the operator written `operation` panics nowhere.
pub fn operation_defined_of(a: &Token, b: &Token, operation: &str) -> (r: bool)
    ensures
        r == operation_defined(a@, b@, operation@),
{
    match operator_of(operation) {
        Some((op, _)) => try_binary(op, a, b).is_some(),
        None => true,
    }
}

/// Applies the operator written `operation`; `None` for a symbol that is no operator.
pub fn run_operation_by_type(a: &Token, b: &Token, operation: &str) -> (r: Option<Outcome>)
    requires
        operation_defined(a@, b@, operation@),
    ensures
        opt_outcome_view(r) == operation_by_type(a@, b@, operation@),
{
    match operator_of(operation) {
        Some((op, negate)) => {
            let o = try_binary(op, a, b).unwrap();
            if negate {
                Some(Outcome::Negate(Box::new(o)))
            } else {
                Some(o)
            }
        },
        None => None,
    }
}

impl Token {
    /// `self + other`.
    pub fn add(&self, other: &Token) -> (r: Outcome)
        requires
            binary(BinOp::Add, self@, other@) is Some,
        ensures
            r@ == binary(BinOp::Add, self@, other@).unwrap(),
    {
        try_binary(BinOp::Add, self, other).unwrap()
    }

    /// `self - other`.
    pub fn subtract(&self, other: &Token) -> (r: Outcome)
        requires
            binary(BinOp::Subtract, self@, other@) is Some,
        ensures
            r@ == binary(BinOp::Subtract, self@, other@).unwrap(),
    {
        try_binary(BinOp::Subtract, self, other).unwrap()
    }

    /// `self * other`.
    pub fn multiply(&self, other: &Token) -> (r: Outcome)
        requires
            binary(BinOp::Multiply, self@, other@) is Some,
        ensures
            r@ == binary(BinOp::Multiply, self@, other@).unwrap(),
    {
        try_binary(BinOp::Multiply, self, other).unwrap()
    }

    /// `self / other`.
    pub fn divide(&self, other: &Token) -> (r: Outcome)
        requires
            binary(BinOp::Divide, self@, other@) is Some,
        ensures
            r@ == binary(BinOp::Divide, self@, other@).unwrap(),
    {
        try_binary(BinOp::Divide, self, other).unwrap()
    }

    /// `self % other`.
    pub fn modulos(&self, other: &Token) -> (r: Outcome)
        requires
            binary(BinOp::Modulos, self@, other@) is Some,
        ensures
            r@ == binary(BinOp::Modulos, self@, other@).unwrap(),
    {
        try_binary(BinOp::Modulos, self, other).unwrap()
    }

    /// `self && other`.
    pub fn and(&self, other: &Token) -> (r: Outcome)
        ensures
            r@ == binary(BinOp::And, self@, other@).unwrap(),
    {
        proof {
            lemma_binary_total(BinOp::And, self@, other@);
        }
        try_binary(BinOp::And, self, other).unwrap()
    }

    /// `self || other`.
    pub fn or(&self, other: &Token) -> (r: Outcome)
        ensures
            r@ == binary(BinOp::Or, self@, other@).unwrap(),
    {
        proof {
            lemma_binary_total(BinOp::Or, self@, other@);
        }
        try_binary(BinOp::Or, self, other).unwrap()
    }

    /// The truth of a value.
    pub fn check(&self) -> (r: Outcome)
        ensures
            r@ == check_spec(self@),
    {
        check_of(self)
    }

    /// `self == other`.
    pub fn compare_eq(&self, other: &Token) -> (r: Outcome)
        ensures
            r@ == binary(BinOp::Eq, self@, other@).unwrap(),
    {
        proof {
            lemma_binary_total(BinOp::Eq, self@, other@);
        }
        try_binary(BinOp::Eq, self, other).unwrap()
    }

    /// `self != other`: the negation of `==`.
    pub fn compare_neq(&self, other: &Token) -> (r: Outcome)
        ensures
            r@ == OutcomeV::Negate(Box::new(binary(BinOp::Eq, self@, other@).unwrap())),
    {
        Outcome::Negate(Box::new(self.compare_eq(other)))
    }

    /// `self >= other`.
    pub fn compare_gte(&self, other: &Token) -> (r: Outcome)
        ensures
            r@ == binary(BinOp::Gte, self@, other@).unwrap(),
    {
        proof {
            lemma_binary_total(BinOp::Gte, self@, other@);
        }
        try_binary(BinOp::Gte, self, other).unwrap()
    }

    /// `self < other`: the negation of `>=`.
    pub fn compare_lt(&self, other: &Token) -> (r: Outcome)
        ensures
            r@ == OutcomeV::Negate(Box::new(binary(BinOp::Gte, self@, other@).unwrap())),
    {
        Outcome::Negate(Box::new(self.compare_gte(other)))
    }

    /// `self > other`.
    pub fn compare_gt(&self, other: &Token) -> (r: Outcome)
        ensures
            r@ == binary(BinOp::Gt, self@, other@).unwrap(),
    {
        proof {
            lemma_binary_total(BinOp::Gt, self@, other@);
        }
        try_binary(BinOp::Gt, self, other).unwrap()
    }

    /// `self <= other`: the negation of `>`.
    pub fn compare_lte(&self, other: &Token) -> (r: Outcome)
        ensures
            r@ == OutcomeV::Negate(Box::new(binary(BinOp::Gt, self@, other@).unwrap())),
    {
        Outcome::Negate(Box::new(self.compare_gt(other)))
    }
}


proof fn lemma_scalar_each_len(op: BinOp, items: Seq<TokenV>, s: TokenV)
    ensures
        scalar_each(op, items, s) matches Some(v) ==> v.len() == items.len(),
    decreases items.len(),
{
    if items.len() > 0 {
        lemma_scalar_each_len(op, items.drop_last(), s);
    }
}

proof fn lemma_settled_each_len(s: Seq<OutcomeV>)
    ensures
        settled_each(s).len() == s.len(),
    decreases s.len(),
{
    if s.len() > 0 {
        lemma_settled_each_len(s.drop_last());
    }
}

/// An arithmetic or logical operator between a collection and a value that
/// is not one gives a collection with as many items, one result per item.
pub proof fn lemma_collection_with_value_len(op: BinOp, items: Seq<TokenV>, s: TokenV)
    requires
        !is_comparison(op),
        with_collection(op, s),
    ensures
        binary(op, TokenV::Collection(items), s) matches Some(o) ==> float_free(o) ==> (settled(o) matches Some(
            TokenV::Collection(t),
        ) && t.len() == items.len()),
        binary(op, s, TokenV::Collection(items)) == binary(op, TokenV::Collection(items), s),
{
    lemma_scalar_each_len(op, items, s);
    if let Some(v) = scalar_each(op, items, s) {
        lemma_settled_each_len(v);
    }
}


/// `!=`, `<` and `<=` are the negations of `==`, `>=` and `>`: where the
/// latter gives a boolean, the former gives its negation, and nothing otherwise.
pub proof fn lemma_negations(op: BinOp, a: TokenV, b: TokenV)
    requires
        is_comparison(op),
    ensures
        binary(op, a, b) is Some,
        settled(OutcomeV::Negate(Box::new(binary(op, a, b).unwrap()))) == match settled(binary(op, a, b).unwrap()) {
            Some(TokenV::Bool(v)) => Some(TokenV::Bool(!v)),
            _ => None::<TokenV>,
        },
{
    lemma_binary_total(op, a, b);
}

/// A whole number, boolean, character or string equals itself.
pub proof fn lemma_eq_reflexive(a: TokenV)
    requires
        a is Int || a is Bool || a is Char || a is Str,
    ensures
        settled(binary(BinOp::Eq, a, a).unwrap()) == Some(TokenV::Bool(true)),
{
}


// ---------------------------------------------------------------------------
// Nesting of parenthesised parts
// ---------------------------------------------------------------------------

/// How deeply parenthesised parts nest in a value.
pub open spec fn depth(t: TokenV) -> nat
    decreases t,
{
    match t {
        TokenV::Operation(op) => 1 + seq_depth(op),
        TokenV::Collection(items) => seq_depth(items),
        TokenV::Accessor(p, a) => {
            let dp = depth(*p);
            let da = depth(*a);
            if dp >= da { dp } else { da }
        },
        _ => 0,
    }
}

/// The deepest nesting among values.
pub open spec fn seq_depth(s: Seq<TokenV>) -> nat
    decreases s,
{
    if s.len() == 0 {
        0
    } else {
        let a = seq_depth(s.drop_last());
        let b = depth(s.last());
        if a >= b { a } else { b }
    }
}

/// No value is nested deeper than the values it stands among.
pub proof fn lemma_seq_depth(s: Seq<TokenV>)
    ensures
        forall|k: int| 0 <= k < s.len() ==> depth(#[trigger] s[k]) <= seq_depth(s),
    decreases s.len(),
{
    if s.len() > 0 {
        lemma_seq_depth(s.drop_last());
        assert forall|k: int| 0 <= k < s.len() implies depth(#[trigger] s[k]) <= seq_depth(s) by {
            if k < s.len() - 1 {
                assert(s.drop_last()[k] == s[k]);
            }
        }
    }
}

/// How many parts a value is made of.
pub open spec fn size(t: TokenV) -> nat
    decreases t,
{
    match t {
        TokenV::Operation(op) => 1 + seq_size(op),
        TokenV::Collection(items) => 1 + seq_size(items),
        TokenV::Accessor(p, a) => 1 + size(*p) + size(*a),
        _ => 1,
    }
}

/// How many parts values are made of, one more for each value.
pub open spec fn seq_size(s: Seq<TokenV>) -> nat
    decreases s,
{
    if s.len() == 0 {
        0
    } else {
        seq_size(s.drop_last()) + size(s.last()) + 1
    }
}

/// Each value is smaller than the values it stands among.
pub proof fn lemma_seq_size(s: Seq<TokenV>)
    ensures
        forall|k: int| 0 <= k < s.len() ==> size(#[trigger] s[k]) < seq_size(s),
    decreases s.len(),
{
    if s.len() > 0 {
        lemma_seq_size(s.drop_last());
        assert forall|k: int| 0 <= k < s.len() implies size(#[trigger] s[k]) < seq_size(s) by {
            if k < s.len() - 1 {
                assert(s.drop_last()[k] == s[k]);
            }
        }
    }
}

/// Every value an outcome holds is free of parenthesised parts.
pub open spec fn flat_values(o: OutcomeV) -> bool
    decreases o,
{
    match o {
        OutcomeV::Value(Some(t)) => depth(t) == 0,
        OutcomeV::Value(None) => true,
        OutcomeV::Float(_) => true,
        OutcomeV::Each(s) => all_flat(s),
        OutcomeV::Pairwise(s) => all_flat(s),
        OutcomeV::AllTrue(s) => all_flat(s),
        OutcomeV::Negate(b) => flat_values(*b),
    }
}

pub open spec fn all_flat(s: Seq<OutcomeV>) -> bool
    decreases s,
{
    if s.len() == 0 {
        true
    } else {
        all_flat(s.drop_last()) && flat_values(s.last())
    }
}

proof fn lemma_scalar_flat(op: BinOp, x: TokenV, s: TokenV)
    ensures
        scalar_op(op, x, s) matches Some(o) ==> flat_values(o),
    decreases x,
{
    if let TokenV::Collection(items) = x {
        lemma_scalar_each_flat(op, items, s);
    }
}

proof fn lemma_scalar_each_flat(op: BinOp, items: Seq<TokenV>, s: TokenV)
    ensures
        scalar_each(op, items, s) matches Some(v) ==> all_flat(v),
    decreases items,
{
    if items.len() > 0 {
        lemma_scalar_each_flat(op, items.drop_last(), s);
        lemma_scalar_flat(op, items.last(), s);
        if let Some(v) = scalar_each(op, items, s) {
            assert(v.drop_last() =~= scalar_each(op, items.drop_last(), s).unwrap());
        }
    }
}

/// An operator's outcome holds only values free of parenthesised parts.
pub proof fn lemma_binary_flat(op: BinOp, a: TokenV, b: TokenV)
    ensures
        binary(op, a, b) matches Some(o) ==> flat_values(o),
    decreases a,
{
    match (a, b) {
        (TokenV::Collection(x), TokenV::Collection(y)) => {
            if x.len() == y.len() {
                lemma_pair_each_flat(op, x, y);
            }
        },
        (TokenV::Collection(_), _) => lemma_scalar_flat(op, a, b),
        (_, TokenV::Collection(_)) => lemma_scalar_flat(op, b, a),
        _ => {},
    }
}

proof fn lemma_pair_each_flat(op: BinOp, x: Seq<TokenV>, y: Seq<TokenV>)
    ensures
        pair_each(op, x, y) matches Some(v) ==> all_flat(v),
    decreases x,
{
    if x.len() > 0 {
        lemma_pair_each_flat(op, x.drop_last(), y.subrange(0, x.len() - 1));
        lemma_binary_flat(op, x.last(), y[x.len() - 1]);
        if let Some(v) = pair_each(op, x, y) {
            assert(v.drop_last() =~= pair_each(op, x.drop_last(), y.subrange(0, x.len() - 1)).unwrap());
        }
    }
}

proof fn lemma_settled_each_flat(s: Seq<OutcomeV>)
    requires
        all_flat(s),
        all_float_free(s),
    ensures
        seq_depth(settled_each(s)) == 0,
        seq_depth(settled_kept(s)) == 0,
        forall|k: int| 0 <= k < s.len() ==> (settled(#[trigger] s[k]) matches Some(t) ==> depth(t) == 0),
    decreases s,
{
    if s.len() > 0 {
        lemma_settled_each_flat(s.drop_last());
        lemma_settled_flat(s.last());
        let e = settled_each(s);
        assert(e.drop_last() =~= settled_each(s.drop_last()));
        assert(depth(e.last()) == 0);
        assert(seq_depth(e) == 0);
        assert forall|k: int| 0 <= k < s.len() implies (settled(#[trigger] s[k]) matches Some(t) ==> depth(t) == 0) by {
            if k < s.len() - 1 {
                assert(s.drop_last()[k] == s[k]);
            }
        }
        if let Some(t) = settled(s.last()) {
            assert(settled_kept(s).drop_last() =~= settled_kept(s.drop_last()));
        }
    }
}

/// A float-free outcome whose values are free of parenthesised parts
/// settles to such a value.
pub proof fn lemma_settled_flat(o: OutcomeV)
    requires
        flat_values(o),
        float_free(o),
    ensures
        settled(o) matches Some(t) ==> depth(t) == 0,
    decreases o,
{
    match o {
        OutcomeV::Each(s) => lemma_settled_each_flat(s),
        OutcomeV::Pairwise(s) => lemma_settled_each_flat(s),
        OutcomeV::AllTrue(s) => {},
        OutcomeV::Negate(b) => lemma_settled_flat(*b),
        _ => {},
    }
}

/// `+` on whole numbers, booleans and floats gives the same for either order
/// of its operands, unless both are floats (whose sum the host computes in
/// the order given).
pub proof fn lemma_add_commutes(a: TokenV, b: TokenV)
    requires
        a is Int || a is Bool || a is Float,
        b is Int || b is Bool || b is Float,
        !(a is Float && b is Float),
    ensures
        binary(BinOp::Add, a, b) == binary(BinOp::Add, b, a),
{
}

/// `==` gives the same for either order of its operands, wherever no float
/// comparison is left to the host.
pub proof fn lemma_eq_symmetric(a: TokenV, b: TokenV)
    requires
        float_free(binary(BinOp::Eq, a, b).unwrap()),
    ensures
        binary(BinOp::Eq, a, b) == binary(BinOp::Eq, b, a),
    decreases a,
{
    lemma_binary_total(BinOp::Eq, a, b);
    if let (TokenV::Collection(x), TokenV::Collection(y)) = (a, b) {
        if x.len() == y.len() {
            lemma_pair_each_total(BinOp::Eq, x, y);
            lemma_pair_each_eq_symmetric(x, y);
        }
    }
}

proof fn lemma_pair_each_eq_symmetric(x: Seq<TokenV>, y: Seq<TokenV>)
    requires
        x.len() == y.len(),
        pair_each(BinOp::Eq, x, y) is Some,
        all_float_free(pair_each(BinOp::Eq, x, y).unwrap()),
    ensures
        pair_each(BinOp::Eq, x, y) == pair_each(BinOp::Eq, y, x),
    decreases x,
{
    if x.len() > 0 {
        let n = x.len() - 1;
        let v = pair_each(BinOp::Eq, x, y).unwrap();
        lemma_binary_total(BinOp::Eq, x.last(), y[n]);
        let px = pair_each(BinOp::Eq, x.drop_last(), y.subrange(0, n));
        assert(v.drop_last() =~= px.unwrap());
        assert(v.last() == binary(BinOp::Eq, x.last(), y[n]).unwrap());
        lemma_pair_each_eq_symmetric(x.drop_last(), y.subrange(0, n));
        lemma_eq_symmetric(x.last(), y[n]);
        assert(y.drop_last() =~= y.subrange(0, n));
        assert(x.subrange(0, n) =~= x.drop_last());
        assert(y.last() == y[n]);
        assert(x[n] == x.last());
    }
}


/// Adding two strings joins them, the left one first.
pub proof fn lemma_string_add(x: Seq<char>, y: Seq<char>)
    ensures
        binary(BinOp::Add, TokenV::Str(x), TokenV::Str(y)) == Some(OutcomeV::Value(Some(TokenV::Str(x + y)))),
        settled(binary(BinOp::Add, TokenV::Str(x), TokenV::Str(y)).unwrap()) == Some(TokenV::Str(x + y)),
{
}

/// On two whole numbers the operators compute in `i32`: `+`, `-`, `*` give
/// the sum, difference (left minus right) and product where they fit, and
/// nothing where they overflow; `/` and `%` on a non-negative left and a
/// positive right give the quotient and remainder; the comparisons compare
/// left to right.
pub proof fn lemma_int_operators(x: i32, y: i32)
    ensures
        fits_i32(x + y) ==> binary(BinOp::Add, TokenV::Int(x), TokenV::Int(y)) == Some(
            OutcomeV::Value(Some(TokenV::Int((x + y) as i32))),
        ),
        !fits_i32(x + y) ==> binary(BinOp::Add, TokenV::Int(x), TokenV::Int(y)) is None,
        fits_i32(x - y) ==> binary(BinOp::Subtract, TokenV::Int(x), TokenV::Int(y)) == Some(
            OutcomeV::Value(Some(TokenV::Int((x - y) as i32))),
        ),
        !fits_i32(x - y) ==> binary(BinOp::Subtract, TokenV::Int(x), TokenV::Int(y)) is None,
        fits_i32(x * y) ==> binary(BinOp::Multiply, TokenV::Int(x), TokenV::Int(y)) == Some(
            OutcomeV::Value(Some(TokenV::Int((x * y) as i32))),
        ),
        x >= 0 && y > 0 ==> binary(BinOp::Divide, TokenV::Int(x), TokenV::Int(y)) == Some(
            OutcomeV::Value(Some(TokenV::Int((x / y) as i32))),
        ),
        x >= 0 && y > 0 ==> binary(BinOp::Modulos, TokenV::Int(x), TokenV::Int(y)) == Some(
            OutcomeV::Value(Some(TokenV::Int((x % y) as i32))),
        ),
        y == 0 ==> binary(BinOp::Divide, TokenV::Int(x), TokenV::Int(y)) is None,
        binary(BinOp::Gte, TokenV::Int(x), TokenV::Int(y)) == Some(OutcomeV::Value(Some(TokenV::Bool(x >= y)))),
        binary(BinOp::Gt, TokenV::Int(x), TokenV::Int(y)) == Some(OutcomeV::Value(Some(TokenV::Bool(x > y)))),
        binary(BinOp::Eq, TokenV::Int(x), TokenV::Int(y)) == Some(OutcomeV::Value(Some(TokenV::Bool(x == y)))),
{
    if x >= 0 && y > 0 {
        assert(x / y <= x) by (nonlinear_arith)
            requires
                x >= 0,
                y > 0,
        ;
        assert(0 <= x / y);
        assert(0 <= x % y < y);
    }
}

/// `&&` and `||` on two booleans are the logical and and or.
pub proof fn lemma_bool_logic(x: bool, y: bool)
    ensures
        binary(BinOp::And, TokenV::Bool(x), TokenV::Bool(y)) == Some(OutcomeV::Value(Some(TokenV::Bool(x && y)))),
        binary(BinOp::Or, TokenV::Bool(x), TokenV::Bool(y)) == Some(OutcomeV::Value(Some(TokenV::Bool(x || y)))),
{
}

} // verus!
