//! Operations: a line of values, operators, calls, collections and
//! accessors, tokenized and put into operator order.
use vstd::prelude::*;
use crate::text::{
    chars_of, is_float_text, is_float_text_of, parse_bool, parse_bool_of, parse_i32,
    parse_i32_in, string_of_all,
};
use crate::types::{Token, TokenV, token_view, tokens_view};
use crate::utility::{get_operator_worth, operator_worth, is_operation, is_operation_char, split_by_spec};
use crate::text::split_once;

verus! {

use ParseTokenType as P;

// ---------------------------------------------------------------------------
// Single tokens
// ---------------------------------------------------------------------------

/// The token a piece of text stands for: a string or char literal when told
/// so, otherwise an `i32`, a float, a `bool`, and failing those a variable.
pub open spec fn token_value_spec(value: Seq<char>, literal: bool, is_char: bool) -> TokenV {
    if literal {
        TokenV::Str(value)
    } else if is_char {
        TokenV::Char(value[0])
    } else if parse_i32(value) is Some {
        TokenV::Int(parse_i32(value)->0)
    } else if is_float_text(value) {
        TokenV::Float(value)
    } else if parse_bool(value) is Some {
        TokenV::Bool(parse_bool(value)->0)
    } else {
        TokenV::Var(value)
    }
}

/// Converts a piece of text into the token it stands for.
pub fn parse_token_value(value: &Vec<char>, literal: bool, is_char: bool) -> (r: Token)
    requires
        !literal && is_char ==> value.len() > 0,
    ensures
        r@ == token_value_spec(value@, literal, is_char),
{
    if literal {
        return Token::String(string_of_all(value));
    }
    if is_char {
        return Token::Char(crate::text::char_at(value, 0));
    }
    assert(value@.subrange(0, value.len() as int) =~= value@);
    if let Some(i) = parse_i32_in(value, 0, value.len()) {
        Token::Int(i)
    } else if is_float_text_of(value) {
        Token::Float(string_of_all(value))
    } else if let Some(b) = parse_bool_of(value) {
        Token::Bool(b)
    } else {
        Token::Var(string_of_all(value))
    }
}

/// Attaches `new` as the innermost accessor of `prev`.
pub open spec fn accessor_spec(prev: TokenV, new: TokenV) -> TokenV
    decreases prev,
{
    match prev {
        TokenV::Accessor(p, a) => TokenV::Accessor(p, Box::new(accessor_spec(*a, new))),
        _ => TokenV::Accessor(Box::new(prev), Box::new(new)),
    }
}

/// Attaches `new_token` as the innermost accessor of `prev_token`.
pub fn handle_accessor(prev_token: Token, new_token: Box<Token>) -> (r: Token)
    ensures
        r@ == accessor_spec(prev_token@, (*new_token)@),
    decreases prev_token,
{
    match prev_token {
        Token::Accessor(prev, accessor) => {
            let inner = handle_accessor(*accessor, new_token);
            Token::Accessor(prev, Box::new(inner))
        },
        _ => Token::Accessor(Box::new(prev_token), new_token),
    }
}

// ---------------------------------------------------------------------------
// Operator order (shunting-yard)
// ---------------------------------------------------------------------------

/// Operator `a` binds at least as tightly as operator `b`.
pub open spec fn gte(a: Seq<char>, b: Seq<char>) -> bool {
    operator_worth(a) >= operator_worth(b)
}

/// Whether operator `a` is worth at least as much as operator `b`: equal
/// worth lets the leftmost operator go first (`x*2/7` is `(x*2)/7`).
pub fn operator_a_gte_b(a: &str, b: &str) -> (r: bool)
    ensures
        r == gte(a@, b@),
{
    get_operator_worth(a) >= get_operator_worth(b)
}

/// Moves operators from the top of `stack` to `out` while they bind at least
/// as tightly as `op`.
pub open spec fn pop_while(stack: Seq<TokenV>, out: Seq<TokenV>, op: Seq<char>) -> (Seq<TokenV>, Seq<TokenV>)
    decreases stack.len(),
{
    if stack.len() > 0 && stack.last() is Operator && gte(stack.last()->Operator_0, op) {
        pop_while(stack.drop_last(), out.push(stack.last()), op)
    } else {
        (stack, out)
    }
}

/// The shunting-yard pass from position `p`: operands go straight to the
/// output queue, operators wait on the stack behind tighter ones.
pub open spec fn shunt(toks: Seq<TokenV>, p: nat, stack: Seq<TokenV>, out: Seq<TokenV>) -> Seq<TokenV>
    decreases toks.len() - p,
{
    if p >= toks.len() {
        out + stack.reverse()
    } else {
        let t = toks[p as int];
        if t is Operator {
            let (s2, o2) = pop_while(stack, out, t->Operator_0);
            shunt(toks, p + 1, s2.push(t), o2)
        } else {
            shunt(toks, p + 1, stack, out.push(t))
        }
    }
}

/// The tokens in postfix order, stored last-first: reading the result from
/// its end gives the operands before the operator applied to them.
pub open spec fn populate_spec(toks: Seq<TokenV>) -> Seq<TokenV> {
    shunt(toks, 0, seq![], seq![]).reverse()
}

/// In `a o1 b o2 c`, `o1` applies first when it is worth at least as much
/// as `o2`, so that operators of equal worth apply from the left (`x*2/7` is
/// `(x*2)/7`); otherwise `o2` applies first. The result is stored last-first.
pub proof fn lemma_populate_grouping(a: TokenV, o1: Seq<char>, b: TokenV, o2: Seq<char>, c: TokenV)
    requires
        !(a is Operator),
        !(b is Operator),
        !(c is Operator),
    ensures
        populate_spec(seq![a, TokenV::Operator(o1), b, TokenV::Operator(o2), c]) == if gte(o1, o2) {
            seq![TokenV::Operator(o2), c, TokenV::Operator(o1), b, a]
        } else {
            seq![TokenV::Operator(o1), TokenV::Operator(o2), c, b, a]
        },
{
    let toks = seq![a, TokenV::Operator(o1), b, TokenV::Operator(o2), c];
    reveal_with_fuel(shunt, 6);
    reveal_with_fuel(pop_while, 3);
    let op1 = TokenV::Operator(o1);
    let op2 = TokenV::Operator(o2);
    assert(shunt(toks, 0, seq![], seq![]) == shunt(toks, 1, seq![], seq![a]));
    assert(seq![op1].drop_last() =~= Seq::<TokenV>::empty());
    assert(shunt(toks, 1, seq![], seq![a]) == shunt(toks, 2, seq![op1], seq![a]));
    assert(shunt(toks, 2, seq![op1], seq![a]) == shunt(toks, 3, seq![op1], seq![a, b]));
    if gte(o1, o2) {
        assert(pop_while(seq![op1], seq![a, b], o2) == (Seq::<TokenV>::empty(), seq![a, b, op1]));
        assert(shunt(toks, 3, seq![op1], seq![a, b]) == shunt(toks, 4, seq![op2], seq![a, b, op1]));
        assert(shunt(toks, 4, seq![op2], seq![a, b, op1]) == shunt(toks, 5, seq![op2], seq![a, b, op1, c]));
        assert(seq![op2].reverse() =~= seq![op2]);
        assert((seq![a, b, op1, c] + seq![op2]).reverse() =~= seq![op2, c, op1, b, a]);
    } else {
        assert(pop_while(seq![op1], seq![a, b], o2) == (seq![op1], seq![a, b]));
        assert(seq![op1].push(op2) =~= seq![op1, op2]);
        assert(shunt(toks, 3, seq![op1], seq![a, b]) == shunt(toks, 4, seq![op1, op2], seq![a, b]));
        assert(shunt(toks, 4, seq![op1, op2], seq![a, b]) == shunt(toks, 5, seq![op1, op2], seq![a, b, c]));
        assert(seq![op1, op2].reverse() =~= seq![op2, op1]);
        assert((seq![a, b, c] + seq![op2, op1]).reverse() =~= seq![op1, op2, c, b, a]);
    }
}

/// Orders the tokens of an operation with the shunting-yard algorithm
/// (the nesting of parentheses is already held by `Token::Operation`).
pub fn handle_populating_operation(tokens: Vec<Token>) -> (r: Vec<Token>)
    ensures
        tokens_view(r@) == populate_spec(tokens_view(tokens@)),
{
    let ghost toks = tokens_view(tokens@);
    proof {
        lemma_tokens_view_index(tokens@);
    }
    let n = tokens.len();
    // Reverse, so that popping yields the tokens in their order.
    let mut tokens = tokens;
    let mut rev: Vec<Token> = Vec::new();
    while tokens.len() > 0
        invariant
            rev.len() + tokens.len() == n,
            toks.len() == n,
            forall|k: int| 0 <= k < tokens.len() ==> token_view(#[trigger] tokens@[k]) == toks[k],
            forall|k: int|
                0 <= k < rev.len() ==> token_view(#[trigger] rev@[k]) == toks[n - 1 - k],
        decreases tokens.len(),
    {
        let t = tokens.pop().unwrap();
        rev.push(t);
    }
    let mut stack: Vec<Token> = Vec::new();
    let mut queue: Vec<Token> = Vec::new();
    let ghost mut p: nat = 0;
    proof {
        lemma_tokens_view_index(stack@);
        lemma_tokens_view_index(queue@);
        assert(tokens_view(stack@) =~= seq![]);
        assert(tokens_view(queue@) =~= seq![]);
    }
    while rev.len() > 0
        invariant
            p + rev.len() == n,
            toks.len() == n,
            forall|k: int| 0 <= k < rev.len() ==> token_view(#[trigger] rev@[k]) == toks[n - 1 - k],
            shunt(toks, p, tokens_view(stack@), tokens_view(queue@)) == shunt(
                toks,
                0,
                seq![],
                seq![],
            ),
            forall|k: int| 0 <= k < stack@.len() ==> (#[trigger] stack@[k]) is Operator,
        decreases rev.len(),
    {
        let t = rev.pop().unwrap();
        assert(t@ == toks[p as int]);
        let ghost sv0 = tokens_view(stack@);
        let ghost qv0 = tokens_view(queue@);
        match &t {
            Token::Operator(op) => {
                loop
                    invariant_except_break
                        pop_while(tokens_view(stack@), tokens_view(queue@), op@) == pop_while(
                            sv0,
                            qv0,
                            op@,
                        ),
                        forall|k: int| 0 <= k < stack@.len() ==> (#[trigger] stack@[k]) is Operator,
                    ensures
                        pop_while(tokens_view(stack@), tokens_view(queue@), op@) == (
                            tokens_view(stack@),
                            tokens_view(queue@),
                        ),
                        pop_while(sv0, qv0, op@) == (tokens_view(stack@), tokens_view(queue@)),
                        forall|k: int| 0 <= k < stack@.len() ==> (#[trigger] stack@[k]) is Operator,
                    decreases stack.len(),
                {
                    proof {
                        lemma_tokens_view_index(stack@);
                    }
                    if stack.len() == 0 {
                        break ;
                    }
                    let top_len = stack.len();
                    let go = match &stack[top_len - 1] {
                        Token::Operator(top) => operator_a_gte_b(top.as_str(), op.as_str()),
                        _ => false,
                    };
                    if !go {
                        break ;
                    }
                    let ghost sv = stack@;
                    let ghost qv = queue@;
                    let top = stack.pop().unwrap();
                    queue.push(top);
                    proof {
                        lemma_tokens_view_push(qv, top);
                        lemma_tokens_view_prefix(sv, sv.len() - 1);
                        assert(sv.subrange(0, sv.len() - 1) =~= stack@);
                        lemma_tokens_view_index(sv);
                    }
                }
                let ghost sv = stack@;
                stack.push(t);
                proof {
                    lemma_tokens_view_push(sv, t);
                }
            },
            _ => {
                let ghost qv = queue@;
                queue.push(t);
                proof {
                    lemma_tokens_view_push(qv, t);
                }
            },
        }
        proof {
            p = p + 1;
        }
    }
    let ghost full = shunt(toks, 0, seq![], seq![]);
    assert(full == tokens_view(queue@) + tokens_view(stack@).reverse());
    while stack.len() > 0
        invariant
            tokens_view(queue@) + tokens_view(stack@).reverse() == full,
        decreases stack.len(),
    {
        let ghost sv = stack@;
        let ghost qv = queue@;
        let top = stack.pop().unwrap();
        queue.push(top);
        proof {
            lemma_tokens_view_push(qv, top);
            lemma_tokens_view_prefix(sv, sv.len() - 1);
            assert(sv.subrange(0, sv.len() - 1) =~= stack@);
            lemma_tokens_view_index(sv);
            let a = tokens_view(sv);
            assert(a.reverse() =~= seq![a.last()] + a.drop_last().reverse());
            assert(tokens_view(qv).push(top@) + a.drop_last().reverse() =~= tokens_view(qv) + (
            seq![a.last()] + a.drop_last().reverse()));
        }
    }
    assert(tokens_view(stack@) =~= seq![]);
    assert(tokens_view(queue@) =~= full);
    let mut r: Vec<Token> = Vec::new();
    let qn = queue.len();
    proof {
        lemma_tokens_view_index(queue@);
    }
    let ghost qs = tokens_view(queue@);
    while queue.len() > 0
        invariant
            queue.len() + r.len() == qn,
            qs.len() == qn,
            forall|k: int| 0 <= k < queue.len() ==> token_view(#[trigger] queue@[k]) == qs[k],
            forall|k: int| 0 <= k < r.len() ==> token_view(#[trigger] r@[k]) == qs[qn - 1 - k],
        decreases queue.len(),
    {
        let t = queue.pop().unwrap();
        r.push(t);
    }
    proof {
        lemma_tokens_view_index(r@);
        assert forall|k: int| 0 <= k < qn implies tokens_view(r@)[k] == qs.reverse()[k] by {
            assert(token_view(r@[k]) == qs[qn - 1 - k]);
        }
        assert(tokens_view(r@) =~= qs.reverse());
    }
    r
}

/// The model of a token sequence, element by element.
pub proof fn lemma_tokens_view_index(s: Seq<Token>)
    ensures
        tokens_view(s).len() == s.len(),
        forall|k: int| 0 <= k < s.len() ==> tokens_view(s)[k] == token_view(#[trigger] s[k]),
    decreases s.len(),
{
    if s.len() > 0 {
        let front = s.subrange(0, s.len() - 1);
        lemma_tokens_view_index(front);
        assert forall|k: int| 0 <= k < s.len() implies tokens_view(s)[k] == token_view(
            #[trigger] s[k],
        ) by {
            if k < s.len() - 1 {
                assert(front[k] == s[k]);
            }
        }
    }
}

pub proof fn lemma_tokens_view_push(s: Seq<Token>, t: Token)
    ensures
        tokens_view(s.push(t)) == tokens_view(s).push(t@),
{
    assert(s.push(t).subrange(0, s.len() as int) =~= s);
}

pub proof fn lemma_tokens_view_prefix(s: Seq<Token>, k: int)
    requires
        0 <= k <= s.len(),
    ensures
        tokens_view(s.subrange(0, k)) == tokens_view(s).subrange(0, k),
{
    lemma_tokens_view_index(s);
    lemma_tokens_view_index(s.subrange(0, k));
    assert forall|j: int| 0 <= j < k implies tokens_view(s.subrange(0, k))[j] == tokens_view(
        s,
    ).subrange(0, k)[j] by {
        assert(s.subrange(0, k)[j] == s[j]);
    }
    assert(tokens_view(s.subrange(0, k)) =~= tokens_view(s).subrange(0, k));
}


// ---------------------------------------------------------------------------
// The tokenizer
// ---------------------------------------------------------------------------

/// What kind of token a character can belong to.
#[derive(PartialEq, Eq, Structural, Clone, Copy, Debug)]
pub enum ParseTokenType {
    Blank,
    Value,
    StringLiteral,
    CharLiteral,
    Collection,
    Operator,
    Parenth,
    Call,
    Accessor,
}

pub open spec fn char_type(c: char) -> ParseTokenType {
    if crate::text::alphanumeric(c) || c == '_' {
        ParseTokenType::Value
    } else if c == '"' {
        ParseTokenType::StringLiteral
    } else if c == '\'' {
        ParseTokenType::CharLiteral
    } else if is_operation_char(c) {
        ParseTokenType::Operator
    } else if c == '(' || c == ')' {
        ParseTokenType::Parenth
    } else if c == '[' || c == ']' {
        ParseTokenType::Collection
    } else if c == '.' {
        ParseTokenType::Accessor
    } else {
        ParseTokenType::Blank
    }
}

/// `s[a..b]`, with both ends held inside `s`.
pub open spec fn clamped(s: Seq<char>, a: int, b: int) -> Seq<char> {
    let lo = if a < 0 {
        0
    } else if a > s.len() {
        s.len() as int
    } else {
        a
    };
    let hi = if b < lo {
        lo
    } else if b > s.len() {
        s.len() as int
    } else {
        b
    };
    s.subrange(lo, hi)
}

/// The tokenizer's state between two characters.
pub struct OpState {
    /// The kind of the token being read.
    pub last: ParseTokenType,
    /// Where the token being read starts, and ends so far.
    pub ts: int,
    pub te: int,
    /// Parentheses and brackets opened inside the token being read.
    pub paren: nat,
    pub coll: nat,
    /// The tokens finished so far.
    pub tokens: Seq<TokenV>,
    /// The token waiting for its accessor (`Null` when none).
    pub acc: TokenV,
    /// The next character was already consumed.
    pub skip: bool,
}

pub open spec fn initial_state() -> OpState {
    OpState {
        last: ParseTokenType::Blank,
        ts: 0,
        te: 0,
        paren: 0,
        coll: 0,
        tokens: seq![],
        acc: TokenV::Null,
        skip: false,
    }
}

/// One character of the tokenizer: an error, the next state, or a state the
/// start-of-token step still has to see.
pub enum OpStep {
    Stop(Seq<char>),
    Go(OpState),
    Fall(OpState),
}

pub open spec fn literal_after_value_message() -> Seq<char> {
    "Unexpected literal after value type."@
}

pub open spec fn collection_after_value_message() -> Seq<char> {
    "Unexpected collection after value type."@
}

pub open spec fn empty_char_message() -> Seq<char> {
    "Tried to create a char type with no characters."@
}

pub open spec fn long_char_message() -> Seq<char> {
    "Too many characters to create a valid char type."@
}

pub open spec fn unclosed_message() -> Seq<char> {
    "Parenthesis were not closed during operation."@
}

pub open spec fn unknown_operator_message(found: Seq<char>) -> Seq<char> {
    found + " Operation was not recognized."@
}

pub open spec fn all_numeric(s: Seq<char>) -> bool {
    forall|k: int| 0 <= k < s.len() ==> crate::text::numeric(#[trigger] s[k])
}

/// Whether the current character continues the token being read (`Ok(true)`),
/// ends it (`Ok(false)`), or cannot follow it (`Err`).
pub open spec fn continues(last: ParseTokenType, cur: ParseTokenType, text: Seq<char>) -> Result<bool, Seq<char>> {
    match (last, cur) {
        (P::Value, P::StringLiteral) | (P::Value, P::CharLiteral) => Err(literal_after_value_message()),
        (P::Value, P::Collection) => Err(collection_after_value_message()),
        (P::Value, P::Operator) | (P::Value, P::Parenth) => Ok(false),
        (P::Value, P::Accessor) => Ok(all_numeric(text)),
        (P::Operator, P::Value) | (P::Operator, P::StringLiteral) | (P::Operator, P::CharLiteral)
        | (P::Operator, P::Collection) | (P::Operator, P::Parenth) => Ok(false),
        (P::StringLiteral, P::StringLiteral) | (P::CharLiteral, P::CharLiteral) => Ok(false),
        (P::Collection, P::Collection) | (P::Parenth, P::Parenth) | (P::Call, P::Parenth) => Ok(false),
        (P::Accessor, P::Accessor) | (P::Accessor, P::Collection) | (P::Accessor, P::Operator)
        | (P::Accessor, P::Value) | (P::Accessor, P::Parenth) => Ok(false),
        _ => Ok(true),
    }
}

/// The element a parsed collection item stands for.
pub open spec fn collection_item(op: Seq<TokenV>) -> TokenV {
    if op.len() == 0 {
        TokenV::Null
    } else if op.len() == 1 {
        op[0]
    } else {
        TokenV::Operation(op)
    }
}

/// `t` with the waiting accessor token (if any) in front of it.
pub open spec fn with_acc(acc: TokenV, t: TokenV) -> TokenV {
    if acc is Null {
        t
    } else {
        accessor_spec(acc, t)
    }
}

/// The start-of-token step: with no token being read (or at the last
/// character), the current character may start one.
pub open spec fn op_bottom(s: Seq<char>, i: int, st: OpState) -> OpState {
    let n = s.len();
    let c = s[i];
    let cur = char_type(c);
    if cur == ParseTokenType::Value {
        let tokens = if i == n - 1 {
            st.tokens.push(with_acc(st.acc, token_value_spec(clamped(s, st.ts, i + 1), false, false)))
        } else {
            st.tokens
        };
        OpState { last: ParseTokenType::Value, tokens, ts: i, te: i + 1, ..st }
    } else if cur == ParseTokenType::Collection {
        OpState { last: ParseTokenType::Collection, ts: i + 1, te: i + 2, ..st }
    } else if cur == ParseTokenType::StringLiteral {
        OpState { last: ParseTokenType::StringLiteral, ts: i + 1, te: i + 2, ..st }
    } else if cur == ParseTokenType::CharLiteral {
        OpState { last: ParseTokenType::CharLiteral, ts: i + 1, te: i + 2, ..st }
    } else if cur == ParseTokenType::Operator {
        OpState { last: ParseTokenType::Operator, ts: i, te: i + 1, ..st }
    } else if c == '(' {
        OpState { last: ParseTokenType::Parenth, ts: i + 1, te: i + 2, ..st }
    } else if cur == ParseTokenType::Accessor {
        OpState { last: ParseTokenType::Accessor, ts: i + 1, te: i + 1, ..st }
    } else {
        st
    }
}

/// The end of a value, string or char token.
pub open spec fn op_finish_value(s: Seq<char>, i: int, st: OpState) -> OpStep {
    let n = s.len();
    let cur = char_type(s[i]);
    let is_literal = st.last == ParseTokenType::StringLiteral;
    let is_char = st.last == ParseTokenType::CharLiteral;
    let used_accessor = cur == ParseTokenType::Accessor;
    if cur == ParseTokenType::Parenth && st.last != ParseTokenType::StringLiteral && st.last
        != ParseTokenType::CharLiteral && st.last != ParseTokenType::Collection {
        OpStep::Fall(OpState { last: ParseTokenType::Call, ..st })
    } else {
        let value = clamped(s, st.ts, st.te);
        if is_char && value.len() < 1 {
            OpStep::Stop(empty_char_message())
        } else if is_char && value.len() > 1 {
            OpStep::Stop(long_char_message())
        } else {
            let token = token_value_spec(value, is_literal, is_char);
            let st2 = if (used_accessor || (is_literal && i + 1 < n && s[i + 1] == '.')) && !is_char {
                if is_literal {
                    OpState { acc: token, last: ParseTokenType::Accessor, ts: i + 2, te: i + 2, skip: true, ..st }
                } else {
                    OpState { acc: token, last: ParseTokenType::Accessor, ts: i + 1, te: i + 1, ..st }
                }
            } else {
                OpState { tokens: st.tokens.push(token), last: ParseTokenType::Blank, ts: i, ..st }
            };
            if is_literal || is_char || used_accessor {
                OpStep::Go(st2)
            } else {
                OpStep::Fall(st2)
            }
        }
    }
}

/// The end of an accessor's name.
pub open spec fn op_accessor(s: Seq<char>, i: int, st: OpState) -> OpStep {
    let n = s.len();
    let cur = char_type(s[i]);
    let was_last = i == n - 1;
    let te2 = if was_last { st.te + 1 } else { st.te };
    let token = accessor_spec(st.acc, token_value_spec(clamped(s, st.ts, te2), false, false));
    if cur == ParseTokenType::Accessor {
        OpStep::Go(OpState { acc: token, ts: i + 1, te: i + 1, ..st })
    } else if cur == ParseTokenType::Value {
        OpStep::Fall(OpState { te: i + 1, ..st })
    } else if cur == ParseTokenType::Parenth {
        OpStep::Fall(OpState { te: te2, last: ParseTokenType::Call, ..st })
    } else {
        let st2 = OpState {
            te: te2,
            tokens: st.tokens.push(token),
            acc: TokenV::Null,
            last: ParseTokenType::Blank,
            ts: i,
            ..st
        };
        if was_last {
            OpStep::Go(st2)
        } else {
            OpStep::Fall(st2)
        }
    }
}

/// The end of a call: `name(args)` with the waiting accessor in front.
pub open spec fn op_call(s: Seq<char>, i: int, st: OpState) -> OpStep {
    let n = s.len();
    let c = s[i];
    if c == '(' {
        OpStep::Fall(OpState { paren: st.paren + 1, ..st })
    } else if c == ')' {
        if st.paren == 0 {
            match split_once(clamped(s, st.ts, i), '(') {
                Some((name, args)) => {
                    let token = with_acc(st.acc, TokenV::Call(name, args));
                    if n >= i + 2 && s[i + 1] == '.' {
                        OpStep::Fall(OpState { acc: token, last: ParseTokenType::Blank, ts: i + 2, te: i + 3, ..st })
                    } else {
                        OpStep::Fall(OpState { tokens: st.tokens.push(token), last: ParseTokenType::Blank, ts: i, ..st })
                    }
                },
                None => OpStep::Fall(st),
            }
        } else {
            OpStep::Fall(OpState { paren: (st.paren - 1) as nat, ..st })
        }
    } else {
        OpStep::Fall(st)
    }
}

/// A finished collection `[items]`.
pub open spec fn op_collection_done(s: Seq<char>, i: int, st: OpState, items: Seq<TokenV>) -> OpState {
    let n = s.len();
    let token = TokenV::Collection(items);
    if n > i + 1 && s[i + 1] == '.' {
        OpState { acc: token, last: ParseTokenType::Blank, ts: i + 2, te: i + 3, ..st }
    } else {
        OpState { tokens: st.tokens.push(token), last: ParseTokenType::Blank, ts: i, ..st }
    }
}

/// The tokenizer's step at a character inside a token being read.
pub open spec fn op_top(s: Seq<char>, i: int, st: OpState) -> OpStep
    decreases s.len(), 1int, 0int,
{
    let n = s.len();
    let c = s[i];
    let cur = char_type(c);
    let cont = if i != n - 1 {
        continues(st.last, cur, clamped(s, st.ts, st.te))
    } else {
        Ok(false)
    };
    match cont {
        Err(e) => OpStep::Stop(e),
        Ok(true) => OpStep::Go(OpState { te: i + 1, ..st }),
        Ok(false) => {
            if (st.last == ParseTokenType::Value && cur != ParseTokenType::Value) || st.last
                == ParseTokenType::StringLiteral || st.last == ParseTokenType::CharLiteral {
                op_finish_value(s, i, st)
            } else if st.last == ParseTokenType::Operator && cur != ParseTokenType::Operator {
                let found = clamped(s, st.ts, st.te);
                if is_operation(found) {
                    OpStep::Fall(OpState { tokens: st.tokens.push(TokenV::Operator(found)), last: ParseTokenType::Blank, ts: i, ..st })
                } else {
                    OpStep::Stop(unknown_operator_message(found))
                }
            } else if st.last == ParseTokenType::Collection {
                if c == '[' {
                    OpStep::Fall(OpState { coll: st.coll + 1, ..st })
                } else if c == ']' {
                    if st.coll == 0 {
                        match split_by_spec(clamped(s, st.ts, st.te), ',') {
                            Ok(pieces) => match parse_pieces(pieces, n) {
                                Ok(items) => OpStep::Go(op_collection_done(s, i, st, items)),
                                Err(e) => OpStep::Stop(e),
                            },
                            Err(e) => OpStep::Stop(e),
                        }
                    } else {
                        OpStep::Fall(OpState { coll: (st.coll - 1) as nat, ..st })
                    }
                } else {
                    OpStep::Fall(st)
                }
            } else if st.last == ParseTokenType::Parenth {
                if c == '(' {
                    OpStep::Fall(OpState { paren: st.paren + 1, ..st })
                } else if c == ')' {
                    if st.paren == 0 {
                        let inner = clamped(s, st.ts, st.te);
                        if inner.len() < n {
                            match parse_operation_spec(inner) {
                                Ok(op) => OpStep::Fall(OpState { tokens: st.tokens.push(TokenV::Operation(op)), last: ParseTokenType::Blank, ts: i, ..st }),
                                Err(e) => OpStep::Stop(e),
                            }
                        } else {
                            OpStep::Stop(seq![])
                        }
                    } else {
                        OpStep::Fall(OpState { paren: (st.paren - 1) as nat, ..st })
                    }
                } else {
                    OpStep::Fall(st)
                }
            } else if st.last == ParseTokenType::Call {
                op_call(s, i, st)
            } else if st.last == ParseTokenType::Accessor {
                op_accessor(s, i, st)
            } else {
                OpStep::Fall(st)
            }
        },
    }
}

/// The tokenizer's step at character `i`.
pub open spec fn op_step(s: Seq<char>, i: int, st: OpState) -> OpStep
    decreases s.len(), 1int, 1int,
{
    if st.skip {
        OpStep::Go(OpState { skip: false, ..st })
    } else {
        let r = if st.last != ParseTokenType::Blank {
            op_top(s, i, st)
        } else {
            OpStep::Fall(st)
        };
        match r {
            OpStep::Fall(x) => OpStep::Go(
                if x.last == ParseTokenType::Blank || i == s.len() - 1 {
                    op_bottom(s, i, x)
                } else {
                    x
                },
            ),
            _ => r,
        }
    }
}

/// The tokenizer from character `i` on.
pub open spec fn op_scan(s: Seq<char>, i: int, st: OpState) -> Result<Seq<TokenV>, Seq<char>>
    decreases s.len(), 2int, s.len() - i,
{
    if i < 0 || i >= s.len() {
        if st.paren > 0 {
            Err(unclosed_message())
        } else {
            Ok(populate_spec(st.tokens))
        }
    } else {
        match op_step(s, i, st) {
            OpStep::Stop(e) => Err(e),
            OpStep::Go(x) => op_scan(s, i + 1, x),
            OpStep::Fall(x) => op_scan(s, i + 1, x),
        }
    }
}

/// The items of a collection, each piece parsed as an operation (pieces no
/// shorter than `bound` are never handed here).
pub open spec fn parse_pieces(pieces: Seq<Seq<char>>, bound: nat) -> Result<Seq<TokenV>, Seq<char>>
    decreases bound, 0int, pieces.len(),
{
    if pieces.len() == 0 {
        Ok(seq![])
    } else {
        match parse_pieces(pieces.drop_last(), bound) {
            Ok(items) => {
                if pieces.last().len() < bound {
                    match parse_operation_spec(pieces.last()) {
                        Ok(op) => Ok(items.push(collection_item(op))),
                        Err(e) => Err(e),
                    }
                } else {
                    Err(seq![])
                }
            },
            Err(e) => Err(e),
        }
    }
}

/// What `parse_operation(s)` returns: the tokens of `s` in operator order.
pub open spec fn parse_operation_spec(s: Seq<char>) -> Result<Seq<TokenV>, Seq<char>>
    decreases s.len(), 3int, 0int,
{
    op_scan(s, 0, initial_state())
}


// ---------------------------------------------------------------------------
// The tokenizer, executable
// ---------------------------------------------------------------------------

/// The tokenizer's state as the running code holds it.
pub struct OpCursor {
    pub last: ParseTokenType,
    pub ts: u128,
    pub te: u128,
    pub paren: usize,
    pub coll: usize,
    pub tokens: Vec<Token>,
    pub acc: Token,
    pub skip: bool,
}

impl OpCursor {
    pub open spec fn model(&self) -> OpState {
        OpState {
            last: self.last,
            ts: self.ts as int,
            te: self.te as int,
            paren: self.paren as nat,
            coll: self.coll as nat,
            tokens: tokens_view(self.tokens@),
            acc: self.acc@,
            skip: self.skip,
        }
    }
}

/// The cursor's bounds at the start of character `i`.
pub open spec fn cursor_ok(c: OpCursor, i: int) -> bool {
    &&& c.ts <= i + 2
    &&& c.te <= i + 2
    &&& c.paren <= i
    &&& c.coll <= i
    &&& (c.last == P::Collection || c.last == P::Parenth) ==> c.ts >= 1
}

/// A step's outcome, as the running code holds it.
pub enum StepOut {
    Go(OpCursor),
    Fall(OpCursor),
}

pub open spec fn step_matches(r: Result<StepOut, String>, s: OpStep, i: int) -> bool {
    match (r, s) {
        (Err(e), OpStep::Stop(m)) => e@ == m,
        (Ok(StepOut::Go(c)), OpStep::Go(x)) => c.model() == x && cursor_ok(c, i + 1),
        (Ok(StepOut::Fall(c)), OpStep::Fall(x)) => c.model() == x && cursor_ok(c, i + 1),
        _ => false,
    }
}

pub open spec fn ops_result_view(r: Result<Vec<Token>, String>) -> Result<Seq<TokenV>, Seq<char>> {
    match r {
        Ok(v) => Ok(tokens_view(v@)),
        Err(e) => Err(e@),
    }
}

fn char_type_of(c: char) -> (t: ParseTokenType)
    ensures
        t == char_type(c),
{
    if crate::text::is_alphanumeric(c) || c == '_' {
        P::Value
    } else if c == '"' {
        P::StringLiteral
    } else if c == '\'' {
        P::CharLiteral
    } else if crate::utility::operations_contains(c) {
        P::Operator
    } else if c == '(' || c == ')' {
        P::Parenth
    } else if c == '[' || c == ']' {
        P::Collection
    } else if c == '.' {
        P::Accessor
    } else {
        P::Blank
    }
}

fn clamped_vec(v: &Vec<char>, a: u128, b: u128) -> (r: Vec<char>)
    ensures
        r@ == clamped(v@, a as int, b as int),
{
    let n = v.len();
    let lo: usize = if a > n as u128 {
        n
    } else {
        a as usize
    };
    let hi: usize = if b < lo as u128 {
        lo
    } else if b > n as u128 {
        n
    } else {
        b as usize
    };
    crate::text::slice_vec(v, lo, hi)
}

fn with_acc_exec(acc: &Token, t: Token) -> (r: Token)
    ensures
        r@ == with_acc(acc@, t@),
{
    match acc {
        Token::Null => t,
        _ => handle_accessor(acc.duplicate(), Box::new(t)),
    }
}

fn all_numeric_of(v: &Vec<char>) -> (r: bool)
    ensures
        r == all_numeric(v@),
{
    let mut i: usize = 0;
    while i < v.len()
        invariant
            i <= v.len(),
            forall|k: int| 0 <= k < i ==> crate::text::numeric(#[trigger] v@[k]),
        decreases v.len() - i,
    {
        if !crate::text::is_numeric(v[i]) {
            return false;
        }
        i = i + 1;
    }
    true
}

fn continues_exec(last: ParseTokenType, cur: ParseTokenType, text: &Vec<char>) -> (r: Result<bool, String>)
    ensures
        match (r, continues(last, cur, text@)) {
            (Ok(a), Ok(b)) => a == b,
            (Err(e), Err(m)) => e@ == m,
            _ => false,
        },
{
    match (last, cur) {
        (P::Value, P::StringLiteral) | (P::Value, P::CharLiteral) => Err(
            String::from_str("Unexpected literal after value type."),
        ),
        (P::Value, P::Collection) => Err(String::from_str("Unexpected collection after value type.")),
        (P::Value, P::Operator) | (P::Value, P::Parenth) => Ok(false),
        (P::Value, P::Accessor) => Ok(all_numeric_of(text)),
        (P::Operator, P::Value) | (P::Operator, P::StringLiteral) | (P::Operator, P::CharLiteral)
        | (P::Operator, P::Collection) | (P::Operator, P::Parenth) => Ok(false),
        (P::StringLiteral, P::StringLiteral) | (P::CharLiteral, P::CharLiteral) => Ok(false),
        (P::Collection, P::Collection) | (P::Parenth, P::Parenth) | (P::Call, P::Parenth) => Ok(false),
        (P::Accessor, P::Accessor) | (P::Accessor, P::Collection) | (P::Accessor, P::Operator)
        | (P::Accessor, P::Value) | (P::Accessor, P::Parenth) => Ok(false),
        _ => Ok(true),
    }
}

fn push_token(tokens: Vec<Token>, t: Token) -> (r: Vec<Token>)
    ensures
        tokens_view(r@) == tokens_view(tokens@).push(t@),
{
    let ghost before = tokens@;
    let mut tokens = tokens;
    tokens.push(t);
    proof {
        lemma_tokens_view_push(before, t);
    }
    tokens
}

fn op_bottom_exec(v: &Vec<char>, i: usize, st: OpCursor) -> (r: OpCursor)
    requires
        i < v.len(),
        cursor_ok(st, i as int) || cursor_ok(st, i + 1),
        st.last == P::Blank || i == v.len() - 1,
    ensures
        r.model() == op_bottom(v@, i as int, st.model()),
        cursor_ok(st, i + 1) ==> cursor_ok(r, i + 1),
        st.last == P::Blank ==> cursor_ok(r, i + 1),
{
    let n = v.len();
    let c = crate::text::char_at(v, i);
    let cur = char_type_of(c);
    if cur == P::Value {
        let tokens = if i == n - 1 {
            let value = clamped_vec(v, st.ts, i as u128 + 1);
            let t = parse_token_value(&value, false, false);
            let t = with_acc_exec(&st.acc, t);
            push_token(st.tokens, t)
        } else {
            st.tokens
        };
        OpCursor { last: P::Value, tokens, ts: i as u128, te: i as u128 + 1, ..st }
    } else if cur == P::Collection {
        OpCursor { last: P::Collection, ts: i as u128 + 1, te: i as u128 + 2, ..st }
    } else if cur == P::StringLiteral {
        OpCursor { last: P::StringLiteral, ts: i as u128 + 1, te: i as u128 + 2, ..st }
    } else if cur == P::CharLiteral {
        OpCursor { last: P::CharLiteral, ts: i as u128 + 1, te: i as u128 + 2, ..st }
    } else if cur == P::Operator {
        OpCursor { last: P::Operator, ts: i as u128, te: i as u128 + 1, ..st }
    } else if c == '(' {
        OpCursor { last: P::Parenth, ts: i as u128 + 1, te: i as u128 + 2, ..st }
    } else if cur == P::Accessor {
        OpCursor { last: P::Accessor, ts: i as u128 + 1, te: i as u128 + 1, ..st }
    } else {
        st
    }
}

fn op_finish_value_exec(v: &Vec<char>, i: usize, st: OpCursor) -> (r: Result<StepOut, String>)
    requires
        i < v.len(),
        cursor_ok(st, i as int),
    ensures
        step_matches(r, op_finish_value(v@, i as int, st.model()), i as int),
{
    let n = v.len();
    let cur = char_type_of(crate::text::char_at(v, i));
    let is_literal = st.last == P::StringLiteral;
    let is_char = st.last == P::CharLiteral;
    let used_accessor = cur == P::Accessor;
    if cur == P::Parenth && st.last != P::StringLiteral && st.last != P::CharLiteral && st.last
        != P::Collection {
        return Ok(StepOut::Fall(OpCursor { last: P::Call, ..st }));
    }
    let value = clamped_vec(v, st.ts, st.te);
    if is_char && value.len() < 1 {
        return Err(String::from_str("Tried to create a char type with no characters."));
    } else if is_char && value.len() > 1 {
        return Err(String::from_str("Too many characters to create a valid char type."));
    }
    let token = parse_token_value(&value, is_literal, is_char);
    let dot_after = i + 1 < n && v[i + 1] == '.';
    let st2 = if (used_accessor || (is_literal && dot_after)) && !is_char {
        if is_literal {
            OpCursor { acc: token, last: P::Accessor, ts: i as u128 + 2, te: i as u128 + 2, skip: true, ..st }
        } else {
            OpCursor { acc: token, last: P::Accessor, ts: i as u128 + 1, te: i as u128 + 1, ..st }
        }
    } else {
        let tokens = push_token(st.tokens, token);
        OpCursor { tokens, last: P::Blank, ts: i as u128, ..st }
    };
    if is_literal || is_char || used_accessor {
        Ok(StepOut::Go(st2))
    } else {
        Ok(StepOut::Fall(st2))
    }
}

fn op_accessor_exec(v: &Vec<char>, i: usize, st: OpCursor) -> (r: Result<StepOut, String>)
    requires
        i < v.len(),
        cursor_ok(st, i as int),
        st.last == P::Accessor,
    ensures
        step_matches(r, op_accessor(v@, i as int, st.model()), i as int),
{
    let n = v.len();
    let cur = char_type_of(crate::text::char_at(v, i));
    let was_last = i == n - 1;
    let te2 = if was_last {
        st.te + 1
    } else {
        st.te
    };
    let value = clamped_vec(v, st.ts, te2);
    let inner = parse_token_value(&value, false, false);
    let token = handle_accessor(st.acc.duplicate(), Box::new(inner));
    if cur == P::Accessor {
        Ok(StepOut::Go(OpCursor { acc: token, ts: i as u128 + 1, te: i as u128 + 1, ..st }))
    } else if cur == P::Value {
        Ok(StepOut::Fall(OpCursor { te: i as u128 + 1, ..st }))
    } else if cur == P::Parenth {
        Ok(StepOut::Fall(OpCursor { te: te2, last: P::Call, ..st }))
    } else {
        let tokens = push_token(st.tokens, token);
        let st2 = OpCursor { te: te2, tokens, acc: Token::Null, last: P::Blank, ts: i as u128, ..st };
        if was_last {
            Ok(StepOut::Go(st2))
        } else {
            Ok(StepOut::Fall(st2))
        }
    }
}

fn op_call_exec(v: &Vec<char>, i: usize, st: OpCursor) -> (r: Result<StepOut, String>)
    requires
        i < v.len(),
        cursor_ok(st, i as int),
        st.last == P::Call,
    ensures
        step_matches(r, op_call(v@, i as int, st.model()), i as int),
{
    let n = v.len();
    let c = v[i];
    if c == '(' {
        Ok(StepOut::Fall(OpCursor { paren: st.paren + 1, ..st }))
    } else if c == ')' {
        if st.paren == 0 {
            let call = clamped_vec(v, st.ts, i as u128);
            match crate::text::split_once_index(&call, '(') {
                Some(k) => {
                    let name = crate::text::string_of(&call, 0, k);
                    let args = crate::text::string_of(&call, k + 1, call.len());
                    let t = with_acc_exec(&st.acc, Token::Call(name, args));
                    if i + 1 < n && v[i + 1] == '.' {
                        Ok(StepOut::Fall(OpCursor { acc: t, last: P::Blank, ts: i as u128 + 2, te: i as u128 + 3, ..st }))
                    } else {
                        let tokens = push_token(st.tokens, t);
                        Ok(StepOut::Fall(OpCursor { tokens, last: P::Blank, ts: i as u128, ..st }))
                    }
                },
                None => Ok(StepOut::Fall(st)),
            }
        } else {
            Ok(StepOut::Fall(OpCursor { paren: st.paren - 1, ..st }))
        }
    } else {
        Ok(StepOut::Fall(st))
    }
}

fn op_collection_done_exec(v: &Vec<char>, i: usize, st: OpCursor, items: Vec<Token>) -> (r: OpCursor)
    requires
        i < v.len(),
        cursor_ok(st, i as int),
    ensures
        r.model() == op_collection_done(v@, i as int, st.model(), tokens_view(items@)),
        cursor_ok(r, i + 1),
{
    let n = v.len();
    let token = Token::Collection(items);
    if n > i + 1 && v[i + 1] == '.' {
        OpCursor { acc: token, last: P::Blank, ts: i as u128 + 2, te: i as u128 + 3, ..st }
    } else {
        let tokens = push_token(st.tokens, token);
        OpCursor { tokens, last: P::Blank, ts: i as u128, ..st }
    }
}

/// A failing prefix makes the whole list of pieces fail the same way.
pub proof fn lemma_parse_pieces_err(ps: Seq<Seq<char>>, bound: nat, j: int)
    requires
        0 <= j <= ps.len(),
        parse_pieces(ps.subrange(0, j), bound) is Err,
    ensures
        parse_pieces(ps, bound) == parse_pieces(ps.subrange(0, j), bound),
    decreases ps.len(),
{
    if j < ps.len() {
        assert(ps.drop_last().subrange(0, j) =~= ps.subrange(0, j));
        lemma_parse_pieces_err(ps.drop_last(), bound, j);
    } else {
        assert(ps.subrange(0, j) =~= ps);
    }
}

/// Parses each collection piece as an operation.
fn parse_pieces_exec(pieces: &Vec<String>, bound: usize) -> (r: Result<Vec<Token>, String>)
    requires
        forall|k: int| 0 <= k < pieces@.len() ==> (#[trigger] pieces@[k])@.len() < bound,
    ensures
        ops_result_view(r) == parse_pieces(crate::utility::strings_view(pieces@), bound as nat),
    decreases bound, 0int, 0int,
{
    let ghost ps = crate::utility::strings_view(pieces@);
    let mut items: Vec<Token> = Vec::new();
    let mut k: usize = 0;
    assert(ps.subrange(0, 0) =~= seq![]);
    assert(tokens_view(items@) =~= seq![]);
    while k < pieces.len()
        invariant
            k <= pieces@.len(),
            ps == crate::utility::strings_view(pieces@),
                forall|j: int| 0 <= j < pieces@.len() ==> (#[trigger] pieces@[j])@.len() < bound,
            parse_pieces(ps.subrange(0, k as int), bound as nat) == Ok::<Seq<TokenV>, Seq<char>>(
                tokens_view(items@),
            ),
        decreases pieces@.len() - k,
    {
        let piece = chars_of(pieces[k].as_str());
        assert(ps[k as int] == pieces@[k as int]@);
        assert(ps.subrange(0, k + 1).drop_last() =~= ps.subrange(0, k as int));
        assert(ps.subrange(0, k + 1).last() == ps[k as int]);
        match parse_operation_chars(&piece) {
            Ok(op) => {
                let mut op = op;
                proof {
                    lemma_tokens_view_index(op@);
                }
                let item = if op.len() == 0 {
                    Token::Null
                } else if op.len() == 1 {
                    op.pop().unwrap()
                } else {
                    Token::Operation(op)
                };
                items = push_token(items, item);
            },
            Err(e) => {
                proof {
                    lemma_parse_pieces_err(ps, bound as nat, k + 1);
                }
                return Err(e);
            },
        }
        k = k + 1;
    }
    assert(ps.subrange(0, pieces@.len() as int) =~= ps);
    Ok(items)
}

fn op_top_exec(v: &Vec<char>, i: usize, st: OpCursor) -> (r: Result<StepOut, String>)
    requires
        i < v.len(),
        cursor_ok(st, i as int),
        st.last != P::Blank,
    ensures
        step_matches(r, op_top(v@, i as int, st.model()), i as int),
    decreases v.len(), 1int, 0int,
{
    let n = v.len();
    let c = v[i];
    let cur = char_type_of(crate::text::char_at(v, i));
    if i != n - 1 {
        let text = clamped_vec(v, st.ts, st.te);
        match continues_exec(st.last, cur, &text) {
            Err(e) => {
                return Err(e);
            },
            Ok(true) => {
                return Ok(StepOut::Go(OpCursor { te: i as u128 + 1, ..st }));
            },
            Ok(false) => {},
        }
    }
    if (st.last == P::Value && cur != P::Value) || st.last == P::StringLiteral || st.last
        == P::CharLiteral {
        op_finish_value_exec(v, i, st)
    } else if st.last == P::Operator && cur != P::Operator {
        let found = clamped_vec(v, st.ts, st.te);
        if crate::utility::is_operation_of(&found) {
            let tokens = push_token(st.tokens, Token::Operator(crate::text::string_of_all(&found)));
            Ok(StepOut::Fall(OpCursor { tokens, last: P::Blank, ts: i as u128, ..st }))
        } else {
            let mut e = crate::text::string_of_all(&found);
            e.append(" Operation was not recognized.");
            Err(e)
        }
    } else if st.last == P::Collection {
        if c == '[' {
            Ok(StepOut::Fall(OpCursor { coll: st.coll + 1, ..st }))
        } else if c == ']' {
            if st.coll == 0 {
                let text = clamped_vec(v, st.ts, st.te);
                proof {
                    crate::utility::lemma_split_by_short(text@, ',');
                }
                match crate::utility::split_by_chars(&text, ',') {
                    Ok(pieces) => {
                        proof {
                            let ps = crate::utility::strings_view(pieces@);
                            assert forall|k: int| 0 <= k < pieces@.len() implies (
                            #[trigger] pieces@[k])@.len() < n by {
                                assert(ps[k] == pieces@[k]@);
                            }
                        }
                        match parse_pieces_exec(&pieces, n) {
                            Ok(items) => Ok(StepOut::Go(op_collection_done_exec(v, i, st, items))),
                            Err(e) => Err(e),
                        }
                    },
                    Err(e) => Err(e),
                }
            } else {
                Ok(StepOut::Fall(OpCursor { coll: st.coll - 1, ..st }))
            }
        } else {
            Ok(StepOut::Fall(st))
        }
    } else if st.last == P::Parenth {
        if c == '(' {
            Ok(StepOut::Fall(OpCursor { paren: st.paren + 1, ..st }))
        } else if c == ')' {
            if st.paren == 0 {
                let inner = clamped_vec(v, st.ts, st.te);
                match parse_operation_chars(&inner) {
                    Ok(op) => {
                        let tokens = push_token(st.tokens, Token::Operation(op));
                        Ok(StepOut::Fall(OpCursor { tokens, last: P::Blank, ts: i as u128, ..st }))
                    },
                    Err(e) => Err(e),
                }
            } else {
                Ok(StepOut::Fall(OpCursor { paren: st.paren - 1, ..st }))
            }
        } else {
            Ok(StepOut::Fall(st))
        }
    } else if st.last == P::Call {
        op_call_exec(v, i, st)
    } else if st.last == P::Accessor {
        op_accessor_exec(v, i, st)
    } else {
        Ok(StepOut::Fall(st))
    }
}

fn op_step_exec(v: &Vec<char>, i: usize, st: OpCursor) -> (r: Result<StepOut, String>)
    requires
        i < v.len(),
        cursor_ok(st, i as int),
    ensures
        match (r, op_step(v@, i as int, st.model())) {
            (Err(e), OpStep::Stop(m)) => e@ == m,
            (Ok(StepOut::Go(c)), OpStep::Go(x)) => c.model() == x && cursor_ok(c, i + 1),
            (Ok(StepOut::Fall(c)), OpStep::Fall(x)) => c.model() == x && cursor_ok(c, i + 1),
            _ => false,
        },
    decreases v.len(), 1int, 1int,
{
    if st.skip {
        return Ok(StepOut::Go(OpCursor { skip: false, ..st }));
    }
    let r = if st.last != P::Blank {
        op_top_exec(v, i, st)
    } else {
        Ok(StepOut::Fall(st))
    };
    match r {
        Ok(StepOut::Fall(x)) => {
            if x.last == P::Blank || i == v.len() - 1 {
                Ok(StepOut::Go(op_bottom_exec(v, i, x)))
            } else {
                Ok(StepOut::Go(x))
            }
        },
        _ => r,
    }
}

/// Tokenizes an operation given as characters.
pub fn parse_operation_chars(v: &Vec<char>) -> (r: Result<Vec<Token>, String>)
    requires
    ensures
        ops_result_view(r) == parse_operation_spec(v@),
    decreases v.len(), 3int, 0int,
{
    let n = v.len();
    let mut st = OpCursor {
        last: P::Blank,
        ts: 0,
        te: 0,
        paren: 0,
        coll: 0,
        tokens: Vec::new(),
        acc: Token::Null,
        skip: false,
    };
    assert(st.model() =~= initial_state()) by {
        assert(tokens_view(st.tokens@) =~= seq![]);
    }
    let mut i: usize = 0;
    while i < n
        invariant
            n == v.len(),
            i <= n,
            cursor_ok(st, i as int),
            op_scan(v@, i as int, st.model()) == parse_operation_spec(v@),
        decreases n - i,
    {
        match op_step_exec(v, i, st) {
            Err(e) => {
                return Err(e);
            },
            Ok(StepOut::Go(x)) => {
                st = x;
            },
            Ok(StepOut::Fall(x)) => {
                st = x;
            },
        }
        i = i + 1;
    }
    if st.paren > 0 {
        return Err(String::from_str("Parenthesis were not closed during operation."));
    }
    Ok(handle_populating_operation(st.tokens))
}

/// Tokenizes an operation and puts its tokens in operator order.
///
/// Values, literals, operators, calls, collections, parenthesised inner
/// operations and accessors are read left to right; the result is ordered by
/// `handle_populating_operation`.
pub fn parse_operation(string: &str) -> (r: Result<Vec<Token>, String>)
    ensures
        ops_result_view(r) == parse_operation_spec(string@),
{
    let v = chars_of(string);
    parse_operation_chars(&v)
}

} // verus!
