//! Lines into expression lists: classifying a line, and grouping lines into
//! scopes, assignments, calls and library includes.
use vstd::prelude::*;
use crate::text::{
    alphanumeric, chars_of, ends_with, is_alphanumeric, lowercase, push_char, starts_with, str_is,
    to_lowercase, trim_start, vec_ends_with, vec_starts_with};
use crate::utility::{ExpressionType, is_operation_char, operations_contains, is_scope_type, strings_view};
use crate::types::{includes_unique, 
    internals_view, includes_view, multi_view, single_view, names_view, ExpressionList, ExpressionListType, ExpressionListV, MultiOp, MultiV, SingleOp, SingleV, Token,
    TokenV, tokens_view};
use crate::error::{ErrorManager, ErrorV, errors_view};
use crate::text::{split_once, split_once_index, string_of, trim_start_index};
use crate::parser::operation_parser::{parse_operation};
use crate::parser::variable_parser::parse_var;
use crate::parser::call_parser::parse_call;
use crate::parser::scope_parser::{parse_scope};
use crate::parser::operation_parser::parse_operation_spec;
use crate::parser::variable_parser::parse_var_spec;
use crate::parser::call_parser::parse_call_spec;
use crate::parser::scope_parser::parse_scope_spec;

verus! {

pub open spec fn unrecognized_message(c: char) -> Seq<char> {
    "Failed to recognize character: '"@.push(c) + "'"@
}

pub open spec fn unknown_expression_message() -> Seq<char> {
    "Unkown expression."@
}

/// The kind of expression a buffer (already lower-cased) opens, if any;
/// `next_is_i` tells whether the character after the buffer is `i`.
pub open spec fn keyword_type(lb: Seq<char>, next_is_i: bool) -> Option<ExpressionType> {
    if lb == "loop"@ {
        Some(ExpressionType::Loop)
    } else if lb == "if"@ {
        Some(ExpressionType::If)
    } else if lb == "elif"@ || lb == "elseif"@ {
        Some(ExpressionType::Elif)
    } else if lb == "else"@ {
        if next_is_i {
            None
        } else {
            Some(ExpressionType::Else)
        }
    } else if lb == "return"@ {
        Some(ExpressionType::Return)
    } else if lb == "use"@ || lb == "import"@ || lb == "include"@ || lb == "using"@ {
        Some(ExpressionType::Library)
    } else {
        None
    }
}

/// One character of the classification scan: either the answer, or the
/// buffer of name characters and whether a `(` has been seen.
pub enum ScanStep {
    Done(Result<ExpressionType, Seq<char>>),
    Next(Seq<char>, bool),
}

pub open spec fn scan_char(c: char, buffer: Seq<char>, started: bool) -> ScanStep {
    if !started {
        if alphanumeric(c) || c == '.' || c == '_' || c == '!' {
            ScanStep::Next(buffer.push(c), false)
        } else if c == '=' {
            ScanStep::Done(Ok(ExpressionType::Assignment))
        } else if c == '(' {
            ScanStep::Next(buffer, true)
        } else if is_operation_char(c) || c == '"' || c == '\'' || c == ')' {
            ScanStep::Next(buffer, false)
        } else {
            ScanStep::Done(Err(unrecognized_message(c)))
        }
    } else if c == ':' {
        ScanStep::Done(Ok(ExpressionType::Function))
    } else {
        ScanStep::Next(buffer, true)
    }
}

/// The classification scan from position `i`.
///
/// Name characters (alphanumeric, `.`, `_`, `!`) gather in a buffer until a
/// `(`; after each character the lower-cased buffer is checked for a keyword.
/// An `=` before any `(` makes an assignment, a `:` after a `(` a function
/// definition, and a `(` without a following `:` a call.
pub open spec fn scan_type(s: Seq<char>, i: nat, buffer: Seq<char>, started: bool) -> Result<ExpressionType, Seq<char>>
    decreases s.len() - i,
{
    if i >= s.len() {
        if started {
            Ok(ExpressionType::Call)
        } else if ends_with(s, "++"@) || ends_with(s, "--"@) {
            Ok(ExpressionType::Assignment)
        } else {
            Err(unknown_expression_message())
        }
    } else {
        match scan_char(s[i as int], buffer, started) {
            ScanStep::Done(r) => r,
            ScanStep::Next(b, st) => {
                match keyword_type(lowercase(b), i + 1 < s.len() && s[i + 1 as int] == 'i') {
                    Some(t) => Ok(t),
                    None => scan_type(s, i + 1, b, st),
                }
            },
        }
    }
}

/// What `get_expression_type(s)` returns.
pub open spec fn expression_type_spec(s: Seq<char>) -> Result<ExpressionType, Seq<char>> {
    if s.len() == 0 {
        Ok(ExpressionType::Empty)
    } else if lowercase(s) == "break"@ {
        Ok(ExpressionType::Break)
    } else if lowercase(s) == "continue"@ {
        Ok(ExpressionType::Continue)
    } else if lowercase(s) == "end"@ {
        Ok(ExpressionType::End)
    } else if starts_with(s, "//"@) || starts_with(s, "#"@) {
        Ok(ExpressionType::Comment)
    } else {
        scan_type(s, 0, Seq::empty(), false)
    }
}

/// The keyword check on the gathered buffer.
fn keyword_of(buffer: &String, next_is_i: bool) -> (r: Option<ExpressionType>)
    ensures
        r == keyword_type(lowercase(buffer@), next_is_i),
{
    let lower = to_lowercase(buffer.as_str());
    let l = lower.as_str();
    if str_is(l, "loop") {
        Some(ExpressionType::Loop)
    } else if str_is(l, "if") {
        Some(ExpressionType::If)
    } else if str_is(l, "elif") || str_is(l, "elseif") {
        Some(ExpressionType::Elif)
    } else if str_is(l, "else") {
        if next_is_i {
            None
        } else {
            Some(ExpressionType::Else)
        }
    } else if str_is(l, "return") {
        Some(ExpressionType::Return)
    } else if str_is(l, "use") || str_is(l, "import") || str_is(l, "include") || str_is(l, "using") {
        Some(ExpressionType::Library)
    } else {
        None
    }
}

/// Classifies one line (without its line-number prefix).
pub fn get_expression_type(string: &str) -> (r: Result<ExpressionType, String>)
    ensures
        match (r, expression_type_spec(string@)) {
            (Ok(t), Ok(st)) => t == st,
            (Err(e), Err(se)) => e@ == se,
            _ => false,
        },
{
    let v = chars_of(string);
    let n = v.len();
    if n == 0 {
        return Ok(ExpressionType::Empty);
    }
    let lower = to_lowercase(string);
    let l = lower.as_str();
    if str_is(l, "break") {
        return Ok(ExpressionType::Break);
    } else if str_is(l, "continue") {
        return Ok(ExpressionType::Continue);
    } else if str_is(l, "end") {
        return Ok(ExpressionType::End);
    }
    let slashes = chars_of("//");
    let hash = chars_of("#");
    if vec_starts_with(&v, &slashes) || vec_starts_with(&v, &hash) {
        return Ok(ExpressionType::Comment);
    }
    let mut buffer = String::new();
    let mut started = false;
    let mut i: usize = 0;
    while i < n
        invariant
            n == v.len(),
            v@ == string@,
            i <= n,
            scan_type(v@, i as nat, buffer@, started) == scan_type(v@, 0, Seq::empty(), false),
            expression_type_spec(string@) == scan_type(v@, 0, Seq::empty(), false),
        decreases n - i,
    {
        let c = v[i];
        if !started {
            if is_alphanumeric(c) || c == '.' || c == '_' || c == '!' {
                push_char(&mut buffer, c);
            } else if c == '=' {
                return Ok(ExpressionType::Assignment);
            } else if c == '(' {
                started = true;
            } else if operations_contains(c) || c == '"' || c == '\'' || c == ')' {
            } else {
                let mut e = String::from_str("Failed to recognize character: '");
                push_char(&mut e, c);
                e.append("'");
                return Err(e);
            }
        } else if c == ':' {
            return Ok(ExpressionType::Function);
        }
        let next_is_i = i + 1 < n && v[i + 1] == 'i';
        match keyword_of(&buffer, next_is_i) {
            Some(t) => {
                return Ok(t);
            },
            None => {},
        }
        i = i + 1;
    }
    if started {
        return Ok(ExpressionType::Call);
    }
    let plus = chars_of("++");
    let minus = chars_of("--");
    if vec_ends_with(&v, &plus) || vec_ends_with(&v, &minus) {
        return Ok(ExpressionType::Assignment);
    }
    Err(String::from_str("Unkown expression."))
}

/// The statement after a `return` keyword.
pub open spec fn return_statement(s: Seq<char>) -> Seq<char> {
    trim_start(s, "return"@)
}

/// The operation text of a `return` line.
pub fn parse_return(statement: &str) -> (r: Result<String, String>)
    ensures
        r matches Ok(s) && s@ == return_statement(statement@),
{
    let v = chars_of(statement);
    let kw = chars_of("return");
    let k = crate::text::trim_start_index(&v, &kw);
    Ok(crate::text::string_of(&v, k, v.len()))
}


// ---------------------------------------------------------------------------
// Expression lists
// ---------------------------------------------------------------------------

/// The expression of a line: what follows its `N)` line-number prefix.
pub open spec fn line_exp(line: Seq<char>) -> Seq<char> {
    match split_once(line, ')') {
        Some((_, exp)) => exp,
        None => line,
    }
}

/// The expression of line `k`, or of line `fallback` where there is no line `k`.
pub open spec fn line_text(lines: Seq<Seq<char>>, k: int, fallback: int) -> Seq<char> {
    if 0 <= k < lines.len() {
        line_exp(lines[k])
    } else {
        line_exp(lines[fallback])
    }
}

pub open spec fn not_closed_message(text: Seq<char>) -> Seq<char> {
    "Scope starting at '"@ + text + "' was not closed with an 'end' statement."@
}

pub open spec fn not_closed_inside_message(text: Seq<char>) -> Seq<char> {
    "Scope starting at '"@ + text + "' was not closed with an 'end' statement internally."@
}

/// The library an include line names.
pub open spec fn library_name(exp: Seq<char>) -> Seq<char> {
    let kw = if starts_with(exp, "use"@) {
        "use"@
    } else if starts_with(exp, "using"@) {
        "using"@
    } else if starts_with(exp, "import"@) {
        "import"@
    } else if starts_with(exp, "include"@) {
        "include"@
    } else {
        Seq::empty()
    };
    trim_start(exp, kw)
}

/// Index of the include of library `key`, if any.
pub open spec fn find_include(v: Seq<(Seq<char>, usize)>, key: Seq<char>) -> Option<int>
    decreases v.len(),
{
    if v.len() == 0 {
        None
    } else if v.last().0 == key {
        Some(v.len() - 1)
    } else {
        find_include(v.drop_last(), key)
    }
}

/// `HashMap::insert` on the includes: a library already there gets the new line.
pub open spec fn insert_include(v: Seq<(Seq<char>, usize)>, key: Seq<char>, line: usize) -> Seq<(Seq<char>, usize)> {
    match find_include(v, key) {
        Some(k) => v.update(k, (key, line)),
        None => v.push((key, line)),
    }
}

proof fn lemma_find_include(v: Seq<(Seq<char>, usize)>, key: Seq<char>)
    ensures
        find_include(v, key) matches Some(k) ==> 0 <= k < v.len() && v[k].0 == key,
        find_include(v, key) is None ==> forall|j: int| 0 <= j < v.len() ==> v[j].0 != key,
    decreases v.len(),
{
    if v.len() > 0 {
        lemma_find_include(v.drop_last(), key);
        if find_include(v, key) is None {
            assert forall|j: int| 0 <= j < v.len() implies v[j].0 != key by {
                if j < v.len() - 1 {
                    assert(v.drop_last()[j] == v[j]);
                }
            }
        }
    }
}

/// Including a library keeps every library included once, and the library
/// is then included, at the line of this include.
pub proof fn lemma_insert_include_unique(v: Seq<(Seq<char>, usize)>, key: Seq<char>, line: usize)
    requires
        includes_unique(v),
    ensures
        includes_unique(insert_include(v, key, line)),
        exists|k: int| 0 <= k < insert_include(v, key, line).len() && #[trigger] insert_include(v, key, line)[k] == (key, line),
        insert_include(v, key, line).len() <= v.len() + 1,
{
    lemma_find_include(v, key);
    let w = insert_include(v, key, line);
    match find_include(v, key) {
        Some(k) => {
            assert(w[k] == (key, line));
        },
        None => {
            assert(w[v.len() as int] == (key, line));
        },
    }
}

/// The operations of a call's arguments, and the errors of those that fail.
pub open spec fn parse_args(args: Seq<Seq<char>>) -> (Seq<Seq<TokenV>>, Seq<Seq<char>>)
    decreases args.len(),
{
    if args.len() == 0 {
        (seq![], seq![])
    } else {
        let (ops, errs) = parse_args(args.drop_last());
        match parse_operation_spec(args.last()) {
            Ok(op) => (ops.push(op), errs),
            Err(e) => (ops, errs.push(e)),
        }
    }
}

/// The state of `parse_expressions` between two lines.
pub struct ExprState {
    pub order: Seq<ExpressionListType>,
    pub flag: bool,
    pub singles: Seq<SingleV>,
    pub multis: Seq<MultiV>,
    pub internals: Seq<(ExpressionListV, usize)>,
    pub includes: Seq<(Seq<char>, usize)>,
    pub inside: bool,
    pub scope_start: int,
    pub scope_count: nat,
    pub scope_expr: ExpressionType,
    pub op_index: nat,
}

pub open spec fn expr_initial(in_expression: ExpressionType) -> ExprState {
    ExprState {
        order: seq![],
        flag: false,
        singles: seq![],
        multis: seq![],
        internals: seq![],
        includes: seq![],
        inside: false,
        scope_start: 0,
        scope_count: 0,
        scope_expr: in_expression,
        op_index: 0,
    }
}

pub open spec fn parse_errors(line: usize, msgs: Seq<Seq<char>>) -> Seq<ErrorV> {
    msgs.map_values(|m: Seq<char>| ErrorV::Parse(line, m))
}

/// A line outside any scope being gathered: its expression is parsed and
/// stored (or an error reported).
pub open spec fn expr_outside(
    lines: Seq<Seq<char>>,
    ls: usize,
    in_fn: bool,
    i: int,
    st: ExprState,
    t: ExpressionType,
    exp: Seq<char>,
) -> (ExprState, Seq<ErrorV>) {
    let line1 = (ls + i + 1) as usize;
    if is_scope_type(t) {
        let st2 = ExprState {
            scope_start: i,
            scope_expr: t,
            inside: true,
            order: st.order.push(ExpressionListType::Internal),
            flag: true,
            ..st
        };
        if i == lines.len() - 1 {
            (st2, seq![ErrorV::Parse(line1, not_closed_message(line_text(lines, ls + i, i)))])
        } else {
            (st2, seq![])
        }
    } else if t == ExpressionType::Return {
        if in_fn {
            match parse_operation_spec(trim_start(exp, "return"@)) {
                Ok(op) => (ExprState {
                    singles: st.singles.push(("return"@, seq![], op, (ls + i) as usize)),
                    order: st.order.push(ExpressionListType::Single),
                    flag: true,
                    op_index: st.op_index + 1,
                    ..st
                }, seq![]),
                Err(e) => (st, seq![ErrorV::Parse(line1, e)]),
            }
        } else {
            (st, seq![ErrorV::Parse(line1, "Return statement unexpected outside function definition."@)])
        }
    } else if t == ExpressionType::Assignment {
        match parse_var_spec(exp) {
            Ok((mods, name, value)) => match parse_operation_spec(value) {
                Ok(op) => (ExprState {
                    singles: st.singles.push((name, mods, op, line1)),
                    order: st.order.push(ExpressionListType::Single),
                    flag: true,
                    op_index: st.op_index + 1,
                    ..st
                }, seq![]),
                Err(e) => (st, seq![ErrorV::Parse(line1, e)]),
            },
            Err(e) => (st, seq![ErrorV::Parse(line1, e)]),
        }
    } else if t == ExpressionType::Call {
        if in_fn {
            match parse_call_spec(exp) {
                Ok((name, args)) => {
                    let (ops, errs) = parse_args(args);
                    (ExprState {
                        multis: st.multis.push((name, ops, line1)),
                        order: st.order.push(ExpressionListType::Multi),
                        flag: true,
                        op_index: st.op_index + 1,
                        ..st
                    }, parse_errors(line1, errs))
                },
                Err(e) => (st, seq![ErrorV::Parse(line1, e)]),
            }
        } else {
            (st, seq![ErrorV::Parse(line1, "Unexpected function call in script. Did you mean to call it inside a function?"@)])
        }
    } else if t == ExpressionType::Break || t == ExpressionType::Continue {
        let word = if t == ExpressionType::Break { "break"@ } else { "continue"@ };
        if st.scope_expr == ExpressionType::Loop {
            (ExprState {
                singles: st.singles.push((word, seq![], seq![], line1)),
                order: st.order.push(ExpressionListType::Single),
                flag: true,
                op_index: st.op_index + 1,
                ..st
            }, seq![])
        } else if t == ExpressionType::Break {
            (st, seq![ErrorV::Parse(line1, "Break statement used outside loop."@)])
        } else {
            (st, seq![ErrorV::Parse(line1, "Continue statement used outside loop."@)])
        }
    } else if t == ExpressionType::Library {
        if !in_fn {
            (ExprState {
                includes: insert_include(st.includes, library_name(exp), line1),
                order: st.order.push(ExpressionListType::Library),
                flag: true,
                ..st
            }, seq![])
        } else {
            (st, seq![ErrorV::Parse(line1, "Library includes are not allowed within a scope."@)])
        }
    } else if t == ExpressionType::End {
        (ExprState { flag: true, ..st }, seq![ErrorV::Parse(line1, "Too many 'end' statements are present. Are you missing a ':' after a function decleration?"@)])
    } else {
        (st, seq![])
    }
}

/// A line inside a scope being gathered: nested scopes are counted, and the
/// scope's `end` (or its `elif`/`else`) parses the gathered lines.
pub open spec fn expr_inside(lines: Seq<Seq<char>>, ls: usize, i: int, st: ExprState, t: ExpressionType) -> (ExprState, Seq<ErrorV>)
    decreases lines.len(), 1int, 0int,
{
    let count = if is_scope_type(t) { st.scope_count + 1 } else { st.scope_count };
    let st1 = ExprState { flag: true, scope_count: count, ..st };
    if t == ExpressionType::End || t == ExpressionType::Elif || t == ExpressionType::Else {
        if count == 0 {
            if 0 <= st.scope_start < i <= lines.len() {
                let sub = lines.subrange(st.scope_start + 1, i);
                let (inner, errs) = parse_expressions_spec(sub, (st.scope_start + 1 + ls) as usize, st.scope_expr, true);
                let header = line_exp(lines[st.scope_start]);
                let (info, errs2) = match parse_scope_spec(header, st.scope_expr) {
                    Ok(r) => (r, seq![]),
                    Err(e) => (inner.scope_info, seq![ErrorV::Parse((ls + st.scope_start) as usize, e)]),
                };
                let inner2 = ExpressionListV { scope_info: info, ..inner };
                let st2 = ExprState {
                    internals: st1.internals.push((inner2, (ls + st.scope_start + 1) as usize)),
                    op_index: st1.op_index + 1,
                    ..st1
                };
                let st3 = if t == ExpressionType::Elif || t == ExpressionType::Else {
                    ExprState { scope_start: i, scope_expr: t, ..st2 }
                } else {
                    ExprState { inside: false, scope_expr: ExpressionType::Empty, ..st2 }
                };
                (st3, errs + errs2)
            } else {
                (st1, seq![])
            }
        } else if t == ExpressionType::End {
            let st2 = ExprState { scope_count: (count - 1) as nat, ..st1 };
            if i == lines.len() - 1 {
                (st2, seq![ErrorV::Parse((ls + st.scope_start + 1) as usize, not_closed_inside_message(line_exp(lines[i])))])
            } else {
                (st2, seq![])
            }
        } else {
            (st1, seq![])
        }
    } else if i == lines.len() - 1 {
        (st1, seq![ErrorV::Parse((ls + i) as usize, not_closed_message(line_text(lines, ls + st.scope_start, st.scope_start)))])
    } else {
        (st1, seq![])
    }
}

/// `parse_expressions` at line `i`.
pub open spec fn expr_step(lines: Seq<Seq<char>>, ls: usize, in_fn: bool, i: int, st: ExprState) -> (ExprState, Seq<ErrorV>)
    decreases lines.len(), 1int, 1int,
{
    match split_once(lines[i], ')') {
        None => (st, seq![]),
        Some((_, exp)) => match expression_type_spec(exp) {
            Err(msg) => {
                if in_fn {
                    (st, seq![ErrorV::Parse((ls + i + 1) as usize, msg)])
                } else {
                    (st, seq![])
                }
            },
            Ok(t) => {
                let (st1, errs) = if st.inside {
                    expr_inside(lines, ls, i, st, t)
                } else {
                    expr_outside(lines, ls, in_fn, i, st, t, exp)
                };
                if st1.flag {
                    (ExprState { flag: false, ..st1 }, errs)
                } else {
                    (ExprState { order: st1.order.push(ExpressionListType::Null), ..st1 }, errs)
                }
            },
        },
    }
}

/// `parse_expressions` from line `i` on: the final state, and the errors reported.
pub open spec fn expr_scan(lines: Seq<Seq<char>>, ls: usize, in_fn: bool, i: int, st: ExprState) -> (ExprState, Seq<ErrorV>)
    decreases lines.len(), 2int, lines.len() - i,
{
    if i < 0 || i >= lines.len() {
        (st, seq![])
    } else {
        let (st2, errs) = expr_step(lines, ls, in_fn, i, st);
        let (st3, errs2) = expr_scan(lines, ls, in_fn, i + 1, st2);
        (st3, errs + errs2)
    }
}

/// What `parse_expressions` builds, and the errors it reports, in order.
pub open spec fn parse_expressions_spec(
    lines: Seq<Seq<char>>,
    ls: usize,
    in_expression: ExpressionType,
    in_fn: bool,
) -> (ExpressionListV, Seq<ErrorV>)
    decreases lines.len(), 3int, 0int,
{
    let (st, errs) = expr_scan(lines, ls, in_fn, 0, expr_initial(in_expression));
    (ExpressionListV {
        scope_info: (None, None),
        size: st.op_index as usize,
        line_start: ls,
        order: st.order,
        singles: st.singles,
        multis: st.multis,
        internals: st.internals,
        includes: st.includes,
    }, errs)
}


/// How many lines of kind `k` an order holds.
pub open spec fn count_kind(order: Seq<ExpressionListType>, k: ExpressionListType) -> nat
    decreases order.len(),
{
    if order.len() == 0 {
        0
    } else {
        count_kind(order.drop_last(), k) + if order.last() == k { 1nat } else { 0nat }
    }
}

proof fn lemma_count_push(order: Seq<ExpressionListType>, x: ExpressionListType, k: ExpressionListType)
    ensures
        count_kind(order.push(x), k) == count_kind(order, k) + if x == k { 1nat } else { 0nat },
{
    assert(order.push(x).drop_last() =~= order);
}

/// What a parsing state keeps in step: one operation index for each
/// return, assignment, loop control, call and inner scope stored, and one
/// entry in the order for each return, assignment, loop control and call.
pub open spec fn expr_counts(st: ExprState) -> bool {
    &&& st.op_index == st.singles.len() + st.multis.len() + st.internals.len()
    &&& count_kind(st.order, ExpressionListType::Single) == st.singles.len()
    &&& count_kind(st.order, ExpressionListType::Multi) == st.multis.len()
}

proof fn lemma_expr_step_counts(lines: Seq<Seq<char>>, ls: usize, in_fn: bool, i: int, st: ExprState)
    requires
        0 <= i < lines.len(),
        expr_counts(st),
    ensures
        expr_counts(expr_step(lines, ls, in_fn, i, st).0),
        expr_step(lines, ls, in_fn, i, st).0.op_index <= st.op_index + 1,
{
    let s = ExpressionListType::Single;
    let m = ExpressionListType::Multi;
    lemma_count_push(st.order, ExpressionListType::Internal, s);
    lemma_count_push(st.order, ExpressionListType::Internal, m);
    lemma_count_push(st.order, s, s);
    lemma_count_push(st.order, s, m);
    lemma_count_push(st.order, m, s);
    lemma_count_push(st.order, m, m);
    lemma_count_push(st.order, ExpressionListType::Library, s);
    lemma_count_push(st.order, ExpressionListType::Library, m);
    if let Some((_, exp)) = split_once(lines[i], ')') {
        if let Ok(t) = expression_type_spec(exp) {
            let st1 = if st.inside {
                expr_inside(lines, ls, i, st, t).0
            } else {
                expr_outside(lines, ls, in_fn, i, st, t, exp).0
            };
            assert(expr_counts(st1));
            lemma_count_push(st1.order, ExpressionListType::Null, s);
            lemma_count_push(st1.order, ExpressionListType::Null, m);
        }
    }
}

proof fn lemma_expr_scan_counts(lines: Seq<Seq<char>>, ls: usize, in_fn: bool, i: int, st: ExprState)
    requires
        expr_counts(st),
        0 <= i <= lines.len(),
    ensures
        expr_counts(expr_scan(lines, ls, in_fn, i, st).0),
        expr_scan(lines, ls, in_fn, i, st).0.op_index <= st.op_index + lines.len() - i,
    decreases lines.len() - i,
{
    if i < lines.len() {
        lemma_expr_step_counts(lines, ls, in_fn, i, st);
        lemma_expr_scan_counts(lines, ls, in_fn, i + 1, expr_step(lines, ls, in_fn, i, st).0);
    }
}

/// A parsed list's size counts its returns, assignments, loop controls,
/// calls and inner scopes; its order holds one `Single` entry for each
/// return, assignment or loop control and one `Multi` entry for each call.
pub proof fn lemma_parsed_counts(lines: Seq<Seq<char>>, ls: usize, in_expression: ExpressionType, in_fn: bool)
    requires
        lines.len() <= usize::MAX,
    ensures
        ({
            let v = parse_expressions_spec(lines, ls, in_expression, in_fn).0;
            &&& v.size == v.singles.len() + v.multis.len() + v.internals.len()
            &&& count_kind(v.order, ExpressionListType::Single) == v.singles.len()
            &&& count_kind(v.order, ExpressionListType::Multi) == v.multis.len()
            &&& v.line_start == ls
            &&& v.scope_info == (None::<Seq<char>>, None::<Seq<char>>)
        }),
{
    let st0 = expr_initial(in_expression);
    assert(expr_counts(st0));
    lemma_expr_scan_counts(lines, ls, in_fn, 0, st0);
}

// ---------------------------------------------------------------------------
// Expression lists, executable
// ---------------------------------------------------------------------------

/// The state of `parse_expressions` as the running code holds it.
pub struct ExprCursor {
    pub order: Vec<ExpressionListType>,
    pub flag: bool,
    pub singles: Vec<SingleOp>,
    pub multis: Vec<MultiOp>,
    pub internals: Vec<(ExpressionList, usize)>,
    pub includes: Vec<(String, usize)>,
    pub inside: bool,
    pub scope_start: usize,
    pub scope_count: usize,
    pub scope_expr: ExpressionType,
    pub op_index: usize,
}

impl ExprCursor {
    pub open spec fn model(&self) -> ExprState {
        ExprState {
            order: self.order@,
            flag: self.flag,
            singles: self.singles@.map_values(|x: SingleOp| single_view(x)),
            multis: self.multis@.map_values(|x: MultiOp| multi_view(x)),
            internals: internals_view(self.internals@),
            includes: includes_view(self.includes@),
            inside: self.inside,
            scope_start: self.scope_start as int,
            scope_count: self.scope_count as nat,
            scope_expr: self.scope_expr,
            op_index: self.op_index as nat,
        }
    }
}

/// Line `k` has an expression, and it is not empty.
pub open spec fn has_header(lines: Seq<Seq<char>>, k: int) -> bool {
    0 <= k < lines.len() && split_once(lines[k], ')') is Some && line_exp(lines[k]).len() > 0
}

/// The cursor's bounds before line `i`.
pub open spec fn expr_ok(c: ExprCursor, lines: Seq<Seq<char>>, i: int) -> bool {
    &&& c.op_index <= i
    &&& c.scope_count <= i
    &&& c.scope_start <= i
    &&& c.inside ==> c.scope_start < i && has_header(lines, c.scope_start as int)
}

pub proof fn lemma_internals_push(s: Seq<(ExpressionList, usize)>, x: (ExpressionList, usize))
    ensures
        internals_view(s.push(x)) == internals_view(s).push((x.0@, x.1)),
{
    assert(s.push(x).subrange(0, s.len() as int) =~= s);
}

fn line_exp_of(line: &String) -> (r: String)
    ensures
        r@ == line_exp(line@),
{
    let v = chars_of(line.as_str());
    match split_once_index(&v, ')') {
        Some(k) => string_of(&v, k + 1, v.len()),
        None => line.clone(),
    }
}

fn line_text_of(lines: &Vec<String>, k: usize, fallback: usize) -> (r: String)
    requires
        fallback < lines.len(),
    ensures
        r@ == line_text(strings_view(lines@), k as int, fallback as int),
{
    assert(strings_view(lines@)[fallback as int] == lines@[fallback as int]@);
    if k < lines.len() {
        assert(strings_view(lines@)[k as int] == lines@[k as int]@);
        line_exp_of(&lines[k])
    } else {
        line_exp_of(&lines[fallback])
    }
}

fn quoted_message(front: &str, text: &String, back: &str) -> (r: String)
    ensures
        r@ == front@ + text@ + back@,
{
    let mut r = String::from_str(front);
    r.append(text.as_str());
    r.append(back);
    r
}

fn library_name_of(exp: &Vec<char>) -> (r: String)
    ensures
        r@ == library_name(exp@),
{
    let kw_use = chars_of("use");
    let kw_using = chars_of("using");
    let kw_import = chars_of("import");
    let kw_include = chars_of("include");
    let kw = if crate::text::vec_starts_with(exp, &kw_use) {
        kw_use
    } else if crate::text::vec_starts_with(exp, &kw_using) {
        kw_using
    } else if crate::text::vec_starts_with(exp, &kw_import) {
        kw_import
    } else if crate::text::vec_starts_with(exp, &kw_include) {
        kw_include
    } else {
        let e: Vec<char> = Vec::new();
        assert(e@ =~= Seq::<char>::empty());
        e
    };
    let k = trim_start_index(exp, &kw);
    string_of(exp, k, exp.len())
}

fn insert_include_exec(includes: &mut Vec<(String, usize)>, key: String, line: usize)
    ensures
        includes_view(final(includes)@) == insert_include(includes_view(old(includes)@), key@, line),
{
    let ghost v = includes_view(old(includes)@);
    let mut k: usize = includes.len();
    assert(v.subrange(0, k as int) =~= v);
    while k > 0
        invariant
            k <= includes.len(),
            v == includes_view(includes@),
            v == includes_view(old(includes)@),
            find_include(v, key@) == find_include(v.subrange(0, k as int), key@),
        decreases k,
    {
        assert(v.subrange(0, k as int).drop_last() =~= v.subrange(0, k - 1));
        assert(v[k - 1] == (includes@[k - 1].0@, includes@[k - 1].1));
        if includes[k - 1].0 == key {
            assert(v.subrange(0, k as int).last().0 == key@);
            assert(find_include(v, key@) == Some(k - 1));
            let ghost before = includes@;
            includes.set(k - 1, (key, line));
            assert(includes_view(includes@) =~= v.update(k - 1, (key@, line)));
            assert(includes_view(includes@) == insert_include(v, key@, line));
            return ;
        }
        k = k - 1;
    }
    assert(v.subrange(0, 0) =~= Seq::<(Seq<char>, usize)>::empty());
    let ghost before = includes@;
    includes.push((key, line));
    assert(includes_view(includes@) =~= v.push((key@, line)));
}

pub open spec fn ops_view(v: Seq<Vec<Token>>) -> Seq<Seq<TokenV>> {
    v.map_values(|x: Vec<Token>| tokens_view(x@))
}

fn parse_args_exec(args: &Vec<String>) -> (r: (Vec<Vec<Token>>, Vec<String>))
    ensures
        (ops_view(r.0@), names_view(r.1@)) == parse_args(strings_view(args@)),
{
    let ghost a = strings_view(args@);
    let mut ops: Vec<Vec<Token>> = Vec::new();
    let mut errs: Vec<String> = Vec::new();
    let mut k: usize = 0;
    assert(ops_view(ops@) =~= seq![]);
    assert(names_view(errs@) =~= seq![]);
    assert(a.subrange(0, 0) =~= seq![]);
    while k < args.len()
        invariant
            k <= args.len(),
            a == strings_view(args@),
            (ops_view(ops@), names_view(errs@)) == parse_args(a.subrange(0, k as int)),
        decreases args.len() - k,
    {
        assert(a.subrange(0, k + 1).drop_last() =~= a.subrange(0, k as int));
        assert(a.subrange(0, k + 1).last() == args@[k as int]@);
        let ghost o0 = ops@;
        let ghost e0 = errs@;
        match parse_operation(args[k].as_str()) {
            Ok(op) => {
                ops.push(op);
                assert(ops_view(ops@) =~= ops_view(o0).push(tokens_view(op@)));
            },
            Err(e) => {
                errs.push(e);
                assert(names_view(errs@) =~= names_view(e0).push(e@));
            },
        }
        k = k + 1;
    }
    assert(a.subrange(0, args.len() as int) =~= a);
    (ops, errs)
}

fn slice_strings(v: &Vec<String>, from: usize, to: usize) -> (r: Vec<String>)
    requires
        from <= to <= v.len(),
    ensures
        strings_view(r@) == strings_view(v@).subrange(from as int, to as int),
        r.len() == to - from,
{
    let mut r: Vec<String> = Vec::new();
    let mut k: usize = from;
    while k < to
        invariant
            from <= k <= to <= v.len(),
            r.len() == k - from,
            strings_view(r@) == strings_view(v@).subrange(from as int, k as int),
        decreases to - k,
    {
        let ghost r0 = r@;
        r.push(v[k].clone());
        assert(strings_view(r@) =~= strings_view(v@).subrange(from as int, k + 1));
        k = k + 1;
    }
    r
}

fn expr_outside_exec(
    lines: &Vec<String>,
    ls: usize,
    in_fn: bool,
    i: usize,
    st: ExprCursor,
    t: ExpressionType,
    exp: &String,
    em: &mut ErrorManager,
) -> (r: ExprCursor)
    requires
        i < lines.len(),
        ls + lines.len() + 1 <= usize::MAX,
        expr_ok(st, strings_view(lines@), i as int),
        split_once(lines@[i as int]@, ')') is Some,
        exp@ == line_exp(lines@[i as int]@),
        expression_type_spec(exp@) == Ok::<ExpressionType, Seq<char>>(t),
    ensures
        ({
            let (s2, d) = expr_outside(strings_view(lines@), ls, in_fn, i as int, st.model(), t, exp@);
            r.model() == s2 && errors_view(final(em).errors@) == errors_view(old(em).errors@) + d
        }),
        expr_ok(r, strings_view(lines@), i + 1),
{
    let ghost lv = strings_view(lines@);
    assert(lv[i as int] == lines@[i as int]@);
    let ghost e0 = errors_view(em.errors@);
    let line1 = ls + i + 1;
    let n = lines.len();
    if crate::utility::expression_is_scope(&t) {
        let st2 = ExprCursor {
            scope_start: i,
            scope_expr: t,
            inside: true,
            order: {
                let mut o = st.order;
                o.push(ExpressionListType::Internal);
                o
            },
            flag: true,
            ..st
        };
        if i == n - 1 {
            let text = line_text_of(lines, ls + i, i);
            let msg = quoted_message("Scope starting at '", &text, "' was not closed with an 'end' statement.");
            em.parse_error(line1, msg.as_str());
        } else {
            assert(errors_view(em.errors@) =~= e0 + seq![]);
        }
        return st2;
    }
    let v = chars_of(exp.as_str());
    if t == ExpressionType::Return {
        if in_fn {
            let kw = chars_of("return");
            let k = trim_start_index(&v, &kw);
            let body = string_of(&v, k, v.len());
            match parse_operation(body.as_str()) {
                Ok(op) => {
                    let ghost s0 = st.singles@;
                    let mut singles = st.singles;
                    let entry: SingleOp = (String::from_str("return"), Vec::new(), op, ls + i);
                    proof {
                        assert(names_view(entry.1@) =~= seq![]);
                    }
                    singles.push(entry);
                    assert(singles@.map_values(|x: SingleOp| single_view(x)) =~= s0.map_values(
                        |x: SingleOp| single_view(x),
                    ).push(single_view(entry)));
                    let mut order = st.order;
                    order.push(ExpressionListType::Single);
                    assert(errors_view(em.errors@) =~= e0 + seq![]);
                    return ExprCursor { singles, order, flag: true, op_index: st.op_index + 1, ..st };
                },
                Err(e) => {
                    em.parse_error(line1, e.as_str());
                    return st;
                },
            }
        } else {
            em.parse_error(line1, "Return statement unexpected outside function definition.");
            return st;
        }
    } else if t == ExpressionType::Assignment {
        match parse_var(exp.as_str()) {
            Ok((mods, name, value)) => {
                match parse_operation(value.as_str()) {
                    Ok(op) => {
                        let ghost s0 = st.singles@;
                        let mut singles = st.singles;
                        let entry: SingleOp = (name, mods, op, line1);
                        singles.push(entry);
                        assert(singles@.map_values(|x: SingleOp| single_view(x)) =~= s0.map_values(
                            |x: SingleOp| single_view(x),
                        ).push(single_view(entry)));
                        let mut order = st.order;
                        order.push(ExpressionListType::Single);
                        assert(errors_view(em.errors@) =~= e0 + seq![]);
                        return ExprCursor { singles, order, flag: true, op_index: st.op_index + 1, ..st };
                    },
                    Err(e) => {
                        em.parse_error(line1, e.as_str());
                        return st;
                    },
                }
            },
            Err(e) => {
                em.parse_error(line1, e.as_str());
                return st;
            },
        }
    } else if t == ExpressionType::Call {
        if in_fn {
            match parse_call(exp.as_str()) {
                Ok((name, args)) => {
                    let (ops, errs) = parse_args_exec(&args);
                    let mut k: usize = 0;
                    let ghost ev = names_view(errs@);
                    assert(parse_errors(line1, ev.subrange(0, 0)) =~= seq![]);
                    assert(errors_view(em.errors@) =~= e0 + seq![]);
                    while k < errs.len()
                        invariant
                            k <= errs.len(),
                            ev == names_view(errs@),
                            errors_view(em.errors@) == e0 + parse_errors(line1, ev.subrange(0, k as int)),
                        decreases errs.len() - k,
                    {
                        let ghost before = errors_view(em.errors@);
                        em.parse_error(line1, errs[k].as_str());
                        assert(parse_errors(line1, ev.subrange(0, k + 1)) =~= parse_errors(
                            line1,
                            ev.subrange(0, k as int),
                        ).push(ErrorV::Parse(line1, errs@[k as int]@)));
                        k = k + 1;
                    }
                    assert(ev.subrange(0, errs.len() as int) =~= ev);
                    let ghost m0 = st.multis@;
                    let mut multis = st.multis;
                    let entry: MultiOp = (name, ops, line1);
                    multis.push(entry);
                    assert(multis@.map_values(|x: MultiOp| multi_view(x)) =~= m0.map_values(
                        |x: MultiOp| multi_view(x),
                    ).push(multi_view(entry)));
                    assert(multi_view(entry).1 =~= ops_view(ops@));
                    let mut order = st.order;
                    order.push(ExpressionListType::Multi);
                    return ExprCursor { multis, order, flag: true, op_index: st.op_index + 1, ..st };
                },
                Err(e) => {
                    em.parse_error(line1, e.as_str());
                    return st;
                },
            }
        } else {
            em.parse_error(
                line1,
                "Unexpected function call in script. Did you mean to call it inside a function?",
            );
            return st;
        }
    } else if t == ExpressionType::Break || t == ExpressionType::Continue {
        if st.scope_expr == ExpressionType::Loop {
            let word = if t == ExpressionType::Break {
                String::from_str("break")
            } else {
                String::from_str("continue")
            };
            let ghost s0 = st.singles@;
            let mut singles = st.singles;
            let entry: SingleOp = (word, Vec::new(), Vec::new(), line1);
            proof {
                assert(names_view(entry.1@) =~= seq![]);
                assert(tokens_view(entry.2@) =~= seq![]);
            }
            singles.push(entry);
            assert(singles@.map_values(|x: SingleOp| single_view(x)) =~= s0.map_values(
                |x: SingleOp| single_view(x),
            ).push(single_view(entry)));
            let mut order = st.order;
            order.push(ExpressionListType::Single);
            assert(errors_view(em.errors@) =~= e0 + seq![]);
            return ExprCursor { singles, order, flag: true, op_index: st.op_index + 1, ..st };
        } else if t == ExpressionType::Break {
            em.parse_error(line1, "Break statement used outside loop.");
            return st;
        } else {
            em.parse_error(line1, "Continue statement used outside loop.");
            return st;
        }
    } else if t == ExpressionType::Library {
        if !in_fn {
            let library = library_name_of(&v);
            let mut includes = st.includes;
            insert_include_exec(&mut includes, library, line1);
            let mut order = st.order;
            order.push(ExpressionListType::Library);
            assert(errors_view(em.errors@) =~= e0 + seq![]);
            return ExprCursor { includes, order, flag: true, ..st };
        } else {
            em.parse_error(line1, "Library includes are not allowed within a scope.");
            return st;
        }
    } else if t == ExpressionType::End {
        em.parse_error(
            line1,
            "Too many 'end' statements are present. Are you missing a ':' after a function decleration?",
        );
        return ExprCursor { flag: true, ..st };
    } else {
        assert(errors_view(em.errors@) =~= e0 + seq![]);
        return st;
    }
}

fn expr_inside_exec(
    lines: &Vec<String>,
    ls: usize,
    i: usize,
    st: ExprCursor,
    t: ExpressionType,
    em: &mut ErrorManager,
) -> (r: ExprCursor)
    requires
        i < lines.len(),
        ls + lines.len() + 1 <= usize::MAX,
        expr_ok(st, strings_view(lines@), i as int),
        st.inside,
        split_once(lines@[i as int]@, ')') is Some,
        expression_type_spec(line_exp(lines@[i as int]@)) == Ok::<ExpressionType, Seq<char>>(t),
    ensures
        ({
            let (s2, d) = expr_inside(strings_view(lines@), ls, i as int, st.model(), t);
            r.model() == s2 && errors_view(final(em).errors@) == errors_view(old(em).errors@) + d
        }),
        expr_ok(r, strings_view(lines@), i + 1),
    decreases lines.len(), 1int, 0int,
{
    let ghost lv = strings_view(lines@);
    assert(lv[i as int] == lines@[i as int]@);
    let ghost e0 = errors_view(em.errors@);
    let n = lines.len();
    let count = if t.is_scope() {
        st.scope_count + 1
    } else {
        st.scope_count
    };
    let st1 = ExprCursor { flag: true, scope_count: count, ..st };
    if t == ExpressionType::End || t == ExpressionType::Elif || t == ExpressionType::Else {
        if count == 0 {
            let start = st1.scope_start;
            let sub = slice_strings(lines, start + 1, i);
            assert(strings_view(sub@) == lv.subrange(start + 1, i as int));
            let scope_expr = st1.scope_expr;
            let mut inner = parse_expressions(&sub, start + 1 + ls, em, &scope_expr, true);
            let ghost e1 = errors_view(em.errors@);
            assert(lv[start as int] == lines@[start as int]@);
            let header = line_exp_of(&lines[start]);
            let ghost inner0 = inner@;
            match parse_scope(header.as_str(), &scope_expr) {
                Ok(info) => {
                    inner.scope_info = info;
                    assert(errors_view(em.errors@) =~= e1 + seq![]);
                },
                Err(e) => {
                    em.parse_error(ls + start, e.as_str());
                },
            }
            assert(inner@ == (ExpressionListV { scope_info: inner@.scope_info, ..inner0 }));
            let ghost i0 = st1.internals@;
            let mut internals = st1.internals;
            let entry = (inner, ls + start + 1);
            internals.push(entry);
            proof {
                lemma_internals_push(i0, entry);
            }
            let st2 = ExprCursor { internals, op_index: st1.op_index + 1, ..st1 };
            if t == ExpressionType::Elif || t == ExpressionType::Else {
                return ExprCursor { scope_start: i, scope_expr: t, ..st2 };
            } else {
                return ExprCursor { inside: false, scope_expr: ExpressionType::Empty, ..st2 };
            }
        } else if t == ExpressionType::End {
            let st2 = ExprCursor { scope_count: count - 1, ..st1 };
            if i == n - 1 {
                let text = line_exp_of(&lines[i]);
                let msg = quoted_message(
                    "Scope starting at '",
                    &text,
                    "' was not closed with an 'end' statement internally.",
                );
                em.parse_error(ls + st1.scope_start + 1, msg.as_str());
            } else {
                assert(errors_view(em.errors@) =~= e0 + seq![]);
            }
            return st2;
        } else {
            assert(errors_view(em.errors@) =~= e0 + seq![]);
            return st1;
        }
    } else if i == n - 1 {
        let text = line_text_of(lines, ls + st1.scope_start, st1.scope_start);
        let msg = quoted_message("Scope starting at '", &text, "' was not closed with an 'end' statement.");
        em.parse_error(ls + i, msg.as_str());
        return st1;
    } else {
        assert(errors_view(em.errors@) =~= e0 + seq![]);
        return st1;
    }
}

fn expr_step_exec(
    lines: &Vec<String>,
    ls: usize,
    in_fn: bool,
    i: usize,
    st: ExprCursor,
    em: &mut ErrorManager,
) -> (r: ExprCursor)
    requires
        i < lines.len(),
        ls + lines.len() + 1 <= usize::MAX,
        expr_ok(st, strings_view(lines@), i as int),
    ensures
        ({
            let (s2, d) = expr_step(strings_view(lines@), ls, in_fn, i as int, st.model());
            r.model() == s2 && errors_view(final(em).errors@) == errors_view(old(em).errors@) + d
        }),
        expr_ok(r, strings_view(lines@), i + 1),
    decreases lines.len(), 1int, 1int,
{
    let ghost lv = strings_view(lines@);
    assert(lv[i as int] == lines@[i as int]@);
    let ghost e0 = errors_view(em.errors@);
    let v = chars_of(lines[i].as_str());
    match split_once_index(&v, ')') {
        None => {
            assert(errors_view(em.errors@) =~= e0 + seq![]);
            st
        },
        Some(k) => {
            let exp = string_of(&v, k + 1, v.len());
            match get_expression_type(exp.as_str()) {
                Err(msg) => {
                    if in_fn {
                        em.parse_error(ls + i + 1, msg.as_str());
                    } else {
                        assert(errors_view(em.errors@) =~= e0 + seq![]);
                    }
                    st
                },
                Ok(t) => {
                    let st1 = if st.inside {
                        expr_inside_exec(lines, ls, i, st, t, em)
                    } else {
                        expr_outside_exec(lines, ls, in_fn, i, st, t, &exp, em)
                    };
                    if st1.flag {
                        ExprCursor { flag: false, ..st1 }
                    } else {
                        let mut order = st1.order;
                        order.push(ExpressionListType::Null);
                        ExprCursor { order, ..st1 }
                    }
                },
            }
        },
    }
}

/// Parses the lines of a block (each prefixed by `N)`) into an expression
/// list; errors are reported to `error_manager` in the order they are found.
///
/// Scopes (functions, `if`, `loop`) gather their lines up to the matching
/// `end` (or `elif`/`else`) and are parsed as inner lists; returns,
/// assignments, calls, loop controls and includes are stored in their own
/// lists, with `expression_order` recording how each line was held.
pub fn parse_expressions(
    expressions: &Vec<String>,
    line_start: usize,
    error_manager: &mut ErrorManager,
    in_expression: &ExpressionType,
    in_function: bool,
) -> (r: ExpressionList)
    requires
        line_start + expressions.len() + 1 <= usize::MAX,
    ensures
        ({
            let (v, errs) = parse_expressions_spec(
                strings_view(expressions@),
                line_start,
                *in_expression,
                in_function,
            );
            r@ == v && errors_view(final(error_manager).errors@) == errors_view(
                old(error_manager).errors@,
            ) + errs
        }),
        r.size == r.single_op@.len() + r.multi_ops@.len() + r.internal_expressions@.len(),
        count_kind(r.expression_order@, ExpressionListType::Single) == r.single_op@.len(),
        count_kind(r.expression_order@, ExpressionListType::Multi) == r.multi_ops@.len(),
        r.line_start == line_start,
        r.scope_info.0 is None && r.scope_info.1 is None,
    decreases expressions.len(), 3int, 0int,
{
    let ghost lv = strings_view(expressions@);
    let ghost e0 = errors_view(error_manager.errors@);
    let n = expressions.len();
    let mut st = ExprCursor {
        order: Vec::new(),
        flag: false,
        singles: Vec::new(),
        multis: Vec::new(),
        internals: Vec::new(),
        includes: Vec::new(),
        inside: false,
        scope_start: 0,
        scope_count: 0,
        scope_expr: *in_expression,
        op_index: 0,
    };
    assert(st.model() == expr_initial(*in_expression)) by {
        assert(st.model().order =~= seq![]);
        assert(st.model().singles =~= seq![]);
        assert(st.model().multis =~= seq![]);
        assert(st.model().internals =~= seq![]);
        assert(st.model().includes =~= seq![]);
    }
    let ghost mut done: Seq<ErrorV> = seq![];
    let mut i: usize = 0;
    assert(errors_view(error_manager.errors@) =~= e0 + done);
    assert(done + expr_scan(lv, line_start, in_function, 0, st.model()).1 =~= expr_scan(
        lv,
        line_start,
        in_function,
        0,
        st.model(),
    ).1);
    while i < n
        invariant
            n == expressions.len(),
            lv == strings_view(expressions@),
            line_start + n + 1 <= usize::MAX,
            i <= n,
            expr_ok(st, lv, i as int),
            errors_view(error_manager.errors@) == e0 + done,
            expr_scan(lv, line_start, in_function, 0, expr_initial(*in_expression)) == (
                expr_scan(lv, line_start, in_function, i as int, st.model()).0,
                done + expr_scan(lv, line_start, in_function, i as int, st.model()).1,
            ),
        decreases n - i,
    {
        let ghost s0 = st.model();
        let ghost d_before = errors_view(error_manager.errors@);
        st = expr_step_exec(expressions, line_start, in_function, i, st, error_manager);
        proof {
            let (s1, d) = expr_step(lv, line_start, in_function, i as int, s0);
            let (s3, d2) = expr_scan(lv, line_start, in_function, i + 1, s1);
            assert(expr_scan(lv, line_start, in_function, i as int, s0) == (s3, d + d2));
            assert(done + (d + d2) =~= (done + d) + d2);
            assert(errors_view(error_manager.errors@) =~= e0 + (done + d));
            done = done + d;
        }
        i = i + 1;
    }
    let r = ExpressionList {
        scope_info: (None, None),
        size: st.op_index,
        line_start,
        expression_order: st.order,
        single_op: st.singles,
        multi_ops: st.multis,
        internal_expressions: st.internals,
        includes: st.includes,
    };
    assert(done + seq![] =~= done);
    proof {
        lemma_parsed_counts(lv, line_start, *in_expression, in_function);
        crate::runner::function::lemma_internals_index(r.internal_expressions@);
        assert(r@.singles.len() == r.single_op@.len());
        assert(r@.multis.len() == r.multi_ops@.len());
    }
    r
}


proof fn lemma_step_includes_unique(lines: Seq<Seq<char>>, ls: usize, in_fn: bool, i: int, st: ExprState)
    requires
        0 <= i < lines.len(),
        includes_unique(st.includes),
    ensures
        includes_unique(expr_step(lines, ls, in_fn, i, st).0.includes),
{
    if let Some((_, exp)) = split_once(lines[i], ')') {
        lemma_insert_include_unique(st.includes, library_name(exp), (ls + i + 1) as usize);
    }
}

proof fn lemma_scan_includes_unique(lines: Seq<Seq<char>>, ls: usize, in_fn: bool, i: int, st: ExprState)
    requires
        includes_unique(st.includes),
    ensures
        includes_unique(expr_scan(lines, ls, in_fn, i, st).0.includes),
    decreases lines.len() - i,
{
    if 0 <= i < lines.len() {
        lemma_step_includes_unique(lines, ls, in_fn, i, st);
        lemma_scan_includes_unique(lines, ls, in_fn, i + 1, expr_step(lines, ls, in_fn, i, st).0);
    }
}

/// A parsed list of expressions includes no library twice.
pub proof fn lemma_parsed_includes_unique(lines: Seq<Seq<char>>, ls: usize, in_expression: ExpressionType, in_fn: bool)
    ensures
        includes_unique(parse_expressions_spec(lines, ls, in_expression, in_fn).0.includes),
{
    lemma_scan_includes_unique(lines, ls, in_fn, 0, expr_initial(in_expression));
}

} // verus!
