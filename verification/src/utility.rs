//! Shared parsing utilities: bracket-aware splitting, the operator table and
//! operator precedence, and the kinds of expression a line can hold.
use vstd::prelude::*;
use crate::text::{chars_of, push_char, str_is, string_of};

verus! {

/// The kind of expression a line holds.
#[derive(PartialEq, Eq, Structural, Debug, Clone, Copy)]
pub enum ExpressionType {
    Empty,
    Assignment,
    Function,
    Call,
    Return,
    If,
    Elif,
    Else,
    Loop,
    Break,
    Continue,
    Library,
    Comment,
    End,
}

/// Whether an expression of this type opens a scope closed by `end`.
pub open spec fn is_scope_type(t: ExpressionType) -> bool {
    t == ExpressionType::Function || t == ExpressionType::If || t == ExpressionType::Loop
}

/// Whether an expression of this type opens a scope (function, `if`, `loop`).
pub fn expression_is_scope(expression_type: &ExpressionType) -> (r: bool)
    ensures
        r == is_scope_type(*expression_type),
{
    match expression_type {
        ExpressionType::Function => true,
        ExpressionType::If => true,
        ExpressionType::Loop => true,
        _ => false,
    }
}

impl ExpressionType {
    /// Whether an expression of this type opens a scope.
    pub fn is_scope(&self) -> (r: bool)
        ensures
            r == is_scope_type(*self),
    {
        expression_is_scope(self)
    }

    /// The variant's name, as `{:?}` prints it.
    pub open spec fn name_spec(self) -> Seq<char> {
        match self {
            ExpressionType::Empty => "None"@,
            ExpressionType::Assignment => "Assignment"@,
            ExpressionType::Function => "Function"@,
            ExpressionType::Call => "Call"@,
            ExpressionType::Return => "Return"@,
            ExpressionType::If => "If"@,
            ExpressionType::Elif => "Elif"@,
            ExpressionType::Else => "Else"@,
            ExpressionType::Loop => "Loop"@,
            ExpressionType::Break => "Break"@,
            ExpressionType::Continue => "Continue"@,
            ExpressionType::Library => "Library"@,
            ExpressionType::Comment => "Comment"@,
            ExpressionType::End => "End"@,
        }
    }

    /// The variant's name, as `{:?}` prints it.
    pub fn name(&self) -> (r: String)
        ensures
            r@ == self.name_spec(),
    {
        match self {
            ExpressionType::Empty => String::from_str("None"),
            ExpressionType::Assignment => String::from_str("Assignment"),
            ExpressionType::Function => String::from_str("Function"),
            ExpressionType::Call => String::from_str("Call"),
            ExpressionType::Return => String::from_str("Return"),
            ExpressionType::If => String::from_str("If"),
            ExpressionType::Elif => String::from_str("Elif"),
            ExpressionType::Else => String::from_str("Else"),
            ExpressionType::Loop => String::from_str("Loop"),
            ExpressionType::Break => String::from_str("Break"),
            ExpressionType::Continue => String::from_str("Continue"),
            ExpressionType::Library => String::from_str("Library"),
            ExpressionType::Comment => String::from_str("Comment"),
            ExpressionType::End => String::from_str("End"),
        }
    }
}

// ---------------------------------------------------------------------------
// split_by
// ---------------------------------------------------------------------------

pub open spec fn opens(c: char) -> bool {
    c == '(' || c == '['
}

pub open spec fn closes(c: char) -> bool {
    c == ')' || c == ']'
}

pub open spec fn excess_message(c: char) -> Seq<char> {
    "Excess '"@.push(c) + "' found. Make sure to properly enclose your statements."@
}

pub open spec fn too_few_message() -> Seq<char> {
    "Too few brackets/parenthises found. Make sure to enclose your expressions correctly."@
}

/// The scan of `split_by` from position `i`, with the current piece starting
/// at `prev`, `depth` brackets open and `acc` the pieces cut so far.
///
/// A piece is cut at every `split` found outside brackets and at the last
/// character (the last piece then runs to the end of `s`, the last character
/// included). A closing bracket with none open fails with the excess message;
/// brackets still open at the end fail with the too-few message.
pub open spec fn split_by_scan(
    s: Seq<char>,
    split: char,
    i: nat,
    prev: int,
    depth: nat,
    acc: Seq<Seq<char>>,
) -> Result<Seq<Seq<char>>, Seq<char>>
    decreases s.len() - i,
{
    if i >= s.len() {
        if depth > 0 {
            Err(too_few_message())
        } else {
            Ok(acc)
        }
    } else {
        let c = s[i as int];
        let cut = (c == split && depth == 0) || i == s.len() - 1;
        let end = if i != s.len() - 1 {
            i as int
        } else {
            i + 1 as int
        };
        let acc2 = if cut {
            acc.push(s.subrange(prev, end))
        } else {
            acc
        };
        let prev2 = if cut {
            (i + 1) as int
        } else {
            prev
        };
        if opens(c) {
            split_by_scan(s, split, i + 1, prev2, depth + 1, acc2)
        } else if closes(c) {
            if depth == 0 {
                Err(excess_message(c))
            } else {
                split_by_scan(s, split, i + 1, prev2, (depth - 1) as nat, acc2)
            }
        } else {
            split_by_scan(s, split, i + 1, prev2, depth, acc2)
        }
    }
}

/// What `split_by(s, split)` returns, over character sequences.
pub open spec fn split_by_spec(s: Seq<char>, split: char) -> Result<Seq<Seq<char>>, Seq<char>> {
    split_by_scan(s, split, 0, 0, 0, seq![])
}

/// Every piece cut by the scan is a piece of `s`, so no longer than `s`.
pub proof fn lemma_split_by_scan_short(
    s: Seq<char>,
    split: char,
    i: nat,
    prev: int,
    depth: nat,
    acc: Seq<Seq<char>>,
)
    requires
        0 <= prev <= i || i >= s.len(),
        forall|k: int| 0 <= k < acc.len() ==> (#[trigger] acc[k]).len() <= s.len(),
    ensures
        split_by_scan(s, split, i, prev, depth, acc) matches Ok(r) ==> forall|k: int|
            0 <= k < r.len() ==> (#[trigger] r[k]).len() <= s.len(),
    decreases s.len() - i,
{
    if i < s.len() {
        let c = s[i as int];
        let cut = (c == split && depth == 0) || i == s.len() - 1;
        let end = if i != s.len() - 1 {
            i as int
        } else {
            i + 1 as int
        };
        let acc2 = if cut {
            acc.push(s.subrange(prev, end))
        } else {
            acc
        };
        let prev2 = if cut {
            (i + 1) as int
        } else {
            prev
        };
        assert forall|k: int| 0 <= k < acc2.len() implies (#[trigger] acc2[k]).len() <= s.len() by {
            if k < acc.len() {
                assert(acc2[k] == acc[k]);
            }
        }
        if opens(c) {
            lemma_split_by_scan_short(s, split, i + 1, prev2, depth + 1, acc2);
        } else if closes(c) {
            if depth > 0 {
                lemma_split_by_scan_short(s, split, i + 1, prev2, (depth - 1) as nat, acc2);
            }
        } else {
            lemma_split_by_scan_short(s, split, i + 1, prev2, depth, acc2);
        }
    }
}

/// The pieces `split_by` cuts are no longer than the text.
pub proof fn lemma_split_by_short(s: Seq<char>, split: char)
    ensures
        split_by_spec(s, split) matches Ok(r) ==> forall|k: int|
            0 <= k < r.len() ==> (#[trigger] r[k]).len() <= s.len(),
{
    lemma_split_by_scan_short(s, split, 0, 0, 0, seq![]);
}

/// The pieces joined back together, `c` between two.
pub open spec fn joined(pieces: Seq<Seq<char>>, c: char) -> Seq<char>
    decreases pieces.len(),
{
    if pieces.len() == 0 {
        seq![]
    } else if pieces.len() == 1 {
        pieces[0]
    } else {
        joined(pieces.drop_last(), c).push(c) + pieces.last()
    }
}

proof fn lemma_split_by_scan_join(s: Seq<char>, split: char, i: nat, prev: int, depth: nat, acc: Seq<Seq<char>>)
    requires
        i < s.len(),
        0 <= prev <= i,
        acc.len() == 0 ==> prev == 0,
        acc.len() > 0 ==> prev >= 1 && s[prev - 1] == split && joined(acc, split) == s.subrange(0, prev - 1),
    ensures
        split_by_scan(s, split, i, prev, depth, acc) matches Ok(r) ==> joined(r, split) == s,
    decreases s.len() - i,
{
    let c = s[i as int];
    let cut = (c == split && depth == 0) || i == s.len() - 1;
    let end = if i != s.len() - 1 { i as int } else { i + 1 as int };
    let piece = s.subrange(prev, end);
    let acc2 = if cut { acc.push(piece) } else { acc };
    let prev2 = if cut { (i + 1) as int } else { prev };
    if cut {
        assert(acc2.drop_last() =~= acc);
        if acc.len() == 0 {
            assert(joined(acc2, split) == piece);
        } else {
            assert(joined(acc2, split) == joined(acc, split).push(split) + piece);
        }
        assert(joined(acc2, split) =~= s.subrange(0, end));
    }
    if i == s.len() - 1 {
        assert(s.subrange(0, end) =~= s);
        reveal_with_fuel(split_by_scan, 2);
    } else {
        let next_depth: nat = if opens(c) { depth + 1 } else if closes(c) && depth > 0 { (depth - 1) as nat } else { depth };
        if !(closes(c) && depth == 0) {
            lemma_split_by_scan_join(s, split, i + 1, prev2, next_depth, acc2);
        }
    }
}

/// `split_by` loses no character: its pieces, joined again with the split
/// character, give the text back.
pub proof fn lemma_split_by_joins(s: Seq<char>, split: char)
    ensures
        split_by_spec(s, split) matches Ok(r) ==> joined(r, split) == s,
{
    if s.len() > 0 {
        lemma_split_by_scan_join(s, split, 0, 0, 0, seq![]);
    } else {
        assert(s =~= seq![]);
    }
}

pub open spec fn strings_view(v: Seq<String>) -> Seq<Seq<char>> {
    v.map_values(|x: String| x@)
}

/// Splits `string` at every `split` that is outside `(..)` and `[..]`.
pub fn split_by(string: &str, split: char) -> (r: Result<Vec<String>, String>)
    ensures
        match (r, split_by_spec(string@, split)) {
            (Ok(v), Ok(w)) => strings_view(v@) == w,
            (Err(e), Err(w)) => e@ == w,
            _ => false,
        },
{
    let chars = chars_of(string);
    split_by_chars(&chars, split)
}

/// `split_by` over a character vector.
pub fn split_by_chars(chars: &Vec<char>, split: char) -> (r: Result<Vec<String>, String>)
    ensures
        match (r, split_by_spec(chars@, split)) {
            (Ok(v), Ok(w)) => strings_view(v@) == w,
            (Err(e), Err(w)) => e@ == w,
            _ => false,
        },
{
    let n = chars.len();
    let mut result: Vec<String> = Vec::new();
    let mut prev_start: usize = 0;
    let mut in_count: usize = 0;
    let mut i: usize = 0;
    assert(strings_view(result@) =~= seq![]);
    while i < n
        invariant
            n == chars.len(),
            i <= n,
            prev_start <= i,
            in_count <= i,
            split_by_scan(chars@, split, i as nat, prev_start as int, in_count as nat, strings_view(result@))
                == split_by_spec(chars@, split),
        decreases n - i,
    {
        let c = chars[i];
        let ghost before = strings_view(result@);
        if (c == split && in_count == 0) || i == n - 1 {
            let end = if i != n - 1 {
                i
            } else {
                i + 1
            };
            let piece = string_of(chars, prev_start, end);
            result.push(piece);
            assert(strings_view(result@) =~= before.push(piece@));
            prev_start = i + 1;
        }
        if c == '(' || c == '[' {
            in_count = in_count + 1;
        } else if c == ')' || c == ']' {
            if in_count == 0 {
                let mut e = String::from_str("Excess '");
                push_char(&mut e, c);
                e.append("' found. Make sure to properly enclose your statements.");
                return Err(e);
            }
            in_count = in_count - 1;
        }
        i = i + 1;
    }
    if in_count > 0 {
        return Err(
            String::from_str(
                "Too few brackets/parenthises found. Make sure to enclose your expressions correctly.",
            ),
        );
    }
    Ok(result)
}

// ---------------------------------------------------------------------------
// Operators
// ---------------------------------------------------------------------------

/// The operators the language knows, in the order of its operator table.
pub open spec fn operations() -> Seq<Seq<char>> {
    seq![
        seq!['^'], seq!['/'], seq!['*'], seq!['%'], seq!['+'], seq!['-'],
        seq!['+', '='], seq!['-', '='], seq!['*', '='], seq!['/', '='],
        seq!['&', '&'], seq!['|', '|'],
        seq!['>'], seq!['<'], seq!['<', '='], seq!['>', '='], seq!['=', '='], seq!['!', '='],
    ]
}

/// `c` occurs in some operator.
pub open spec fn is_operation_char(c: char) -> bool {
    exists|k: int| 0 <= k < operations().len() && operations()[k].contains(c)
}

/// `s` is one of the operators.
pub open spec fn is_operation(s: Seq<char>) -> bool {
    exists|k: int| 0 <= k < operations().len() && operations()[k] == s
}

/// The characters that occur in some operator, listed.
pub open spec fn operation_char_list(c: char) -> bool {
    c == '^' || c == '/' || c == '*' || c == '%' || c == '+' || c == '-' || c == '=' || c == '&'
        || c == '|' || c == '>' || c == '<' || c == '!'
}

pub proof fn lemma_operation_chars(c: char)
    ensures
        is_operation_char(c) <==> operation_char_list(c),
{
    let ops = operations();
    if operation_char_list(c) {
        if c == '^' { assert(ops[0][0] == c); }
        else if c == '/' { assert(ops[1][0] == c); }
        else if c == '*' { assert(ops[2][0] == c); }
        else if c == '%' { assert(ops[3][0] == c); }
        else if c == '+' { assert(ops[4][0] == c); }
        else if c == '-' { assert(ops[5][0] == c); }
        else if c == '=' { assert(ops[6][1] == c); }
        else if c == '&' { assert(ops[10][0] == c); }
        else if c == '|' { assert(ops[11][0] == c); }
        else if c == '>' { assert(ops[12][0] == c); }
        else if c == '<' { assert(ops[13][0] == c); }
        else { assert(ops[17][0] == c); }
    }
    if is_operation_char(c) {
        let k = choose|k: int| 0 <= k < ops.len() && ops[k].contains(c);
        let j = choose|j: int| 0 <= j < ops[k].len() && ops[k][j] == c;
        assert(0 <= k < 18);
    }
}

/// Whether `c` can be found within the operator table.
pub fn operations_contains(c: char) -> (r: bool)
    ensures
        r == is_operation_char(c),
{
    proof {
        lemma_operation_chars(c);
    }
    c == '^' || c == '/' || c == '*' || c == '%' || c == '+' || c == '-' || c == '=' || c == '&'
        || c == '|' || c == '>' || c == '<' || c == '!'
}

/// Whether `v` is exactly one of the operators.
pub fn is_operation_of(v: &Vec<char>) -> (r: bool)
    ensures
        r == is_operation(v@),
{
    let ghost ops = operations();
    let n = v.len();
    let r = if n == 1 {
        let c = v[0];
        c == '^' || c == '/' || c == '*' || c == '%' || c == '+' || c == '-' || c == '>' || c
            == '<'
    } else if n == 2 {
        let a = v[0];
        let b = v[1];
        (b == '=' && (a == '+' || a == '-' || a == '*' || a == '/' || a == '<' || a == '>' || a
            == '=' || a == '!')) || (a == '&' && b == '&') || (a == '|' && b == '|')
    } else {
        false
    };
    proof {
        if r {
            let k: int = if n == 1 {
                let c = v@[0];
                if c == '^' { 0 } else if c == '/' { 1 } else if c == '*' { 2 } else if c == '%' { 3 }
                else if c == '+' { 4 } else if c == '-' { 5 } else if c == '>' { 12 } else { 13 }
            } else {
                let a = v@[0];
                let b = v@[1];
                if a == '&' { 10 } else if a == '|' { 11 } else if a == '+' { 6 } else if a == '-' { 7 }
                else if a == '*' { 8 } else if a == '/' { 9 } else if a == '<' { 14 } else if a == '>' { 15 }
                else if a == '=' { 16 } else { 17 }
            };
            assert(ops[k] =~= v@);
        } else {
            if is_operation(v@) {
                let k = choose|k: int| 0 <= k < ops.len() && ops[k] == v@;
                assert(0 <= k < 18);
                assert(ops[k].len() == v@.len());
                if ops[k].len() == 1 {
                    assert(ops[k][0] == v@[0]);
                } else {
                    assert(ops[k][0] == v@[0] && ops[k][1] == v@[1]);
                }
            }
        }
    }
    r
}

/// The precedence of an operator: higher binds first.
pub open spec fn operator_worth(s: Seq<char>) -> u8 {
    if s == "+"@ || s == "-"@ || s == "+="@ || s == "-="@ {
        0
    } else if s == "*"@ || s == "/"@ || s == "%"@ || s == "*/"@ || s == "/="@ {
        1
    } else if s == "^"@ {
        2
    } else if s == "||"@ {
        3
    } else if s == "&&"@ {
        4
    } else if s == ">"@ || s == "<"@ || s == "<="@ || s == ">="@ || s == "=="@ || s == "!="@ {
        5
    } else {
        0
    }
}

/// The precedence of an operator: higher binds first.
pub fn get_operator_worth(string: &str) -> (r: u8)
    ensures
        r == operator_worth(string@),
{
    if str_is(string, "+") || str_is(string, "-") || str_is(string, "+=") || str_is(string, "-=") {
        0
    } else if str_is(string, "*") || str_is(string, "/") || str_is(string, "%") || str_is(
        string,
        "*/",
    ) || str_is(string, "/=") {
        1
    } else if str_is(string, "^") {
        2
    } else if str_is(string, "||") {
        3
    } else if str_is(string, "&&") {
        4
    } else if str_is(string, ">") || str_is(string, "<") || str_is(string, "<=") || str_is(
        string,
        ">=",
    ) || str_is(string, "==") || str_is(string, "!=") {
        5
    } else {
        0
    }
}


/// `*`, `/` and `%` are worth one and bind tighter than `+` and `-`,
/// which are worth nothing.
pub proof fn lemma_operator_worths()
    ensures
        operator_worth("*"@) == 1,
        operator_worth("/"@) == 1,
        operator_worth("%"@) == 1,
        operator_worth("+"@) == 0,
        operator_worth("-"@) == 0,
        forall|m: Seq<char>, a: Seq<char>|
            (m == "*"@ || m == "/"@ || m == "%"@) && (a == "+"@ || a == "-"@) ==> operator_worth(m) > operator_worth(a),
{
    reveal_strlit("*");
    reveal_strlit("/");
    reveal_strlit("%");
    reveal_strlit("+");
    reveal_strlit("-");
    reveal_strlit("+=");
    reveal_strlit("-=");
    assert("*"@ != "+"@ && "*"@ != "-"@ && "*"@ != "+="@ && "*"@ != "-="@) by {
        assert("*"@[0] != "+"@[0] && "*"@[0] != "-"@[0] && "*"@.len() != "+="@.len() && "*"@.len() != "-="@.len());
    }
    assert("/"@ != "+"@ && "/"@ != "-"@ && "/"@ != "+="@ && "/"@ != "-="@) by {
        assert("/"@[0] != "+"@[0] && "/"@[0] != "-"@[0] && "/"@.len() != "+="@.len() && "/"@.len() != "-="@.len());
    }
    assert("%"@ != "+"@ && "%"@ != "-"@ && "%"@ != "+="@ && "%"@ != "-="@) by {
        assert("%"@[0] != "+"@[0] && "%"@[0] != "-"@[0] && "%"@.len() != "+="@.len() && "%"@.len() != "-="@.len());
    }
}

} // verus!
