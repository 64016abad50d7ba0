//! The values and parsed structure of a Drython script.
use vstd::prelude::*;
use crate::text::{lowercase, to_lowercase, str_is};
use crate::script_type::ScriptType;

verus! {

/// A value, or a piece of an operation, of the language.
///
/// A float is held as its literal text: the parser only ever stores here a
/// text that `str::parse::<f32>` accepts (see `text::is_float_text`).
#[derive(Debug)]
pub enum Token {
    Null,
    Int(i32),
    Float(String),
    Bool(bool),
    String(String),
    Char(char),
    Collection(Vec<Token>),
    // Meta variables that store information not usually visible to the dev.
    Var(String),
    Call(String, String),
    Operation(Vec<Token>),
    Operator(String),
    // The token before a '.', and the accessor after it.
    Accessor(Box<Token>, Box<Token>),
    // Allows an inner scope to break a loop.
    Break,
}

/// The mathematical model of a `Token`: strings seen as character sequences.
pub enum TokenV {
    Null,
    Int(i32),
    Float(Seq<char>),
    Bool(bool),
    Str(Seq<char>),
    Char(char),
    Collection(Seq<TokenV>),
    Var(Seq<char>),
    Call(Seq<char>, Seq<char>),
    Operation(Seq<TokenV>),
    Operator(Seq<char>),
    Accessor(Box<TokenV>, Box<TokenV>),
    Break,
}

/// The models of a sequence of tokens.
pub open spec fn tokens_view(s: Seq<Token>) -> Seq<TokenV>
    decreases s,
{
    if s.len() == 0 {
        seq![]
    } else {
        tokens_view(s.subrange(0, s.len() - 1)).push(token_view(s[s.len() - 1]))
    }
}

/// The model of a token.
pub open spec fn token_view(t: Token) -> TokenV
    decreases t,
{
    match t {
        Token::Null => TokenV::Null,
        Token::Int(i) => TokenV::Int(i),
        Token::Float(f) => TokenV::Float(f@),
        Token::Bool(b) => TokenV::Bool(b),
        Token::String(s) => TokenV::Str(s@),
        Token::Char(c) => TokenV::Char(c),
        Token::Collection(v) => TokenV::Collection(tokens_view(v@)),
        Token::Var(s) => TokenV::Var(s@),
        Token::Call(a, b) => TokenV::Call(a@, b@),
        Token::Operation(v) => TokenV::Operation(tokens_view(v@)),
        Token::Operator(s) => TokenV::Operator(s@),
        Token::Accessor(a, b) => TokenV::Accessor(Box::new(token_view(*a)), Box::new(token_view(*b))),
        Token::Break => TokenV::Break,
    }
}

impl View for Token {
    type V = TokenV;

    open spec fn view(&self) -> TokenV {
        token_view(*self)
    }
}


pub fn clone_tokens(v: &Vec<Token>) -> (r: Vec<Token>)
    ensures
        tokens_view(r@) == tokens_view(v@),
    decreases v@,
{
    let mut r: Vec<Token> = Vec::new();
    let mut i: usize = 0;
    while i < v.len()
        invariant
            i <= v.len(),
            tokens_view(r@) == tokens_view(v@.subrange(0, i as int)),
        decreases v.len() - i,
    {
        assert(decreases_to!(v@ => v@[i as int]));
        let t = v[i].duplicate();
        let ghost before = r@;
        r.push(t);
        assert(r@.subrange(0, r@.len() - 1) =~= before);
        assert(v@.subrange(0, i + 1).subrange(0, i as int) =~= v@.subrange(0, i as int));
        i = i + 1;
    }
    assert(v@.subrange(0, v@.len() as int) =~= v@);
    r
}

impl Token {
    /// A copy of this token.
    pub fn duplicate(&self) -> (r: Token)
        ensures
            r@ == self@,
        decreases self,
    {
        match self {
            Token::Null => Token::Null,
            Token::Int(i) => Token::Int(*i),
            Token::Float(f) => Token::Float(f.clone()),
            Token::Bool(b) => Token::Bool(*b),
            Token::String(s) => Token::String(s.clone()),
            Token::Char(c) => Token::Char(*c),
            Token::Collection(v) => Token::Collection(clone_tokens(v)),
            Token::Var(s) => Token::Var(s.clone()),
            Token::Call(a, b) => Token::Call(a.clone(), b.clone()),
            Token::Operation(v) => Token::Operation(clone_tokens(v)),
            Token::Operator(s) => Token::Operator(s.clone()),
            Token::Accessor(a, b) => {
                let a2 = (**a).duplicate();
                let b2 = (**b).duplicate();
                Token::Accessor(Box::new(a2), Box::new(b2))
            },
            Token::Break => Token::Break,
        }
    }
}


/// How one line of an expression list is held.
#[derive(Clone, Copy, Debug, PartialEq, Eq, Structural)]
pub enum ExpressionListType {
    // For empty lines, to keep track of line numbers.
    Null,
    Single,
    Multi,
    Internal,
    Library,
}

/// The scope name and its arguments.
pub type ScopeInfo = (Option<String>, Option<String>);

/// Returns, assignments and loop controls: name, modifiers, operation, line.
pub type SingleOp = (String, Vec<String>, Vec<Token>, usize);

/// Function calls: name, one operation per argument, line.
pub type MultiOp = (String, Vec<Vec<Token>>, usize);

/// A parsed block of lines.
pub struct ExpressionList {
    pub scope_info: ScopeInfo,
    pub size: usize,
    pub line_start: usize,
    pub expression_order: Vec<ExpressionListType>,
    pub single_op: Vec<SingleOp>,
    pub multi_ops: Vec<MultiOp>,
    pub internal_expressions: Vec<(ExpressionList, usize)>,
    /// Included libraries and the line including them; no library occurs twice.
    pub includes: Vec<(String, usize)>,
}

pub type SingleV = (Seq<char>, Seq<Seq<char>>, Seq<TokenV>, usize);

pub type MultiV = (Seq<char>, Seq<Seq<TokenV>>, usize);

/// The model of an `ExpressionList`.
pub struct ExpressionListV {
    pub scope_info: (Option<Seq<char>>, Option<Seq<char>>),
    pub size: usize,
    pub line_start: usize,
    pub order: Seq<ExpressionListType>,
    pub singles: Seq<SingleV>,
    pub multis: Seq<MultiV>,
    pub internals: Seq<(ExpressionListV, usize)>,
    pub includes: Seq<(Seq<char>, usize)>,
}

pub open spec fn option_view(o: Option<String>) -> Option<Seq<char>> {
    match o {
        Some(s) => Some(s@),
        None => None,
    }
}

pub open spec fn names_view(v: Seq<String>) -> Seq<Seq<char>> {
    v.map_values(|x: String| x@)
}

pub open spec fn single_view(x: SingleOp) -> SingleV {
    (x.0@, names_view(x.1@), tokens_view(x.2@), x.3)
}

pub open spec fn multi_view(x: MultiOp) -> MultiV {
    (x.0@, x.1@.map_values(|v: Vec<Token>| tokens_view(v@)), x.2)
}

pub open spec fn includes_view(v: Seq<(String, usize)>) -> Seq<(Seq<char>, usize)> {
    v.map_values(|x: (String, usize)| (x.0@, x.1))
}

pub open spec fn internals_view(s: Seq<(ExpressionList, usize)>) -> Seq<(ExpressionListV, usize)>
    decreases s,
{
    if s.len() == 0 {
        seq![]
    } else {
        internals_view(s.subrange(0, s.len() - 1)).push(
            (expression_list_view(s[s.len() - 1].0), s[s.len() - 1].1),
        )
    }
}

pub open spec fn expression_list_view(e: ExpressionList) -> ExpressionListV
    decreases e,
{
    ExpressionListV {
        scope_info: (option_view(e.scope_info.0), option_view(e.scope_info.1)),
        size: e.size,
        line_start: e.line_start,
        order: e.expression_order@,
        singles: e.single_op@.map_values(|x: SingleOp| single_view(x)),
        multis: e.multi_ops@.map_values(|x: MultiOp| multi_view(x)),
        internals: internals_view(e.internal_expressions@),
        includes: includes_view(e.includes@),
    }
}

impl View for ExpressionList {
    type V = ExpressionListV;

    open spec fn view(&self) -> ExpressionListV {
        expression_list_view(*self)
    }
}

/// No library is included twice.
pub open spec fn includes_unique(v: Seq<(Seq<char>, usize)>) -> bool {
    forall|a: int, b: int| 0 <= a < b < v.len() ==> v[a].0 != v[b].0
}

impl ExpressionList {
    pub fn new() -> (r: ExpressionList)
        ensures
            r@ == (ExpressionListV {
                scope_info: (None, None),
                size: 0,
                line_start: 0,
                order: seq![],
                singles: seq![],
                multis: seq![],
                internals: seq![],
                includes: seq![],
            }),
    {
        let r = ExpressionList {
            scope_info: (None, None),
            size: 0,
            line_start: 0,
            expression_order: Vec::new(),
            single_op: Vec::new(),
            multi_ops: Vec::new(),
            internal_expressions: Vec::new(),
            includes: Vec::new(),
        };
        assert(r@.order =~= seq![]);
        assert(r@.singles =~= seq![]);
        assert(r@.multis =~= seq![]);
        assert(r@.internals =~= seq![]);
        assert(r@.includes =~= seq![]);
        r
    }
}

/// A modifier written before a variable name (`modifier!name = value`).
pub enum VariableModifier {
    Unkown(String),
    // Able to externally reference other scripts.
    External,
    // Listable with other public values for external use.
    Public,
    // Makes the variable non modifiable.
    Const,
    // Defines aliases for variables and functions.
    Alias,
}

pub enum ModifierV {
    Unkown(Seq<char>),
    External,
    Public,
    Const,
    Alias,
}

impl View for VariableModifier {
    type V = ModifierV;

    open spec fn view(&self) -> ModifierV {
        match self {
            VariableModifier::Unkown(s) => ModifierV::Unkown(s@),
            VariableModifier::External => ModifierV::External,
            VariableModifier::Public => ModifierV::Public,
            VariableModifier::Const => ModifierV::Const,
            VariableModifier::Alias => ModifierV::Alias,
        }
    }
}

/// The modifier a name stands for, ignoring case; unknown names are kept as written.
pub open spec fn modifier_of(s: Seq<char>) -> ModifierV {
    let l = lowercase(s);
    if l == "external"@ {
        ModifierV::External
    } else if l == "pub"@ || l == "public"@ {
        ModifierV::Public
    } else if l == "const"@ || l == "constant"@ {
        ModifierV::Const
    } else if l == "alias"@ {
        ModifierV::Alias
    } else {
        ModifierV::Unkown(s)
    }
}

impl VariableModifier {
    /// The modifier a name stands for (`From<&str>` in spirit).
    pub fn from_name(s: &str) -> (r: VariableModifier)
        ensures
            r@ == modifier_of(s@),
    {
        let lower = to_lowercase(s);
        let l = lower.as_str();
        if str_is(l, "external") {
            VariableModifier::External
        } else if str_is(l, "pub") || str_is(l, "public") {
            VariableModifier::Public
        } else if str_is(l, "const") || str_is(l, "constant") {
            VariableModifier::Const
        } else if str_is(l, "alias") {
            VariableModifier::Alias
        } else {
            VariableModifier::Unkown(String::from_str(s))
        }
    }

    /// A copy of the modifier.
    pub fn duplicate(&self) -> (r: VariableModifier)
        ensures
            r@ == self@,
    {
        match self {
            VariableModifier::Unkown(s) => VariableModifier::Unkown(s.clone()),
            VariableModifier::External => VariableModifier::External,
            VariableModifier::Public => VariableModifier::Public,
            VariableModifier::Const => VariableModifier::Const,
            VariableModifier::Alias => VariableModifier::Alias,
        }
    }

    /// Whether the modifier may be used inside a scope (only `const` and `alias`).
    pub fn check_scope_allowed(&self) -> (r: bool)
        ensures
            r == (self@ is Const || self@ is Alias),
    {
        match self {
            VariableModifier::Const => true,
            VariableModifier::Alias => true,
            VariableModifier::Public => false,
            VariableModifier::External => false,
            _ => false,
        }
    }
}

/// A parsed script: its type, and its top-level expressions.
pub struct Parser {
    pub script_type: ScriptType,
    pub global_expressions: ExpressionList,
}

} // verus!
