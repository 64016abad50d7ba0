//! Argument checks for functions offered to scripts, the libraries a script
//! can include, and the collection library.
use vstd::prelude::*;
use crate::text::{decimal, decimal_string};
use crate::types::{Token, TokenV, tokens_view};

pub mod collection;

verus! {

/// The kind of a value, for checking the arguments of a function.
#[derive(Debug, Clone, Copy, PartialEq, Eq, Structural)]
pub enum IsToken {
    IsNull,
    IsInt,
    IsFloat,
    IsBool,
    IsString,
    IsChar,
    IsCollection,
    IsNone,
}

/// Whether a value is of the given kind (`IsNone` matches nothing).
pub open spec fn is_kind(k: IsToken, t: TokenV) -> bool {
    match (k, t) {
        (IsToken::IsNull, TokenV::Null) => true,
        (IsToken::IsInt, TokenV::Int(_)) => true,
        (IsToken::IsFloat, TokenV::Float(_)) => true,
        (IsToken::IsBool, TokenV::Bool(_)) => true,
        (IsToken::IsString, TokenV::Str(_)) => true,
        (IsToken::IsChar, TokenV::Char(_)) => true,
        (IsToken::IsCollection, TokenV::Collection(_)) => true,
        _ => false,
    }
}

/// The name `Debug` gives a kind.
pub open spec fn kind_name(k: IsToken) -> Seq<char> {
    match k {
        IsToken::IsNull => "IsNull"@,
        IsToken::IsInt => "IsInt"@,
        IsToken::IsFloat => "IsFloat"@,
        IsToken::IsBool => "IsBool"@,
        IsToken::IsString => "IsString"@,
        IsToken::IsChar => "IsChar"@,
        IsToken::IsCollection => "IsCollection"@,
        IsToken::IsNone => "IsNone"@,
    }
}

/// The names of the kinds, each followed by `", "` but the last.
pub open spec fn kind_names(s: Seq<IsToken>) -> Seq<char>
    decreases s.len(),
{
    if s.len() == 0 {
        seq![]
    } else if s.len() == 1 {
        kind_name(s[0])
    } else {
        kind_names(s.drop_last()) + ", "@ + kind_name(s.last())
    }
}

/// What `Debug` prints for a list of kinds: `[IsInt, IsBool]`.
pub open spec fn kinds_text(s: Seq<IsToken>) -> Seq<char> {
    "["@ + kind_names(s) + "]"@
}

/// Whether one of the kinds matches the value.
pub open spec fn accepts(check: Seq<IsToken>, t: TokenV) -> bool {
    exists|j: int| 0 <= j < check.len() && is_kind(#[trigger] check[j], t)
}

pub open spec fn too_many_message() -> Seq<char> {
    "Too many arguments were passed to this function."@
}

pub open spec fn too_few_message() -> Seq<char> {
    "Too few arguments passed for this function."@
}

pub open spec fn unexpected_message(check: Seq<IsToken>, i: nat) -> Seq<char> {
    "Unexpected argument type. Expected one of "@ + kinds_text(check) + " for argument "@
        + decimal(i) + "."@
}

/// The first argument, from `i` on, that its check refuses.
pub open spec fn first_refused(args: Seq<TokenV>, checks: Seq<Option<Seq<IsToken>>>, i: int) -> Option<int>
    decreases checks.len() - i,
{
    if i < 0 || i >= checks.len() {
        None
    } else {
        match checks[i] {
            Some(c) => if !accepts(c, args[i]) {
                Some(i)
            } else {
                first_refused(args, checks, i + 1)
            },
            None => first_refused(args, checks, i + 1),
        }
    }
}

/// What `expect(args, checks)` returns: the count must match, then each
/// argument with a check must be of one of its kinds.
pub open spec fn expect_spec(args: Seq<TokenV>, checks: Seq<Option<Seq<IsToken>>>) -> Result<(), Seq<char>> {
    if args.len() > checks.len() {
        Err(too_many_message())
    } else if args.len() < checks.len() {
        Err(too_few_message())
    } else {
        match first_refused(args, checks, 0) {
            Some(i) => Err(unexpected_message(checks[i].unwrap(), i as nat)),
            None => Ok(()),
        }
    }
}

pub open spec fn checks_view(s: Seq<Option<Vec<IsToken>>>) -> Seq<Option<Seq<IsToken>>> {
    s.map_values(|c: Option<Vec<IsToken>>| match c {
        Some(v) => Some(v@),
        None => None,
    })
}

impl IsToken {
    /// Whether `token` is of this kind.
    pub fn eq_token(&self, token: &Token) -> (r: bool)
        ensures
            r == is_kind(*self, token@),
    {
        match (self, token) {
            (IsToken::IsNull, Token::Null) => true,
            (IsToken::IsInt, Token::Int(_)) => true,
            (IsToken::IsFloat, Token::Float(_)) => true,
            (IsToken::IsBool, Token::Bool(_)) => true,
            (IsToken::IsString, Token::String(_)) => true,
            (IsToken::IsChar, Token::Char(_)) => true,
            (IsToken::IsCollection, Token::Collection(_)) => true,
            _ => false,
        }
    }

    /// The inequality that goes with `eq_token`: every one of its cases
    /// answers `false`, so no pair of kind and value is ever told apart.
    pub fn ne_token(&self, token: &Token) -> (r: bool)
        ensures
            !r,
    {
        match (self, token) {
            (IsToken::IsNull, Token::Null) => false,
            (IsToken::IsInt, Token::Int(_)) => false,
            (IsToken::IsFloat, Token::Float(_)) => false,
            (IsToken::IsBool, Token::Bool(_)) => false,
            (IsToken::IsString, Token::String(_)) => false,
            (IsToken::IsChar, Token::Char(_)) => false,
            (IsToken::IsCollection, Token::Collection(_)) => false,
            _ => false,
        }
    }

    /// The name `Debug` prints for the kind.
    pub fn name(&self) -> (r: String)
        ensures
            r@ == kind_name(*self),
    {
        match self {
            IsToken::IsNull => String::from_str("IsNull"),
            IsToken::IsInt => String::from_str("IsInt"),
            IsToken::IsFloat => String::from_str("IsFloat"),
            IsToken::IsBool => String::from_str("IsBool"),
            IsToken::IsString => String::from_str("IsString"),
            IsToken::IsChar => String::from_str("IsChar"),
            IsToken::IsCollection => String::from_str("IsCollection"),
            IsToken::IsNone => String::from_str("IsNone"),
        }
    }
}

/// `Debug` of a list of kinds.
pub fn kinds_string(check: &Vec<IsToken>) -> (r: String)
    ensures
        r@ == kinds_text(check@),
{
    let mut r = String::from_str("[");
    let mut i: usize = 0;
    while i < check.len()
        invariant
            i <= check.len(),
            r@ == "["@ + kind_names(check@.subrange(0, i as int)),
        decreases check.len() - i,
    {
        let ghost before = r@;
        if i > 0 {
            r.append(", ");
        }
        let n = check[i].name();
        r.append(n.as_str());
        proof {
            let s = check@.subrange(0, i + 1);
            assert(s.drop_last() =~= check@.subrange(0, i as int));
            if i == 0 {
                assert(check@.subrange(0, i as int) =~= seq![]);
                assert(kind_names(s) == kind_name(check@[0]));
                assert(r@ =~= "["@ + kind_names(s));
            } else {
                assert(r@ =~= before + ", "@ + kind_name(check@[i as int]));
                assert(r@ =~= "["@ + kind_names(s));
            }
        }
        i = i + 1;
    }
    assert(check@.subrange(0, check@.len() as int) =~= check@);
    r.append("]");
    r
}

/// Whether some kind of `check` matches `token`.
pub fn accepts_token(check: &Vec<IsToken>, token: &Token) -> (r: bool)
    ensures
        r == accepts(check@, token@),
{
    let mut found = false;
    let mut j: usize = 0;
    while j < check.len()
        invariant
            j <= check.len(),
            found == (exists|k: int| 0 <= k < j && is_kind(#[trigger] check@[k], token@)),
        decreases check.len() - j,
    {
        if check[j].eq_token(token) {
            found = true;
        }
        j = j + 1;
    }
    found
}

/// Checks the number of arguments, and the kind of each argument that has a check.
pub fn expect(args: &Vec<Token>, token_checks: &Vec<Option<Vec<IsToken>>>) -> (r: Result<(), String>)
    ensures
        match (r, expect_spec(tokens_view(args@), checks_view(token_checks@))) {
            (Ok(()), Ok(())) => true,
            (Err(e), Err(m)) => e@ == m,
            _ => false,
        },
{
    let ghost a = tokens_view(args@);
    let ghost cs = checks_view(token_checks@);
    proof {
        crate::parser::operation_parser::lemma_tokens_view_index(args@);
    }
    if args.len() > token_checks.len() {
        return Err(String::from_str("Too many arguments were passed to this function."));
    } else if args.len() < token_checks.len() {
        return Err(String::from_str("Too few arguments passed for this function."));
    }
    let mut i: usize = 0;
    while i < token_checks.len()
        invariant
            i <= token_checks.len(),
            args.len() == token_checks.len(),
            a == tokens_view(args@),
            a.len() == args.len(),
            forall|k: int| 0 <= k < args.len() ==> a[k] == crate::types::token_view(#[trigger] args@[k]),
            cs == checks_view(token_checks@),
            first_refused(a, cs, 0) == first_refused(a, cs, i as int),
        decreases token_checks.len() - i,
    {
        match &token_checks[i] {
            Some(check) => {
                assert(cs[i as int] == Some(check@));
                assert(a[i as int] == args@[i as int]@);
                if !accepts_token(check, &args[i]) {
                    let mut m = String::from_str("Unexpected argument type. Expected one of ");
                    m.append(kinds_string(check).as_str());
                    m.append(" for argument ");
                    m.append(decimal_string(i).as_str());
                    m.append(".");
                    return Err(m);
                }
            },
            None => {
                assert(cs[i as int] is None);
            },
        }
        i = i + 1;
    }
    Ok(())
}

pub open spec fn count_message(n: nat, arg: nat) -> Seq<char> {
    "Expected "@ + decimal(n) + " items in the collection for argument "@ + decimal(arg) + "."@
}

pub open spec fn not_collection_message(arg: nat) -> Seq<char> {
    "Expected a collection for argument "@ + decimal(arg)
}

/// What `expect_collection(arg, n, checks)` returns. The kinds of the items
/// are compared with `ne_token`, which tells no pair apart, so only the
/// number of items is ever refused.
pub open spec fn expect_collection_spec(arg: TokenV, argument_number: nat, checks: Seq<IsToken>) -> Result<(), Seq<char>> {
    match arg {
        TokenV::Collection(items) => if items.len() != checks.len() {
            Err(count_message(checks.len(), argument_number))
        } else {
            Ok(())
        },
        _ => Err(not_collection_message(argument_number)),
    }
}

/// Checks that an argument is a collection with one item per check.
pub fn expect_collection(arg: &Token, argument_number: usize, token_checks: Vec<IsToken>) -> (r: Result<(), String>)
    ensures
        match (r, expect_collection_spec(arg@, argument_number as nat, token_checks@)) {
            (Ok(()), Ok(())) => true,
            (Err(e), Err(m)) => e@ == m,
            _ => false,
        },
{
    match arg {
        Token::Collection(items) => {
            proof {
                crate::parser::operation_parser::lemma_tokens_view_index(items@);
            }
            if items.len() != token_checks.len() {
                let mut m = String::from_str("Expected ");
                m.append(decimal_string(token_checks.len()).as_str());
                m.append(" items in the collection for argument ");
                m.append(decimal_string(argument_number).as_str());
                m.append(".");
                return Err(m);
            }
            let mut i: usize = 0;
            while i < token_checks.len()
                invariant
                    i <= token_checks.len(),
                    items.len() == token_checks.len(),
                decreases token_checks.len() - i,
            {
                if token_checks[i].ne_token(&items[i]) {
                    let mut m = String::from_str("Expected variable of type ");
                    m.append(token_checks[i].name().as_str());
                    m.append(" in collection indexed at ");
                    m.append(decimal_string(i).as_str());
                    m.append(" for argument ");
                    m.append(decimal_string(argument_number).as_str());
                    return Err(m);
                }
                i = i + 1;
            }
            Ok(())
        },
        _ => {
            let mut m = String::from_str("Expected a collection for argument ");
            m.append(decimal_string(argument_number).as_str());
            Err(m)
        },
    }
}

/// The libraries a script can include.
#[derive(Debug, Clone, Copy, PartialEq, Eq, Structural)]
pub enum Library {
    Vector,
    Math,
    Collection,
}

pub open spec fn library_message(name: Seq<char>) -> Seq<char> {
    "No library found with the name: "@ + name
}

/// The library a name stands for.
pub open spec fn library_spec(name: Seq<char>) -> Result<Library, Seq<char>> {
    if name == "vector"@ {
        Ok(Library::Vector)
    } else if name == "math"@ {
        Ok(Library::Math)
    } else if name == "collection"@ {
        Ok(Library::Collection)
    } else {
        Err(library_message(name))
    }
}

/// Finds the library an `include` names; what each library registers is
/// the host's to provide.
pub fn get_lib(lib: &str) -> (r: Result<Library, String>)
    ensures
        match (r, library_spec(lib@)) {
            (Ok(a), Ok(b)) => a == b,
            (Err(e), Err(m)) => e@ == m,
            _ => false,
        },
{
    if crate::text::str_is(lib, "vector") {
        Ok(Library::Vector)
    } else if crate::text::str_is(lib, "math") {
        Ok(Library::Math)
    } else if crate::text::str_is(lib, "collection") {
        Ok(Library::Collection)
    } else {
        let mut m = String::from_str("No library found with the name: ");
        m.append(lib);
        Err(m)
    }
}

} // verus!
