//! The `collection` library: adding to and removing from a collection.
use vstd::prelude::*;
use crate::types::{Token, TokenV, tokens_view};
use super::{expect, expect_spec, IsToken};

verus! {

pub open spec fn push_checks() -> Seq<Option<Seq<IsToken>>> {
    seq![Some(seq![IsToken::IsCollection]), None]
}

pub open spec fn remove_checks() -> Seq<Option<Seq<IsToken>>> {
    seq![Some(seq![IsToken::IsCollection]), Some(seq![IsToken::IsInt])]
}

pub open spec fn remove_message() -> Seq<char> {
    "Tried to remove from collection at index that does not exist."@
}

/// What `push_collection(collection, item)` returns: the collection with the item appended.
pub open spec fn add_collection_spec(args: Seq<TokenV>) -> Result<TokenV, Seq<char>> {
    match expect_spec(args, push_checks()) {
        Err(m) => Err(m),
        Ok(()) => match args[0] {
            TokenV::Collection(items) => Ok(TokenV::Collection(items.push(args[1]))),
            _ => Ok(TokenV::Collection(seq![])),
        },
    }
}

/// What `remove_collection(collection, index)` returns: the collection
/// without the item at the index; the first item (index 0) cannot be removed.
pub open spec fn remove_collection_spec(args: Seq<TokenV>) -> Result<TokenV, Seq<char>> {
    match expect_spec(args, remove_checks()) {
        Err(m) => Err(m),
        Ok(()) => match (args[0], args[1]) {
            (TokenV::Collection(items), TokenV::Int(i)) => if i > 0 && i < items.len() {
                Ok(TokenV::Collection(items.remove(i as int)))
            } else {
                Err(remove_message())
            },
            _ => Ok(TokenV::Collection(seq![])),
        },
    }
}

fn push_checks_vec() -> (r: Vec<Option<Vec<IsToken>>>)
    ensures
        super::checks_view(r@) == push_checks(),
{
    let c = vec![IsToken::IsCollection];
    assert(c@ =~= seq![IsToken::IsCollection]);
    let r = vec![Some(c), None];
    assert(super::checks_view(r@)[0] == Some(seq![IsToken::IsCollection]));
    assert(super::checks_view(r@) =~= push_checks());
    r
}

fn remove_checks_vec() -> (r: Vec<Option<Vec<IsToken>>>)
    ensures
        super::checks_view(r@) == remove_checks(),
{
    let c = vec![IsToken::IsCollection];
    assert(c@ =~= seq![IsToken::IsCollection]);
    let n = vec![IsToken::IsInt];
    assert(n@ =~= seq![IsToken::IsInt]);
    let r = vec![Some(c), Some(n)];
    assert(super::checks_view(r@)[0] == Some(seq![IsToken::IsCollection]));
    assert(super::checks_view(r@)[1] == Some(seq![IsToken::IsInt]));
    assert(super::checks_view(r@) =~= remove_checks());
    r
}

/// Appends the second argument to the collection given as the first.
pub fn add_collection(args: Vec<Token>) -> (r: Result<Option<Token>, String>)
    ensures
        match (r, add_collection_spec(tokens_view(args@))) {
            (Ok(Some(t)), Ok(v)) => t@ == v,
            (Err(e), Err(m)) => e@ == m,
            _ => false,
        },
{
    let checks = push_checks_vec();
    match expect(&args, &checks) {
        Err(error) => {
            return Err(error);
        },
        Ok(_) => {},
    }
    proof {
        crate::parser::operation_parser::lemma_tokens_view_index(args@);
    }
    let ghost a = tokens_view(args@);
    let mut args = args;
    let new_token = args.pop();
    let new_collection: Vec<Token>;
    if let Some(Token::Collection(other)) = args.pop() {
        let mut c = other;
        match new_token {
            Some(t) => {
                proof {
                    crate::parser::operation_parser::lemma_tokens_view_push(c@, t);
                }
                c.push(t);
            },
            None => {},
        }
        new_collection = c;
    } else {
        new_collection = Vec::new();
        assert(tokens_view(new_collection@) =~= seq![]);
    }
    Ok(Some(Token::Collection(new_collection)))
}

/// Removes the item at the index given as the second argument from the
/// collection given as the first.
pub fn remove_collection(args: Vec<Token>) -> (r: Result<Option<Token>, String>)
    ensures
        match (r, remove_collection_spec(tokens_view(args@))) {
            (Ok(Some(t)), Ok(v)) => t@ == v,
            (Err(e), Err(m)) => e@ == m,
            _ => false,
        },
{
    let checks = remove_checks_vec();
    match expect(&args, &checks) {
        Err(error) => {
            return Err(error);
        },
        Ok(_) => {},
    }
    proof {
        crate::parser::operation_parser::lemma_tokens_view_index(args@);
    }
    let mut args = args;
    let new_token = args.pop();
    let new_collection: Vec<Token>;
    match (args.pop(), new_token) {
        (Some(Token::Collection(other)), Some(Token::Int(i))) => {
            proof {
                crate::parser::operation_parser::lemma_tokens_view_index(other@);
            }
            if i > 0 && (i as usize) < other.len() {
                let mut c = other;
                let ghost before = c@;
                c.remove(i as usize);
                proof {
                    crate::parser::operation_parser::lemma_tokens_view_index(c@);
                    crate::parser::operation_parser::lemma_tokens_view_index(before);
                    let tv = tokens_view(before).remove(i as int);
                    assert forall|k: int| 0 <= k < c@.len() implies tokens_view(c@)[k] == tv[k] by {
                        if k < i {
                            assert(c@[k] == before[k]);
                        } else {
                            assert(c@[k] == before[k + 1]);
                        }
                    }
                    assert(tokens_view(c@) =~= tv);
                }
                new_collection = c;
            } else {
                return Err(String::from_str("Tried to remove from collection at index that does not exist."));
            }
        },
        _ => {
            new_collection = Vec::new();
            assert(tokens_view(new_collection@) =~= seq![]);
        },
    }
    Ok(Some(Token::Collection(new_collection)))
}

} // verus!
