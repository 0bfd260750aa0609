use vstd::prelude::*;
use crate::token::{Expr, model, Token, group_token_view, pairs_view, tokens_view};

verus! {

broadcast use group_token_view;

/// Structural equality of two tokens: the equality that `==` gives them.
pub fn token_eq(a: &Token, b: &Token) -> (r: bool)
    ensures
        r == (a@ == b@),
    decreases a,
{
    let r = match (a, b) {
        (Token::Symbol(x), Token::Symbol(y)) => *x == *y,
        (Token::Other(x), Token::Other(y)) => *x == *y,
        (Token::Odd(x), Token::Odd(y)) => *x == *y,
        (Token::Keyword(x), Token::Keyword(y)) => *x == *y,
        (Token::UserKeyword(x), Token::UserKeyword(y)) => *x == *y,
        (Token::Error(x), Token::Error(y)) => *x == *y,
        (Token::Number(x), Token::Number(y)) => *x == *y,
        (Token::List(x), Token::List(y)) => tokens_eq(x, y),
        (Token::Vector(x), Token::Vector(y)) => tokens_eq(x, y),
        (Token::HashMap(x), Token::HashMap(y)) => tokens_eq(x, y),
        (Token::Closure(c1, e1), Token::Closure(c2, e2)) => {
            if tokens_eq(c1, c2) {
                pairs_eq(e1, e2)
            } else {
                false
            }
        },
        _ => false,
    };
    proof {
        assert(a@ == model(*a));
        assert(b@ == model(*b));
    }
    r
}

/// Elementwise structural equality of two token sequences.
pub fn tokens_eq(x: &Vec<Token>, y: &Vec<Token>) -> (r: bool)
    ensures
        r == (tokens_view(x@) == tokens_view(y@)),
    decreases x,
{
    if x.len() != y.len() {
        assert(tokens_view(x@).len() != tokens_view(y@).len());
        return false;
    }
    let mut i: usize = 0;
    while i < x.len()
        invariant
            x.len() == y.len(),
            0 <= i <= x.len(),
            forall|j: int| 0 <= j < i ==> x@[j]@ == y@[j]@,
        decreases x.len() - i,
    {
        proof {
            assert(decreases_to!(x => x@[i as int]));
        }
        if !token_eq(&x[i], &y[i]) {
            assert(tokens_view(x@)[i as int] != tokens_view(y@)[i as int]);
            return false;
        }
        i = i + 1;
    }
    assert(tokens_view(x@) =~= tokens_view(y@));
    true
}

/// Elementwise structural equality of two sequences of token pairs.
pub fn pairs_eq(x: &Vec<(Token, Token)>, y: &Vec<(Token, Token)>) -> (r: bool)
    ensures
        r == (pairs_view(x@) == pairs_view(y@)),
    decreases x,
{
    if x.len() != y.len() {
        assert(pairs_view(x@).len() != pairs_view(y@).len());
        return false;
    }
    let mut i: usize = 0;
    while i < x.len()
        invariant
            x.len() == y.len(),
            0 <= i <= x.len(),
            forall|j: int| 0 <= j < i ==> x@[j].0@ == y@[j].0@ && x@[j].1@ == y@[j].1@,
        decreases x.len() - i,
    {
        proof {
            assert(decreases_to!(x => x@[i as int]));
            assert(decreases_to!(x@[i as int] => x@[i as int].0));
            assert(decreases_to!(x@[i as int] => x@[i as int].1));
        }
        if !token_eq(&x[i].0, &y[i].0) {
            assert(pairs_view(x@)[i as int] != pairs_view(y@)[i as int]);
            return false;
        }
        if !token_eq(&x[i].1, &y[i].1) {
            assert(pairs_view(x@)[i as int] != pairs_view(y@)[i as int]);
            return false;
        }
        i = i + 1;
    }
    assert(pairs_view(x@) =~= pairs_view(y@));
    true
}

/// A deep copy of a token.
pub fn clone_token(t: &Token) -> (r: Token)
    ensures
        r@ == t@,
    decreases t,
{
    match t {
        Token::Symbol(s) => Token::Symbol(s.clone()),
        Token::Other(s) => Token::Other(s.clone()),
        Token::Odd(s) => Token::Odd(s.clone()),
        Token::Keyword(s) => Token::Keyword(s.clone()),
        Token::UserKeyword(s) => Token::UserKeyword(s.clone()),
        Token::Error(s) => Token::Error(s.clone()),
        Token::Number(n) => Token::Number(*n),
        Token::List(l) => Token::List(clone_tokens(l)),
        Token::Vector(l) => Token::Vector(clone_tokens(l)),
        Token::HashMap(l) => Token::HashMap(clone_tokens(l)),
        Token::Closure(c, e) => Token::Closure(clone_tokens(c), clone_pairs(e)),
    }
}

/// A deep copy of a sequence of tokens.
pub fn clone_tokens(v: &Vec<Token>) -> (r: Vec<Token>)
    ensures
        tokens_view(r@) == tokens_view(v@),
    decreases v,
{
    let mut r: Vec<Token> = Vec::new();
    let mut i: usize = 0;
    while i < v.len()
        invariant
            0 <= i <= v.len(),
            r.len() == i,
            forall|j: int| 0 <= j < i ==> r@[j]@ == v@[j]@,
        decreases v.len() - i,
    {
        proof {
            assert(decreases_to!(v => v@[i as int]));
        }
        r.push(clone_token(&v[i]));
        i = i + 1;
    }
    assert(tokens_view(r@) =~= tokens_view(v@));
    r
}

/// A deep copy of a sequence of token pairs.
pub fn clone_pairs(v: &Vec<(Token, Token)>) -> (r: Vec<(Token, Token)>)
    ensures
        pairs_view(r@) == pairs_view(v@),
    decreases v,
{
    let mut r: Vec<(Token, Token)> = Vec::new();
    let mut i: usize = 0;
    while i < v.len()
        invariant
            0 <= i <= v.len(),
            r.len() == i,
            forall|j: int| 0 <= j < i ==> r@[j].0@ == v@[j].0@ && r@[j].1@ == v@[j].1@,
        decreases v.len() - i,
    {
        proof {
            assert(decreases_to!(v => v@[i as int]));
            assert(decreases_to!(v@[i as int] => v@[i as int].0));
            assert(decreases_to!(v@[i as int] => v@[i as int].1));
        }
        let a = clone_token(&v[i].0);
        let b = clone_token(&v[i].1);
        r.push((a, b));
        i = i + 1;
    }
    assert(pairs_view(r@) =~= pairs_view(v@));
    r
}

impl Clone for Token {
    fn clone(&self) -> (r: Self)
        ensures
            r@ == self@,
    {
        clone_token(self)
    }
}

} // verus!
