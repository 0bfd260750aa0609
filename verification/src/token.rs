use vstd::prelude::*;

verus! {

/// A token of the language: what the reader produces, what the evaluator
/// consumes and returns, and what the printer prints.
#[derive(Debug, PartialEq, Eq, Hash)]
pub enum Token {
    Symbol(String),
    Other(String),
    Odd(String),
    Keyword(String),
    UserKeyword(String),
    Number(i32),
    Closure(Vec<Token>, Vec<(Token, Token)>),
    List(Vec<Token>),
    Vector(Vec<Token>),
    HashMap(Vec<Token>),
    Error(String),
}

/// The mathematical model of a token: text as a sequence of characters,
/// nested tokens as sequences of models.
pub enum Expr {
    Symbol(Seq<char>),
    Other(Seq<char>),
    Odd(Seq<char>),
    Keyword(Seq<char>),
    UserKeyword(Seq<char>),
    Number(i32),
    Closure(Seq<Expr>, Seq<(Expr, Expr)>),
    List(Seq<Expr>),
    Vector(Seq<Expr>),
    HashMap(Seq<Expr>),
    Error(Seq<char>),
}

impl View for Token {
    type V = Expr;

    open spec fn view(&self) -> Expr {
        model(*self)
    }
}

/// The model of a token.
pub open spec fn model(t: Token) -> Expr
    decreases t, 0nat,
{
    match t {
        Token::Symbol(s) => Expr::Symbol(s@),
        Token::Other(s) => Expr::Other(s@),
        Token::Odd(s) => Expr::Odd(s@),
        Token::Keyword(s) => Expr::Keyword(s@),
        Token::UserKeyword(s) => Expr::UserKeyword(s@),
        Token::Number(n) => Expr::Number(n),
        Token::Closure(c, e) => Expr::Closure(models(c@, c@.len()), pair_models(e@, e@.len())),
        Token::List(l) => Expr::List(models(l@, l@.len())),
        Token::Vector(l) => Expr::Vector(models(l@, l@.len())),
        Token::HashMap(l) => Expr::HashMap(models(l@, l@.len())),
        Token::Error(s) => Expr::Error(s@),
    }
}

/// The models of the first `n` tokens of `s`.
pub open spec fn models(s: Seq<Token>, n: nat) -> Seq<Expr>
    decreases s, n,
{
    if n == 0 || n > s.len() {
        Seq::empty()
    } else {
        models(s, (n - 1) as nat).push(model(s[n - 1]))
    }
}

/// The models of the first `n` token pairs of `s`.
pub open spec fn pair_models(s: Seq<(Token, Token)>, n: nat) -> Seq<(Expr, Expr)>
    decreases s, n,
{
    if n == 0 || n > s.len() {
        Seq::empty()
    } else {
        pair_models(s, (n - 1) as nat).push((model(s[n - 1].0), model(s[n - 1].1)))
    }
}

/// The models of a sequence of tokens.
pub open spec fn tokens_view(s: Seq<Token>) -> Seq<Expr> {
    models(s, s.len())
}

/// The models of a sequence of token pairs.
pub open spec fn pairs_view(s: Seq<(Token, Token)>) -> Seq<(Expr, Expr)> {
    pair_models(s, s.len())
}

proof fn lemma_models(s: Seq<Token>, n: nat)
    requires
        n <= s.len(),
    ensures
        models(s, n).len() == n,
        forall|i: int| 0 <= i < n ==> #[trigger] models(s, n)[i] == s[i]@,
    decreases n,
{
    if n > 0 {
        lemma_models(s, (n - 1) as nat);
    }
}

proof fn lemma_pair_models(s: Seq<(Token, Token)>, n: nat)
    requires
        n <= s.len(),
    ensures
        pair_models(s, n).len() == n,
        forall|i: int| 0 <= i < n ==> #[trigger] pair_models(s, n)[i] == (s[i].0@, s[i].1@),
    decreases n,
{
    if n > 0 {
        lemma_pair_models(s, (n - 1) as nat);
    }
}

/// The length of the models of a sequence of tokens.
pub broadcast proof fn lemma_tokens_view_len(s: Seq<Token>)
    ensures
        #[trigger] tokens_view(s).len() == s.len(),
{
    lemma_models(s, s.len());
}

/// The models of a sequence of tokens, element by element.
pub broadcast proof fn lemma_tokens_view_index(s: Seq<Token>, i: int)
    requires
        0 <= i < s.len(),
    ensures
        #[trigger] tokens_view(s)[i] == s[i]@,
{
    lemma_models(s, s.len());
}

/// The length of the models of a sequence of token pairs.
pub broadcast proof fn lemma_pairs_view_len(s: Seq<(Token, Token)>)
    ensures
        #[trigger] pairs_view(s).len() == s.len(),
{
    lemma_pair_models(s, s.len());
}

/// The models of a sequence of token pairs, element by element.
pub broadcast proof fn lemma_pairs_view_index(s: Seq<(Token, Token)>, i: int)
    requires
        0 <= i < s.len(),
    ensures
        #[trigger] pairs_view(s)[i] == (s[i].0@, s[i].1@),
{
    lemma_pair_models(s, s.len());
}

pub broadcast group group_token_view {
    lemma_tokens_view_len,
    lemma_tokens_view_index,
    lemma_pairs_view_len,
    lemma_pairs_view_index,
}

} // verus!
