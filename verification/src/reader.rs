use vstd::prelude::*;
use vstd::string::StrSliceExecFns;
use crate::numeral::{parse_i32, parse_i32_text};
use crate::pattern::{
    Pattern, captures_group1, compile, find, is_match, regex_compiles, regex_find, regex_group1,
    regex_is_match,
};
use crate::text::{text_is, trim, trim_text};
use crate::token::{Expr, Token, group_token_view, tokens_view};

verus! {

broadcast use group_token_view;

/// A bracket, with the separators around it.
pub const BRACKETS: &'static str = r"^[\s,]*([\(\)\{\}\[\]])[\s,]*";

/// An integer literal.
pub const DIGITS: &'static str = r"^[\s,]*(-?\d+)";

/// An arithmetic operator; `**` before `*`.
pub const OPERANDS: &'static str = r"^[\s,]*(\*{1,2}|[\+\-/])";

/// A comparison operator.
pub const EQUALITIES: &'static str = r"^[\s,]*((>=)|(<=)|[<>=])";

/// A name, keyword or other word.
pub const ALPHAS: &'static str = r###"^[\s,]*([?!\w\d:"\-\*]+)"###;

/// A string literal, with escaped quotes.
pub const STRINGS: &'static str = r###"^[\s,]*("((\\")|[^"])*")"###;

/// A reader macro.
pub const ODD: &'static str = r###"^[\s,]*((~@)|['`~])"###;

/// A comment that runs to the end of the text.
pub const COMMENT: &'static str = r###"^[\s,]*(;.*)$"###;

/// Only separators.
pub const EMPTY: &'static str = r"^[\s,]+$";

/// A reader macro anywhere in an atom.
pub const ODD_IN_ATOM: &'static str = r###"(~@)|['`~]"###;

/// A user keyword anywhere in an atom.
pub const USER_KEYWORD: &'static str = r":\w+[\w\d]*";

/// An atom that is an integer literal.
pub const NUMBER_ATOM: &'static str = r"^\s*(?P<digits>-?\d+)$";

/// Whether every pattern of the tokenizer compiles.
pub open spec fn tokenizer_patterns_compile() -> bool {
    &&& regex_compiles(BRACKETS@)
    &&& regex_compiles(DIGITS@)
    &&& regex_compiles(OPERANDS@)
    &&& regex_compiles(EQUALITIES@)
    &&& regex_compiles(ALPHAS@)
    &&& regex_compiles(STRINGS@)
    &&& regex_compiles(ODD@)
    &&& regex_compiles(COMMENT@)
    &&& regex_compiles(EMPTY@)
}

/// The text after a match where there is one (`found` holds the matched
/// group and the text after it), otherwise `s` itself.
pub open spec fn rest_or(s: Seq<char>, found: Option<(Seq<char>, Seq<char>)>) -> Seq<char> {
    match found {
        Some((_, rest)) => rest,
        None => s,
    }
}

/// `s` after a comment that starts it, or `s` itself.
pub open spec fn after_comment(s: Seq<char>) -> Seq<char> {
    rest_or(s, regex_group1(COMMENT@, s))
}

/// The first of seven pattern results, in order, that found something.
pub open spec fn first_match(
    strings: Option<(Seq<char>, Seq<char>)>,
    brackets: Option<(Seq<char>, Seq<char>)>,
    odd: Option<(Seq<char>, Seq<char>)>,
    equalities: Option<(Seq<char>, Seq<char>)>,
    digits: Option<(Seq<char>, Seq<char>)>,
    operands: Option<(Seq<char>, Seq<char>)>,
    alphas: Option<(Seq<char>, Seq<char>)>,
) -> Option<(Seq<char>, Seq<char>)> {
    if strings is Some {
        strings
    } else if brackets is Some {
        brackets
    } else if odd is Some {
        odd
    } else if equalities is Some {
        equalities
    } else if digits is Some {
        digits
    } else if operands is Some {
        operands
    } else {
        alphas
    }
}

/// The first token of `s` and the text after it: the first of the token
/// patterns, in order, that matches.
pub open spec fn first_token(s: Seq<char>) -> Option<(Seq<char>, Seq<char>)> {
    first_match(
        regex_group1(STRINGS@, s),
        regex_group1(BRACKETS@, s),
        regex_group1(ODD@, s),
        regex_group1(EQUALITIES@, s),
        regex_group1(DIGITS@, s),
        regex_group1(OPERANDS@, s),
        regex_group1(ALPHAS@, s),
    )
}

/// The tokens of `s`: until nothing but separators is left, a comment that
/// starts the text is dropped and then the first token taken. `None` where
/// a round takes nothing away, so that the tokenizer would go round forever.
pub open spec fn tokens_of(s: Seq<char>) -> Option<Seq<Seq<char>>>
    decreases s.len(),
{
    if s.len() == 0 || regex_is_match(EMPTY@, s) {
        Some(Seq::empty())
    } else {
        let s1 = after_comment(s);
        let (found, s2) = match first_token(s1) {
            Some((t, rest)) => (seq![t], rest),
            None => (Seq::empty(), s1),
        };
        if s2.len() < s.len() {
            match tokens_of(s2) {
                Some(ts) => Some(found + ts),
                None => None,
            }
        } else {
            None
        }
    }
}

/// What the tokenizer gives for `s`; `None` where it would panic or never end.
pub open spec fn tokenize(s: Seq<char>) -> Option<Seq<Seq<char>>> {
    if tokenizer_patterns_compile() {
        tokens_of(s)
    } else {
        None
    }
}

/// The keyword that the atom text `s` names among the fixed keywords of
/// the language (`def!` names `def`, `let*` names `let`, `fn*` names `fn`).
pub open spec fn fixed_keyword(s: Seq<char>) -> Option<Seq<char>> {
    if s == "def!"@ || s == "def"@ {
        Some("def"@)
    } else if s == "let*"@ || s == "let"@ {
        Some("let"@)
    } else if s == "list"@ {
        Some("list"@)
    } else if s == "list?"@ {
        Some("list?"@)
    } else if s == "empty?"@ {
        Some("empty?"@)
    } else if s == "count"@ {
        Some("count"@)
    } else if s == "false"@ {
        Some("false"@)
    } else if s == "true"@ {
        Some("true"@)
    } else if s == "nil"@ {
        Some("nil"@)
    } else if s == "if"@ {
        Some("if"@)
    } else if s == "fn"@ || s == "fn*"@ {
        Some("fn"@)
    } else if s == "do"@ {
        Some("do"@)
    } else if s == "prn"@ {
        Some("prn"@)
    } else {
        None
    }
}

/// The atom that the trimmed text `s` reads as, given what the reader-macro
/// pattern (`odd`), the user-keyword pattern and the integer pattern
/// (`number`) find in it: a fixed keyword first, then a reader macro, a user
/// keyword, an integer (`None` where it does not fit in an `i32`), an
/// operator symbol, a comparison keyword, and any other text as itself.
pub open spec fn atom_from(
    s: Seq<char>,
    odd: Option<Seq<char>>,
    user_keyword: Option<Seq<char>>,
    number: Option<Seq<char>>,
) -> Option<Expr> {
    if fixed_keyword(s) is Some {
        Some(Expr::Keyword(fixed_keyword(s)->Some_0))
    } else if odd is Some {
        Some(Expr::Odd(odd->Some_0))
    } else if user_keyword is Some {
        Some(Expr::UserKeyword(user_keyword->Some_0))
    } else if number is Some {
        match parse_i32(number->Some_0) {
            Some(n) => Some(Expr::Number(n)),
            None => None,
        }
    } else if s == "+"@ || s == "-"@ || s == "*"@ || s == "**"@ || s == "/"@ {
        Some(Expr::Symbol(s))
    } else if s == "="@ || s == ">"@ || s == "<"@ || s == ">="@ || s == "<="@ {
        Some(Expr::Keyword(s))
    } else {
        Some(Expr::Other(s))
    }
}

/// The atom that the token text `t` reads as; `None` where reading it panics.
/// The patterns are tried in turn, each only where the ones before it found
/// nothing.
pub open spec fn atom(t: Seq<char>) -> Option<Expr> {
    let s = trim(t);
    if fixed_keyword(s) is Some {
        atom_from(s, None, None, None)
    } else if !regex_compiles(ODD_IN_ATOM@) {
        None
    } else if regex_find(ODD_IN_ATOM@, s) is Some {
        atom_from(s, regex_find(ODD_IN_ATOM@, s), None, None)
    } else if !regex_compiles(USER_KEYWORD@) {
        None
    } else if regex_find(USER_KEYWORD@, s) is Some {
        atom_from(s, None, regex_find(USER_KEYWORD@, s), None)
    } else if !regex_compiles(NUMBER_ATOM@) {
        None
    } else {
        atom_from(s, None, None, regex_find(NUMBER_ATOM@, s))
    }
}

/// The forms read from the token texts `toks` from index `pos` on, up to a
/// token that reads `close` or the end, and the index where reading stopped.
/// An opening bracket reads a nested form up to its closing bracket.
pub open spec fn read_seq(toks: Seq<Seq<char>>, pos: int, close: Seq<char>) -> Option<
    (Seq<Expr>, int),
>
    decreases toks.len() - pos, 2int,
{
    if pos < 0 || pos >= toks.len() || trim(toks[pos]) == close {
        Some((Seq::empty(), pos))
    } else {
        let t = trim(toks[pos]);
        let item = if t == "("@ {
            match read_group(toks, pos, ")"@) {
                Some((es, p)) => Some((Expr::List(es), p)),
                None => None,
            }
        } else if t == "{"@ {
            match read_group(toks, pos, "}"@) {
                Some((es, p)) => Some((Expr::HashMap(es), p)),
                None => None,
            }
        } else if t == "["@ {
            match read_group(toks, pos, "]"@) {
                Some((es, p)) => Some((Expr::Vector(es), p)),
                None => None,
            }
        } else {
            match atom(t) {
                Some(e) => Some((e, pos + 1)),
                None => None,
            }
        };
        match item {
            None => None,
            Some((e, p)) => if pos < p <= toks.len() {
                match read_seq(toks, p, close) {
                    None => None,
                    Some((es, q)) => Some((seq![e] + es, q)),
                }
            } else {
                None
            },
        }
    }
}

/// A nested form whose opening bracket is at `pos`: its forms up to `close`,
/// and the index after the closing bracket.
pub open spec fn read_group(toks: Seq<Seq<char>>, pos: int, close: Seq<char>) -> Option<
    (Seq<Expr>, int),
>
    decreases toks.len() - pos, 1int,
{
    if pos < 0 || pos >= toks.len() {
        None
    } else {
        match read_seq(toks, pos + 1, close) {
            None => None,
            Some((es, p)) => Some(
                (
                    es,
                    if p < toks.len() {
                        p + 1
                    } else {
                        p
                    },
                ),
            ),
        }
    }
}

/// The forms that `read_str` reads from `s`.
pub open spec fn read_text(s: Seq<char>) -> Option<Seq<Expr>> {
    match tokenize(s) {
        Some(toks) => match read_seq(toks, 0, ""@) {
            Some((es, _)) => Some(es),
            None => None,
        },
        None => None,
    }
}

/// The token texts of a reader and the index of the next one.
#[derive(Debug)]
pub struct Reader {
    tokens: Vec<String>,
    position: usize,
}

/// The models of a sequence of strings.
pub open spec fn texts_view(s: Seq<String>) -> Seq<Seq<char>> {
    Seq::new(s.len(), |i: int| s[i]@)
}

impl Reader {
    #[verifier::type_invariant]
    spec fn inv(self) -> bool {
        self.position <= self.tokens.len()
    }

    /// The token texts.
    pub closed spec fn texts(&self) -> Seq<Seq<char>> {
        texts_view(self.tokens@)
    }

    /// The index of the next token.
    pub closed spec fn pos(&self) -> int {
        self.position as int
    }

    /// A reader at the first of `tokens`.
    pub fn new(tokens: Vec<String>) -> (r: Reader)
        ensures
            r.texts() == texts_view(tokens@),
            r.pos() == 0,
    {
        Reader { tokens, position: 0 }
    }

    /// The number of token texts.
    pub fn len(&self) -> (r: usize)
        ensures
            r == self.texts().len(),
            self.pos() <= r,
    {
        proof {
            use_type_invariant(self);
        }
        self.tokens.len()
    }

    /// The token texts, as the tokenizer cut them.
    pub fn tokens(&self) -> (r: Vec<String>)
        ensures
            texts_view(r@) == self.texts(),
    {
        let r = self.tokens.clone();
        proof {
            assert forall|i: int| 0 <= i < r@.len() implies r@[i] == self.tokens@[i] by {
                assert(cloned::<String>(self.tokens[i], r[i]));
            }
            assert(texts_view(r@) =~= texts_view(self.tokens@));
        }
        r
    }

    /// The index of the next token.
    pub fn position(&self) -> (r: usize)
        ensures
            r == self.pos(),
    {
        self.position
    }

    /// The next token, trimmed, and the reader moved past it; nothing at the end.
    pub fn next(&mut self) -> (r: Option<String>)
        ensures
            final(self).texts() == old(self).texts(),
            old(self).pos() < old(self).texts().len() ==> r is Some && r->Some_0@ == trim(
                old(self).texts()[old(self).pos()],
            ) && final(self).pos() == old(self).pos() + 1,
            old(self).pos() >= old(self).texts().len() ==> r is None && final(self).pos()
                == old(self).pos(),
    {
        proof {
            use_type_invariant(&*self);
        }
        if self.position < self.tokens.len() {
            self.position = self.position + 1;
            let t = trim_text(self.tokens[self.position - 1].as_str());
            Some(t)
        } else {
            None
        }
    }

    /// The next token, trimmed; nothing at the end.
    pub fn peek(&self) -> (r: Option<String>)
        ensures
            self.pos() < self.texts().len() ==> r is Some && r->Some_0@ == trim(
                self.texts()[self.pos()],
            ),
            self.pos() >= self.texts().len() ==> r is None,
    {
        proof {
            use_type_invariant(self);
        }
        if self.position < self.tokens.len() {
            Some(trim_text(self.tokens[self.position].as_str()))
        } else {
            None
        }
    }
}

impl Clone for Reader {
    fn clone(&self) -> (r: Self)
        ensures
            r.texts() == self.texts(),
            r.pos() == self.pos(),
    {
        proof {
            use_type_invariant(self);
        }
        let tokens = self.tokens();
        assert(tokens@.len() == texts_view(tokens@).len());
        assert(self.tokens@.len() == texts_view(self.tokens@).len());
        Reader { tokens, position: self.position }
    }
}

fn keyword(text: &str) -> (r: Token)
    ensures
        r@ == Expr::Keyword(text@),
{
    Token::Keyword(text.to_owned())
}

/// The text of an optional string.
pub open spec fn text_of(o: Option<String>) -> Option<Seq<char>> {
    match o {
        Some(t) => Some(t@),
        None => None,
    }
}

/// The fixed keyword that the atom text `s` names.
fn fixed_keyword_text(s: &str) -> (r: Option<&'static str>)
    ensures
        match fixed_keyword(s@) {
            Some(k) => r is Some && r->Some_0@ == k,
            None => r is None,
        },
{
    if text_is(s, "def!") || text_is(s, "def") {
        Some("def")
    } else if text_is(s, "let*") || text_is(s, "let") {
        Some("let")
    } else if text_is(s, "list") {
        Some("list")
    } else if text_is(s, "list?") {
        Some("list?")
    } else if text_is(s, "empty?") {
        Some("empty?")
    } else if text_is(s, "count") {
        Some("count")
    } else if text_is(s, "false") {
        Some("false")
    } else if text_is(s, "true") {
        Some("true")
    } else if text_is(s, "nil") {
        Some("nil")
    } else if text_is(s, "if") {
        Some("if")
    } else if text_is(s, "fn") || text_is(s, "fn*") {
        Some("fn")
    } else if text_is(s, "do") {
        Some("do")
    } else if text_is(s, "prn") {
        Some("prn")
    } else {
        None
    }
}

/// The atom that the trimmed text `s` reads as, given what the reader-macro,
/// user-keyword and integer patterns found in it.
pub fn atom_from_matches(
    s: &str,
    odd: Option<String>,
    user_keyword: Option<String>,
    number: Option<String>,
) -> (r: Option<Token>)
    ensures
        match atom_from(s@, text_of(odd), text_of(user_keyword), text_of(number)) {
            Some(e) => r is Some && r->Some_0@ == e,
            None => r is None,
        },
{
    if let Some(k) = fixed_keyword_text(s) {
        return Some(keyword(k));
    }
    if let Some(m) = odd {
        return Some(Token::Odd(m));
    }
    if let Some(m) = user_keyword {
        return Some(Token::UserKeyword(m));
    }
    if let Some(m) = number {
        return match parse_i32_text(m.as_str()) {
            Some(n) => Some(Token::Number(n)),
            None => None,
        };
    }
    if text_is(s, "+") || text_is(s, "-") || text_is(s, "*") || text_is(s, "**") || text_is(s, "/") {
        return Some(Token::Symbol(s.to_owned()));
    }
    if text_is(s, "=") || text_is(s, ">") || text_is(s, "<") || text_is(s, ">=") || text_is(s, "<=") {
        return Some(Token::Keyword(s.to_owned()));
    }
    Some(Token::Other(s.to_owned()))
}

/// The atom that the token text `t` reads as; `None` where reading it
/// panics (a pattern that does not compile, an integer literal out of range).
pub fn read_atom_text(t: &str) -> (r: Option<Token>)
    ensures
        match atom(t@) {
            Some(e) => r is Some && r->Some_0@ == e,
            None => r is None,
        },
{
    let owned = trim_text(t);
    let s = owned.as_str();
    if fixed_keyword_text(s).is_some() {
        return atom_from_matches(s, None, None, None);
    }
    let odd = match compile(ODD_IN_ATOM) {
        Ok(p) => p,
        Err(_) => return None,
    };
    let found = find(&odd, s);
    if found.is_some() {
        return atom_from_matches(s, found, None, None);
    }
    let user_keyword = match compile(USER_KEYWORD) {
        Ok(p) => p,
        Err(_) => return None,
    };
    let found = find(&user_keyword, s);
    if found.is_some() {
        return atom_from_matches(s, None, found, None);
    }
    let number = match compile(NUMBER_ATOM) {
        Ok(p) => p,
        Err(_) => return None,
    };
    let found = find(&number, s);
    atom_from_matches(s, None, None, found)
}

/// Reads the next token as an atom; `None` where reading it panics or
/// there is no next token.
fn read_atom_checked(r: &mut Reader) -> (res: Option<Token>)
    ensures
        final(r).texts() == old(r).texts(),
        old(r).pos() < old(r).texts().len() ==> final(r).pos() == old(r).pos() + 1 && match atom(
            trim(old(r).texts()[old(r).pos()]),
        ) {
            Some(e) => res is Some && res->Some_0@ == e,
            None => res is None,
        },
        old(r).pos() >= old(r).texts().len() ==> res is None,
{
    match r.next() {
        Some(t) => read_atom_text(t.as_str()),
        None => None,
    }
}

/// Reads the next token as an atom; the reader must have a next token, and
/// reading it must not panic.
pub fn read_atom(reader: &mut Reader) -> (r: Token)
    requires
        old(reader).pos() < old(reader).texts().len(),
        atom(trim(old(reader).texts()[old(reader).pos()])) is Some,
    ensures
        final(reader).texts() == old(reader).texts(),
        final(reader).pos() == old(reader).pos() + 1,
        r@ == atom(trim(old(reader).texts()[old(reader).pos()]))->Some_0,
{
    let t = reader.next().unwrap();
    read_atom_text(t.as_str()).unwrap()
}

/// The forms read before a token that reads `close` or the end, and the
/// reader moved to that token.
pub open spec fn seq_result(
    res: Option<Vec<Token>>,
    r: Reader,
    expected: Option<(Seq<Expr>, int)>,
) -> bool {
    match expected {
        Some((es, p)) => res is Some && tokens_view(res->Some_0@) == es && r.pos() == p,
        None => res is None,
    }
}

/// Reads forms up to a token that reads `close` or the end; `None` where
/// reading panics.
pub fn read_seq_checked(r: &mut Reader, close: &str) -> (res: Option<Vec<Token>>)
    ensures
        final(r).texts() == old(r).texts(),
        seq_result(res, *final(r), read_seq(old(r).texts(), old(r).pos(), close@)),
    decreases old(r).texts().len() - old(r).pos(), 2int,
{
    let ghost toks = r.texts();
    let ghost start = r.pos();
    let mut result: Vec<Token> = Vec::new();
    let n = r.len();
    loop
        invariant
            r.texts() == toks,
            toks == old(r).texts(),
            start == old(r).pos(),
            start <= r.pos() <= toks.len(),
            n == toks.len(),
            read_seq(toks, start, close@) == match read_seq(toks, r.pos(), close@) {
                Some((es, q)) => Some((tokens_view(result@) + es, q)),
                None => None,
            },
        decreases toks.len() - r.pos(),
    {
        let pos = r.position();
        let t = match r.peek() {
            Some(t) => t,
            None => {
                assert(tokens_view(result@) + Seq::<Expr>::empty() =~= tokens_view(result@));
                return Some(result);
            },
        };
        if text_is(t.as_str(), close) {
            assert(tokens_view(result@) + Seq::<Expr>::empty() =~= tokens_view(result@));
            return Some(result);
        }
        let item = if text_is(t.as_str(), "(") {
            match read_group_checked(r, ")") {
                Some(es) => Token::List(es),
                None => return None,
            }
        } else if text_is(t.as_str(), "{") {
            match read_group_checked(r, "}") {
                Some(es) => Token::HashMap(es),
                None => return None,
            }
        } else if text_is(t.as_str(), "[") {
            match read_group_checked(r, "]") {
                Some(es) => Token::Vector(es),
                None => return None,
            }
        } else {
            match read_atom_checked(r) {
                Some(e) => e,
                None => return None,
            }
        };
        let p = r.position();
        if p <= pos || p > n {
            return None;
        }
        let ghost before = tokens_view(result@);
        let ghost iv = item@;
        result.push(item);
        assert(tokens_view(result@) =~= before.push(iv));
        assert forall|es: Seq<Expr>| before + (seq![iv] + es) =~= #[trigger] (before.push(iv) + es) by {}
    }
}

/// Reads a nested form whose opening bracket is the next token, up to its
/// closing bracket `close`; `None` where reading panics.
pub fn read_group_checked(r: &mut Reader, close: &str) -> (res: Option<Vec<Token>>)
    ensures
        final(r).texts() == old(r).texts(),
        seq_result(res, *final(r), read_group(old(r).texts(), old(r).pos(), close@)),
    decreases old(r).texts().len() - old(r).pos(), 1int,
{
    let n = r.len();
    if r.position() >= n {
        return None;
    }
    r.next();
    let to_add = match read_seq_checked(r, close) {
        Some(es) => es,
        None => return None,
    };
    r.next();
    Some(to_add)
}

/// Reads forms up to a token that reads `close_char` or the end; reading
/// must not panic.
pub fn read_form(r: &mut Reader, close_char: &str) -> (res: Vec<Token>)
    requires
        read_seq(old(r).texts(), old(r).pos(), close_char@) is Some,
    ensures
        final(r).texts() == old(r).texts(),
        (tokens_view(res@), final(r).pos()) == read_seq(old(r).texts(), old(r).pos(), close_char@)->Some_0,
    decreases old(r).texts().len() - old(r).pos(), 2int,
{
    let ghost toks = r.texts();
    let ghost start = r.pos();
    let mut result: Vec<Token> = Vec::new();
    let n = r.len();
    loop
        invariant
            r.texts() == toks,
            toks == old(r).texts(),
            start == old(r).pos(),
            start <= r.pos() <= toks.len(),
            n == toks.len(),
            read_seq(toks, r.pos(), close_char@) is Some,
            read_seq(toks, start, close_char@) == match read_seq(toks, r.pos(), close_char@) {
                Some((es, q)) => Some((tokens_view(result@) + es, q)),
                None => None,
            },
        decreases toks.len() - r.pos(),
    {
        let t = match r.peek() {
            Some(t) => t,
            None => {
                assert(tokens_view(result@) + Seq::<Expr>::empty() =~= tokens_view(result@));
                return result;
            },
        };
        if text_is(t.as_str(), close_char) {
            assert(tokens_view(result@) + Seq::<Expr>::empty() =~= tokens_view(result@));
            return result;
        }
        let item = if text_is(t.as_str(), "(") {
            Token::List(_read_form(r, ")"))
        } else if text_is(t.as_str(), "{") {
            Token::HashMap(_read_form(r, "}"))
        } else if text_is(t.as_str(), "[") {
            Token::Vector(_read_form(r, "]"))
        } else {
            read_atom(r)
        };
        let ghost before = tokens_view(result@);
        let ghost iv = item@;
        result.push(item);
        assert(tokens_view(result@) =~= before.push(iv));
        assert forall|es: Seq<Expr>| before + (seq![iv] + es) =~= #[trigger] (before.push(iv) + es) by {}
    }
}

/// Reads a nested form whose opening bracket is the next token, up to its
/// closing bracket `close_char`; reading must not panic.
pub fn _read_form(r: &mut Reader, close_char: &str) -> (res: Vec<Token>)
    requires
        read_group(old(r).texts(), old(r).pos(), close_char@) is Some,
    ensures
        final(r).texts() == old(r).texts(),
        (tokens_view(res@), final(r).pos()) == read_group(old(r).texts(), old(r).pos(), close_char@)->Some_0,
    decreases old(r).texts().len() - old(r).pos(), 1int,
{
    r.next();
    let to_add = read_form(r, close_char);
    r.next();
    to_add
}

/// Records the token of a match and gives the text after it.
pub fn update_state(tokens: &mut Vec<String>, match_point: (String, String)) -> (r: String)
    ensures
        texts_view(final(tokens)@) == texts_view(old(tokens)@).push(match_point.0@),
        r@ == match_point.1@,
{
    let (token, rest) = match_point;
    tokens.push(token);
    assert(texts_view(tokens@) =~= texts_view(old(tokens)@).push(token@));
    rest
}

/// The texts of an optional pair of strings.
pub open spec fn split_of(o: Option<(String, String)>) -> Option<(Seq<char>, Seq<char>)> {
    match o {
        Some((a, b)) => Some((a@, b@)),
        None => None,
    }
}

/// The text after a match where there is one, otherwise `s` itself.
pub fn text_after(s: &str, found: Option<(String, String)>) -> (r: String)
    ensures
        r@ == rest_or(s@, split_of(found)),
{
    match found {
        Some((_, rest)) => rest,
        None => s.to_owned(),
    }
}

/// The first of the seven pattern results, in order, that found something.
pub fn first_match_of(
    strings: Option<(String, String)>,
    brackets: Option<(String, String)>,
    odd: Option<(String, String)>,
    equalities: Option<(String, String)>,
    digits: Option<(String, String)>,
    operands: Option<(String, String)>,
    alphas: Option<(String, String)>,
) -> (r: Option<(String, String)>)
    ensures
        split_of(r) == first_match(
            split_of(strings),
            split_of(brackets),
            split_of(odd),
            split_of(equalities),
            split_of(digits),
            split_of(operands),
            split_of(alphas),
        ),
{
    if strings.is_some() {
        strings
    } else if brackets.is_some() {
        brackets
    } else if odd.is_some() {
        odd
    } else if equalities.is_some() {
        equalities
    } else if digits.is_some() {
        digits
    } else if operands.is_some() {
        operands
    } else {
        alphas
    }
}

/// The first token of `s` and the text after it.
fn first_token_exec(
    strings: &Pattern,
    brackets: &Pattern,
    odd: &Pattern,
    equalities: &Pattern,
    digits: &Pattern,
    operands: &Pattern,
    alphas: &Pattern,
    s: &str,
) -> (r: Option<(String, String)>)
    requires
        strings.source() == STRINGS@,
        brackets.source() == BRACKETS@,
        odd.source() == ODD@,
        equalities.source() == EQUALITIES@,
        digits.source() == DIGITS@,
        operands.source() == OPERANDS@,
        alphas.source() == ALPHAS@,
    ensures
        split_of(r) == first_token(s@),
{
    first_match_of(
        captures_group1(strings, s),
        captures_group1(brackets, s),
        captures_group1(odd, s),
        captures_group1(equalities, s),
        captures_group1(digits, s),
        captures_group1(operands, s),
        captures_group1(alphas, s),
    )
}

/// The token texts of `s_in`; `None` where a pattern does not compile or
/// the tokenizer would go round forever.
pub fn tokenize_checked(s_in: &str) -> (r: Option<Vec<String>>)
    ensures
        match tokenize(s_in@) {
            Some(ts) => r is Some && texts_view(r->Some_0@) == ts,
            None => r is None,
        },
{
    let brackets = match compile(BRACKETS) {
        Ok(p) => p,
        Err(_) => return None,
    };
    let digits = match compile(DIGITS) {
        Ok(p) => p,
        Err(_) => return None,
    };
    let operands = match compile(OPERANDS) {
        Ok(p) => p,
        Err(_) => return None,
    };
    let equalities = match compile(EQUALITIES) {
        Ok(p) => p,
        Err(_) => return None,
    };
    let alphas = match compile(ALPHAS) {
        Ok(p) => p,
        Err(_) => return None,
    };
    let strings = match compile(STRINGS) {
        Ok(p) => p,
        Err(_) => return None,
    };
    let odd = match compile(ODD) {
        Ok(p) => p,
        Err(_) => return None,
    };
    let comment = match compile(COMMENT) {
        Ok(p) => p,
        Err(_) => return None,
    };
    let empty = match compile(EMPTY) {
        Ok(p) => p,
        Err(_) => return None,
    };
    let mut tokens: Vec<String> = Vec::new();
    let mut s: String = s_in.to_owned();
    assert(texts_view(tokens@) + Seq::<Seq<char>>::empty() =~= Seq::<Seq<char>>::empty());
    while !s.as_str().is_empty() && !is_match(&empty, s.as_str())
        invariant
            strings.source() == STRINGS@,
            brackets.source() == BRACKETS@,
            odd.source() == ODD@,
            equalities.source() == EQUALITIES@,
            digits.source() == DIGITS@,
            operands.source() == OPERANDS@,
            alphas.source() == ALPHAS@,
            comment.source() == COMMENT@,
            empty.source() == EMPTY@,
            tokenizer_patterns_compile(),
            tokens_of(s_in@) == match tokens_of(s@) {
                Some(ts) => Some(texts_view(tokens@) + ts),
                None => None,
            },
        decreases s@.len(),
    {
        let ghost before = texts_view(tokens@);
        let n0 = s.as_str().unicode_len();
        let s1 = text_after(s.as_str(), captures_group1(&comment, s.as_str()));
        assert(s1@ == after_comment(s@));
        let s2 = match first_token_exec(
            &strings,
            &brackets,
            &odd,
            &equalities,
            &digits,
            &operands,
            &alphas,
            s1.as_str(),
        ) {
            Some(m) => update_state(&mut tokens, m),
            None => s1,
        };
        if s2.as_str().unicode_len() >= n0 {
            return None;
        }
        assert forall|ts: Seq<Seq<char>>| #![trigger (texts_view(tokens@) + ts)]
            before + ((texts_view(tokens@).subrange(before.len() as int, texts_view(tokens@).len() as int)) + ts) =~= texts_view(tokens@) + ts by {}
        assert(texts_view(tokens@).subrange(before.len() as int, texts_view(tokens@).len() as int) =~= match first_token(after_comment(s@)) {
            Some((t, _)) => seq![t],
            None => Seq::<Seq<char>>::empty(),
        });
        s = s2;
    }
    assert(texts_view(tokens@) + Seq::<Seq<char>>::empty() =~= texts_view(tokens@));
    Some(tokens)
}

/// A reader over the token texts of `s_in`; `None` where the tokenizer
/// panics or would go round forever.
pub fn tokenizer_checked(s_in: &str) -> (r: Option<Reader>)
    ensures
        match tokenize(s_in@) {
            Some(ts) => r is Some && r->Some_0.texts() == ts && r->Some_0.pos() == 0,
            None => r is None,
        },
{
    match tokenize_checked(s_in) {
        Some(tokens) => Some(Reader::new(tokens)),
        None => None,
    }
}

/// A reader over the token texts of `s_in`, at the first of them: commas and
/// white space separate tokens, a comment runs to the end of the text.
/// The tokenizer must end.
pub fn tokenizer(s_in: &str) -> (r: Reader)
    requires
        tokenize(s_in@) is Some,
    ensures
        r.texts() == tokenize(s_in@)->Some_0,
        r.pos() == 0,
{
    match tokenizer_checked(s_in) {
        Some(r) => r,
        None => Reader::new(Vec::new()),
    }
}

/// The forms of `s`; `None` where reading panics or would never end.
pub fn try_read_str(s: &str) -> (r: Option<Vec<Token>>)
    ensures
        match read_text(s@) {
            Some(es) => r is Some && tokens_view(r->Some_0@) == es,
            None => r is None,
        },
{
    let mut t = match tokenizer_checked(s) {
        Some(t) => t,
        None => return None,
    };
    match read_seq_checked(&mut t, "") {
        Some(_) => Some(read_str(s)),
        None => None,
    }
}

/// The forms of `s`, read up to the end; reading must not panic and must end.
pub fn read_str(s: &str) -> (r: Vec<Token>)
    requires
        read_text(s@) is Some,
    ensures
        tokens_view(r@) == read_text(s@)->Some_0,
{
    let mut t = tokenizer(s);
    read_form(&mut t, "")
}

} // verus!
