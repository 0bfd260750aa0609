use vstd::prelude::*;
use vstd::string::StringExecFns;
use crate::numeral::{decimal, decimal_text};
use crate::text::{text_is, trim, trim_text};
use crate::token::{Expr, Token, group_token_view, tokens_view};

verus! {

broadcast use group_token_view;

/// What `{:?}` formatting writes for a string.
pub uninterp spec fn debug_text(s: Seq<char>) -> Seq<char>;

/// The `Debug` formatting of a string (`format!("{:?}", s)`); the contract
/// names the text it gives and does not spell out the escaping rules.
#[verifier::external_body]
fn debug_string(s: &String) -> (r: String)
    ensures
        r@ == debug_text(s@),
{
    format!("{:?}", s)
}

/// Whether `o` is one of the reader macros that the printer knows.
pub open spec fn known_odd(o: Seq<char>) -> bool {
    o == "'"@ || o == "`"@ || o == "~@"@ || o == "~"@
}

/// Whether every reader macro in `t` (outside closures) is one that the printer knows.
pub open spec fn printable(t: Expr) -> bool
    decreases t, 0int,
{
    match t {
        Expr::Odd(o) => known_odd(o),
        Expr::List(l) => all_printable(l),
        Expr::Vector(l) => all_printable(l),
        Expr::HashMap(l) => all_printable(l),
        _ => true,
    }
}

/// Whether every token of `ts` is printable.
pub open spec fn all_printable(ts: Seq<Expr>) -> bool
    decreases ts, 1int,
{
    forall|i: int| 0 <= i < ts.len() ==> printable(#[trigger] ts[i])
}

/// The opening form that the printer writes for a reader macro.
pub open spec fn odd_text(o: Seq<char>) -> Seq<char> {
    if o == "'"@ {
        "(quote"@
    } else if o == "`"@ {
        "(quasiquote"@
    } else if o == "~@"@ {
        "(splice-unquote"@
    } else {
        "(unquote"@
    }
}

/// The text that the printer writes for one token.
pub open spec fn piece(t: Expr) -> Seq<char>
    decreases t, 0int,
{
    match t {
        Expr::Number(n) => decimal(n as int),
        Expr::Symbol(s) => s,
        Expr::UserKeyword(s) => s,
        Expr::Keyword(s) => s,
        Expr::Other(s) => s,
        Expr::Closure(_, _) => "#<function>"@,
        Expr::Odd(o) => odd_text(o),
        Expr::List(l) => "("@ + print_seq(l) + ")"@,
        Expr::Vector(l) => "["@ + print_seq(l) + "]"@,
        Expr::HashMap(l) => "{"@ + print_seq(l) + "}"@,
        Expr::Error(e) => "Error: "@ + debug_text(e) + " "@,
    }
}

/// The printer's text for `ts` from index `i` on, given the text `acc` written
/// so far and the counter `ugly`: a reader macro sets the counter to 2, every
/// token lowers it by one, and where it reaches 0 the text so far is trimmed
/// and a `)` closes the macro's form.
pub open spec fn print_from(ts: Seq<Expr>, i: int, acc: Seq<char>, ugly: int) -> Seq<char>
    decreases ts, ts.len() - i,
{
    if i < 0 || i >= ts.len() {
        trim(acc)
    } else {
        let u = (if ts[i] is Odd {
            2
        } else {
            ugly
        }) - 1;
        let acc1 = acc + " "@ + piece(ts[i]);
        let acc2 = if u == 0 {
            trim(acc1) + ")"@
        } else {
            acc1
        };
        print_from(ts, i + 1, acc2, u)
    }
}

/// The printer's text for a sequence of tokens.
pub open spec fn print_seq(ts: Seq<Expr>) -> Seq<char>
    decreases ts, ts.len() + 1,
{
    print_from(ts, 0, Seq::empty(), 0)
}

/// Whether the printer knows every reader macro in `tokens`.
pub fn tokens_printable(tokens: &[Token]) -> (r: bool)
    ensures
        r == all_printable(tokens_view(tokens@)),
    decreases tokens@, 1int,
{
    let mut i: usize = 0;
    while i < tokens.len()
        invariant
            0 <= i <= tokens.len(),
            forall|j: int| 0 <= j < i ==> printable(#[trigger] tokens_view(tokens@)[j]),
        decreases tokens.len() - i,
    {
        proof {
            assert(decreases_to!(tokens@ => tokens@[i as int]));
        }
        if !token_printable(&tokens[i]) {
            assert(!printable(tokens_view(tokens@)[i as int]));
            return false;
        }
        i = i + 1;
    }
    true
}

/// Whether the printer knows every reader macro in `t`.
pub fn token_printable(t: &Token) -> (r: bool)
    ensures
        r == printable(t@),
    decreases t, 0int,
{
    match t {
        Token::Odd(o) => {
            proof {
                reveal_strlit("'");
                reveal_strlit("`");
                reveal_strlit("~@");
                reveal_strlit("~");
            }
            text_is(o.as_str(), "'") || text_is(o.as_str(), "`") || text_is(o.as_str(), "~@")
                || text_is(o.as_str(), "~")
        },
        Token::List(l) => tokens_printable(l.as_slice()),
        Token::Vector(l) => tokens_printable(l.as_slice()),
        Token::HashMap(l) => tokens_printable(l.as_slice()),
        _ => true,
    }
}

/// The printer's text for one token, and whether the token is a reader macro.
fn piece_text(t: &Token) -> (r: (String, bool))
    requires
        printable(t@),
    ensures
        r.0@ == piece(t@),
        r.1 == t@ is Odd,
    decreases t, 0int,
{
    match t {
        Token::Number(n) => (decimal_text(*n), false),
        Token::Symbol(s) => (s.clone(), false),
        Token::UserKeyword(s) => (s.clone(), false),
        Token::Keyword(s) => (s.clone(), false),
        Token::Other(s) => (s.clone(), false),
        Token::Closure(_, _) => ("#<function>".to_owned(), false),
        Token::Odd(o) => {
            let text = if text_is(o.as_str(), "'") {
                "(quote"
            } else if text_is(o.as_str(), "`") {
                "(quasiquote"
            } else if text_is(o.as_str(), "~@") {
                "(splice-unquote"
            } else {
                "(unquote"
            };
            (text.to_owned(), true)
        },
        Token::List(l) => {
            let mut r = "(".to_owned();
            let inner = pr_str(l.as_slice());
            r.append(inner.as_str());
            r.append(")");
            (r, false)
        },
        Token::Vector(l) => {
            let mut r = "[".to_owned();
            let inner = pr_str(l.as_slice());
            r.append(inner.as_str());
            r.append("]");
            (r, false)
        },
        Token::HashMap(l) => {
            let mut r = "{".to_owned();
            let inner = pr_str(l.as_slice());
            r.append(inner.as_str());
            r.append("}");
            (r, false)
        },
        Token::Error(e) => {
            let mut r = "Error: ".to_owned();
            let d = debug_string(e);
            r.append(d.as_str());
            r.append(" ");
            (r, false)
        },
    }
}

/// The printed text of a sequence of tokens: each token's text after a
/// space, a reader macro's form closed after the token that follows it, and
/// the white space at both ends trimmed.
pub fn pr_str(tokens: &[Token]) -> (r: String)
    requires
        all_printable(tokens_view(tokens@)),
    ensures
        r@ == print_seq(tokens_view(tokens@)),
    decreases tokens@, tokens@.len() + 1,
{
    let ghost ts = tokens_view(tokens@);
    let mut result = String::new();
    let mut ugly: i32 = 0;
    let ghost mut gu: int = 0;
    let mut i: usize = 0;
    while i < tokens.len()
        invariant
            0 <= i <= tokens.len(),
            ts == tokens_view(tokens@),
            all_printable(ts),
            print_from(ts, i as int, result@, gu) == print_seq(ts),
            ugly == (if gu < -1 {
                -1
            } else {
                gu
            }),
        decreases tokens.len() - i,
    {
        proof {
            assert(decreases_to!(tokens@ => tokens@[i as int]));
            assert(printable(ts[i as int]));
        }
        let (p, odd) = piece_text(&tokens[i]);
        if odd {
            ugly = 2;
        }
        let ghost acc1 = result@ + " "@ + p@;
        proof {
            gu = (if odd { 2 } else { gu }) - 1;
        }
        result.append(" ");
        result.append(p.as_str());
        assert(result@ =~= acc1);
        ugly = if ugly > -1 {
            ugly - 1
        } else {
            -1
        };
        if ugly == 0 {
            result = trim_text(result.as_str());
            result.append(")");
        }
        i = i + 1;
    }
    trim_text(result.as_str())
}

} // verus!
