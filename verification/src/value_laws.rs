use vstd::prelude::*;
use crate::arith::{Op, abs, apply_op, fits, lemma_div_bounds, power};
use crate::env::EvalState;
use crate::semantics::{comparison, eval_item, eval_keyword, eval_token};
use crate::token::Expr;

verus! {

/// `+`, `-` and `*` are the integer sum, difference and product wherever
/// that fits in an `i32`, and fail where it does not.
pub proof fn law_integer_arithmetic(a: i32, b: i32)
    ensures
        apply_op(Op::Add, a, b) == (if fits(a + b) { Some((a + b) as i32) } else { None }),
        apply_op(Op::Sub, a, b) == (if fits(a - b) { Some((a - b) as i32) } else { None }),
        apply_op(Op::Mul, a, b) == (if fits(a * b) { Some((a * b) as i32) } else { None }),
{
}

/// `/` is division rounded toward zero: it fails exactly on a zero divisor
/// and on `i32::MIN / -1`, and otherwise gives the quotient `q` whose
/// remainder `a - q * b` is smaller than `b` in size and has the sign of `a`.
pub proof fn law_integer_division(a: i32, b: i32)
    ensures
        apply_op(Op::Div, a, b) is Some <==> (b != 0 && !(a == i32::MIN && b == -1)),
        apply_op(Op::Div, a, b) matches Some(q) ==> ({
            let r = a - q * b;
            &&& abs(r) < abs(b as int)
            &&& (r == 0 || (r < 0) == (a < 0))
        }),
{
    if b != 0 {
        lemma_div_bounds(a as int, b as int);
        let ua = abs(a as int);
        let ub = abs(b as int);
        let q0 = ua / ub;
        let r0 = ua % ub;
        assert(ua == q0 * ub + r0 && 0 <= r0 < ub) by (nonlinear_arith)
            requires
                ub > 0,
                ua >= 0,
                q0 == ua / ub,
                r0 == ua % ub,
        ;
        if a == i32::MIN && b == -1 {
            assert(q0 == 2147483648) by (nonlinear_arith)
                requires
                    ua == 2147483648,
                    ub == 1,
                    q0 == ua / ub,
            ;
        }
        if !(a == i32::MIN && b == -1) {
            let q = apply_op(Op::Div, a, b)->Some_0 as int;
            let ai = a as int;
            let bi = b as int;
            if ai >= 0 && bi > 0 {
                assert(ai - q * bi == r0);
            } else if ai < 0 && bi > 0 {
                assert(q == -q0);
                assert(ai - q * bi == -r0) by (nonlinear_arith)
                    requires
                        q == -q0,
                        ai == -ua,
                        bi == ub,
                        ua == q0 * ub + r0,
                ;
            } else if ai >= 0 && bi < 0 {
                assert(q == -q0);
                assert(ai - q * bi == r0) by (nonlinear_arith)
                    requires
                        q == -q0,
                        ai == ua,
                        bi == -ub,
                        ua == q0 * ub + r0,
                ;
            } else {
                assert(q == q0);
                assert(ai - q * bi == -r0) by (nonlinear_arith)
                    requires
                        q == q0,
                        ai == -ua,
                        bi == -ub,
                        ua == q0 * ub + r0,
                ;
            }
        }
    }
}

/// On two numbers the comparisons are the integer order and equality.
pub proof fn law_number_comparisons(x: i32, y: i32)
    ensures
        comparison("<"@, Expr::Number(x), Expr::Number(y)) == Some(x < y),
        comparison(">"@, Expr::Number(x), Expr::Number(y)) == Some(x > y),
        comparison("<="@, Expr::Number(x), Expr::Number(y)) == Some(x <= y),
        comparison(">="@, Expr::Number(x), Expr::Number(y)) == Some(x >= y),
        comparison("="@, Expr::Number(x), Expr::Number(y)) == Some(x == y),
{
    reveal_strlit("<");
    reveal_strlit(">");
    reveal_strlit("=");
    reveal_strlit("<=");
    reveal_strlit(">=");
    assert("<"@[0] != "="@[0]);
    assert(">"@[0] != "="@[0]);
    assert(">"@[0] != "<"@[0]);
    assert("<"@.len() != "<="@.len() && "<"@.len() != ">="@.len());
    assert(">"@.len() != "<="@.len() && ">"@.len() != ">="@.len());
    assert("<="@[0] != "="@[0] && ">="@[0] != "="@[0] && "<="@[0] != ">="@[0]);
}

/// An item after the head of a group evaluates as a token does: a name is
/// looked up, a list or vector is evaluated as a group; only a map stays
/// as it is written.
pub proof fn law_item_evaluates_like_token(f: nat, t: Expr, st: EvalState)
    ensures
        !(t is HashMap) ==> eval_item(f, t, st) == eval_token(f, t, st),
        t is HashMap && f > 0 ==> eval_item(f, t, st) == Some((t, st)),
{
}

/// `count` gives the number of elements of a list or a vector, and 0 for
/// any other token; it consumes that one token and changes no state.
pub proof fn law_count(f: nat, xs: Seq<Expr>, x: Expr, rest: Seq<Expr>, st: EvalState)
    ensures
        eval_keyword(f + 1, "count"@, seq![Expr::List(xs)] + rest, st) == Some(
            (Expr::Number(xs.len() as i32), rest, st),
        ),
        eval_keyword(f + 1, "count"@, seq![Expr::Vector(xs)] + rest, st) == Some(
            (Expr::Number(xs.len() as i32), rest, st),
        ),
        !(x is List) && !(x is Vector) ==> eval_keyword(f + 1, "count"@, seq![x] + rest, st)
            == Some((Expr::Number(0), rest, st)),
{
    reveal_strlit("count");
    reveal_strlit("def");
    reveal_strlit("let");
    reveal_strlit("fn");
    reveal_strlit("do");
    reveal_strlit("list?");
    reveal_strlit("empty?");
    assert("count"@.len() != "def"@.len());
    assert("count"@.len() != "let"@.len());
    assert("count"@.len() != "fn"@.len());
    assert("count"@.len() != "do"@.len());
    assert("count"@[0] != "list?"@[0]);
    assert("count"@.len() != "empty?"@.len());
    assert((seq![Expr::List(xs)] + rest).subrange(1, rest.len() as int + 1) =~= rest);
    assert((seq![Expr::Vector(xs)] + rest).subrange(1, rest.len() as int + 1) =~= rest);
    assert((seq![x] + rest).subrange(1, rest.len() as int + 1) =~= rest);
}

/// `if` evaluates its then-branch after a true condition and its
/// else-branch after a false one, consuming the three tokens.
pub proof fn law_if_chooses(f: nat, t: Expr, e: Expr, rest: Seq<Expr>, st: EvalState)
    ensures
        eval_keyword(f + 2, "if"@, seq![Expr::Keyword("true"@), t, e] + rest, st) == match eval_token(
            f + 1,
            t,
            st,
        ) {
            Some((v, st2)) => Some((v, rest, st2)),
            None => None,
        },
        eval_keyword(f + 2, "if"@, seq![Expr::Keyword("false"@), t, e] + rest, st) == match eval_token(
            f + 1,
            e,
            st,
        ) {
            Some((v, st2)) => Some((v, rest, st2)),
            None => None,
        },
{
    reveal_strlit("if");
    reveal_strlit("def");
    reveal_strlit("let");
    reveal_strlit("fn");
    reveal_strlit("do");
    reveal_strlit("list?");
    reveal_strlit("empty?");
    reveal_strlit("count");
    reveal_strlit("list");
    reveal_strlit("true");
    reveal_strlit("false");
    reveal_strlit("nil");
    assert("if"@.len() != "def"@.len() && "if"@.len() != "let"@.len());
    assert("if"@[0] != "fn"@[0] && "if"@[0] != "do"@[0]);
    assert("if"@.len() != "list?"@.len() && "if"@.len() != "empty?"@.len());
    assert("if"@.len() != "count"@.len() && "if"@.len() != "list"@.len());
    assert("true"@.len() != "false"@.len() && "true"@.len() != "nil"@.len());
    assert("false"@.len() != "nil"@.len());
    let tt = seq![Expr::Keyword("true"@), t, e] + rest;
    let ff = seq![Expr::Keyword("false"@), t, e] + rest;
    assert(tt.subrange(1, tt.len() as int).subrange(1, rest.len() as int + 2).subrange(
        1,
        rest.len() as int + 1,
    ) =~= rest);
    assert(ff.subrange(1, ff.len() as int).subrange(1, rest.len() as int + 2).subrange(
        1,
        rest.len() as int + 1,
    ) =~= rest);
    assert(tt.subrange(1, tt.len() as int)[0] == t);
    assert(tt.subrange(1, tt.len() as int).subrange(1, rest.len() as int + 2)[0] == e);
    assert(ff.subrange(1, ff.len() as int)[0] == t);
    assert(ff.subrange(1, ff.len() as int).subrange(1, rest.len() as int + 2)[0] == e);
}

/// `list?` is true exactly of a list; `empty?` is true exactly of a list or
/// vector without elements and fails on any other token; each consumes
/// one token and changes no state.
pub proof fn law_list_queries(f: nat, x: Expr, xs: Seq<Expr>, rest: Seq<Expr>, st: EvalState)
    ensures
        eval_keyword(f + 1, "list?"@, seq![x] + rest, st) == Some(
            (Expr::Keyword(if x is List { "true"@ } else { "false"@ }), rest, st),
        ),
        eval_keyword(f + 1, "empty?"@, seq![Expr::List(xs)] + rest, st) == Some(
            (Expr::Keyword(if xs.len() == 0 { "true"@ } else { "false"@ }), rest, st),
        ),
        eval_keyword(f + 1, "empty?"@, seq![Expr::Vector(xs)] + rest, st) == Some(
            (Expr::Keyword(if xs.len() == 0 { "true"@ } else { "false"@ }), rest, st),
        ),
        !(x is List) && !(x is Vector) ==> eval_keyword(f + 1, "empty?"@, seq![x] + rest, st)
            is None,
{
    reveal_strlit("def");
    reveal_strlit("let");
    reveal_strlit("fn");
    reveal_strlit("do");
    reveal_strlit("list?");
    reveal_strlit("empty?");
    assert("list?"@.len() != "def"@.len() && "list?"@.len() != "let"@.len());
    assert("list?"@.len() != "fn"@.len() && "list?"@.len() != "do"@.len());
    assert("empty?"@.len() != "def"@.len() && "empty?"@.len() != "let"@.len());
    assert("empty?"@.len() != "fn"@.len() && "empty?"@.len() != "do"@.len());
    assert("empty?"@.len() != "list?"@.len());
    assert((seq![Expr::List(xs)] + rest).subrange(1, rest.len() as int + 1) =~= rest);
    assert((seq![Expr::Vector(xs)] + rest).subrange(1, rest.len() as int + 1) =~= rest);
    assert((seq![x] + rest).subrange(1, rest.len() as int + 1) =~= rest);
}

/// `**` to the power 0 is 1, and one more in a non-negative exponent is
/// one more factor of the base, wherever both powers fit in an `i32`.
pub proof fn law_power_steps(a: i32, b: i32)
    ensures
        apply_op(Op::Pow, a, 0) == Some(1i32),
        0 <= b < i32::MAX && apply_op(Op::Pow, a, b) is Some && apply_op(Op::Pow, a, (b + 1) as i32)
            is Some ==> apply_op(Op::Pow, a, (b + 1) as i32)->Some_0 == a * apply_op(
            Op::Pow,
            a,
            b,
        )->Some_0,
{
    if 0 <= b < i32::MAX {
        assert((b as u32) as nat == b as nat);
        assert((((b + 1) as i32) as u32) as nat == (b + 1) as nat);
        assert(power(a as int, (b + 1) as nat) == a * power(a as int, b as nat));
    }
}

} // verus!
