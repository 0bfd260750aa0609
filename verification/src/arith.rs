use vstd::prelude::*;
use crate::text::text_is;
use crate::token::{Expr, Token, group_token_view, tokens_view};

verus! {

broadcast use group_token_view;

/// The arithmetic operators of the language.
pub enum Op {
    Add,
    Sub,
    Mul,
    Pow,
    Div,
}

/// The operator that a symbol names.
pub open spec fn op_of(sym: Seq<char>) -> Option<Op> {
    if sym == "+"@ {
        Some(Op::Add)
    } else if sym == "-"@ {
        Some(Op::Sub)
    } else if sym == "*"@ {
        Some(Op::Mul)
    } else if sym == "**"@ {
        Some(Op::Pow)
    } else if sym == "/"@ {
        Some(Op::Div)
    } else {
        None
    }
}

/// `a` to the power `e`.
pub open spec fn power(a: int, e: nat) -> int
    decreases e,
{
    if e == 0 {
        1
    } else {
        a * power(a, (e - 1) as nat)
    }
}

/// `a / b` rounded toward zero, as Rust's integer division gives it.
pub open spec fn trunc_div(a: int, b: int) -> int {
    let q = abs(a) / abs(b);
    if (a < 0) != (b < 0) {
        -q
    } else {
        q
    }
}

pub open spec fn abs(a: int) -> int {
    if a < 0 {
        -a
    } else {
        a
    }
}

/// Whether `v` fits in an `i32`.
pub open spec fn fits(v: int) -> bool {
    i32::MIN <= v <= i32::MAX
}

/// The value of `a op b` for 32-bit integers; `None` where the operation
/// overflows or divides by zero (where the operator panics). The exponent of
/// `**` is `b` reinterpreted as an unsigned 32-bit number.
pub open spec fn apply_op(op: Op, a: i32, b: i32) -> Option<i32> {
    let v = match op {
        Op::Add => a + b,
        Op::Sub => a - b,
        Op::Mul => a * b,
        Op::Pow => power(a as int, (b as u32) as nat),
        Op::Div => if b == 0 {
            i32::MAX + 1
        } else {
            trunc_div(a as int, b as int)
        },
    };
    if fits(v) {
        Some(v as i32)
    } else {
        None
    }
}

/// The operator that `sym` names.
pub fn op_of_text(sym: &str) -> (r: Option<Op>)
    ensures
        r == op_of(sym@),
{
    if text_is(sym, "+") {
        Some(Op::Add)
    } else if text_is(sym, "-") {
        Some(Op::Sub)
    } else if text_is(sym, "*") {
        Some(Op::Mul)
    } else if text_is(sym, "**") {
        Some(Op::Pow)
    } else if text_is(sym, "/") {
        Some(Op::Div)
    } else {
        None
    }
}

proof fn lemma_power_abs(a: int, e: nat)
    ensures
        abs(power(a, e)) == power(abs(a), e),
    decreases e,
{
    if e > 0 {
        lemma_power_abs(a, (e - 1) as nat);
        let p = power(a, (e - 1) as nat);
        assert(abs(a * p) == abs(a) * abs(p)) by (nonlinear_arith);
    }
}

proof fn lemma_power_grows(a: int, e1: nat, e2: nat)
    requires
        a >= 1,
        e1 <= e2,
    ensures
        1 <= power(a, e1) <= power(a, e2),
    decreases e2,
{
    if e1 < e2 {
        lemma_power_grows(a, e1, (e2 - 1) as nat);
        let p = power(a, (e2 - 1) as nat);
        assert(p <= a * p) by (nonlinear_arith)
            requires
                a >= 1,
                p >= 1,
        ;
    } else if e2 > 0 {
        lemma_power_grows(a, 0, (e2 - 1) as nat);
        let p = power(a, (e2 - 1) as nat);
        assert(1 <= a * p) by (nonlinear_arith)
            requires
                a >= 1,
                p >= 1,
        ;
    }
}

proof fn lemma_power_double(a: int, e1: nat, e2: nat)
    requires
        a >= 2,
        e1 < e2,
    ensures
        power(a, e2) >= 2 * power(a, e1),
{
    lemma_power_grows(a, (e1 + 1) as nat, e2);
    lemma_power_grows(a, 0, e1);
    let p = power(a, e1);
    assert(a * p >= 2 * p) by (nonlinear_arith)
        requires
            a >= 2,
            p >= 1,
    ;
}

proof fn lemma_power_unit(a: int, e: nat)
    requires
        -1 <= a <= 1,
    ensures
        a == 0 ==> power(a, e) == (if e == 0 {
            1int
        } else {
            0int
        }),
        a == 1 ==> power(a, e) == 1,
        a == -1 ==> power(a, e) == (if e % 2 == 0 {
            1int
        } else {
            -1int
        }),
    decreases e,
{
    if e > 0 {
        lemma_power_unit(a, (e - 1) as nat);
    }
}

/// `a` to the power `e`, where it fits in an `i32`.
pub fn power_i32(a: i32, e: u32) -> (r: Option<i32>)
    ensures
        match r {
            Some(v) => v == power(a as int, e as nat),
            None => !fits(power(a as int, e as nat)),
        },
{
    if e == 0 {
        return Some(1);
    }
    if a == 0 || a == 1 || a == -1 {
        proof {
            lemma_power_unit(a as int, e as nat);
        }
        if a == 0 {
            return Some(0);
        } else if a == 1 {
            return Some(1);
        } else if e % 2 == 0 {
            return Some(1);
        } else {
            return Some(-1);
        }
    }
    let mut acc: i64 = 1;
    let mut k: u32 = 0;
    while k < e
        invariant
            k <= e,
            acc == power(a as int, k as nat),
            fits(acc as int),
            a != 0 && a != 1 && a != -1,
        decreases e - k,
    {
        proof {
            assert((a as int) * acc <= 2147483648 * 2147483648) by (nonlinear_arith)
                requires
                    -2147483648 <= acc <= 2147483647,
                    -2147483648 <= a <= 2147483647,
            ;
            assert((a as int) * acc >= -2147483648 * 2147483648) by (nonlinear_arith)
                requires
                    -2147483648 <= acc <= 2147483647,
                    -2147483648 <= a <= 2147483647,
            ;
        }
        let next = (a as i64) * acc;
        k = k + 1;
        assert(next == power(a as int, k as nat));
        if next < -2147483648 || next > 2147483647 {
            proof {
                lemma_power_abs(a as int, k as nat);
                lemma_power_abs(a as int, e as nat);
                lemma_power_grows(abs(a as int), k as nat, e as nat);
                if k < e {
                    lemma_power_double(abs(a as int), k as nat, e as nat);
                }
            }
            return None;
        }
        acc = next;
    }
    Some(acc as i32)
}

pub(crate) proof fn lemma_div_bounds(a: int, b: int)
    requires
        b != 0,
        fits(a),
        fits(b),
    ensures
        fits(trunc_div(a, b)) || (a == i32::MIN && b == -1),
        abs(a) / abs(b) <= abs(a),
{
    assert(abs(a) / abs(b) <= abs(a)) by (nonlinear_arith)
        requires
            abs(b) >= 1,
            abs(a) >= 0,
    ;
    if abs(a) / abs(b) == abs(a) && abs(a) > 0 {
        assert(abs(b) == 1) by (nonlinear_arith)
            requires
                abs(a) / abs(b) == abs(a),
                abs(b) >= 1,
                abs(a) > 0,
        ;
    }
}

/// The value of `a op b`, where the operator does not panic.
pub fn apply_op_exec(op: &Op, a: i32, b: i32) -> (r: Option<i32>)
    ensures
        r == apply_op(*op, a, b),
{
    match op {
        Op::Add => {
            let v = a as i64 + b as i64;
            if -2147483648 <= v && v <= 2147483647 {
                Some(v as i32)
            } else {
                None
            }
        },
        Op::Sub => {
            let v = a as i64 - b as i64;
            if -2147483648 <= v && v <= 2147483647 {
                Some(v as i32)
            } else {
                None
            }
        },
        Op::Mul => {
            assert((a as int) * (b as int) <= 2147483648 * 2147483648) by (nonlinear_arith)
                requires
                    -2147483648 <= a <= 2147483647,
                    -2147483648 <= b <= 2147483647,
            ;
            assert((a as int) * (b as int) >= -2147483648 * 2147483648) by (nonlinear_arith)
                requires
                    -2147483648 <= a <= 2147483647,
                    -2147483648 <= b <= 2147483647,
            ;
            let v = a as i64 * b as i64;
            if -2147483648 <= v && v <= 2147483647 {
                Some(v as i32)
            } else {
                None
            }
        },
        Op::Pow => power_i32(a, b as u32),
        Op::Div => {
            if b == 0 {
                return None;
            }
            if a == -2147483648 && b == -1 {
                assert(abs(a as int) / abs(b as int) == 2147483648);
                return None;
            }
            proof {
                lemma_div_bounds(a as int, b as int);
            }
            let ua: i64 = if a < 0 {
                0 - a as i64
            } else {
                a as i64
            };
            let ub: i64 = if b < 0 {
                0 - b as i64
            } else {
                b as i64
            };
            let q = ua / ub;
            if (a < 0) != (b < 0) {
                Some((0 - q) as i32)
            } else {
                Some(q as i32)
            }
        },
    }
}

/// Whether a value can take part in arithmetic: a number, or a vector
/// of numbers.
pub open spec fn is_operand(e: Expr) -> bool {
    match e {
        Expr::Number(_) => true,
        Expr::Vector(xs) => forall|i: int| 0 <= i < xs.len() ==> #[trigger] xs[i] is Number,
        _ => false,
    }
}

/// `n` copies of the number `x`.
pub open spec fn repeat_number(x: i32, n: nat) -> Seq<Expr> {
    Seq::new(n, |i: int| Expr::Number(x))
}

/// The first `n` elements of `xs` and `ys` combined pairwise with `op`;
/// `None` where an element is not a number or an operation fails.
pub open spec fn zip_prefix(op: Op, xs: Seq<Expr>, ys: Seq<Expr>, n: nat) -> Option<Seq<Expr>>
    decreases n,
{
    if n == 0 {
        Some(Seq::empty())
    } else {
        match zip_prefix(op, xs, ys, (n - 1) as nat) {
            None => None,
            Some(r) => match (xs[n - 1], ys[n - 1]) {
                (Expr::Number(a), Expr::Number(b)) => match apply_op(op, a, b) {
                    Some(c) => Some(r.push(Expr::Number(c))),
                    None => None,
                },
                _ => None,
            },
        }
    }
}

/// `a op b` for arithmetic values: two numbers give a number; a number and
/// a vector give the vector with the number combined with each element; two
/// vectors of the same length give the vector of their elements combined
/// pairwise. `None` for vectors of different lengths, other values, and
/// where an operation overflows or divides by zero.
pub open spec fn combine(op: Op, a: Expr, b: Expr) -> Option<Expr> {
    match (a, b) {
        (Expr::Number(x), Expr::Number(y)) => match apply_op(op, x, y) {
            Some(c) => Some(Expr::Number(c)),
            None => None,
        },
        (Expr::Number(x), Expr::Vector(ys)) => match zip_prefix(
            op,
            repeat_number(x, ys.len()),
            ys,
            ys.len(),
        ) {
            Some(r) => Some(Expr::Vector(r)),
            None => None,
        },
        (Expr::Vector(xs), Expr::Number(y)) => match zip_prefix(
            op,
            xs,
            repeat_number(y, xs.len()),
            xs.len(),
        ) {
            Some(r) => Some(Expr::Vector(r)),
            None => None,
        },
        (Expr::Vector(xs), Expr::Vector(ys)) => if xs.len() == ys.len() {
            match zip_prefix(op, xs, ys, xs.len()) {
                Some(r) => Some(Expr::Vector(r)),
                None => None,
            }
        } else {
            None
        },
        _ => None,
    }
}

proof fn lemma_zip_none(op: Op, xs: Seq<Expr>, ys: Seq<Expr>, i: nat, n: nat)
    requires
        i <= n,
        zip_prefix(op, xs, ys, i) is None,
    ensures
        zip_prefix(op, xs, ys, n) is None,
    decreases n - i,
{
    if i < n {
        lemma_zip_none(op, xs, ys, i, (n - 1) as nat);
    }
}

/// Whether `t` is a number or a vector of numbers.
pub fn operand_check(t: &Token) -> (r: bool)
    ensures
        r == is_operand(t@),
{
    match t {
        Token::Number(_) => true,
        Token::Vector(xs) => {
            let mut i: usize = 0;
            assert(t@ == crate::token::model(*t));
            while i < xs.len()
                invariant
                    0 <= i <= xs.len(),
                    t@ == Expr::Vector(tokens_view(xs@)),
                    forall|j: int| 0 <= j < i ==> #[trigger] tokens_view(xs@)[j] is Number,
                decreases xs.len() - i,
            {
                match &xs[i] {
                    Token::Number(_) => {},
                    _ => {
                        assert(!(tokens_view(xs@)[i as int] is Number));
                        return false;
                    },
                }
                i = i + 1;
            }
            true
        },
        _ => false,
    }
}

fn repeat_exec(x: i32, n: usize) -> (r: Vec<Token>)
    ensures
        r@.len() == n,
        tokens_view(r@) == repeat_number(x, n as nat),
{
    let mut r: Vec<Token> = Vec::new();
    let mut i: usize = 0;
    while i < n
        invariant
            0 <= i <= n,
            r@.len() == i,
            tokens_view(r@) =~= repeat_number(x, i as nat),
        decreases n - i,
    {
        let ghost before = tokens_view(r@);
        r.push(Token::Number(x));
        assert(tokens_view(r@) =~= before.push(Expr::Number(x)));
        i = i + 1;
    }
    r
}

fn zip_exec(op: &Op, xs: &Vec<Token>, ys: &Vec<Token>) -> (r: Option<Vec<Token>>)
    requires
        xs.len() == ys.len(),
    ensures
        match zip_prefix(*op, tokens_view(xs@), tokens_view(ys@), xs.len() as nat) {
            Some(z) => r is Some && tokens_view(r->Some_0@) == z,
            None => r is None,
        },
{
    let ghost xv = tokens_view(xs@);
    let ghost yv = tokens_view(ys@);
    let mut out: Vec<Token> = Vec::new();
    let mut i: usize = 0;
    while i < xs.len()
        invariant
            0 <= i <= xs.len(),
            xs.len() == ys.len(),
            xv == tokens_view(xs@),
            yv == tokens_view(ys@),
            zip_prefix(*op, xv, yv, i as nat) == Some(tokens_view(out@)),
        decreases xs.len() - i,
    {
        let ghost before = tokens_view(out@);
        let c = match (&xs[i], &ys[i]) {
            (Token::Number(a), Token::Number(b)) => match apply_op_exec(op, *a, *b) {
                Some(c) => c,
                None => {
                    proof {
                        lemma_zip_none(*op, xv, yv, (i + 1) as nat, xs.len() as nat);
                    }
                    return None;
                },
            },
            _ => {
                proof {
                    lemma_zip_none(*op, xv, yv, (i + 1) as nat, xs.len() as nat);
                }
                return None;
            },
        };
        out.push(Token::Number(c));
        i = i + 1;
        assert(tokens_view(out@) =~= before.push(Expr::Number(c)));
    }
    Some(out)
}

/// `a op b` for arithmetic values, as `combine` gives it.
pub fn combine_values(op: &Op, a: &Token, b: &Token) -> (r: Option<Token>)
    ensures
        match combine(*op, a@, b@) {
            Some(e) => r is Some && r->Some_0@ == e,
            None => r is None,
        },
{
    match (a, b) {
        (Token::Number(x), Token::Number(y)) => match apply_op_exec(op, *x, *y) {
            Some(c) => Some(Token::Number(c)),
            None => None,
        },
        (Token::Number(x), Token::Vector(ys)) => {
            let xs = repeat_exec(*x, ys.len());
            match zip_exec(op, &xs, ys) {
                Some(r) => Some(Token::Vector(r)),
                None => None,
            }
        },
        (Token::Vector(xs), Token::Number(y)) => {
            let ys = repeat_exec(*y, xs.len());
            match zip_exec(op, xs, &ys) {
                Some(r) => Some(Token::Vector(r)),
                None => None,
            }
        },
        (Token::Vector(xs), Token::Vector(ys)) => {
            if xs.len() != ys.len() {
                assert(tokens_view(xs@).len() != tokens_view(ys@).len());
                return None;
            }
            match zip_exec(op, xs, ys) {
                Some(r) => Some(Token::Vector(r)),
                None => None,
            }
        },
        _ => None,
    }
}

} // verus!
