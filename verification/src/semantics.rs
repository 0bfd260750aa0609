use vstd::prelude::*;
use crate::arith::{combine, is_operand, op_of};
use crate::env::{EvalState, env_extend, env_get, env_insert};
use crate::printer::{all_printable, print_seq};
use crate::token::Expr;

verus! {

/// The keyword `nil`.
pub open spec fn nil() -> Expr {
    Expr::Keyword("nil"@)
}

/// The keyword `true` or `false`.
pub open spec fn truth(b: bool) -> Expr {
    if b {
        Expr::Keyword("true"@)
    } else {
        Expr::Keyword("false"@)
    }
}

/// The first token and the rest; `nil` and the unchanged sequence where there is none.
pub open spec fn remove_or_nil(ts: Seq<Expr>) -> (Expr, Seq<Expr>) {
    if ts.len() > 0 {
        (ts[0], ts.subrange(1, ts.len() as int))
    } else {
        (nil(), ts)
    }
}

/// How `if` reads a condition; `None` for the tokens that it does not accept.
pub open spec fn truthiness(t: Expr) -> Option<bool> {
    match t {
        Expr::Other(s) => Some(!(s == ""@ || s == "\"\""@)),
        Expr::Keyword(s) => Some(!(s == "false"@ || s == "nil"@)),
        Expr::Number(n) => Some(n != 0),
        Expr::List(l) => Some(l.len() > 0),
        _ => None,
    }
}

/// The outcome of the comparison `cmp` on two evaluated tokens: `=` is
/// structural equality; `<=` and `>=` hold of equal tokens; otherwise both
/// must be numbers, compared with their order reversed for `>` and `>=`.
pub open spec fn comparison(cmp: Seq<char>, l: Expr, r: Expr) -> Option<bool> {
    if cmp == "="@ {
        Some(l == r)
    } else if (cmp == "<="@ || cmp == ">="@) && l == r {
        Some(true)
    } else {
        let (a, b) = if cmp == ">"@ || cmp == ">="@ {
            (r, l)
        } else {
            (l, r)
        };
        match (a, b) {
            (Expr::Number(x), Expr::Number(y)) => Some(x < y),
            _ => None,
        }
    }
}

/// The environment that a `let` binding list gives: names and values in
/// turn, each value bound unevaluated; `None` for a list of odd length.
pub open spec fn let_env(env: Seq<(Expr, Expr)>, vars: Seq<Expr>) -> Option<Seq<(Expr, Expr)>>
    decreases vars.len(),
{
    if vars.len() == 0 {
        Some(env)
    } else if vars.len() == 1 {
        None
    } else {
        let_env(env_insert(env, vars[0], vars[1]), vars.subrange(2, vars.len() as int))
    }
}

/// The contents of a list or vector.
pub open spec fn contents(t: Expr) -> Option<Seq<Expr>> {
    match t {
        Expr::List(l) => Some(l),
        Expr::Vector(l) => Some(l),
        _ => None,
    }
}

/// A group of the kind of `group` holding `items`.
pub open spec fn regroup(group: Expr, items: Seq<Expr>) -> Option<Expr> {
    match group {
        Expr::List(_) => Some(Expr::List(items)),
        Expr::Vector(_) => Some(Expr::Vector(items)),
        Expr::HashMap(_) => Some(Expr::HashMap(items)),
        _ => None,
    }
}

/// The value and state of a group evaluation.
pub open spec fn value_of(r: Option<(Expr, Seq<Expr>, EvalState)>) -> Option<(Expr, EvalState)> {
    match r {
        Some((v, _, st)) => Some((v, st)),
        None => None,
    }
}

/// Whether a keyword compares its two arguments.
pub open spec fn is_comparison(k: Seq<char>) -> bool {
    k == "="@ || k == "<"@ || k == ">"@ || k == "<="@ || k == ">="@
}

/// The evaluation of one token in state `st`, nested at most `f` deep: its
/// value and the state after it; `None` where the evaluator panics or nests
/// deeper. A name is looked up and its binding evaluated in turn; a list,
/// vector or map is evaluated as a group; every other token is its own value.
pub open spec fn eval_token(f: nat, head: Expr, st: EvalState) -> Option<(Expr, EvalState)>
    decreases f, 0int,
{
    if f == 0 {
        None
    } else {
        match head {
            Expr::Other(_) => match env_get(st.env, head) {
                Some(v) => eval_token((f - 1) as nat, v, st),
                None => Some((head, st)),
            },
            Expr::List(l) => value_of(eval_group((f - 1) as nat, Expr::List(Seq::empty()), l, st)),
            Expr::Vector(l) => value_of(
                eval_group((f - 1) as nat, Expr::Vector(Seq::empty()), l, st),
            ),
            Expr::HashMap(l) => value_of(
                eval_group((f - 1) as nat, Expr::HashMap(Seq::empty()), l, st),
            ),
            _ => Some((head, st)),
        }
    }
}

/// The evaluation of the tokens `ts` of a group of the kind of `group`: its
/// value, the tokens left unconsumed, and the state after it. The head is
/// run as a special form where it is a keyword, then evaluated; a closure is
/// applied to the tokens that follow, an operator symbol folds them as
/// numbers, and any other value heads a group of the evaluated tokens.
pub open spec fn eval_group(f: nat, group: Expr, ts: Seq<Expr>, st: EvalState) -> Option<
    (Expr, Seq<Expr>, EvalState),
>
    decreases f, 0int,
{
    if f == 0 {
        None
    } else if ts.len() == 0 {
        Some((Expr::List(Seq::empty()), ts, st))
    } else {
        let (old_head, rest) = remove_or_nil(ts);
        let pre = match old_head {
            Expr::Keyword(k) => eval_keyword((f - 1) as nat, k, rest, st),
            _ => Some((old_head, rest, st)),
        };
        match pre {
            None => None,
            Some((head, rest2, st2)) => match eval_token((f - 1) as nat, head, st2) {
                None => None,
                Some((ha, st3)) => match ha {
                    Expr::Closure(body, pairs) => apply_closure((f - 1) as nat, body, pairs, rest2, st3),
                    Expr::Symbol(sym) => eval_arith((f - 1) as nat, sym, rest2, st3),
                    _ => if rest2.len() == 0 {
                        Some((ha, rest2, st3))
                    } else {
                        match eval_items((f - 1) as nat, rest2, st3) {
                            None => None,
                            Some((items, st4)) => match regroup(group, seq![ha] + items) {
                                Some(g) => Some((g, rest2, st4)),
                                None => None,
                            },
                        }
                    },
                },
            },
        }
    }
}

/// The application of a closure (parameter list and body in `parts`, captured
/// bindings in `pairs`) to the tokens `ts`: arguments are evaluated in the
/// caller's state and bound in turn; with exactly as many arguments as
/// parameters the body is evaluated in the closure's environment, otherwise
/// a closure over the remaining parameters is the value.
pub open spec fn apply_closure(
    f: nat,
    parts: Seq<Expr>,
    pairs: Seq<(Expr, Expr)>,
    ts: Seq<Expr>,
    st: EvalState,
) -> Option<(Expr, Seq<Expr>, EvalState)>
    decreases f, 0int,
{
    if f == 0 || parts.len() < 2 {
        None
    } else {
        let body = parts[1];
        match contents(parts[0]) {
            None => None,
            Some(params) => match bind_args(
                (f - 1) as nat,
                params,
                ts,
                st,
                env_extend(Seq::empty(), pairs),
            ) {
                None => None,
                Some((left, ts2, st2, new_env)) => if ts2.len() == 0 && left.len() == 0 {
                    match eval_token(
                        (f - 1) as nat,
                        body,
                        EvalState { env: new_env, out: st2.out },
                    ) {
                        None => None,
                        Some((v, stb)) => Some((v, ts2, EvalState { env: st2.env, out: stb.out })),
                    }
                } else {
                    Some((Expr::Closure(seq![Expr::List(left), body], new_env), ts2, st2))
                },
            },
        }
    }
}

/// Binding arguments to parameters while both last: each argument is
/// evaluated in the caller's state and bound to the next parameter in `env`.
/// Gives the parameters left, the tokens left, the caller's state and the
/// bindings.
pub open spec fn bind_args(
    f: nat,
    params: Seq<Expr>,
    ts: Seq<Expr>,
    st: EvalState,
    env: Seq<(Expr, Expr)>,
) -> Option<(Seq<Expr>, Seq<Expr>, EvalState, Seq<(Expr, Expr)>)>
    decreases f, params.len(),
{
    if f == 0 {
        None
    } else if ts.len() == 0 || params.len() == 0 {
        Some((params, ts, st, env))
    } else {
        match eval_token((f - 1) as nat, ts[0], st) {
            None => None,
            Some((v, st1)) => bind_args(
                f,
                params.subrange(1, params.len() as int),
                ts.subrange(1, ts.len() as int),
                st1,
                env_insert(env, params[0], v),
            ),
        }
    }
}

/// The number that a token evaluates to; `None` where it is not a number.
pub open spec fn number_of(f: nat, t: Expr, st: EvalState) -> Option<(i32, EvalState)> {
    if f == 0 {
        None
    } else {
        match eval_token((f - 1) as nat, t, st) {
            Some((Expr::Number(n), st1)) => Some((n, st1)),
            _ => None,
        }
    }
}

/// The arithmetic value that a token evaluates to: a number or a vector of
/// numbers; `None` for any other value.
pub open spec fn operand_of(f: nat, t: Expr, st: EvalState) -> Option<(Expr, EvalState)>
    decreases f, 0int,
{
    if f == 0 {
        None
    } else {
        match eval_token((f - 1) as nat, t, st) {
            Some((v, st1)) => if is_operand(v) {
                Some((v, st1))
            } else {
                None
            },
            None => None,
        }
    }
}

/// An operator applied to the tokens `ts`: the first evaluated, the rest
/// folded into it from left to right. Numbers combine as numbers; a vector
/// combines element by element (vector addition and the like).
pub open spec fn eval_arith(f: nat, sym: Seq<char>, ts: Seq<Expr>, st: EvalState) -> Option<
    (Expr, Seq<Expr>, EvalState),
>
    decreases f, 0int,
{
    if f == 0 {
        None
    } else {
        let (a0, rest) = remove_or_nil(ts);
        match operand_of((f - 1) as nat, a0, st) {
            None => None,
            Some((first, st1)) => match op_of(sym) {
                None => None,
                Some(op) => match fold_arith((f - 1) as nat, op, first, rest, st1) {
                    None => None,
                    Some((v, st2)) => Some((v, rest, st2)),
                },
            },
        }
    }
}

/// Folding the values of `rest` into `acc` with `op`, left to right.
pub open spec fn fold_arith(f: nat, op: crate::arith::Op, acc: Expr, rest: Seq<Expr>, st: EvalState) -> Option<
    (Expr, EvalState),
>
    decreases f, rest.len(),
{
    if f == 0 {
        None
    } else if rest.len() == 0 {
        Some((acc, st))
    } else {
        match operand_of((f - 1) as nat, rest[0], st) {
            None => None,
            Some((b, st1)) => match combine(op, acc, b) {
                None => None,
                Some(c) => fold_arith(f, op, c, rest.subrange(1, rest.len() as int), st1),
            },
        }
    }
}

/// The tokens after the head of a group, each evaluated in turn.
pub open spec fn eval_items(f: nat, ts: Seq<Expr>, st: EvalState) -> Option<(Seq<Expr>, EvalState)>
    decreases f, ts.len(),
{
    if f == 0 {
        None
    } else if ts.len() == 0 {
        Some((Seq::empty(), st))
    } else {
        match eval_item((f - 1) as nat, ts[0], st) {
            None => None,
            Some((v, st1)) => match eval_items(f, ts.subrange(1, ts.len() as int), st1) {
                None => None,
                Some((vs, st2)) => Some((seq![v] + vs, st2)),
            },
        }
    }
}

/// One token after the head of a group: lists and vectors are evaluated as
/// groups, bound names are replaced by their evaluated bindings, and every
/// other token stays as it is.
pub open spec fn eval_item(f: nat, t: Expr, st: EvalState) -> Option<(Expr, EvalState)>
    decreases f, 0int,
{
    if f == 0 {
        None
    } else {
        match t {
            Expr::List(l) => value_of(eval_group((f - 1) as nat, Expr::List(Seq::empty()), l, st)),
            Expr::Vector(l) => value_of(
                eval_group((f - 1) as nat, Expr::Vector(Seq::empty()), l, st),
            ),
            Expr::Other(_) => match env_get(st.env, t) {
                Some(v) => eval_token((f - 1) as nat, v, st),
                None => Some((t, st)),
            },
            _ => Some((t, st)),
        }
    }
}

/// A comparison keyword applied to the next two tokens, each evaluated.
pub open spec fn eval_comparison(f: nat, k: Seq<char>, ts: Seq<Expr>, st: EvalState) -> Option<
    (Expr, Seq<Expr>, EvalState),
>
    decreases f, 0int,
{
    if f == 0 {
        None
    } else {
        let (a, r1) = remove_or_nil(ts);
        let (b, r2) = remove_or_nil(r1);
        match eval_token((f - 1) as nat, a, st) {
            None => None,
            Some((av, st1)) => match eval_token((f - 1) as nat, b, st1) {
                None => None,
                Some((bv, st2)) => match comparison(k, av, bv) {
                    None => None,
                    Some(c) => Some((truth(c), r2, st2)),
                },
            },
        }
    }
}

/// A special form: the keyword `k` applied to the tokens `ts` that follow it.
pub open spec fn eval_keyword(f: nat, k: Seq<char>, ts: Seq<Expr>, st: EvalState) -> Option<
    (Expr, Seq<Expr>, EvalState),
>
    decreases f, 0int,
{
    if f == 0 {
        None
    } else if k == "def"@ {
        let (name, r1) = remove_or_nil(ts);
        let (val, r2) = remove_or_nil(r1);
        let st1 = EvalState { env: env_insert(st.env, name, val), out: st.out };
        match eval_token((f - 1) as nat, val, st1) {
            None => None,
            Some((v, st2)) => Some((v, r2, st2)),
        }
    } else if k == "let"@ {
        let (vars_tok, r1) = remove_or_nil(ts);
        match contents(vars_tok) {
            None => None,
            Some(vars) => {
                let (body, r2) = remove_or_nil(r1);
                match let_env(st.env, vars) {
                    None => None,
                    Some(env2) => match eval_token(
                        (f - 1) as nat,
                        body,
                        EvalState { env: env2, out: st.out },
                    ) {
                        None => None,
                        Some((v, stb)) => Some((v, r2, EvalState { env: st.env, out: stb.out })),
                    },
                }
            },
        }
    } else if k == "fn"@ {
        let (params, r1) = remove_or_nil(ts);
        let (body, r2) = remove_or_nil(r1);
        Some((Expr::Closure(seq![params, body], st.env), r2, st))
    } else if k == "do"@ {
        let (x, r1) = remove_or_nil(ts);
        match eval_token((f - 1) as nat, x, st) {
            None => None,
            Some((v, st1)) => Some((v, r1, st1)),
        }
    } else if k == "list?"@ {
        let (x, r1) = remove_or_nil(ts);
        Some((truth(x is List), r1, st))
    } else if k == "empty?"@ {
        let (x, r1) = remove_or_nil(ts);
        match contents(x) {
            Some(l) => Some((truth(l.len() == 0), r1, st)),
            None => None,
        }
    } else if k == "count"@ {
        let (x, r1) = remove_or_nil(ts);
        let n = match contents(x) {
            Some(l) => l.len() as i32,
            None => 0i32,
        };
        Some((Expr::Number(n), r1, st))
    } else if k == "list"@ {
        Some((Expr::List(ts), Seq::empty(), st))
    } else if k == "if"@ {
        let (c, r1) = remove_or_nil(ts);
        let (t, r2) = remove_or_nil(r1);
        let (e, r3) = remove_or_nil(r2);
        match eval_token((f - 1) as nat, c, st) {
            None => None,
            Some((cv, st1)) => match truthiness(cv) {
                None => None,
                Some(b) => match eval_token((f - 1) as nat, if b { t } else { e }, st1) {
                    None => None,
                    Some((v, st2)) => Some((v, r3, st2)),
                },
            },
        }
    } else if k == "prn"@ {
        if all_printable(ts) {
            Some((nil(), Seq::empty(), EvalState { env: st.env, out: st.out.push(print_seq(ts)) }))
        } else {
            None
        }
    } else if k == "false"@ || k == "true"@ || k == "nil"@ {
        Some((Expr::Keyword(k), ts, st))
    } else if is_comparison(k) {
        eval_comparison((f - 1) as nat, k, ts, st)
    } else {
        None
    }
}

} // verus!
