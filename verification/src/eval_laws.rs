use vstd::prelude::*;
use crate::env::{EvalState, env_extend, env_get, env_insert};
use crate::semantics::{
    apply_closure, bind_args, contents, eval_arith, eval_comparison, eval_group, eval_item,
    eval_items, eval_keyword, eval_token, fold_arith, let_env, operand_of, remove_or_nil, truthiness,
};
use crate::arith::{Op, combine, op_of};
use crate::token::Expr;

verus! {

/// The lines printed before are still there, first and in order, after.
pub open spec fn keeps_printed(before: Seq<Seq<char>>, after: Seq<Seq<char>>) -> bool {
    &&& before.len() <= after.len()
    &&& forall|i: int| 0 <= i < before.len() ==> #[trigger] after[i] == before[i]
}

// One lemma for each evaluation function, proved together by induction on
// the bound: an evaluation that finishes within `f` gives the same result
// within any `g >= f`, and only adds lines to what was printed.
proof fn lemma_token(f: nat, g: nat, head: Expr, st: EvalState)
    requires
        f <= g,
        eval_token(f, head, st) is Some,
    ensures
        eval_token(g, head, st) == eval_token(f, head, st),
        keeps_printed(st.out, eval_token(f, head, st)->Some_0.1.out),
    decreases f, 0int,
{
    match head {
        Expr::Other(_) => match env_get(st.env, head) {
            Some(v) => lemma_token((f - 1) as nat, (g - 1) as nat, v, st),
            None => {},
        },
        Expr::List(l) => lemma_group((f - 1) as nat, (g - 1) as nat, Expr::List(Seq::empty()), l, st),
        Expr::Vector(l) => lemma_group(
            (f - 1) as nat,
            (g - 1) as nat,
            Expr::Vector(Seq::empty()),
            l,
            st,
        ),
        Expr::HashMap(l) => lemma_group(
            (f - 1) as nat,
            (g - 1) as nat,
            Expr::HashMap(Seq::empty()),
            l,
            st,
        ),
        _ => {},
    }
}

proof fn lemma_group(f: nat, g: nat, group: Expr, ts: Seq<Expr>, st: EvalState)
    requires
        f <= g,
        eval_group(f, group, ts, st) is Some,
    ensures
        eval_group(g, group, ts, st) == eval_group(f, group, ts, st),
        keeps_printed(st.out, eval_group(f, group, ts, st)->Some_0.2.out),
    decreases f, 0int,
{
    if ts.len() > 0 {
        let (old_head, rest) = remove_or_nil(ts);
        if let Expr::Keyword(k) = old_head {
            lemma_keyword((f - 1) as nat, (g - 1) as nat, k, rest, st);
        }
        let pre = match old_head {
            Expr::Keyword(k) => eval_keyword((f - 1) as nat, k, rest, st),
            _ => Some((old_head, rest, st)),
        };
        let (head, rest2, st2) = pre->Some_0;
        lemma_token((f - 1) as nat, (g - 1) as nat, head, st2);
        let (ha, st3) = eval_token((f - 1) as nat, head, st2)->Some_0;
        match ha {
            Expr::Closure(body, pairs) => {
                lemma_closure((f - 1) as nat, (g - 1) as nat, body, pairs, rest2, st3);
            },
            Expr::Symbol(sym) => {
                lemma_arith((f - 1) as nat, (g - 1) as nat, sym, rest2, st3);
            },
            _ => {
                if rest2.len() > 0 {
                    lemma_items((f - 1) as nat, (g - 1) as nat, rest2, st3);
                }
            },
        }
    }
}

proof fn lemma_closure(
    f: nat,
    g: nat,
    parts: Seq<Expr>,
    pairs: Seq<(Expr, Expr)>,
    ts: Seq<Expr>,
    st: EvalState,
)
    requires
        f <= g,
        apply_closure(f, parts, pairs, ts, st) is Some,
    ensures
        apply_closure(g, parts, pairs, ts, st) == apply_closure(f, parts, pairs, ts, st),
        keeps_printed(st.out, apply_closure(f, parts, pairs, ts, st)->Some_0.2.out),
    decreases f, 0int,
{
    let params = contents(parts[0])->Some_0;
    let env0 = env_extend(Seq::empty(), pairs);
    lemma_bind((f - 1) as nat, (g - 1) as nat, params, ts, st, env0);
    let (left, ts2, st2, new_env) = bind_args((f - 1) as nat, params, ts, st, env0)->Some_0;
    if ts2.len() == 0 && left.len() == 0 {
        lemma_token(
            (f - 1) as nat,
            (g - 1) as nat,
            parts[1],
            EvalState { env: new_env, out: st2.out },
        );
    }
}

proof fn lemma_bind(
    f: nat,
    g: nat,
    params: Seq<Expr>,
    ts: Seq<Expr>,
    st: EvalState,
    env: Seq<(Expr, Expr)>,
)
    requires
        f <= g,
        bind_args(f, params, ts, st, env) is Some,
    ensures
        bind_args(g, params, ts, st, env) == bind_args(f, params, ts, st, env),
        keeps_printed(st.out, bind_args(f, params, ts, st, env)->Some_0.2.out),
    decreases f, params.len(),
{
    if ts.len() > 0 && params.len() > 0 {
        lemma_token((f - 1) as nat, (g - 1) as nat, ts[0], st);
        let (v, st1) = eval_token((f - 1) as nat, ts[0], st)->Some_0;
        lemma_bind(
            f,
            g,
            params.subrange(1, params.len() as int),
            ts.subrange(1, ts.len() as int),
            st1,
            env_insert(env, params[0], v),
        );
    }
}

proof fn lemma_operand(f: nat, g: nat, t: Expr, st: EvalState)
    requires
        f <= g,
        operand_of(f, t, st) is Some,
    ensures
        operand_of(g, t, st) == operand_of(f, t, st),
        keeps_printed(st.out, operand_of(f, t, st)->Some_0.1.out),
    decreases f, 0int,
{
    lemma_token((f - 1) as nat, (g - 1) as nat, t, st);
}

proof fn lemma_arith(f: nat, g: nat, sym: Seq<char>, ts: Seq<Expr>, st: EvalState)
    requires
        f <= g,
        eval_arith(f, sym, ts, st) is Some,
    ensures
        eval_arith(g, sym, ts, st) == eval_arith(f, sym, ts, st),
        keeps_printed(st.out, eval_arith(f, sym, ts, st)->Some_0.2.out),
    decreases f, 0int,
{
    let (a0, rest) = remove_or_nil(ts);
    lemma_operand((f - 1) as nat, (g - 1) as nat, a0, st);
    let (first, st1) = operand_of((f - 1) as nat, a0, st)->Some_0;
    let op = op_of(sym)->Some_0;
    lemma_fold((f - 1) as nat, (g - 1) as nat, op, first, rest, st1);
}

proof fn lemma_fold(f: nat, g: nat, op: Op, acc: Expr, rest: Seq<Expr>, st: EvalState)
    requires
        f <= g,
        fold_arith(f, op, acc, rest, st) is Some,
    ensures
        fold_arith(g, op, acc, rest, st) == fold_arith(f, op, acc, rest, st),
        keeps_printed(st.out, fold_arith(f, op, acc, rest, st)->Some_0.1.out),
    decreases f, rest.len(),
{
    if rest.len() > 0 {
        lemma_operand((f - 1) as nat, (g - 1) as nat, rest[0], st);
        let (b, st1) = operand_of((f - 1) as nat, rest[0], st)->Some_0;
        let c = combine(op, acc, b)->Some_0;
        lemma_fold(f, g, op, c, rest.subrange(1, rest.len() as int), st1);
    }
}

proof fn lemma_items(f: nat, g: nat, ts: Seq<Expr>, st: EvalState)
    requires
        f <= g,
        eval_items(f, ts, st) is Some,
    ensures
        eval_items(g, ts, st) == eval_items(f, ts, st),
        keeps_printed(st.out, eval_items(f, ts, st)->Some_0.1.out),
    decreases f, ts.len(),
{
    if ts.len() > 0 {
        lemma_item((f - 1) as nat, (g - 1) as nat, ts[0], st);
        let (v, st1) = eval_item((f - 1) as nat, ts[0], st)->Some_0;
        lemma_items(f, g, ts.subrange(1, ts.len() as int), st1);
    }
}

proof fn lemma_item(f: nat, g: nat, t: Expr, st: EvalState)
    requires
        f <= g,
        eval_item(f, t, st) is Some,
    ensures
        eval_item(g, t, st) == eval_item(f, t, st),
        keeps_printed(st.out, eval_item(f, t, st)->Some_0.1.out),
    decreases f, 0int,
{
    match t {
        Expr::List(l) => lemma_group((f - 1) as nat, (g - 1) as nat, Expr::List(Seq::empty()), l, st),
        Expr::Vector(l) => lemma_group(
            (f - 1) as nat,
            (g - 1) as nat,
            Expr::Vector(Seq::empty()),
            l,
            st,
        ),
        Expr::Other(_) => match env_get(st.env, t) {
            Some(v) => lemma_token((f - 1) as nat, (g - 1) as nat, v, st),
            None => {},
        },
        _ => {},
    }
}

proof fn lemma_comparison(f: nat, g: nat, k: Seq<char>, ts: Seq<Expr>, st: EvalState)
    requires
        f <= g,
        eval_comparison(f, k, ts, st) is Some,
    ensures
        eval_comparison(g, k, ts, st) == eval_comparison(f, k, ts, st),
        keeps_printed(st.out, eval_comparison(f, k, ts, st)->Some_0.2.out),
    decreases f, 0int,
{
    let (a, r1) = remove_or_nil(ts);
    let (b, r2) = remove_or_nil(r1);
    lemma_token((f - 1) as nat, (g - 1) as nat, a, st);
    let (av, st1) = eval_token((f - 1) as nat, a, st)->Some_0;
    lemma_token((f - 1) as nat, (g - 1) as nat, b, st1);
}

proof fn lemma_keyword(f: nat, g: nat, k: Seq<char>, ts: Seq<Expr>, st: EvalState)
    requires
        f <= g,
        eval_keyword(f, k, ts, st) is Some,
    ensures
        eval_keyword(g, k, ts, st) == eval_keyword(f, k, ts, st),
        keeps_printed(st.out, eval_keyword(f, k, ts, st)->Some_0.2.out),
    decreases f, 0int,
{
    let f1 = (f - 1) as nat;
    let g1 = (g - 1) as nat;
    if k == "def"@ {
        let (name, r1) = remove_or_nil(ts);
        let (val, r2) = remove_or_nil(r1);
        let st1 = EvalState { env: env_insert(st.env, name, val), out: st.out };
        lemma_token(f1, g1, val, st1);
    } else if k == "let"@ {
        let (vars_tok, r1) = remove_or_nil(ts);
        let vars = contents(vars_tok)->Some_0;
        let (body, r2) = remove_or_nil(r1);
        let env2 = let_env(st.env, vars)->Some_0;
        lemma_token(f1, g1, body, EvalState { env: env2, out: st.out });
    } else if k == "fn"@ {
    } else if k == "do"@ {
        let (x, r1) = remove_or_nil(ts);
        lemma_token(f1, g1, x, st);
    } else if k == "list?"@ || k == "empty?"@ || k == "count"@ || k == "list"@ {
    } else if k == "if"@ {
        let (c, r1) = remove_or_nil(ts);
        let (t, r2) = remove_or_nil(r1);
        let (e, r3) = remove_or_nil(r2);
        lemma_token(f1, g1, c, st);
        let (cv, st1) = eval_token(f1, c, st)->Some_0;
        let b = truthiness(cv)->Some_0;
        lemma_token(f1, g1, if b { t } else { e }, st1);
    } else if k == "prn"@ {
    } else if k == "false"@ || k == "true"@ || k == "nil"@ {
    } else {
        lemma_comparison(f1, g1, k, ts, st);
    }
}

/// Evaluation does not depend on the nesting bound once it finishes: an
/// evaluation that finishes within `f` levels gives the same value and
/// state with any larger bound.
pub proof fn law_eval_bound_irrelevant(f: nat, g: nat, t: Expr, st: EvalState)
    requires
        f <= g,
        eval_token(f, t, st) is Some,
    ensures
        eval_token(g, t, st) == eval_token(f, t, st),
{
    lemma_token(f, g, t, st);
}

/// Evaluation never takes back what `prn` printed: the lines printed before
/// an evaluation come first, unchanged, in the lines after it.
pub proof fn law_eval_keeps_printed(f: nat, t: Expr, st: EvalState)
    requires
        eval_token(f, t, st) is Some,
    ensures
        keeps_printed(st.out, eval_token(f, t, st)->Some_0.1.out),
{
    lemma_token(f, f, t, st);
}

} // verus!
