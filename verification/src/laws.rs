use vstd::prelude::*;
use crate::env::{
    EvalState, env_extend, env_get, env_insert, env_map, find_key, keys_unique,
    law_insert_keeps_keys_unique, lemma_find_key,
};
use crate::arith::{Op, apply_op, zip_prefix};
use crate::eval::depth_limit;
use crate::repl::evaluate_first;
use crate::semantics::{
    apply_closure, bind_args, comparison, contents, eval_group, eval_keyword, eval_token,
    remove_or_nil,
};
use crate::eval_laws::law_eval_bound_irrelevant;
use crate::numeral::{decimal, digits, is_digit};
use crate::printer::print_seq;
use crate::text::{is_space, trim, trim_start};
use crate::token::Expr;

verus! {

proof fn lemma_insert_find(env: Seq<(Expr, Expr)>, k: Expr, v: Expr, k2: Expr)
    ensures
        k2 == k ==> find_key(env_insert(env, k, v), k2) is Some,
        k2 == k ==> env_get(env_insert(env, k, v), k2) == Some(v),
        k2 != k ==> env_get(env_insert(env, k, v), k2) == env_get(env, k2),
        k2 != k ==> (find_key(env_insert(env, k, v), k2) is Some <==> find_key(env, k2) is Some),
{
    let e2 = env_insert(env, k, v);
    lemma_find_key(env, k);
    lemma_find_key(env, k2);
    lemma_find_key(e2, k2);
    match find_key(env, k) {
        Some(i) => {
            assert(e2 == env.update(i, (k, v)));
            match find_key(e2, k2) {
                Some(j) => {
                    if k2 == k {
                        assert(j <= i);
                        if j < i {
                            assert(env[j].0 == e2[j].0);
                        }
                    } else {
                        assert(j != i);
                        assert(env[j] == e2[j]);
                        match find_key(env, k2) {
                            Some(j2) => {
                                if j2 < j {
                                    assert(e2[j2] == env[j2]);
                                }
                                if j < j2 {
                                    assert(env[j].0 == k2);
                                }
                            },
                            None => {
                                assert(env[j].0 == k2);
                            },
                        }
                    }
                },
                None => {
                    if k2 == k {
                        assert(e2[i].0 == k);
                    } else {
                        match find_key(env, k2) {
                            Some(j2) => {
                                assert(j2 != i);
                                assert(e2[j2] == env[j2]);
                            },
                            None => {},
                        }
                    }
                },
            }
        },
        None => {
            assert(e2 == env.push((k, v)));
            match find_key(e2, k2) {
                Some(j) => {
                    if k2 == k {
                        if j < env.len() {
                            assert(env[j] == e2[j]);
                        }
                    } else {
                        assert(j < env.len());
                        assert(env[j] == e2[j]);
                        match find_key(env, k2) {
                            Some(j2) => {
                                assert(e2[j2] == env[j2]);
                            },
                            None => {},
                        }
                    }
                },
                None => {
                    if k2 == k {
                        assert(e2[env.len() as int].0 == k);
                    } else {
                        match find_key(env, k2) {
                            Some(j2) => {
                                assert(e2[j2] == env[j2]);
                            },
                            None => {},
                        }
                    }
                },
            }
        },
    }
}

/// Reading a key back after binding it gives the value just bound.
pub proof fn law_get_after_insert(env: Seq<(Expr, Expr)>, key: Expr, value: Expr)
    ensures
        env_get(env_insert(env, key, value), key) == Some(value),
{
    lemma_insert_find(env, key, value, key);
}

/// Binding one key leaves what every other key is bound to as it was.
pub proof fn law_insert_keeps_others(env: Seq<(Expr, Expr)>, key: Expr, value: Expr, other: Expr)
    requires
        other != key,
    ensures
        env_get(env_insert(env, key, value), other) == env_get(env, other),
{
    lemma_insert_find(env, key, value, other);
}

/// As a map, an environment with a key bound is the map with that key bound.
pub proof fn law_env_map_insert(env: Seq<(Expr, Expr)>, key: Expr, value: Expr)
    ensures
        env_map(env_insert(env, key, value)) == env_map(env).insert(key, value),
{
    assert forall|k2: Expr| #![trigger env_map(env_insert(env, key, value)).dom().contains(k2)]
        env_map(env_insert(env, key, value)).dom().contains(k2) == env_map(env).insert(key, value).dom().contains(k2)
    by {
        lemma_insert_find(env, key, value, k2);
    }
    assert forall|k2: Expr| #![trigger env_map(env_insert(env, key, value))[k2]]
        env_map(env_insert(env, key, value)).dom().contains(k2) implies
        env_map(env_insert(env, key, value))[k2] == env_map(env).insert(key, value)[k2]
    by {
        lemma_insert_find(env, key, value, k2);
    }
    assert(env_map(env_insert(env, key, value)) =~= env_map(env).insert(key, value));
}

/// A bound name evaluates to the value of its binding.
pub proof fn law_name_evaluates_to_binding(f: nat, name: Seq<char>, st: EvalState)
    requires
        env_get(st.env, Expr::Other(name)) is Some,
    ensures
        eval_token(f + 1, Expr::Other(name), st) == eval_token(
            f,
            env_get(st.env, Expr::Other(name))->Some_0,
            st,
        ),
{
}

/// `def` binds the name to its value as written, and gives that value
/// evaluated in the environment that holds the binding.
pub proof fn law_def_binds(f: nat, name: Expr, value: Expr, rest: Seq<Expr>, st: EvalState)
    ensures
        eval_keyword(f + 1, "def"@, seq![name, value] + rest, st) == ({
            let st1 = EvalState { env: env_insert(st.env, name, value), out: st.out };
            match eval_token(f, value, st1) {
                Some((v, st2)) => Some((v, rest, st2)),
                None => None,
            }
        }),
{
    let ts = seq![name, value] + rest;
    assert(ts.subrange(1, ts.len() as int) =~= seq![value] + rest);
    assert((seq![value] + rest).subrange(1, rest.len() as int + 1) =~= rest);
}

/// What a read gives back of a write: after `def` binds a name to a number,
/// the name evaluates to that number.
pub proof fn law_def_then_lookup(f: nat, name: Seq<char>, n: i32, rest: Seq<Expr>, st: EvalState)
    ensures
        ({
            let st1 = EvalState {
                env: env_insert(st.env, Expr::Other(name), Expr::Number(n)),
                out: st.out,
            };
            &&& eval_keyword(f + 2, "def"@, seq![Expr::Other(name), Expr::Number(n)] + rest, st)
                == Some((Expr::Number(n), rest, st1))
            &&& eval_token(f + 2, Expr::Other(name), st1) == Some((Expr::Number(n), st1))
        }),
{
    law_def_binds((f + 1) as nat, Expr::Other(name), Expr::Number(n), rest, st);
    law_get_after_insert(st.env, Expr::Other(name), Expr::Number(n));
}

/// The REPL's view of a read after a write: evaluating `(def name n)` for a
/// number `n` gives `n` and binds `name` to it, and evaluating `name`
/// afterwards gives `n` again, with nothing else changed.
pub proof fn law_def_then_read(name: Seq<char>, n: i32, st: EvalState)
    ensures
        ({
            let form = Expr::List(seq![Expr::Keyword("def"@), Expr::Other(name), Expr::Number(n)]);
            let st1 = EvalState {
                env: env_insert(st.env, Expr::Other(name), Expr::Number(n)),
                out: st.out,
            };
            &&& evaluate_first(seq![form], st) == Some((Expr::Number(n), st1))
            &&& evaluate_first(seq![Expr::Other(name)], st1) == Some((Expr::Number(n), st1))
        }),
{
    let f = (depth_limit() - 4) as nat;
    let ts = seq![Expr::Keyword("def"@), Expr::Other(name), Expr::Number(n)];
    let st1 = EvalState { env: env_insert(st.env, Expr::Other(name), Expr::Number(n)), out: st.out };
    law_def_then_lookup(f, name, n, Seq::empty(), st);
    assert(seq![Expr::Other(name), Expr::Number(n)] + Seq::<Expr>::empty() =~= ts.subrange(1, 3));
    assert(remove_or_nil(ts).1 =~= ts.subrange(1, 3));
    assert(eval_token((f + 2) as nat, Expr::Number(n), st1) == Some((Expr::Number(n), st1)));
    assert(eval_group((f + 3) as nat, Expr::List(Seq::empty()), ts, st) == Some(
        (Expr::Number(n), Seq::<Expr>::empty(), st1),
    ));
    assert(remove_or_nil(seq![Expr::Other(name)]).0 == Expr::Other(name));
    law_eval_bound_irrelevant((f + 2) as nat, depth_limit(), Expr::Other(name), st1);
}

/// `let` evaluates its body in an environment of its own: the caller's
/// bindings come out of it unchanged.
pub proof fn law_let_keeps_bindings(f: nat, ts: Seq<Expr>, st: EvalState)
    ensures
        eval_keyword(f, "let"@, ts, st) matches Some((_, _, st2)) ==> st2.env == st.env,
{
    reveal_strlit("let");
    reveal_strlit("def");
    assert("let"@[0] != "def"@[0]);
}

proof fn lemma_comparison_names()
    ensures
        ">"@ != "<"@,
        ">"@ != "="@,
        ">"@ != "<="@,
        ">"@ != ">="@,
        "<"@ != "="@,
        "<"@ != "<="@,
        "<"@ != ">="@,
        "="@ != "<="@,
        "="@ != ">="@,
        "<="@ != ">="@,
{
    reveal_strlit(">");
    reveal_strlit("<");
    reveal_strlit("=");
    reveal_strlit("<=");
    reveal_strlit(">=");
    assert(">"@[0] != "<"@[0]);
    assert(">"@[0] != "="@[0]);
    assert("<"@[0] != "="@[0]);
    assert("<="@[0] != ">="@[0]);
    assert("="@[0] != "<="@[0]);
    assert("="@[0] != ">="@[0]);
    assert(">"@.len() != ">="@.len());
    assert(">"@.len() != "<="@.len());
    assert("<"@.len() != "<="@.len());
    assert("<"@.len() != ">="@.len());
}

/// `a > b` is `b < a`.
pub proof fn law_greater_is_flipped_less(a: Expr, b: Expr)
    ensures
        comparison(">"@, a, b) == comparison("<"@, b, a),
{
    lemma_comparison_names();
}

/// `a <= b` holds of equal tokens and is `a < b` otherwise.
pub proof fn law_at_most_is_less_or_equal(a: Expr, b: Expr)
    ensures
        comparison("<="@, a, b) == (if a == b {
            Some(true)
        } else {
            comparison("<"@, a, b)
        }),
{
    lemma_comparison_names();
}

/// `a >= b` is `b <= a`.
pub proof fn law_at_least_is_flipped_at_most(a: Expr, b: Expr)
    ensures
        comparison(">="@, a, b) == comparison("<="@, b, a),
{
    lemma_comparison_names();
}

/// `=` is symmetric and never fails.
pub proof fn law_equality_symmetric(a: Expr, b: Expr)
    ensures
        comparison("="@, a, b) == comparison("="@, b, a),
        comparison("="@, a, b) == Some(a == b),
{
}

proof fn lemma_extend_unique(pairs: Seq<(Expr, Expr)>)
    ensures
        keys_unique(env_extend(Seq::empty(), pairs)),
    decreases pairs.len(),
{
    if pairs.len() > 0 {
        lemma_extend_unique(pairs.drop_last());
        law_insert_keeps_keys_unique(
            env_extend(Seq::empty(), pairs.drop_last()),
            pairs.last().0,
            pairs.last().1,
        );
    }
}

proof fn lemma_extend_identity(env: Seq<(Expr, Expr)>)
    requires
        keys_unique(env),
    ensures
        env_extend(Seq::empty(), env) == env,
    decreases env.len(),
{
    if env.len() > 0 {
        let init = env.drop_last();
        assert(keys_unique(init));
        lemma_extend_identity(init);
        lemma_find_key(init, env.last().0);
        assert forall|j: int| 0 <= j < init.len() implies #[trigger] init[j].0 != env.last().0 by {
            assert(init[j] == env[j]);
        }
        assert(init.push(env.last()) =~= env);
    }
}

proof fn lemma_bind_unique(
    f: nat,
    params: Seq<Expr>,
    ts: Seq<Expr>,
    st: EvalState,
    env: Seq<(Expr, Expr)>,
)
    requires
        keys_unique(env),
        bind_args(f, params, ts, st, env) is Some,
    ensures
        keys_unique(bind_args(f, params, ts, st, env)->Some_0.3),
    decreases params.len(),
{
    if ts.len() > 0 && params.len() > 0 {
        let (v, st1) = eval_token((f - 1) as nat, ts[0], st)->Some_0;
        law_insert_keeps_keys_unique(env, params[0], v);
        lemma_bind_unique(
            f,
            params.subrange(1, params.len() as int),
            ts.subrange(1, ts.len() as int),
            st1,
            env_insert(env, params[0], v),
        );
    }
}

proof fn lemma_bind_split(
    f: nat,
    params: Seq<Expr>,
    ts1: Seq<Expr>,
    ts2: Seq<Expr>,
    st: EvalState,
    env: Seq<(Expr, Expr)>,
)
    requires
        ts1.len() <= params.len(),
    ensures
        bind_args(f, params, ts1 + ts2, st, env) == match bind_args(f, params, ts1, st, env) {
            Some((left, _, st1, env1)) => bind_args(f, left, ts2, st1, env1),
            None => None,
        },
        bind_args(f, params, ts1, st, env) matches Some((left, rest, _, _)) ==> rest.len() == 0
            && left == params.subrange(ts1.len() as int, params.len() as int),
    decreases ts1.len(),
{
    if f > 0 {
        if ts1.len() == 0 {
            assert(ts1 + ts2 =~= ts2);
            assert(params.subrange(0, params.len() as int) =~= params);
        } else {
            let ts = ts1 + ts2;
            assert(ts[0] == ts1[0]);
            assert(ts.subrange(1, ts.len() as int) =~= ts1.subrange(1, ts1.len() as int) + ts2);
            match eval_token((f - 1) as nat, ts1[0], st) {
                Some((v, st1)) => {
                    let ps = params.subrange(1, params.len() as int);
                    lemma_bind_split(
                        f,
                        ps,
                        ts1.subrange(1, ts1.len() as int),
                        ts2,
                        st1,
                        env_insert(env, params[0], v),
                    );
                    assert(ps.subrange(ts1.len() - 1, ps.len() as int) =~= params.subrange(
                        ts1.len() as int,
                        params.len() as int,
                    ));
                },
                None => {},
            }
        }
    }
}

/// Partial application: applying a closure to some of its arguments gives a
/// closure, and applying that closure to the remaining tokens gives what
/// applying the first closure to all of them at once gives. Where the first
/// application fails, so does the application to all of them.
pub proof fn law_partial_application(
    f: nat,
    params: Seq<Expr>,
    body: Expr,
    pairs: Seq<(Expr, Expr)>,
    ts1: Seq<Expr>,
    ts2: Seq<Expr>,
    st: EvalState,
)
    requires
        ts1.len() < params.len(),
    ensures
        ({
            let parts = seq![Expr::List(params), body];
            match apply_closure(f, parts, pairs, ts1, st) {
                Some((Expr::Closure(parts2, env1), rest, st1)) => {
                    &&& rest.len() == 0
                    &&& parts2 == seq![
                        Expr::List(params.subrange(ts1.len() as int, params.len() as int)),
                        body,
                    ]
                    &&& apply_closure(f, parts2, env1, ts2, st1) == apply_closure(
                        f,
                        parts,
                        pairs,
                        ts1 + ts2,
                        st,
                    )
                },
                Some(_) => false,
                None => apply_closure(f, parts, pairs, ts1 + ts2, st) is None,
            }
        }),
{
    let parts = seq![Expr::List(params), body];
    if f > 0 {
        let env0 = env_extend(Seq::empty(), pairs);
        let f1 = (f - 1) as nat;
        assert(contents(parts[0]) == Some(params));
        lemma_bind_split(f1, params, ts1, ts2, st, env0);
        match bind_args(f1, params, ts1, st, env0) {
            Some((left, rest, st1, env1)) => {
                lemma_extend_unique(pairs);
                lemma_bind_unique(f1, params, ts1, st, env0);
                lemma_extend_identity(env1);
                let parts2 = seq![Expr::List(left), body];
                assert(contents(parts2[0]) == Some(left));
                assert(parts2[1] == body);
            },
            None => {},
        }
    }
}

proof fn lemma_digits_shape(m: nat)
    ensures
        digits(m).len() > 0,
        forall|i: int| 0 <= i < digits(m).len() ==> is_digit(#[trigger] digits(m)[i]),
    decreases m,
{
    if m >= 10 {
        lemma_digits_shape(m / 10);
    }
}

proof fn lemma_trim_after_space(s: Seq<char>)
    requires
        s.len() > 0,
        !is_space(s[0]),
        !is_space(s.last()),
    ensures
        trim(Seq::<char>::empty() + " "@ + s) == s,
{
    reveal_strlit(" ");
    let t = Seq::<char>::empty() + " "@ + s;
    assert(t[0] == ' ');
    assert(t.subrange(1, t.len() as int) =~= s);
    assert(trim_start(t) == trim_start(s));
}

/// A number prints as its decimal numeral.
pub proof fn law_number_prints_as_decimal(n: i32)
    ensures
        print_seq(seq![Expr::Number(n)]) == decimal(n as int),
{
    let d = decimal(n as int);
    if n < 0 {
        lemma_digits_shape((-n) as nat);
        assert(d[0] == '-');
        assert(d.last() == digits((-n) as nat).last());
    } else {
        lemma_digits_shape(n as nat);
    }
    lemma_trim_after_space(d);
}

/// A list, vector or map prints as the text of its items inside its brackets.
pub proof fn law_group_prints_bracketed(items: Seq<Expr>)
    ensures
        print_seq(seq![Expr::List(items)]) == "("@ + print_seq(items) + ")"@,
        print_seq(seq![Expr::Vector(items)]) == "["@ + print_seq(items) + "]"@,
        print_seq(seq![Expr::HashMap(items)]) == "{"@ + print_seq(items) + "}"@,
{
    reveal_strlit("(");
    reveal_strlit(")");
    reveal_strlit("[");
    reveal_strlit("]");
    reveal_strlit("{");
    reveal_strlit("}");
    lemma_trim_after_space("("@ + print_seq(items) + ")"@);
    lemma_trim_after_space("["@ + print_seq(items) + "]"@);
    lemma_trim_after_space("{"@ + print_seq(items) + "}"@);
}

/// Vector arithmetic is element by element: where combining the first `n`
/// elements succeeds, the result holds `n` numbers, the `i`-th being the
/// `i`-th elements of both sides combined.
pub proof fn law_vector_arith_elementwise(op: Op, xs: Seq<Expr>, ys: Seq<Expr>, n: nat)
    requires
        n <= xs.len(),
        n <= ys.len(),
        zip_prefix(op, xs, ys, n) is Some,
    ensures
        zip_prefix(op, xs, ys, n)->Some_0.len() == n,
        forall|i: int|
            0 <= i < n ==> {
                &&& xs[i] is Number
                &&& ys[i] is Number
                &&& apply_op(op, xs[i]->Number_0, ys[i]->Number_0) is Some
                &&& #[trigger] zip_prefix(op, xs, ys, n)->Some_0[i] == Expr::Number(
                    apply_op(op, xs[i]->Number_0, ys[i]->Number_0)->Some_0,
                )
            },
    decreases n,
{
    if n > 0 {
        law_vector_arith_elementwise(op, xs, ys, (n - 1) as nat);
        let r = zip_prefix(op, xs, ys, (n - 1) as nat)->Some_0;
        assert forall|i: int| 0 <= i < n - 1 implies #[trigger] zip_prefix(op, xs, ys, n)->Some_0[i]
            == r[i] by {}
    }
}

/// A closure applied to exactly as many arguments as it has parameters,
/// none included, binds each parameter to its evaluated argument in the
/// closure's captured environment and gives the value of its body there;
/// the caller's bindings stay as they were, with what the body printed.
pub proof fn law_full_application(
    f: nat,
    params: Seq<Expr>,
    body: Expr,
    pairs: Seq<(Expr, Expr)>,
    ts: Seq<Expr>,
    st: EvalState,
)
    requires
        ts.len() == params.len(),
    ensures
        apply_closure(f + 2, seq![Expr::List(params), body], pairs, ts, st) == match bind_args(
            f + 1,
            params,
            ts,
            st,
            env_extend(Seq::empty(), pairs),
        ) {
            Some((_, _, st2, env)) => match eval_token(
                f + 1,
                body,
                EvalState { env: env, out: st2.out },
            ) {
                Some((v, stb)) => Some((v, Seq::<Expr>::empty(), EvalState { env: st2.env, out: stb.out })),
                None => None,
            },
            None => None,
        },
{
    let parts = seq![Expr::List(params), body];
    assert(contents(parts[0]) == Some(params));
    lemma_bind_split((f + 1) as nat, params, ts, Seq::empty(), st, env_extend(Seq::empty(), pairs));
    match bind_args((f + 1) as nat, params, ts, st, env_extend(Seq::empty(), pairs)) {
        Some((left, rest, st2, env)) => {
            assert(left.len() == 0);
            assert(rest.len() == 0);
            assert(rest =~= Seq::<Expr>::empty());
        },
        None => {},
    }
}

/// A closure of no parameters called with no arguments gives the value of
/// its body in the closure's captured environment.
pub proof fn law_call_without_arguments(
    f: nat,
    body: Expr,
    pairs: Seq<(Expr, Expr)>,
    st: EvalState,
)
    ensures
        apply_closure(f + 2, seq![Expr::List(Seq::empty()), body], pairs, Seq::empty(), st)
            == match eval_token(
            f + 1,
            body,
            EvalState { env: env_extend(Seq::empty(), pairs), out: st.out },
        ) {
            Some((v, stb)) => Some((v, Seq::<Expr>::empty(), EvalState { env: st.env, out: stb.out })),
            None => None,
        },
{
    law_full_application(f, Seq::empty(), body, pairs, Seq::empty(), st);
}

} // verus!
