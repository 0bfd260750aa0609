use vstd::prelude::*;
use crate::arith::{combine_values, op_of_text, operand_check};
use crate::env::{Env, EvalState, env_insert};
use crate::printer::{pr_str, tokens_printable};
use crate::semantics::{
    apply_closure, bind_args, comparison, contents, eval_arith, eval_comparison, eval_group,
    eval_item, eval_items, eval_keyword, eval_token, fold_arith, let_env, nil, number_of, operand_of,
    regroup,
    remove_or_nil, truth, truthiness,
};
use crate::text::text_is;
use crate::token::{Expr, Token, group_token_view, pairs_view, tokens_view};
use crate::token_ops::{clone_token, clone_tokens, token_eq};

verus! {

broadcast use group_token_view;

/// Whether an evaluation of a group gave what `expected` says: its value,
/// the tokens it left and the state after it; nothing where `expected` is `None`.
pub open spec fn group_result(
    r: Option<Token>,
    tokens: Seq<Token>,
    st: EvalState,
    expected: Option<(Expr, Seq<Expr>, EvalState)>,
) -> bool {
    match expected {
        Some((v, rest, st2)) => r is Some && r->Some_0@ == v && tokens_view(tokens) == rest && st
            == st2,
        None => r is None,
    }
}

/// Whether an evaluation of one token gave what `expected` says.
pub open spec fn token_result(r: Option<Token>, st: EvalState, expected: Option<(Expr, EvalState)>) -> bool {
    match expected {
        Some((v, st2)) => r is Some && r->Some_0@ == v && st == st2,
        None => r is None,
    }
}

/// Removes and gives the first token; `nil` where there is none.
pub fn _remove_or_nil(tokens: &mut Vec<Token>) -> (r: Token)
    ensures
        (r@, tokens_view(final(tokens)@)) == remove_or_nil(tokens_view(old(tokens)@)),
{
    if tokens.len() > 0 {
        let t = tokens.remove(0);
        assert(tokens_view(tokens@) =~= tokens_view(old(tokens)@).subrange(
            1,
            old(tokens)@.len() as int,
        ));
        t
    } else {
        Token::Keyword("nil".to_owned())
    }
}

fn keyword(text: &str) -> (r: Token)
    ensures
        r@ == Expr::Keyword(text@),
{
    Token::Keyword(text.to_owned())
}

fn truth_token(b: bool) -> (r: Token)
    ensures
        r@ == truth(b),
{
    if b {
        keyword("true")
    } else {
        keyword("false")
    }
}

/// Whether `if` takes `token` as true; the token must be one that `if` accepts.
pub fn _is_true(token: Token) -> (r: bool)
    requires
        truthiness(token@) is Some,
    ensures
        r == truthiness(token@)->Some_0,
{
    match token {
        Token::Other(s) => !(text_is(s.as_str(), "") || text_is(s.as_str(), "\"\"")),
        Token::Keyword(s) => !(text_is(s.as_str(), "false") || text_is(s.as_str(), "nil")),
        Token::Number(n) => n != 0,
        Token::List(l) => l.len() > 0,
        _ => false,
    }
}

fn truthiness_exec(token: &Token) -> (r: Option<bool>)
    ensures
        r == truthiness(token@),
{
    match token {
        Token::Other(s) => Some(!(text_is(s.as_str(), "") || text_is(s.as_str(), "\"\""))),
        Token::Keyword(s) => Some(!(text_is(s.as_str(), "false") || text_is(s.as_str(), "nil"))),
        Token::Number(n) => Some(*n != 0),
        Token::List(l) => Some(l.len() > 0),
        _ => None,
    }
}

fn comparison_exec(cmp: &str, left: &Token, right: &Token) -> (r: Option<bool>)
    ensures
        r == comparison(cmp@, left@, right@),
{
    if text_is(cmp, "=") {
        Some(token_eq(left, right))
    } else if (text_is(cmp, "<=") || text_is(cmp, ">=")) && token_eq(left, right) {
        Some(true)
    } else {
        let (a, b) = if text_is(cmp, ">") || text_is(cmp, ">=") {
            (right, left)
        } else {
            (left, right)
        };
        match (a, b) {
            (Token::Number(x), Token::Number(y)) => Some(*x < *y),
            _ => None,
        }
    }
}

/// The outcome of the comparison `comparison` on two evaluated tokens; the
/// comparison must be one that the tokens admit.
pub fn _is_true_comparison(comparison_name: &str, token_left: Token, token_right: Token) -> (r: bool)
    requires
        comparison(comparison_name@, token_left@, token_right@) is Some,
    ensures
        r == comparison(comparison_name@, token_left@, token_right@)->Some_0,
{
    match comparison_exec(comparison_name, &token_left, &token_right) {
        Some(b) => b,
        None => false,
    }
}

fn contents_of(t: &Token) -> (r: Option<&Vec<Token>>)
    ensures
        match r {
            Some(l) => contents(t@) == Some(tokens_view(l@)),
            None => contents(t@) is None,
        },
{
    match t {
        Token::List(l) => Some(l),
        Token::Vector(l) => Some(l),
        _ => None,
    }
}

fn regroup_exec(group: &Token, items: Vec<Token>) -> (r: Option<Token>)
    ensures
        match regroup(group@, tokens_view(items@)) {
            Some(g) => r is Some && r->Some_0@ == g,
            None => r is None,
        },
{
    match group {
        Token::List(_) => Some(Token::List(items)),
        Token::Vector(_) => Some(Token::Vector(items)),
        Token::HashMap(_) => Some(Token::HashMap(items)),
        _ => None,
    }
}

/// `prefix` before the values of an evaluation of items.
pub open spec fn with_prefix(prefix: Seq<Expr>, r: Option<(Seq<Expr>, EvalState)>) -> Option<
    (Seq<Expr>, EvalState),
> {
    match r {
        Some((vs, st)) => Some((prefix + vs, st)),
        None => None,
    }
}

fn empty_group(kind: u8) -> (r: Token)
    ensures
        kind == 0 ==> r@ == Expr::List(Seq::empty()),
        kind == 1 ==> r@ == Expr::Vector(Seq::empty()),
        kind >= 2 ==> r@ == Expr::HashMap(Seq::empty()),
{
    let v: Vec<Token> = Vec::new();
    assert(tokens_view(v@) =~= Seq::<Expr>::empty());
    if kind == 0 {
        Token::List(v)
    } else if kind == 1 {
        Token::Vector(v)
    } else {
        Token::HashMap(v)
    }
}

/// Evaluates one token, nested at most `fuel` deep; `None` where the
/// evaluator would panic or nest deeper.
pub fn eval_token_bounded(fuel: u64, head: &Token, env: &mut Env) -> (r: Option<Token>)
    ensures
        token_result(r, final(env)@, eval_token(fuel as nat, head@, old(env)@)),
    decreases fuel, 0int,
{
    if fuel == 0 {
        return None;
    }
    match head {
        Token::Other(_) => {
            match env.get(head) {
                Some(v) => eval_token_bounded(fuel - 1, &v, env),
                None => Some(clone_token(head)),
            }
        },
        Token::List(l) => {
            let mut items = clone_tokens(l);
            eval_group_bounded(fuel - 1, &empty_group(0), &mut items, env)
        },
        Token::Vector(l) => {
            let mut items = clone_tokens(l);
            eval_group_bounded(fuel - 1, &empty_group(1), &mut items, env)
        },
        Token::HashMap(l) => {
            let mut items = clone_tokens(l);
            eval_group_bounded(fuel - 1, &empty_group(2), &mut items, env)
        },
        _ => Some(clone_token(head)),
    }
}

/// Evaluates the tokens of a group of the kind of `group`, nested at most
/// `fuel` deep, leaving in `tokens` what the evaluation does not consume.
pub fn eval_group_bounded(fuel: u64, group: &Token, tokens: &mut Vec<Token>, env: &mut Env) -> (r:
    Option<Token>)
    ensures
        group_result(
            r,
            final(tokens)@,
            final(env)@,
            eval_group(fuel as nat, group@, tokens_view(old(tokens)@), old(env)@),
        ),
    decreases fuel, 0int,
{
    if fuel == 0 {
        return None;
    }
    if tokens.len() == 0 {
        return Some(empty_group(0));
    }
    let old_head = _remove_or_nil(tokens);
    let head = match old_head {
        Token::Keyword(k) => match eval_keyword_bounded(fuel - 1, k.as_str(), tokens, env) {
            Some(h) => h,
            None => return None,
        },
        other => other,
    };
    let ha = match eval_token_bounded(fuel - 1, &head, env) {
        Some(h) => h,
        None => return None,
    };
    match ha {
        Token::Closure(parts, pairs) => apply_closure_bounded(fuel - 1, &parts, &pairs, tokens, env),
        Token::Symbol(sym) => eval_arith_bounded(fuel - 1, &sym, tokens, env),
        other => {
            if tokens.len() == 0 {
                return Some(other);
            }
            let mut items = match eval_items_bounded(fuel - 1, tokens, env) {
                Some(v) => v,
                None => return None,
            };
            let ghost hv = other@;
            let ghost iv = tokens_view(items@);
            let mut all: Vec<Token> = Vec::new();
            all.push(other);
            all.append(&mut items);
            assert(tokens_view(all@) =~= seq![hv] + iv);
            regroup_exec(group, all)
        },
    }
}

/// Applies a closure (parameter list and body in `parts`, captured bindings
/// in `pairs`) to the tokens that follow it.
fn apply_closure_bounded(
    fuel: u64,
    parts: &Vec<Token>,
    pairs: &Vec<(Token, Token)>,
    tokens: &mut Vec<Token>,
    env: &mut Env,
) -> (r: Option<Token>)
    ensures
        group_result(
            r,
            final(tokens)@,
            final(env)@,
            apply_closure(fuel as nat, tokens_view(parts@), pairs_view(pairs@), tokens_view(old(tokens)@), old(env)@),
        ),
    decreases fuel, 0int,
{
    if fuel <= 1 || parts.len() < 2 {
        return None;
    }
    let params = match contents_of(&parts[0]) {
        Some(p) => p,
        None => return None,
    };
    let ghost pv = tokens_view(params@);
    let mut new_env = Env::from_pairs(pairs, Vec::new());
    let i = match bind_args_bounded(fuel - 1, params, tokens, env, &mut new_env) {
        Some(i) => i,
        None => return None,
    };
    if tokens.len() == 0 && i == params.len() {
        let printed = env.take_printed();
        new_env.put_printed(printed);
        let r = eval_token_bounded(fuel - 1, &parts[1], &mut new_env);
        let printed = new_env.take_printed();
        env.put_printed(printed);
        r
    } else {
        let mut left: Vec<Token> = Vec::new();
        let mut j: usize = i;
        while j < params.len()
            invariant
                i <= j <= params.len(),
                pv == tokens_view(params@),
                tokens_view(left@) == pv.subrange(i as int, j as int),
            decreases params.len() - j,
        {
            let ghost before = tokens_view(left@);
            let x = clone_token(&params[j]);
            let ghost xv = x@;
            left.push(x);
            assert(tokens_view(left@) =~= before.push(xv));
            j = j + 1;
            assert(tokens_view(left@) =~= pv.subrange(i as int, j as int));
        }
        let mut new_parts: Vec<Token> = Vec::new();
        new_parts.push(Token::List(left));
        new_parts.push(clone_token(&parts[1]));
        let r = Token::Closure(new_parts, new_env.pairs());
        assert(tokens_view(new_parts@) =~= seq![Expr::List(pv.subrange(i as int, pv.len() as int)), parts@[1]@]);
        Some(r)
    }
}

/// Binds arguments to parameters while both last: each argument evaluated
/// in `env` and bound in `new_env` to the next parameter. Gives the index of
/// the first parameter left.
fn bind_args_bounded(
    fuel: u64,
    params: &Vec<Token>,
    tokens: &mut Vec<Token>,
    env: &mut Env,
    new_env: &mut Env,
) -> (r: Option<usize>)
    ensures
        match bind_args(fuel as nat, tokens_view(params@), tokens_view(old(tokens)@), old(env)@, old(new_env)@.env) {
            Some((left, ts2, st2, ne)) => r is Some && r->Some_0 <= params.len()
                && left == tokens_view(params@).subrange(r->Some_0 as int, params.len() as int)
                && tokens_view(final(tokens)@) == ts2 && final(env)@ == st2
                && final(new_env)@.env == ne,
            None => r is None,
        },
        final(new_env)@.out == old(new_env)@.out,
    decreases fuel, 0int,
{
    if fuel == 0 {
        return None;
    }
    let ghost pv = tokens_view(params@);
    let mut i: usize = 0;
    assert(pv.subrange(0, pv.len() as int) =~= pv);
    while tokens.len() > 0 && i < params.len()
        invariant
            0 <= i <= params.len(),
            fuel >= 1,
            pv == tokens_view(params@),
            new_env@.out == old(new_env)@.out,
            bind_args(fuel as nat, pv, tokens_view(old(tokens)@), old(env)@, old(new_env)@.env)
                == bind_args(fuel as nat, pv.subrange(i as int, pv.len() as int), tokens_view(tokens@), env@, new_env@.env),
        decreases params.len() - i,
    {
        let ghost ps = pv.subrange(i as int, pv.len() as int);
        let arg = _remove_or_nil(tokens);
        let v = match eval_token_bounded(fuel - 1, &arg, env) {
            Some(v) => v,
            None => return None,
        };
        let pn = clone_token(&params[i]);
        assert(ps[0] == pn@);
        new_env.insert(pn, v);
        i = i + 1;
        assert(ps.subrange(1, ps.len() as int) =~= pv.subrange(i as int, pv.len() as int));
    }
    Some(i)
}

/// Evaluates a token and gives the number it evaluates to.
fn number_of_bounded(fuel: u64, t: &Token, env: &mut Env) -> (r: Option<i32>)
    ensures
        match number_of(fuel as nat, t@, old(env)@) {
            Some((n, st)) => r == Some(n) && final(env)@ == st,
            None => r is None,
        },
{
    if fuel == 0 {
        return None;
    }
    match eval_token_bounded(fuel - 1, t, env) {
        Some(Token::Number(n)) => Some(n),
        _ => None,
    }
}

/// Evaluates a token and gives the arithmetic value it evaluates to.
fn operand_of_bounded(fuel: u64, t: &Token, env: &mut Env) -> (r: Option<Token>)
    ensures
        token_result(r, final(env)@, operand_of(fuel as nat, t@, old(env)@)),
    decreases fuel, 0int,
{
    if fuel == 0 {
        return None;
    }
    match eval_token_bounded(fuel - 1, t, env) {
        Some(v) => if operand_check(&v) {
            Some(v)
        } else {
            None
        },
        None => None,
    }
}

/// Applies the operator named `sym` to the tokens that follow it.
fn eval_arith_bounded(fuel: u64, sym: &String, tokens: &mut Vec<Token>, env: &mut Env) -> (r: Option<
    Token,
>)
    ensures
        group_result(
            r,
            final(tokens)@,
            final(env)@,
            eval_arith(fuel as nat, sym@, tokens_view(old(tokens)@), old(env)@),
        ),
    decreases fuel, 0int,
{
    if fuel == 0 {
        return None;
    }
    let a0 = _remove_or_nil(tokens);
    let first = match operand_of_bounded(fuel - 1, &a0, env) {
        Some(v) => v,
        None => return None,
    };
    let op = match op_of_text(sym.as_str()) {
        Some(op) => op,
        None => return None,
    };
    fold_arith_bounded(fuel - 1, &op, first, tokens, env)
}

/// Folds the values of `tokens` into `start` with `op`, left to right.
fn fold_arith_bounded(
    fuel: u64,
    op: &crate::arith::Op,
    start: Token,
    tokens: &Vec<Token>,
    env: &mut Env,
) -> (r: Option<Token>)
    ensures
        token_result(r, final(env)@, fold_arith(fuel as nat, *op, start@, tokens_view(tokens@), old(env)@)),
    decreases fuel, 0int,
{
    if fuel == 0 {
        return None;
    }
    let ghost rest = tokens_view(tokens@);
    let ghost st1 = env@;
    let ghost s0 = start@;
    let mut acc = start;
    let mut i: usize = 0;
    assert(rest.subrange(0, rest.len() as int) =~= rest);
    while i < tokens.len()
        invariant
            0 <= i <= tokens.len(),
            fuel >= 1,
            rest == tokens_view(tokens@),
            st1 == old(env)@,
            s0 == start@,
            fold_arith(fuel as nat, *op, s0, rest, st1) == fold_arith(
                fuel as nat,
                *op,
                acc@,
                rest.subrange(i as int, rest.len() as int),
                env@,
            ),
        decreases tokens.len() - i,
    {
        let ghost ri = rest.subrange(i as int, rest.len() as int);
        assert(ri[0] == tokens@[i as int]@);
        let b = match operand_of_bounded(fuel - 1, &tokens[i], env) {
            Some(b) => b,
            None => return None,
        };
        acc = match combine_values(op, &acc, &b) {
            Some(c) => c,
            None => return None,
        };
        i = i + 1;
        assert(ri.subrange(1, ri.len() as int) =~= rest.subrange(i as int, rest.len() as int));
    }
    Some(acc)
}

/// Evaluates the tokens after the head of a group, in turn.
fn eval_items_bounded(fuel: u64, tokens: &Vec<Token>, env: &mut Env) -> (r: Option<Vec<Token>>)
    ensures
        match eval_items(fuel as nat, tokens_view(tokens@), old(env)@) {
            Some((vs, st)) => r is Some && tokens_view(r->Some_0@) == vs && final(env)@ == st,
            None => r is None,
        },
    decreases fuel, 0int,
{
    if fuel == 0 {
        return None;
    }
    let ghost ts = tokens_view(tokens@);
    let ghost st0 = env@;
    let mut out: Vec<Token> = Vec::new();
    let mut i: usize = 0;
    assert(ts.subrange(0, ts.len() as int) =~= ts);
    assert(tokens_view(out@) + Seq::<Expr>::empty() =~= Seq::<Expr>::empty());
    while i < tokens.len()
        invariant
            0 <= i <= tokens.len(),
            fuel >= 1,
            ts == tokens_view(tokens@),
            st0 == old(env)@,
            eval_items(fuel as nat, ts, st0) == with_prefix(
                tokens_view(out@),
                eval_items(fuel as nat, ts.subrange(i as int, ts.len() as int), env@),
            ),
        decreases tokens.len() - i,
    {
        let ghost ti = ts.subrange(i as int, ts.len() as int);
        let ghost before = tokens_view(out@);
        assert(ti[0] == tokens@[i as int]@);
        let v = match eval_item_bounded(fuel - 1, &tokens[i], env) {
            Some(v) => v,
            None => return None,
        };
        let ghost vv = v@;
        out.push(v);
        i = i + 1;
        assert(ti.subrange(1, ti.len() as int) =~= ts.subrange(i as int, ts.len() as int));
        assert(tokens_view(out@) =~= before.push(vv));
        assert forall|vs: Seq<Expr>| before + (seq![vv] + vs) =~= #[trigger] (before.push(vv) + vs) by {}
    }
    assert(tokens_view(out@) + Seq::<Expr>::empty() =~= tokens_view(out@));
    Some(out)
}

/// Evaluates one token after the head of a group.
fn eval_item_bounded(fuel: u64, t: &Token, env: &mut Env) -> (r: Option<Token>)
    ensures
        token_result(r, final(env)@, eval_item(fuel as nat, t@, old(env)@)),
    decreases fuel, 0int,
{
    if fuel == 0 {
        return None;
    }
    match t {
        Token::List(l) => {
            let mut items = clone_tokens(l);
            eval_group_bounded(fuel - 1, &empty_group(0), &mut items, env)
        },
        Token::Vector(l) => {
            let mut items = clone_tokens(l);
            eval_group_bounded(fuel - 1, &empty_group(1), &mut items, env)
        },
        Token::Other(_) => {
            match env.get(t) {
                Some(v) => eval_token_bounded(fuel - 1, &v, env),
                None => Some(clone_token(t)),
            }
        },
        _ => Some(clone_token(t)),
    }
}

/// Applies a comparison keyword to the next two tokens.
fn eval_comparison_bounded(fuel: u64, k: &str, tokens: &mut Vec<Token>, env: &mut Env) -> (r: Option<
    Token,
>)
    ensures
        group_result(
            r,
            final(tokens)@,
            final(env)@,
            eval_comparison(fuel as nat, k@, tokens_view(old(tokens)@), old(env)@),
        ),
    decreases fuel, 0int,
{
    if fuel == 0 {
        return None;
    }
    let first = _remove_or_nil(tokens);
    let second = _remove_or_nil(tokens);
    let a = match eval_token_bounded(fuel - 1, &first, env) {
        Some(v) => v,
        None => return None,
    };
    let b = match eval_token_bounded(fuel - 1, &second, env) {
        Some(v) => v,
        None => return None,
    };
    match comparison_exec(k, &a, &b) {
        Some(c) => Some(truth_token(c)),
        None => None,
    }
}

/// The bindings of `env` with a `let` binding list added.
fn let_bindings(env: &Env, vars: &Vec<Token>) -> (r: Option<Env>)
    ensures
        match let_env(env@.env, tokens_view(vars@)) {
            Some(e) => r is Some && r->Some_0@.env == e && r->Some_0@.out == Seq::<Seq<char>>::empty(),
            None => r is None,
        },
{
    let mut inner = env.clone_bindings();
    let ghost vv = tokens_view(vars@);
    let mut count: usize = 0;
    assert(vv.subrange(0, vv.len() as int) =~= vv);
    while count < vars.len()
        invariant
            count <= vars.len(),
            vv == tokens_view(vars@),
            inner@.out == Seq::<Seq<char>>::empty(),
            let_env(env@.env, vv) == let_env(inner@.env, vv.subrange(count as int, vv.len() as int)),
        decreases vars.len() - count,
    {
        let ghost rest = vv.subrange(count as int, vv.len() as int);
        if count + 1 >= vars.len() {
            return None;
        }
        let name = clone_token(&vars[count]);
        let value = clone_token(&vars[count + 1]);
        inner.insert(name, value);
        count = count + 2;
        assert(rest.subrange(2, rest.len() as int) =~= vv.subrange(count as int, vv.len() as int));
    }
    Some(inner)
}

/// Runs the special form `k` on the tokens that follow it.
fn eval_keyword_bounded(fuel: u64, k: &str, tokens: &mut Vec<Token>, env: &mut Env) -> (r: Option<
    Token,
>)
    ensures
        group_result(
            r,
            final(tokens)@,
            final(env)@,
            eval_keyword(fuel as nat, k@, tokens_view(old(tokens)@), old(env)@),
        ),
    decreases fuel, 0int,
{
    if fuel == 0 {
        return None;
    }
    let kw = k;
    if text_is(kw, "def") {
        let name = _remove_or_nil(tokens);
        let val = _remove_or_nil(tokens);
        env.insert(name, clone_token(&val));
        eval_token_bounded(fuel - 1, &val, env)
    } else if text_is(kw, "let") {
        let vars_tok = _remove_or_nil(tokens);
        let vars = match contents_of(&vars_tok) {
            Some(v) => v,
            None => return None,
        };
        let body = _remove_or_nil(tokens);
        let mut inner = match let_bindings(env, vars) {
            Some(e) => e,
            None => return None,
        };
        let printed = env.take_printed();
        inner.put_printed(printed);
        let r = eval_token_bounded(fuel - 1, &body, &mut inner);
        let printed = inner.take_printed();
        env.put_printed(printed);
        r
    } else if text_is(kw, "fn") {
        let params = _remove_or_nil(tokens);
        let body = _remove_or_nil(tokens);
        let ghost pv = params@;
        let ghost bv = body@;
        let mut parts: Vec<Token> = Vec::new();
        parts.push(params);
        parts.push(body);
        assert(tokens_view(parts@) =~= seq![pv, bv]);
        Some(Token::Closure(parts, env.pairs()))
    } else if text_is(kw, "do") {
        let x = _remove_or_nil(tokens);
        eval_token_bounded(fuel - 1, &x, env)
    } else if text_is(kw, "list?") {
        let x = _remove_or_nil(tokens);
        let is_list = match x {
            Token::List(_) => true,
            _ => false,
        };
        Some(truth_token(is_list))
    } else if text_is(kw, "empty?") {
        let x = _remove_or_nil(tokens);
        match contents_of(&x) {
            Some(l) => Some(truth_token(l.len() == 0)),
            None => None,
        }
    } else if text_is(kw, "count") {
        let x = _remove_or_nil(tokens);
        let n: i32 = match contents_of(&x) {
            Some(l) => l.len() as i32,
            None => 0,
        };
        Some(Token::Number(n))
    } else if text_is(kw, "list") {
        let mut all: Vec<Token> = Vec::new();
        std::mem::swap(&mut all, tokens);
        assert(tokens_view(tokens@) =~= Seq::<Expr>::empty());
        Some(Token::List(all))
    } else if text_is(kw, "if") {
        let c = _remove_or_nil(tokens);
        let t = _remove_or_nil(tokens);
        let e = _remove_or_nil(tokens);
        let cv = match eval_token_bounded(fuel - 1, &c, env) {
            Some(v) => v,
            None => return None,
        };
        match truthiness_exec(&cv) {
            None => None,
            Some(b) => {
                if b {
                    eval_token_bounded(fuel - 1, &t, env)
                } else {
                    eval_token_bounded(fuel - 1, &e, env)
                }
            },
        }
    } else if text_is(kw, "prn") {
        if !tokens_printable(tokens.as_slice()) {
            return None;
        }
        let line = pr_str(tokens.as_slice());
        env.print_line(line);
        tokens.clear();
        assert(tokens_view(tokens@) =~= Seq::<Expr>::empty());
        Some(keyword("nil"))
    } else if text_is(kw, "false") || text_is(kw, "true") || text_is(kw, "nil") {
        Some(Token::Keyword(k.to_owned()))
    } else if text_is(kw, "=") || text_is(kw, "<") || text_is(kw, ">") || text_is(kw, "<=")
        || text_is(kw, ">=") {
        eval_comparison_bounded(fuel - 1, k, tokens, env)
    } else {
        None
    }
}

/// The deepest nesting of evaluation that the evaluator allows.
pub open spec fn depth_limit() -> nat {
    u64::MAX as nat
}

/// The value of `head` in the environment `func_map`: the binding of a name,
/// evaluated in turn; the value of a list, vector or map evaluated as a
/// group; every other token itself. The evaluation must not panic.
pub fn apply_sym_single(head: &Token, func_map: &mut Env) -> (r: Token)
    requires
        eval_token(depth_limit(), head@, old(func_map)@) is Some,
    ensures
        (r@, final(func_map)@) == eval_token(depth_limit(), head@, old(func_map)@)->Some_0,
{
    match eval_token_bounded(u64::MAX, head, func_map) {
        Some(t) => t,
        None => clone_token(head),
    }
}

/// The value of the tokens of a group of the kind of `group_type`, removing
/// from `tokens` what the evaluation consumes. The evaluation must not panic.
pub fn apply_sym_multi(group_type: &Token, tokens: &mut Vec<Token>, func_map: &mut Env) -> (r: Token)
    requires
        eval_group(depth_limit(), group_type@, tokens_view(old(tokens)@), old(func_map)@) is Some,
    ensures
        (r@, tokens_view(final(tokens)@), final(func_map)@) == eval_group(
            depth_limit(),
            group_type@,
            tokens_view(old(tokens)@),
            old(func_map)@,
        )->Some_0,
{
    match eval_group_bounded(u64::MAX, group_type, tokens, func_map) {
        Some(t) => t,
        None => clone_token(group_type),
    }
}

/// The number that `token` evaluates to; it must evaluate to a number.
pub fn to_number(token: &Token, func_map: &mut Env) -> (r: i32)
    requires
        number_of(depth_limit(), token@, old(func_map)@) is Some,
    ensures
        (r, final(func_map)@) == number_of(depth_limit(), token@, old(func_map)@)->Some_0,
{
    match number_of_bounded(u64::MAX, token, func_map) {
        Some(n) => n,
        None => 0,
    }
}

/// The special form `keyword` applied to the tokens that follow it,
/// removing from `tokens` what it consumes. It must not panic.
pub fn _process_keyword(keyword: &str, tokens: &mut Vec<Token>, func_map: &mut Env) -> (r: Token)
    requires
        eval_keyword(depth_limit(), keyword@, tokens_view(old(tokens)@), old(func_map)@) is Some,
    ensures
        (r@, tokens_view(final(tokens)@), final(func_map)@) == eval_keyword(
            depth_limit(),
            keyword@,
            tokens_view(old(tokens)@),
            old(func_map)@,
        )->Some_0,
{
    match eval_keyword_bounded(u64::MAX, keyword, tokens, func_map) {
        Some(t) => t,
        None => nil_token(),
    }
}

/// A comparison keyword applied to the next two tokens, each evaluated:
/// `true` or `false`. The comparison must not panic.
pub fn _handle_comparison(keyword: &str, tokens: &mut Vec<Token>, func_map: &mut Env) -> (r: Token)
    requires
        eval_comparison(depth_limit(), keyword@, tokens_view(old(tokens)@), old(func_map)@) is Some,
    ensures
        (r@, tokens_view(final(tokens)@), final(func_map)@) == eval_comparison(
            depth_limit(),
            keyword@,
            tokens_view(old(tokens)@),
            old(func_map)@,
        )->Some_0,
{
    match eval_comparison_bounded(u64::MAX, keyword, tokens, func_map) {
        Some(t) => t,
        None => nil_token(),
    }
}

fn nil_token() -> (r: Token)
    ensures
        r@ == nil(),
{
    keyword("nil")
}

} // verus!
