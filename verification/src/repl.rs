use vstd::prelude::*;
use crate::env::{Env, EvalState};
use crate::eval::{_remove_or_nil, apply_sym_single, depth_limit, eval_token_bounded};
use crate::printer::{all_printable, pr_str, print_seq, printable, token_printable};
use crate::reader::{read_str, read_text, try_read_str};
use crate::semantics::{eval_token, remove_or_nil};
use crate::token::{Expr, Token, group_token_view, tokens_view};

verus! {

broadcast use group_token_view;

/// The value of the first form of `tokens` (`nil` where there is none) and
/// the state after it.
pub open spec fn evaluate_first(tokens: Seq<Expr>, st: EvalState) -> Option<(Expr, EvalState)> {
    eval_token(depth_limit(), remove_or_nil(tokens).0, st)
}

/// What one round of the read-eval-print loop gives for the line `s` in
/// state `st`: the printed value of the first form read, and the state
/// after its evaluation; `None` where a step panics or never ends.
pub open spec fn rep_result(s: Seq<char>, st: EvalState) -> Option<(Seq<char>, EvalState)> {
    match read_text(s) {
        None => None,
        Some(es) => match evaluate_first(es, st) {
            None => None,
            Some((v, st2)) => if printable(v) {
                Some((print_seq(seq![v]), st2))
            } else {
                None
            },
        },
    }
}

/// The forms of `s`.
pub fn read(s: &str) -> (r: Vec<Token>)
    requires
        read_text(s@) is Some,
    ensures
        tokens_view(r@) == read_text(s@)->Some_0,
{
    read_str(s)
}

/// The value of the first form of `tokens`, alone in a sequence.
pub fn eval(tokens: Vec<Token>, enviro: &mut Env) -> (r: Vec<Token>)
    requires
        evaluate_first(tokens_view(tokens@), old(enviro)@) is Some,
    ensures
        tokens_view(r@) == seq![evaluate_first(tokens_view(tokens@), old(enviro)@)->Some_0.0],
        final(enviro)@ == evaluate_first(tokens_view(tokens@), old(enviro)@)->Some_0.1,
{
    let mut tokens = tokens;
    let head = _remove_or_nil(&mut tokens);
    let v = apply_sym_single(&head, enviro);
    let ghost vv = v@;
    let mut r: Vec<Token> = Vec::new();
    r.push(v);
    assert(tokens_view(r@) =~= seq![vv]);
    r
}

/// The printed text of `data`.
pub fn print(data: &[Token]) -> (r: String)
    requires
        all_printable(tokens_view(data@)),
    ensures
        r@ == print_seq(tokens_view(data@)),
{
    pr_str(data)
}

/// One round of the read-eval-print loop: reads `s`, evaluates its first
/// form in `enviro` and prints the value. No step may panic.
pub fn rep(s: &str, enviro: &mut Env) -> (r: String)
    requires
        rep_result(s@, old(enviro)@) is Some,
    ensures
        (r@, final(enviro)@) == rep_result(s@, old(enviro)@)->Some_0,
{
    let ss = read(s);
    let s_eval = eval(ss, enviro);
    assert(printable(tokens_view(s_eval@)[0]));
    print(s_eval.as_slice())
}

/// One round of the read-eval-print loop, where no step panics; `None`,
/// with `enviro` unchanged, where one would.
pub fn try_rep(s: &str, enviro: &mut Env) -> (r: Option<String>)
    ensures
        match rep_result(s@, old(enviro)@) {
            Some((text, st)) => r is Some && r->Some_0@ == text && final(enviro)@ == st,
            None => r is None && final(enviro)@ == old(enviro)@,
        },
{
    let mut tokens = match try_read_str(s) {
        Some(t) => t,
        None => return None,
    };
    let head = _remove_or_nil(&mut tokens);
    let mut scratch = enviro.duplicate();
    let v = match eval_token_bounded(u64::MAX, &head, &mut scratch) {
        Some(v) => v,
        None => return None,
    };
    if !token_printable(&v) {
        return None;
    }
    Some(rep(s, enviro))
}

} // verus!
