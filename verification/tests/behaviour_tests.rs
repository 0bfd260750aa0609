use rust2::arith::{apply_op_exec, combine_values, operand_check, power_i32, Op};
use rust2::env::Env;
use rust2::eval::{
    _handle_comparison, _is_true, _is_true_comparison, _process_keyword, _remove_or_nil,
    apply_sym_multi, apply_sym_single, to_number,
};
use rust2::numeral::{decimal_text, parse_i32_text};
use rust2::printer::pr_str;
use rust2::repl::{rep, try_rep};
use rust2::text::{text_is, trim_text};
use rust2::token::Token;

fn num(n: i32) -> Token {
    Token::Number(n)
}

fn kw(s: &str) -> Token {
    Token::Keyword(s.to_string())
}

fn other(s: &str) -> Token {
    Token::Other(s.to_string())
}

#[test]
fn read_gives_back_write() {
    let mut env = Env::new();
    assert_eq!(rep("(def x 42)", &mut env), "42");
    assert_eq!(rep("x", &mut env), "42");
    assert_eq!(rep("(def x -7)", &mut env), "-7");
    assert_eq!(rep("x", &mut env), "-7");
}

#[test]
fn env_get_after_insert_and_others_kept() {
    let mut env = Env::new();
    env.insert(other("a"), num(1));
    env.insert(other("b"), num(2));
    env.insert(other("a"), num(3));
    assert_eq!(env.get(&other("a")), Some(num(3)));
    assert_eq!(env.get(&other("b")), Some(num(2)));
    assert_eq!(env.get(&other("c")), None);
    assert!(env.contains_key(&other("b")));
    assert!(!env.contains_key(&other("c")));
    // a key is bound once, in the place where it was first bound
    assert_eq!(
        env.pairs(),
        vec![(other("a"), num(3)), (other("b"), num(2))]
    );
}

#[test]
fn from_pairs_keeps_the_last_binding_of_a_key() {
    let pairs = vec![(other("a"), num(1)), (other("a"), num(2))];
    let env = Env::from_pairs(&pairs, Vec::new());
    assert_eq!(env.pairs(), vec![(other("a"), num(2))]);
}

#[test]
fn let_leaves_the_callers_bindings() {
    let mut env = Env::new();
    rep("(def y 1)", &mut env);
    assert_eq!(rep("(let (y 2 w 3) (+ y w))", &mut env), "5");
    assert_eq!(rep("y", &mut env), "1");
    assert_eq!(env.get(&other("w")), None);
}

#[test]
fn comparison_laws_on_values() {
    for (a, b) in [(1, 2), (2, 2), (3, 2), (-5, 7)] {
        let (l, r) = (num(a), num(b));
        assert_eq!(
            _is_true_comparison(">", l.clone(), r.clone()),
            _is_true_comparison("<", r.clone(), l.clone())
        );
        assert_eq!(
            _is_true_comparison(">=", l.clone(), r.clone()),
            _is_true_comparison("<=", r.clone(), l.clone())
        );
        assert_eq!(
            _is_true_comparison("<=", l.clone(), r.clone()),
            a == b || _is_true_comparison("<", l.clone(), r.clone())
        );
        assert_eq!(
            _is_true_comparison("=", l.clone(), r.clone()),
            _is_true_comparison("=", r.clone(), l.clone())
        );
    }
    assert!(_is_true_comparison("=", kw("nil"), kw("nil")));
    assert!(!_is_true_comparison("=", kw("nil"), num(0)));
    assert!(_is_true_comparison("<=", other("a"), other("a")));
}

#[test]
fn comparisons_in_the_repl() {
    let mut env = Env::new();
    assert_eq!(rep("(> 3 2)", &mut env), "true");
    assert_eq!(rep("(>= 2 3)", &mut env), "false");
    assert_eq!(rep("(< -1 0)", &mut env), "true");
    assert_eq!(rep("(= (1 2) (1 2))", &mut env), "true");
    assert_eq!(rep("(= :a :b)", &mut env), "false");
}

#[test]
fn truthiness_of_if() {
    assert!(!_is_true(kw("false")));
    assert!(!_is_true(kw("nil")));
    assert!(_is_true(kw("true")));
    assert!(!_is_true(num(0)));
    assert!(_is_true(num(-1)));
    assert!(!_is_true(other("")));
    assert!(!_is_true(other("\"\"")));
    assert!(_is_true(other("x")));
    assert!(!_is_true(Token::List(vec![])));
    assert!(_is_true(Token::List(vec![num(0)])));
}

#[test]
fn arithmetic_results() {
    let mut env = Env::new();
    assert_eq!(rep("(/ -7 2)", &mut env), "-3");
    assert_eq!(rep("(/ 7 -2)", &mut env), "-3");
    assert_eq!(rep("(- 5)", &mut env), "5");
    assert_eq!(rep("(- 10 1 2 3)", &mut env), "4");
    assert_eq!(rep("(** 2 30)", &mut env), "1073741824");
    assert_eq!(rep("(** -3 3)", &mut env), "-27");
    assert_eq!(rep("(** 1 -1)", &mut env), "1");
    assert_eq!(rep("(+ 2147483647 0)", &mut env), "2147483647");
}

#[test]
fn operator_results() {
    assert_eq!(apply_op_exec(&Op::Add, 2, 3), Some(5));
    assert_eq!(apply_op_exec(&Op::Sub, 2, 3), Some(-1));
    assert_eq!(apply_op_exec(&Op::Mul, -4, 3), Some(-12));
    assert_eq!(apply_op_exec(&Op::Div, -9, 4), Some(-2));
    assert_eq!(apply_op_exec(&Op::Div, 1, 0), None);
    assert_eq!(apply_op_exec(&Op::Div, i32::MIN, -1), None);
    assert_eq!(apply_op_exec(&Op::Add, i32::MAX, 1), None);
    assert_eq!(apply_op_exec(&Op::Sub, i32::MIN, 1), None);
    assert_eq!(apply_op_exec(&Op::Mul, 65536, 65536), None);
    assert_eq!(apply_op_exec(&Op::Pow, 2, 31), None);
    assert_eq!(apply_op_exec(&Op::Pow, -2, 31), Some(i32::MIN));
    assert_eq!(power_i32(0, 0), Some(1));
    assert_eq!(power_i32(-1, u32::MAX), Some(-1));
    assert_eq!(power_i32(3, 4), Some(81));
}

#[test]
fn failing_lines_are_refused_and_leave_the_environment() {
    let mut env = Env::new();
    rep("(def keep 1)", &mut env);
    for line in [
        "(+)",
        "(/ 1 0)",
        "(* 2147483647 2)",
        "(** 2 31)",
        "(< :a 1)",
        "(let (a) a)",
        "(let 5 a)",
        "(empty? 1)",
        "(if [1 2] 1 2)",
        "(+ [1 2 3] [4 5])",
        "(+ [1 2] [3 4 5])",
        "(+ 1 [2 :x])",
        "(/ [4 6] [2 0])",
        "(+ 1 (2 3))",
        "(+ 1 :x)",
        "((fn 5 1) 2)",
        "#",
        "(2147483648)",
    ] {
        assert_eq!(try_rep(line, &mut env), None, "{}", line);
    }
    assert_eq!(rep("keep", &mut env), "1");
}

#[test]
fn try_rep_agrees_with_rep() {
    let mut a = Env::new();
    let mut b = Env::new();
    for line in ["(def n 4)", "(list n 2)", "(count (1 2))", "(if (> n 3) :big :small)"] {
        assert_eq!(try_rep(line, &mut a), Some(rep(line, &mut b)));
    }
    assert_eq!(a.pairs(), b.pairs());
}

#[test]
fn prn_records_the_printed_text() {
    let mut env = Env::new();
    assert_eq!(rep("(prn 1 (2 3) :k)", &mut env), "nil");
    assert_eq!(rep("(prn 'x)", &mut env), "nil");
    assert_eq!(
        env.take_printed(),
        vec!["1 (2 3) :k".to_string(), "(quote x)".to_string()]
    );
    assert_eq!(env.take_printed(), Vec::<String>::new());
}

#[test]
fn printing_of_each_kind() {
    assert_eq!(pr_str(&[]), "");
    assert_eq!(pr_str(&[num(-12), num(0)]), "-12 0");
    assert_eq!(
        pr_str(&[Token::Vector(vec![num(1)]), Token::HashMap(vec![kw("nil")])]),
        "[1] {nil}"
    );
    assert_eq!(pr_str(&[Token::Symbol("+".to_string())]), "+");
    assert_eq!(pr_str(&[Token::UserKeyword(":k".to_string())]), ":k");
    assert_eq!(pr_str(&[Token::Closure(vec![], vec![])]), "#<function>");
    assert_eq!(pr_str(&[Token::Odd("`".to_string()), num(1)]), "(quasiquote 1)");
    assert_eq!(pr_str(&[Token::Odd("~@".to_string()), other("x")]), "(splice-unquote x)");
    assert_eq!(pr_str(&[Token::Odd("~".to_string()), other("x")]), "(unquote x)");
    assert_eq!(pr_str(&[Token::Error("bad".to_string())]), "Error: \"bad\"");
    assert_eq!(
        pr_str(&[Token::List(vec![Token::Odd("'".to_string()), num(1)])]),
        "((quote 1))"
    );
}

#[test]
fn quote_reads_and_prints() {
    let mut env = Env::new();
    assert_eq!(rep("('1)", &mut env), "((quote 1))");
}

#[test]
fn evaluation_of_single_tokens() {
    let mut env = Env::new();
    env.insert(other("a"), other("b"));
    env.insert(other("b"), num(9));
    assert_eq!(apply_sym_single(&other("a"), &mut env), num(9));
    assert_eq!(apply_sym_single(&other("zz"), &mut env), other("zz"));
    assert_eq!(apply_sym_single(&kw("true"), &mut env), kw("true"));
    assert_eq!(to_number(&other("a"), &mut env), 9);
    let mut ts = vec![num(1), num(2)];
    assert_eq!(_remove_or_nil(&mut ts), num(1));
    assert_eq!(_remove_or_nil(&mut ts), num(2));
    assert_eq!(_remove_or_nil(&mut ts), kw("nil"));
    assert!(ts.is_empty());
}

#[test]
fn partial_application_gives_a_closure() {
    let mut env = Env::new();
    assert_eq!(rep("((fn [a b] (+ a b)) 1)", &mut env), "#<function>");
    rep("(def inc (fn (a b) (+ a b)))", &mut env);
    rep("(def inc1 (inc 1))", &mut env);
    assert_eq!(rep("(inc1 41)", &mut env), "42");
}

#[test]
fn numbers_to_and_from_text() {
    assert_eq!(decimal_text(0), "0");
    assert_eq!(decimal_text(-2147483648), "-2147483648");
    assert_eq!(decimal_text(2147483647), "2147483647");
    assert_eq!(parse_i32_text("-0"), Some(0));
    assert_eq!(parse_i32_text("007"), Some(7));
    assert_eq!(parse_i32_text("-2147483649"), None);
    assert_eq!(parse_i32_text(""), None);
    assert_eq!(parse_i32_text("-"), None);
    assert_eq!(parse_i32_text("1a"), None);
}

#[test]
fn text_helpers() {
    assert_eq!(trim_text("  a b \t\n"), "a b");
    assert_eq!(trim_text("\u{3000}x\u{a0}"), "x");
    assert!(text_is("abc", "abc"));
    assert!(!text_is("abc", "ab"));
}

#[test]
fn group_evaluation_leaves_what_it_does_not_consume() {
    let mut env = Env::new();
    let mut ts = vec![Token::Symbol("+".to_string()), num(1), num(2)];
    assert_eq!(apply_sym_multi(&Token::List(vec![]), &mut ts, &mut env), num(3));
    assert_eq!(ts, vec![num(2)]);
    let mut ts = vec![num(1), num(2), num(3)];
    assert_eq!(
        apply_sym_multi(&Token::Vector(vec![]), &mut ts, &mut env),
        Token::Vector(vec![num(1), num(2), num(3)])
    );
    let mut ts = vec![];
    assert_eq!(apply_sym_multi(&Token::HashMap(vec![]), &mut ts, &mut env), Token::List(vec![]));
}

#[test]
fn keywords_and_comparisons_on_token_lists() {
    let mut env = Env::new();
    let mut ts = vec![other("x"), num(5), num(6)];
    assert_eq!(_process_keyword("def", &mut ts, &mut env), num(5));
    assert_eq!(ts, vec![num(6)]);
    assert_eq!(env.get(&other("x")), Some(num(5)));
    let mut ts = vec![num(1), num(2)];
    assert_eq!(_process_keyword("list", &mut ts, &mut env), Token::List(vec![num(1), num(2)]));
    assert!(ts.is_empty());
    let mut ts = vec![num(1), other("x"), num(3)];
    assert_eq!(_handle_comparison("<", &mut ts, &mut env), kw("true"));
    assert_eq!(ts, vec![num(3)]);
    let mut ts = vec![];
    assert_eq!(_handle_comparison("=", &mut ts, &mut env), kw("true"));
}

#[test]
fn vector_addition() {
    let mut env = Env::new();
    assert_eq!(rep("(+ 3 [4 5])", &mut env), "[7 8]");
    assert_eq!(rep("(+ [1 2] 1)", &mut env), "[2 3]");
    assert_eq!(rep("(+ [1 2] [10 20])", &mut env), "[11 22]");
    assert_eq!(rep("(* [1 2] [3 4] 2)", &mut env), "[6 16]");
    assert_eq!(rep("(- [5 6])", &mut env), "[5 6]");
    assert_eq!(rep("(+ 3 [4])", &mut env), "7");
    rep("(def v [1 2])", &mut env);
    assert_eq!(rep("(+ v v)", &mut env), "[2 4]");
}

#[test]
fn combining_values() {
    let v = |xs: Vec<i32>| Token::Vector(xs.into_iter().map(num).collect());
    assert_eq!(combine_values(&Op::Sub, &num(10), &v(vec![1, 2])), Some(v(vec![9, 8])));
    assert_eq!(combine_values(&Op::Sub, &v(vec![1, 2]), &num(10)), Some(v(vec![-9, -8])));
    assert_eq!(combine_values(&Op::Pow, &v(vec![2, 3]), &v(vec![3, 2])), Some(v(vec![8, 9])));
    assert_eq!(combine_values(&Op::Add, &v(vec![1]), &v(vec![1, 2])), None);
    assert_eq!(combine_values(&Op::Add, &num(i32::MAX), &v(vec![0, 1])), None);
    assert_eq!(combine_values(&Op::Add, &num(1), &Token::List(vec![num(1)])), None);
    assert!(operand_check(&num(1)));
    assert!(operand_check(&v(vec![])));
    assert!(!operand_check(&Token::Vector(vec![num(1), kw("nil")])));
    assert!(!operand_check(&Token::List(vec![num(1)])));
}
