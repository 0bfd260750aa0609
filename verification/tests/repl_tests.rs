use rust2::env::Env;
use rust2::eval::_is_true_comparison;
use rust2::repl::rep;
use rust2::token::Token;

#[test]
fn test_handle_comparison() {
    assert!(_is_true_comparison("<", Token::Number(5), Token::Number(8)));
    assert!(!_is_true_comparison(">", Token::Number(5), Token::Number(8)));
    assert!(_is_true_comparison("<=", Token::Number(5), Token::Number(8)));
    assert!(!_is_true_comparison(">=", Token::Number(5), Token::Number(8)));
    assert!(_is_true_comparison(">=", Token::Number(8), Token::Number(8)));
    assert!(_is_true_comparison("<=", Token::Number(8), Token::Number(8)));
    assert!(_is_true_comparison("=", Token::Number(8), Token::Number(8)));
    assert!(!_is_true_comparison("=", Token::Number(4), Token::Number(8)));
}

#[test]
fn test_no_input() {
    let mut enviro = Env::new();
    assert_eq!(rep("()", &mut enviro), "()");
    rep("", &mut enviro); // check it doesn't crash on nothing
}

#[test]
fn test_basic() {
    let mut enviro = Env::new();
    assert_eq!(rep("(*-3 6)", &mut enviro), "-18");
}

#[test]
fn test_rm_comma() {
    let mut enviro = Env::new();
    assert_eq!(rep("(1 2, 3,,,,),,", &mut enviro), "(1 2 3)");
}

#[test]
fn test_kw() {
    let mut enviro = Env::new();
    assert_eq!(rep("(:kw1 :kw2)", &mut enviro), "(:kw1 :kw2)");
}

#[test]
fn test_double_star() {
    let mut enviro = Env::new();
    assert_eq!(rep("(** 2 3)", &mut enviro), "8");
}

#[test]
fn test_basic_def() {
    let mut enviro = Env::new();
    assert_eq!(rep("(def! a 3)", &mut enviro), "3");
    assert_eq!(rep("a", &mut enviro), "3");
}

#[test]
fn test_complex_def() {
    let mut enviro = Env::new();
    assert_eq!(rep("(def! a (+4 5 (*2 3)))", &mut enviro), "15");
    assert_eq!(rep("a", &mut enviro), "15");
}

#[test]
fn test_let() {
    let mut enviro = Env::new();
    assert_eq!(rep("(let* (z 9) z)", &mut enviro), "9");
}

#[test]
fn test_complex_let() {
    let mut enviro = Env::new();
    assert_eq!(rep("(let* (p (+ 2 3) q (+ 2 p)) (+ p q))", &mut enviro), "12");
    assert_eq!(rep("(let* (a 5 b 6) [3 4 a [b 7] 8])", &mut enviro), "[3 4 5 [6 7] 8]");
}

#[test]
fn test_let_def_dont_fight() {
    let mut enviro = Env::new();
    assert_eq!(rep("(def z 9)", &mut enviro), "9");
    assert_eq!(rep("(let* (z 5) z)", &mut enviro), "5");
    assert_eq!(rep("z", &mut enviro), "9");
}

#[test]
fn test_list_quest_keyword() {
    let mut enviro = Env::new();
    assert_eq!(rep("(list? 1)", &mut enviro), "false");
    assert_eq!(rep("(list? ())", &mut enviro), "true");
}

#[test]
fn test_list_empty_keyword() {
    let mut enviro = Env::new();
    assert_eq!(rep("(empty? (2))", &mut enviro), "false");
    assert_eq!(rep("(empty? ())", &mut enviro), "true");
}

#[test]
fn test_count_keyword() {
    let mut enviro = Env::new();
    assert_eq!(rep("(count (1 2 3))", &mut enviro), "3");
}

#[test]
fn test_list_keyword() {
    let mut enviro = Env::new();
    assert_eq!(rep("(list 1 2 3)", &mut enviro), "(1 2 3)");
}

#[test]
fn test_if_keyword() {
    let mut enviro = Env::new();
    assert_eq!(rep("(if true 4 5)", &mut enviro), "4");
    assert_eq!(rep("(if false 4 5)", &mut enviro), "5");
}

#[test]
fn test_if_complex_keyword() {
    let mut enviro = Env::new();
    assert_eq!(rep("(if true (+2 4) (5))", &mut enviro), "6");
    assert_eq!(rep("(if 0 (+2 4) ())", &mut enviro), "()");
}

#[test]
fn test_basic_greater_less_thans() {
    let mut enviro = Env::new();
    assert_eq!(rep("(> 1 2)", &mut enviro), "false");
    assert_eq!(rep("(<= 2 2)", &mut enviro), "true");
}

#[test]
fn test_if_with_signs_and_defs() {
    let mut enviro = Env::new();
    assert_eq!(rep("(if (> 1 2) 3 4)", &mut enviro), "4");
    assert_eq!(rep("(def a 4)", &mut enviro), "4");
    assert_eq!(rep("(if (= a 4) 3 4)", &mut enviro), "3");
    assert_eq!(rep("(if (>a 2) 3 4)", &mut enviro), "3");
}

#[test]
fn test_fn() {
    let mut enviro = Env::new();
    assert_eq!(rep("( (fn* [a b] (+ a b)) 2 3)", &mut enviro), "5");
}

#[test]
fn test_closure_fn() {
    let mut enviro = Env::new();
    assert_eq!(rep("( ( (fn* (a) (fn* (b) (+ a b))) 5) 7)", &mut enviro), "12");
}

#[test]
fn test_func_in_a_func() {
    let mut enviro = Env::new();
    rep("(def adder (fn* [a b] (+ a b)))", &mut enviro);
    rep("(def add3 (adder 3))", &mut enviro);
    assert_eq!(rep("(add3 4)", &mut enviro), "7");
}

#[test]
fn test_recursive_fn() {
    let mut enviro = Env::new();
    rep("(def! sumdown (fn* (N) (if (> N 0) (+ N (sumdown  (- N 1))) 0)))", &mut enviro);
    assert_eq!(rep("(sumdown 4)", &mut enviro), "10");
}

#[test]
fn test_recursive_fib() {
    let mut enviro = Env::new();
    rep("(def! fib (fn* (a) (if (<= a 1) 1 (+ (fib(- a 1)) (fib(- a 2))) )))", &mut enviro);
    assert_eq!(rep("(fib 5)", &mut enviro), "8");
}
