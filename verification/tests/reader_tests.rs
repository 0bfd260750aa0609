use rust2::reader::{
    atom_from_matches, first_match_of, read_atom, read_atom_text, read_str, text_after, tokenizer,
    tokenize_checked, try_read_str, Reader,
};
use rust2::token::Token;

fn texts(s: &str) -> Vec<String> {
    tokenizer(s).tokens()
}

#[test]
fn test_tokenizer() {
    assert_eq!(texts("34"), vec!["34"]);
    assert_eq!(texts("34,4"), vec!["34", "4"]);
    assert_eq!(texts("* 34 -4"), vec!["*", "34", "-4"]);
    assert_eq!(texts("*-34 4"), vec!["*", "-34", "4"]);
    assert_eq!(texts("/ 4 1"), vec!["/", "4", "1"]);
    assert_eq!(texts("** 1 2"), vec!["**", "1", "2"]);
    assert_eq!(texts(":kw"), vec![":kw"]);
    assert_eq!(texts("(1 2, 3,,,,),,"), vec!["(", "1", "2", "3", ")"]);
    assert_eq!(texts("abc"), vec!["abc"]);
    assert_eq!(texts("\"abc (hi)\""), vec!["\"abc (hi)\""]);
    assert_eq!(
        texts("\"with \\\" a quote in\""),
        vec!["\"with \\\" a quote in\""]
    );
    assert_eq!(texts("'1"), vec!["'", "1"]);
    assert_eq!(texts("`(1 2)"), vec!["`", "(", "1", "2", ")"]);
    assert_eq!(texts("1 ;some comment"), vec!["1"]);
    assert_eq!(texts("def! sd 3"), vec!["def!", "sd", "3"]);
}

fn atom_helper(s: &str) -> Reader {
    Reader::new(vec![s.to_string()])
}

#[test]
fn test_read_atom() {
    assert_eq!(
        read_atom(&mut atom_helper(":hell33o ")),
        Token::UserKeyword(":hell33o".to_string())
    );
    assert_eq!(read_atom(&mut atom_helper("-898")), Token::Number(-898));
    assert_eq!(read_atom(&mut atom_helper("`")), Token::Odd("`".to_string()));
}

#[test]
fn reader_moves_past_what_it_reads() {
    let mut r = atom_helper(" def! ");
    assert_eq!(r.position(), 0);
    assert_eq!(r.peek(), Some("def!".to_string()));
    assert_eq!(read_atom(&mut r), Token::Keyword("def".to_string()));
    assert_eq!(r.position(), 1);
    assert_eq!(r.peek(), None);
    assert_eq!(r.next(), None);
}

#[test]
fn atoms_of_each_kind() {
    assert_eq!(read_atom_text("let*"), Some(Token::Keyword("let".to_string())));
    assert_eq!(read_atom_text("fn*"), Some(Token::Keyword("fn".to_string())));
    assert_eq!(read_atom_text("**"), Some(Token::Symbol("**".to_string())));
    assert_eq!(read_atom_text(">="), Some(Token::Keyword(">=".to_string())));
    assert_eq!(read_atom_text("abc"), Some(Token::Other("abc".to_string())));
    assert_eq!(read_atom_text("~@"), Some(Token::Odd("~@".to_string())));
    assert_eq!(read_atom_text("a:b1c"), Some(Token::UserKeyword(":b1c".to_string())));
    assert_eq!(read_atom_text("2147483647"), Some(Token::Number(2147483647)));
    assert_eq!(read_atom_text("-2147483648"), Some(Token::Number(-2147483648)));
}

#[test]
fn number_out_of_range_is_refused() {
    assert_eq!(read_atom_text("2147483648"), None);
}

#[test]
fn tokenizer_that_would_never_end_is_refused() {
    assert_eq!(tokenize_checked("#"), None);
    assert_eq!(try_read_str("#"), None);
}

#[test]
fn empty_and_blank_text_have_no_tokens() {
    assert_eq!(texts(""), Vec::<String>::new());
    assert_eq!(texts(" ,, \t"), Vec::<String>::new());
    assert_eq!(texts("; only a comment"), Vec::<String>::new());
}

#[test]
fn nested_forms_are_read() {
    assert_eq!(
        read_str("(1 [2 {3}])"),
        vec![Token::List(vec![
            Token::Number(1),
            Token::Vector(vec![
                Token::Number(2),
                Token::HashMap(vec![Token::Number(3)])
            ])
        ])]
    );
}

#[test]
fn unclosed_form_reads_to_the_end() {
    assert_eq!(
        read_str("(1 2"),
        vec![Token::List(vec![Token::Number(1), Token::Number(2)])]
    );
}

#[test]
fn stray_closer_at_top_level_is_an_atom() {
    assert_eq!(
        read_str("1 ) 2"),
        vec![Token::Number(1), Token::Other(")".to_string()), Token::Number(2)]
    );
}

#[test]
fn cloned_reader_reads_on_its_own() {
    let mut r = tokenizer("(1 2)");
    r.next();
    let mut c = r.clone();
    assert_eq!(c.position(), 1);
    assert_eq!(c.next(), Some("1".to_string()));
    assert_eq!(r.peek(), Some("1".to_string()));
    assert_eq!(c.tokens(), r.tokens());
    assert_eq!(r.len(), 4);
}

fn some(s: &str) -> Option<String> {
    Some(s.to_string())
}

fn split(a: &str, b: &str) -> Option<(String, String)> {
    Some((a.to_string(), b.to_string()))
}

#[test]
fn atoms_from_given_matches() {
    assert_eq!(atom_from_matches("def!", some("'"), None, None), Some(Token::Keyword("def".to_string())));
    assert_eq!(atom_from_matches("a'b", some("'"), some(":x"), None), Some(Token::Odd("'".to_string())));
    assert_eq!(atom_from_matches("a:x", None, some(":x"), some("1")), Some(Token::UserKeyword(":x".to_string())));
    assert_eq!(atom_from_matches("-12", None, None, some("-12")), Some(Token::Number(-12)));
    assert_eq!(atom_from_matches("99999999999", None, None, some("99999999999")), None);
    assert_eq!(atom_from_matches("**", None, None, None), Some(Token::Symbol("**".to_string())));
    assert_eq!(atom_from_matches("<=", None, None, None), Some(Token::Keyword("<=".to_string())));
    assert_eq!(atom_from_matches("abc", None, None, None), Some(Token::Other("abc".to_string())));
}

#[test]
fn first_of_the_pattern_results() {
    assert_eq!(
        first_match_of(None, split("(", "1)"), split("x", ""), None, None, None, split("y", "")),
        split("(", "1)")
    );
    assert_eq!(
        first_match_of(None, None, None, None, None, None, split("abc", " d")),
        split("abc", " d")
    );
    assert_eq!(first_match_of(None, None, None, None, None, None, None), None);
    assert_eq!(text_after("; note", split("; note", "")), "");
    assert_eq!(text_after("1 2", None), "1 2");
}
