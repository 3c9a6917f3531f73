use exprlang::atom::Atom;
use exprlang::lexer::{is_f64, is_valid_symbol, str_to_token, Lexer, Token};
use exprlang::parser::ParseError;
use exprlang::tokenizer::tokenize;

fn setup(s: &str) -> Vec<Token> {
    let tokens = tokenize(s).expect("Error in tokenizing input");
    let mut lexer = Lexer::new(tokens);
    let tokens = lexer.all();
    tokens
}

fn raw(items: &[&str]) -> Vec<String> {
    items.iter().map(|s| s.to_string()).collect()
}

#[test]
fn brackets_and_symbols() {
    let tokens = setup("( hello ) mate");
    let ans = vec![
        Token::LParen,
        Token::Symbol("hello".to_string()),
        Token::RParen,
        Token::Symbol("mate".to_string()),
    ];
    assert_eq!(ans, tokens);
}

#[test]
fn assigment() {
    let tokens = setup("x = 100");
    let ans = vec![
        Token::Symbol("x".to_string()),
        Token::Assign,
        Token::Float("100".to_string()),
    ];
    assert_eq!(ans, tokens);
    match &tokens[2] {
        Token::Float(text) => assert_eq!(text.parse::<f64>().unwrap(), 100.0),
        other => panic!("no number: {:?}", other),
    }
}

#[test]
fn lexer_equals() {
    let tokens = setup("x != y");
    let ans = vec![
        Token::Symbol("x".to_string()),
        Token::NotEqual,
        Token::Symbol("y".to_string()),
    ];
    assert_eq!(ans, tokens);
}

#[test]
fn if_else_block() {
    let s = "if x > y then\n    x\nelse\n    y\nend\n";
    let tokens = setup(s);
    let ans = vec![
        Token::If,
        Token::Symbol("x".to_string()),
        Token::GreaterThan,
        Token::Symbol("y".to_string()),
        Token::Then,
        Token::Symbol("x".to_string()),
        Token::Else,
        Token::Symbol("y".to_string()),
        Token::End,
    ];
    assert_eq!(ans, tokens);
}

#[test]
fn elseif_block() {
    let s = "if x > y then\n    x\nelseif y > x then\n    y\nend\n";
    let tokens = setup(s);
    let ans = vec![
        Token::If,
        Token::Symbol("x".to_string()),
        Token::GreaterThan,
        Token::Symbol("y".to_string()),
        Token::Then,
        Token::Symbol("x".to_string()),
        Token::ElseIf,
        Token::Symbol("y".to_string()),
        Token::GreaterThan,
        Token::Symbol("x".to_string()),
        Token::Then,
        Token::Symbol("y".to_string()),
        Token::End,
    ];
    assert_eq!(ans, tokens);
}

#[test]
fn every_operator_and_keyword_has_its_token() {
    let pairs = vec![
        ("+", Token::Plus),
        ("-", Token::Minus),
        ("/", Token::Divide),
        ("*", Token::Multiply),
        ("^", Token::Power),
        ("!", Token::Not),
        ("<", Token::LessThan),
        (">", Token::GreaterThan),
        ("=", Token::Assign),
        ("==", Token::Equal),
        ("!=", Token::NotEqual),
        ("(", Token::LParen),
        (")", Token::RParen),
        ("if", Token::If),
        ("then", Token::Then),
        ("else", Token::Else),
        ("elseif", Token::ElseIf),
        ("end", Token::End),
        ("\n", Token::NewLine),
        ("false", Token::False),
        ("true", Token::True),
    ];
    for (text, token) in pairs {
        assert_eq!(str_to_token(text), token);
    }
}

#[test]
fn numbers_names_and_unknown_tokens() {
    assert_eq!(str_to_token("42"), Token::Float("42".to_string()));
    assert_eq!(str_to_token("inf"), Token::Float("inf".to_string()));
    assert_eq!(str_to_token("NaN"), Token::Float("NaN".to_string()));
    assert_eq!(str_to_token("hello"), Token::Symbol("hello".to_string()));
    assert_eq!(str_to_token("If"), Token::Symbol("If".to_string()));
    assert_eq!(str_to_token("\u{3b1}\u{3b2}"), Token::Symbol("\u{3b1}\u{3b2}".to_string()));
    assert_eq!(str_to_token(""), Token::Symbol("".to_string()));
    assert_eq!(str_to_token("x1"), Token::UnknownToken("x1".to_string()));
    assert_eq!(str_to_token("["), Token::UnknownToken("[".to_string()));
    assert_eq!(str_to_token("<="), Token::UnknownToken("<=".to_string()));
}

#[test]
fn number_literals_are_those_that_parse_as_floats() {
    let samples = [
        "0", "7", "007", "3.14", "-3.14", "+3.14", "2.5E10", "2.5e10", "2.5E-10", "2.5e+3", "5.",
        ".5", "-.5", "1.e5", "inf", "-inf", "+infinity", "Infinity", "INF", "NaN", "nan", "-nan",
        "", "+", "-", ".", "e", "e5", "1e", "1e+", "1e-", ".e5", "1..2", "1.2.3", "1 ", " 1", "1_0",
        "0x10", "infinit", "infinityy", "in", "na", "nano", "1f", "1e5.0", "--1", "+-1", "1e5e5",
        "\u{0661}", "1\u{e9}", "١٢٣", "1E5", "1E", "9999999999999999999999999", "1e999", "i", "ınf",
        "İnf", "\u{212a}", "1.", "1.e", "12e3", "12.e+3", ".e", "+.", "+.e1", "+.1e1", "+inf ",
    ];
    for text in samples {
        assert_eq!(is_f64(text), text.parse::<f64>().is_ok(), "literal {:?}", text);
    }
}

#[test]
fn names_are_made_of_letters_only() {
    assert!(is_valid_symbol("abc"));
    assert!(is_valid_symbol("Größe"));
    assert!(is_valid_symbol(""));
    assert!(!is_valid_symbol("a1"));
    assert!(!is_valid_symbol("a_b"));
    assert!(!is_valid_symbol("a b"));
}

#[test]
fn precedence_table() {
    assert_eq!(Token::Equal.precedence(), 5);
    assert_eq!(Token::NotEqual.precedence(), 5);
    assert_eq!(Token::GreaterThan.precedence(), 10);
    assert_eq!(Token::LessThan.precedence(), 10);
    assert_eq!(Token::Plus.precedence(), 20);
    assert_eq!(Token::Minus.precedence(), 20);
    assert_eq!(Token::Multiply.precedence(), 30);
    assert_eq!(Token::Divide.precedence(), 30);
    assert_eq!(Token::Power.precedence(), 40);
    assert_eq!(Token::Assign.precedence(), 50);
    assert_eq!(Token::Not.precedence(), 0);
    assert_eq!(Token::LParen.precedence(), 0);
    assert_eq!(Token::EOF.precedence(), 0);
    assert_eq!(Token::Symbol("x".to_string()).precedence(), 0);
    assert_eq!(Token::Float("1".to_string()).precedence(), 0);
}

#[test]
fn peek_looks_ahead_without_reading() {
    let lexer = Lexer::new(raw(&["x", "=", "1"]));
    assert_eq!(lexer.peek(0), Token::Symbol("x".to_string()));
    assert_eq!(lexer.peek(1), Token::Assign);
    assert_eq!(lexer.peek(2), Token::Float("1".to_string()));
    assert_eq!(lexer.peek(3), Token::EOF);
    assert_eq!(lexer.peek(usize::MAX), Token::EOF);
    assert_eq!(lexer.peek(0), Token::Symbol("x".to_string()));
}

#[test]
fn next_reads_and_moves_on() {
    let mut lexer = Lexer::new(raw(&["x", "+", "y"]));
    assert_eq!(lexer.next(), Token::Symbol("x".to_string()));
    assert_eq!(lexer.peek(0), Token::Plus);
    assert_eq!(lexer.next(), Token::Plus);
    assert_eq!(lexer.next(), Token::Symbol("y".to_string()));
    assert_eq!(lexer.next(), Token::EOF);
    assert_eq!(lexer.next(), Token::EOF);
}

#[test]
fn line_breaks_are_stepped_over() {
    let mut lexer = Lexer::new(raw(&["\n", "x", "\n", "\n", "y", "\n"]));
    assert_eq!(lexer.peek(0), Token::Symbol("x".to_string()));
    assert_eq!(lexer.peek(2), Token::Symbol("y".to_string()));
    assert_eq!(lexer.all(), vec![Token::Symbol("x".to_string()), Token::Symbol("y".to_string())]);
    assert_eq!(lexer.next(), Token::EOF);
}

#[test]
fn two_signs_fuse_into_one_operator() {
    let mut lexer = Lexer::new(raw(&["x", "=", "=", "y"]));
    assert_eq!(lexer.next(), Token::Symbol("x".to_string()));
    assert_eq!(lexer.peek(0), Token::Assign);
    assert_eq!(lexer.next(), Token::Equal);
    assert_eq!(lexer.next(), Token::Symbol("y".to_string()));

    let mut lexer = Lexer::new(raw(&["x", "!", "=", "y"]));
    assert_eq!(
        lexer.all(),
        vec![Token::Symbol("x".to_string()), Token::NotEqual, Token::Symbol("y".to_string())]
    );

    let mut lexer = Lexer::new(raw(&["=", "=", "="]));
    assert_eq!(lexer.all(), vec![Token::Equal, Token::Assign]);
}

#[test]
fn expect_compares_kinds_only() {
    let mut lexer = Lexer::new(raw(&["x", "12", ")", "then"]));
    assert_eq!(
        lexer.expect(&Token::Symbol("other".to_string())),
        Ok(Token::Symbol("x".to_string()))
    );
    assert_eq!(lexer.expect(&Token::Float("0".to_string())), Ok(Token::Float("12".to_string())));
    assert_eq!(lexer.expect(&Token::RParen), Ok(Token::RParen));
    assert_eq!(lexer.expect(&Token::End), Err(ParseError::UnexpectedToken));
    assert_eq!(lexer.expect(&Token::EOF), Ok(Token::EOF));
    assert_eq!(lexer.expect(&Token::Then), Err(ParseError::UnexpectedToken));
}

#[test]
fn to_atom_of_operators_and_literals() {
    assert_eq!(Token::Plus.to_atom(), Some(Atom::Plus));
    assert_eq!(Token::Minus.to_atom(), Some(Atom::Minus));
    assert_eq!(Token::Float("2".to_string()).to_atom(), Some(Atom::Float("2".to_string())));
    assert_eq!(Token::NotEqual.to_atom(), Some(Atom::NotEqual));
    assert_eq!(Token::Symbol("x".to_string()).to_atom(), None);
    assert_eq!(Token::If.to_atom(), None);
    assert_eq!(Token::EOF.to_atom(), None);
}

#[test]
fn lexing_twice_gives_the_same_tokens() {
    let text = "if x > 5 then y = 2 elseif x == 3 then y = 4 else y = 0 end";
    assert_eq!(setup(text), setup(text));
}
