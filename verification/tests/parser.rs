use exprlang::atom::{Atom, Node, AST};
use exprlang::lexer::Lexer;
use exprlang::parser::{ParseError, Parser};
use exprlang::tokenizer::tokenize;

fn num(text: &str) -> AST {
    AST::Atom(Atom::Float(text.to_string()))
}

fn sym(name: &str) -> AST {
    AST::Atom(Atom::Symbol(name.to_string()))
}

fn node(head: Atom, tail: Vec<AST>) -> AST {
    AST::Node(Node { head, tail })
}

fn parse(s: &str) -> Result<AST, ParseError> {
    let tokens = tokenize(s).unwrap();
    Parser::new(Lexer::new(tokens)).parse()
}

fn parse_raw(items: &[&str]) -> Result<AST, ParseError> {
    let tokens: Vec<String> = items.iter().map(|s| s.to_string()).collect();
    Parser::new(Lexer::new(tokens)).parse()
}

fn parse_block(s: &str) -> Result<AST, ParseError> {
    let tokens = tokenize(s).unwrap();
    Parser::new(Lexer::new(tokens)).parse_block()
}

#[test]
fn plus() {
    let tokens = tokenize("1 + 2").unwrap();
    let lexer = Lexer::new(tokens);
    let mut parser = Parser::new(lexer);

    let result = parser.parse().unwrap();
    let ans = AST::Node(Node {
        head: Atom::Plus,
        tail: vec![AST::Atom(Atom::Float("1".to_string())), AST::Atom(Atom::Float("2".to_string()))],
    });
    assert_eq!(result, ans);
}

#[test]
fn muti() {
    let tokens = tokenize("3 + 2 * 10").unwrap();
    let lexer = Lexer::new(tokens);
    let mut parser = Parser::new(lexer);

    let result = parser.parse().unwrap();
    let n1 = AST::Node(Node {
        head: Atom::Multiply,
        tail: vec![AST::Atom(Atom::Float("2".to_string())), AST::Atom(Atom::Float("10".to_string()))],
    });

    let n2 = AST::Node(Node {
        head: Atom::Plus,
        tail: vec![AST::Atom(Atom::Float("3".to_string())), n1],
    });

    assert_eq!(result, n2);
}

#[test]
fn parser_power() {
    let tokens = tokenize("3 ^ 2 * 10").unwrap();
    let lexer = Lexer::new(tokens);
    let mut parser = Parser::new(lexer);

    let result = parser.parse().unwrap();
    let n1 = AST::Node(Node {
        head: Atom::Power,
        tail: vec![AST::Atom(Atom::Float("3".to_string())), AST::Atom(Atom::Float("2".to_string()))],
    });

    let n2 = AST::Node(Node {
        head: Atom::Multiply,
        tail: vec![n1, AST::Atom(Atom::Float("10".to_string()))],
    });

    assert_eq!(result, n2);
}

#[test]
fn parser_brackets() {
    let tokens = tokenize("3 ^ (2 * 10)").unwrap();
    let lexer = Lexer::new(tokens);
    let mut parser = Parser::new(lexer);

    let result = parser.parse().unwrap();
    let n1 = AST::Node(Node {
        head: Atom::Multiply,
        tail: vec![AST::Atom(Atom::Float("2".to_string())), AST::Atom(Atom::Float("10".to_string()))],
    });

    let n2 = AST::Node(Node {
        head: Atom::Power,
        tail: vec![AST::Atom(Atom::Float("3".to_string())), n1],
    });

    assert_eq!(result, n2);
}

#[test]
fn parser_assignment() {
    let tokens = tokenize("x = 10").unwrap();
    let lexer = Lexer::new(tokens);
    let mut parser = Parser::new(lexer);

    let result = parser.parse().unwrap();
    let ans = AST::Node(Node {
        head: Atom::Assign,
        tail: vec![
            AST::Atom(Atom::Symbol("x".to_string())),
            AST::Atom(Atom::Float("10".to_string())),
        ],
    });

    assert_eq!(result, ans);
}

#[test]
fn parser_equals() {
    let tokens = tokenize("x == 10").unwrap();
    let mut listing = Lexer::new(tokens.clone());
    println!("LEXER: {:?}", listing.all());
    let lexer = Lexer::new(tokens);
    let mut parser = Parser::new(lexer);

    let result = parser.parse().unwrap();
    let ans = AST::Node(Node {
        head: Atom::Equal,
        tail: vec![
            AST::Atom(Atom::Symbol("x".to_string())),
            AST::Atom(Atom::Float("10".to_string())),
        ],
    });

    assert_eq!(result, ans);
}

#[test]
fn not_equals() {
    let tokens = tokenize("x != 10").unwrap();
    let lexer = Lexer::new(tokens);
    let mut parser = Parser::new(lexer);

    let result = parser.parse().unwrap();
    let ans = AST::Node(Node {
        head: Atom::NotEqual,
        tail: vec![
            AST::Atom(Atom::Symbol("x".to_string())),
            AST::Atom(Atom::Float("10".to_string())),
        ],
    });

    assert_eq!(result, ans);
}

#[test]
fn parse_block_simple() {
    let s = "y = 5\ny * 8\n";

    let tokens = tokenize(s).unwrap();
    let lexer = Lexer::new(tokens);
    let mut parser = Parser::new(lexer);

    let n1 = AST::Node(Node {
        head: Atom::Assign,
        tail: vec![
            AST::Atom(Atom::Symbol("y".to_string())),
            AST::Atom(Atom::Float("5".to_string())),
        ],
    });

    let n2 = AST::Node(Node {
        head: Atom::Multiply,
        tail: vec![
            AST::Atom(Atom::Symbol("y".to_string())),
            AST::Atom(Atom::Float("8".to_string())),
        ],
    });

    let result = parser.parse_block().unwrap();
    let ans = AST::Node(Node {
        head: Atom::Block,
        tail: vec![n1, n2],
    });

    assert_eq!(result, ans);
}

#[test]
fn power_groups_to_the_right() {
    let inner = node(Atom::Power, vec![num("3"), num("2")]);
    assert_eq!(parse("2 ^ 3 ^ 2"), Ok(node(Atom::Power, vec![num("2"), inner])));
}

#[test]
fn other_operators_group_to_the_left() {
    let inner = node(Atom::Plus, vec![num("1"), num("2")]);
    assert_eq!(parse("1 + 2 + 3"), Ok(node(Atom::Plus, vec![inner, num("3")])));
    let inner = node(Atom::Divide, vec![num("8"), num("4")]);
    assert_eq!(parse("8 / 4 / 2"), Ok(node(Atom::Divide, vec![inner, num("2")])));
}

#[test]
fn binary_minus_makes_a_minus_node() {
    assert_eq!(parse_raw(&["5", "-", "3"]), Ok(node(Atom::Minus, vec![num("5"), num("3")])));
}

#[test]
fn comparison_binds_looser_than_arithmetic() {
    let left = node(Atom::Plus, vec![num("1"), num("2")]);
    let right = node(Atom::Multiply, vec![num("3"), num("4")]);
    assert_eq!(parse("1 + 2 > 3 * 4"), Ok(node(Atom::GreaterThan, vec![left, right])));
    let less = node(Atom::LessThan, vec![sym("a"), sym("b")]);
    assert_eq!(parse("a < b == c"), Ok(node(Atom::Equal, vec![less, sym("c")])));
}

#[test]
fn assignment_takes_one_operand_only() {
    // The assignment sign binds tightest of all, so its right operand ends at the next operator.
    let assign = node(Atom::Assign, vec![sym("x"), num("1")]);
    assert_eq!(parse("x = 1 + 2"), Ok(node(Atom::Plus, vec![assign, num("2")])));
}

#[test]
fn unary_signs() {
    assert_eq!(parse("+ 5"), Ok(num("5")));
    assert_eq!(
        parse_raw(&["-", "5"]),
        Ok(node(Atom::Symbol("-".to_string()), vec![num("5")]))
    );
    // A unary sign takes what binds tighter than a sum.
    let product = node(Atom::Multiply, vec![num("2"), num("3")]);
    let negated = node(Atom::Symbol("-".to_string()), vec![product]);
    assert_eq!(
        parse_raw(&["-", "2", "*", "3", "+", "1"]),
        Ok(node(Atom::Plus, vec![negated, num("1")]))
    );
}

#[test]
fn leaves() {
    assert_eq!(parse("true"), Ok(AST::Atom(Atom::True)));
    assert_eq!(parse("false"), Ok(AST::Atom(Atom::False)));
    assert_eq!(parse("x"), Ok(sym("x")));
    assert_eq!(parse("12"), Ok(num("12")));
    assert_eq!(parse("((x))"), Ok(sym("x")));
}

#[test]
fn conditionals() {
    let test = node(Atom::GreaterThan, vec![sym("x"), num("5")]);
    let body = node(Atom::Block, vec![node(Atom::Assign, vec![sym("y"), num("2")])]);
    assert_eq!(
        parse("if x > 5 then y = 2 end"),
        Ok(node(Atom::If, vec![test, body, AST::Atom(Atom::Nothing)]))
    );

    let inner = node(
        Atom::ElseIf,
        vec![AST::Atom(Atom::True), node(Atom::Block, vec![num("20")]), AST::Atom(Atom::Nothing)],
    );
    assert_eq!(
        parse("if false then 10 elseif true then 20 end"),
        Ok(node(
            Atom::If,
            vec![AST::Atom(Atom::False), node(Atom::Block, vec![num("10")]), inner]
        ))
    );

    let last = node(Atom::Block, vec![num("30")]);
    let inner = node(
        Atom::ElseIf,
        vec![AST::Atom(Atom::False), node(Atom::Block, vec![num("20")]), last],
    );
    assert_eq!(
        parse("if false then 10 elseif false then 20 else 30 end"),
        Ok(node(
            Atom::If,
            vec![AST::Atom(Atom::False), node(Atom::Block, vec![num("10")]), inner]
        ))
    );
}

#[test]
fn blocks_end_at_the_closing_keywords() {
    assert_eq!(parse_block(""), Ok(node(Atom::Block, vec![])));
    assert_eq!(parse_block("end x"), Ok(node(Atom::Block, vec![])));
    assert_eq!(parse_block("x y else z"), Ok(node(Atom::Block, vec![sym("x"), sym("y")])));
}

#[test]
fn the_cursor_stays_behind_what_was_parsed() {
    let tokens = tokenize("1 + 2 x").unwrap();
    let mut parser = Parser::new(Lexer::new(tokens));
    assert_eq!(parser.parse(), Ok(node(Atom::Plus, vec![num("1"), num("2")])));
    assert_eq!(parser.parse(), Ok(sym("x")));
    assert_eq!(parser.parse(), Err(ParseError::NoPrefixRule));
}

#[test]
fn malformed_programs_fail() {
    assert_eq!(parse(""), Err(ParseError::NoPrefixRule));
    assert_eq!(parse("1 +"), Err(ParseError::NoPrefixRule));
    assert_eq!(parse("* 2"), Err(ParseError::NoPrefixRule));
    assert_eq!(parse(")"), Err(ParseError::NoPrefixRule));
    assert_eq!(parse("then"), Err(ParseError::NoPrefixRule));
    assert_eq!(parse("end"), Err(ParseError::NoPrefixRule));
    assert_eq!(parse("["), Err(ParseError::NoPrefixRule));
    assert_eq!(parse("(1 + 2"), Err(ParseError::UnexpectedToken));
    assert_eq!(parse("(1 2)"), Err(ParseError::UnexpectedToken));
    assert_eq!(parse("if x 1 end"), Err(ParseError::UnexpectedToken));
    assert_eq!(parse("if x then 1 )"), Err(ParseError::NoPrefixRule));
    assert_eq!(parse("if x then 1"), Err(ParseError::UnclosedIf));
    assert_eq!(parse("if x then 1 else 2"), Err(ParseError::UnexpectedToken));
    assert_eq!(parse("else 1"), Err(ParseError::UnexpectedToken));
}

#[test]
fn parsing_twice_gives_the_same_tree() {
    let text = "if x > 5 then y = 2 ^ 3 ^ 2 else y = (1 + 2) * 3 end";
    assert_eq!(parse(text), parse(text));
}
