use lox::ast_printer::AstPrinter;
use lox::number::{Cmp, NumOp, NumOut};
use lox::parser::{FunctionKind, ParseNote, Parser, ParsingError};
use lox::scanner::{scan, ScannedToken};
use lox::syntax_trees::{
    BinaryOperator, Expression, LiteralValue, LogicalOperator, Statement, UnaryOperator,
};
use lox::text::SmartString;
use lox::token::{Identifier, Operator, Token, TokenDiscriminant};

fn numbers(op: NumOp) -> NumOut {
    let f = f64::from_bits;
    match op {
        NumOp::Parse(lexeme) => match lexeme.as_str().parse::<f64>() {
            Ok(x) => NumOut::Number(x.to_bits()),
            Err(_) => NumOut::Order(None),
        },
        NumOp::Negate(x) => NumOut::Number((-f(x)).to_bits()),
        NumOp::Add(x, y) => NumOut::Number((f(x) + f(y)).to_bits()),
        NumOp::Subtract(x, y) => NumOut::Number((f(x) - f(y)).to_bits()),
        NumOp::Multiply(x, y) => NumOut::Number((f(x) * f(y)).to_bits()),
        NumOp::Divide(x, y) => NumOut::Number((f(x) / f(y)).to_bits()),
        NumOp::Compare(x, y) => NumOut::Order(if f(x) < f(y) {
            Some(Cmp::Less)
        } else if f(x) > f(y) {
            Some(Cmp::Greater)
        } else if f(x) == f(y) {
            Some(Cmp::Equal)
        } else {
            None
        }),
        NumOp::Show(x) => NumOut::Text(SmartString::from(format!("{}", f(x)).as_str())),
    }
}

fn parse(source: &str) -> Result<Vec<Statement>, ParsingError> {
    Parser::new(scan(source).unwrap()).parse()
}

fn texts(source: &str) -> Vec<String> {
    parse(source).unwrap().iter().map(|s| s.text(&numbers)).collect()
}

#[test]
fn expressions_parse_with_precedence() {
    assert_eq!(texts("1 + 2 * 3;"), vec!["(1+(2*3))"]);
    assert_eq!(texts("(1 + 2) * 3;"), vec!["(((1+2))*3)"]);
    assert_eq!(texts("-a - !b;"), vec!["((-(a))-(!(b)))"]);
    assert_eq!(texts("a = b = 1;"), vec!["(a = (b = 1))"]);
    assert_eq!(texts("f(1, 2)(3);"), vec!["(f)(1,2)(3)"]);
}

#[test]
fn statements_parse() {
    assert_eq!(texts("print 1;"), vec!["print 1"]);
    assert_eq!(texts("var x = 2.50;"), vec!["var x = 2.5"]);
    assert_eq!(texts("var y;"), vec!["var y"]);
    assert_eq!(texts("while (x) print x;"), vec!["while (x) {print (x)}"]);
    assert_eq!(texts("if (x) print 1;"), vec!["if (x) {\nprint 1\n}"]);
    assert_eq!(texts("{ print 1; }"), vec!["{print 1\n}"]);
    assert_eq!(texts("fun f() { return 1; }"), vec!["f(){return 1\n}"]);
}

#[test]
fn parse_errors() {
    assert_eq!(parse("print 1").unwrap_err(), ParsingError::NoSemi);
    assert_eq!(parse("1 = 2;").unwrap_err(), ParsingError::InvalidAssignment);
    assert_eq!(parse("{ print 1;").unwrap_err(), ParsingError::UntermBrace);
    assert_eq!(parse("(1;").unwrap_err(), ParsingError::UntermParen);
    assert_eq!(parse("fun (").unwrap_err(), ParsingError::NoIdentifier);
    assert_eq!(parse("fun f {}").unwrap_err(), ParsingError::FnParenOpen(FunctionKind::Function));
}

#[test]
fn parsing_goes_on_after_an_error() {
    // The last error met is the one returned, though every declaration is
    // parsed.
    assert_eq!(parse("print ; print 1").unwrap_err(), ParsingError::NoSemi);
}

#[test]
fn parsing_error_messages() {
    let mut text = String::new();
    ParsingError::FnNoBraceOpen(FunctionKind::Method).write_message(&mut text);
    assert_eq!(text, "Expected '{' before method body");
    assert_eq!(FunctionKind::Function.word(), "function");
}

#[test]
fn ast_printer_prints_prefix_form() {
    let expr = Expression::Binary {
        left: Box::new(Expression::Unary {
            operator: UnaryOperator::MINUS,
            inner: Box::new(Expression::Literal(LiteralValue::Float(SmartString::from("123")))),
        }),
        operator: BinaryOperator::STAR(1),
        right: Box::new(Expression::Grouping(Box::new(Expression::Literal(
            LiteralValue::Float(SmartString::from("45.67")),
        )))),
    };
    let mut printer = AstPrinter::new();
    assert_eq!(printer.print(expr, &numbers), "(* (- 123) (group 45.67))");
    let logical = Expression::Logical {
        left: Box::new(Expression::Literal(LiteralValue::Bool(true))),
        operator: LogicalOperator::OR,
        right: Box::new(Expression::Literal(LiteralValue::Nil)),
    };
    assert_eq!(printer.print(logical, &numbers), "(or true nil)");
    assert_eq!(Expression::nil().text(&numbers), "nil");
}

#[test]
fn operators_from_tokens() {
    let t = ScannedToken::new(Token::LESS, 4);
    assert_eq!(BinaryOperator::from_token(t), Some(BinaryOperator::LESS(4)));
    assert_eq!(BinaryOperator::LESS(4).line(), 4);
    assert_eq!(BinaryOperator::from_token(ScannedToken::new(Token::AND, 1)), None);
    assert_eq!(LogicalOperator::try_from(Token::AND), Ok(LogicalOperator::AND));
    assert_eq!(LogicalOperator::try_from(Token::PLUS), Err(()));
    assert_eq!(UnaryOperator::BANG.symbol(), "!");
}

#[test]
fn tokens_and_identifiers() {
    assert_eq!(Token::from_keyword("while"), Some(Token::WHILE));
    assert_eq!(Token::from_keyword("whilst"), None);
    assert_eq!(Token::try_from_char('('), Ok(Token::LEFTPAREN));
    assert_eq!(Operator::LESS.into_equal(), Token::LESSEQUAL);
    assert_eq!(Operator::BANG.into_token(), Token::BANG);
    let id = Identifier::from(SmartString::from("name"));
    assert_eq!(id.copy().into_string().as_str(), "name");
    assert_eq!(Token::IDENTIFIER(SmartString::from("x")).discriminant(), TokenDiscriminant::IDENTIFIER);
}

#[test]
fn smart_strings() {
    let mut s = SmartString::from("ab");
    s.push('c');
    assert_eq!(s.as_str(), "abc");
    let t = SmartString::concat(&s, &SmartString::from("d"));
    assert_eq!(t.as_str(), "abcd");
    assert_eq!(t.copy().as_str(), "abcd");
    assert_eq!(lox::text::str_chars("hé"), vec!['h', 'é']);
    assert!(lox::text::str_eq("x", "x"));
    assert!(lox::text::char_is_alphabetic('é'));
    assert!(!lox::text::char_is_alphabetic('1'));
}

/// A name made of letters only, for the `i`th of many parameters.
fn letters(i: usize) -> String {
    let mut name = String::new();
    let mut n = i + 1;
    // Every name starts with `q`, which no keyword does.
    while n > 0 {
        name.insert(0, (b'a' + ((n - 1) % 26) as u8) as char);
        n = (n - 1) / 26;
    }
    name.insert(0, 'q');
    name
}

#[test]
fn notes_of_the_parser() {
    let mut parser = Parser::new(scan("if (x) print 1; print ;").unwrap());
    assert_eq!(parser.parse().unwrap_err(), ParsingError::NoExpr);
    let notes = parser.into_notes();
    assert_eq!(notes.len(), 2);
    assert!(matches!(&notes[0], ParseNote::IfCondition(Expression::Variable { .. })));
    assert!(matches!(notes[1], ParseNote::Error(ParsingError::NoExpr, Some(1))));
    assert_eq!(notes[1].text(&numbers), "Error on line 1: Expected Expression.");
    assert_eq!(notes[0].text(&numbers), "if condition: (x)");
}

#[test]
fn many_parameters_and_arguments_are_noted() {
    let params: Vec<String> = (0..257).map(letters).collect();
    let source = format!("fun f({}) {{}}", params.join(", "));
    let mut parser = Parser::new(scan(&source).unwrap());
    assert!(parser.parse().is_ok());
    let notes = parser.into_notes();
    assert_eq!(notes.len(), 2);
    assert!(notes.iter().all(|n| matches!(n, ParseNote::TooManyParams)));

    let args = vec!["1"; 257].join(",");
    let mut parser = Parser::new(scan(&format!("f({});", args)).unwrap());
    assert!(parser.parse().is_ok());
    let notes = parser.into_notes();
    assert_eq!(notes.len(), 2);
    assert!(notes.iter().all(|n| matches!(n, ParseNote::Error(ParsingError::TooManyArgs, Some(1)))));
}

#[test]
fn if_parentheses_are_checked() {
    assert_eq!(parse("if (x print 1;").unwrap_err(), ParsingError::IfParenClosed);
    assert_eq!(parse("if x) print 1;").unwrap_err(), ParsingError::IfParenOpen);
    let mut text = String::new();
    ParsingError::IfParenClosed.write_message(&mut text);
    assert_eq!(text, "Expected ')' after if condition.");
}

#[test]
fn tokens_ending_inside_arguments_are_found() {
    let args = vec!["1"; 255].join(",");
    assert!(Parser::ends_inside_arguments(scan(&format!("f({},", args)).unwrap()));
    assert!(!Parser::ends_inside_arguments(scan(&format!("f({});", args)).unwrap()));
    assert!(!Parser::ends_inside_arguments(scan("f(1,").unwrap()));
    assert!(!Parser::ends_inside_arguments(Vec::<ScannedToken>::new()));
}
