use grass::common::{ErrorKind, Pos, SassError, Symbol};
use grass::expr::eval_expression;
use grass::scope::Scope;
use grass::token::{Token, TokenKind};
use grass::value::{and_values, Value};

fn p(c: u32) -> Pos {
    Pos { line: 1, column: c, offset: c as usize }
}

fn word(s: &str, c: u32) -> Token {
    Token { pos: p(c), kind: TokenKind::Ident(s.to_string()) }
}

fn num(n: i64, c: u32) -> Token {
    Token { pos: p(c), kind: TokenKind::Number(n) }
}

fn ws(c: u32) -> Token {
    Token { pos: p(c), kind: TokenKind::Whitespace }
}

/// Joins operands with ` and `.
fn chain(ops: Vec<Token>) -> Vec<Token> {
    let mut out = Vec::new();
    let n = ops.len();
    for (i, t) in ops.into_iter().enumerate() {
        let c = t.pos.column;
        out.push(t);
        if i + 1 < n {
            out.push(ws(c + 1));
            out.push(word("and", c + 2));
            out.push(ws(c + 5));
        }
    }
    out
}

fn eval(toks: &Vec<Token>) -> Result<Value, SassError> {
    eval_expression(toks, 0, toks.len(), p(0), &Scope::new())
}

#[test]
fn one_and_two() {
    assert_eq!(eval(&chain(vec![num(1, 1), num(2, 10)])), Ok(Value::Number(2)));
}

#[test]
fn two_and_one() {
    assert_eq!(eval(&chain(vec![num(2, 1), num(1, 10)])), Ok(Value::Number(1)));
}

#[test]
fn true_and_true() {
    assert_eq!(eval(&chain(vec![word("true", 1), word("true", 10)])), Ok(Value::Bool(true)));
}

#[test]
fn true_and_false() {
    assert_eq!(eval(&chain(vec![word("true", 1), word("false", 10)])), Ok(Value::Bool(false)));
}

#[test]
fn false_and_true() {
    assert_eq!(eval(&chain(vec![word("false", 1), word("true", 10)])), Ok(Value::Bool(false)));
}

#[test]
fn false_and_false() {
    assert_eq!(eval(&chain(vec![word("false", 1), word("false", 10)])), Ok(Value::Bool(false)));
}

#[test]
fn null_and_one() {
    assert_eq!(eval(&chain(vec![word("null", 1), num(1, 10)])), Ok(Value::Null));
}

#[test]
fn one_and_null() {
    assert_eq!(eval(&chain(vec![num(1, 1), word("null", 10)])), Ok(Value::Null));
}

#[test]
fn one_and_two_and_three() {
    assert_eq!(
        eval(&chain(vec![num(1, 1), num(2, 10), num(3, 20)])),
        Ok(Value::Number(3))
    );
}

#[test]
fn all_truthy_yields_last() {
    let vs = vec![
        Value::Number(0),
        Value::Str(String::new()),
        Value::Bool(true),
        Value::Ident("red".to_string()),
    ];
    assert_eq!(and_values(&vs), Value::Ident("red".to_string()));
}

#[test]
fn single_operand_is_itself() {
    assert_eq!(and_values(&vec![Value::Null]), Value::Null);
    assert_eq!(and_values(&vec![Value::Number(7)]), Value::Number(7));
}

#[test]
fn first_falsy_wins() {
    let vs = vec![Value::Number(1), Value::Null, Value::Bool(false), Value::Number(3)];
    assert_eq!(and_values(&vs), Value::Null);
    let vs = vec![Value::Number(1), Value::Bool(false), Value::Null];
    assert_eq!(and_values(&vs), Value::Bool(false));
}

#[test]
fn zero_and_empty_string_are_truthy() {
    let toks = chain(vec![
        num(0, 1),
        Token { pos: p(10), kind: TokenKind::Str(String::new()) },
        num(5, 20),
    ]);
    assert_eq!(eval(&toks), Ok(Value::Number(5)));
}

#[test]
fn later_operands_are_not_evaluated() {
    let undefined = Token { pos: p(10), kind: TokenKind::Variable("nope".to_string()) };
    let toks = chain(vec![word("false", 1), undefined.clone()]);
    assert_eq!(eval(&toks), Ok(Value::Bool(false)));
    let toks = chain(vec![word("true", 1), undefined]);
    assert_eq!(
        eval(&toks),
        Err(SassError { pos: p(10), kind: ErrorKind::UndefinedVariable })
    );
}

#[test]
fn variables_are_looked_up() {
    let mut scope = Scope::new();
    scope.insert("x".to_string(), Value::Number(4));
    let toks = chain(vec![
        num(1, 1),
        Token { pos: p(10), kind: TokenKind::Variable("x".to_string()) },
    ]);
    assert_eq!(
        eval_expression(&toks, 0, toks.len(), p(0), &scope),
        Ok(Value::Number(4))
    );
}

#[test]
fn empty_expression_is_reported_at_given_place() {
    let toks = vec![ws(3)];
    assert_eq!(
        eval(&toks),
        Err(SassError { pos: p(0), kind: ErrorKind::ExpectedExpression })
    );
}

#[test]
fn trailing_and_needs_an_operand() {
    let toks = vec![num(1, 1), ws(2), word("and", 3)];
    assert_eq!(
        eval(&toks),
        Err(SassError { pos: p(3), kind: ErrorKind::ExpectedExpression })
    );
}

#[test]
fn operands_must_be_joined_by_and() {
    let toks = vec![num(1, 1), ws(2), num(2, 3)];
    assert_eq!(
        eval(&toks),
        Err(SassError { pos: p(3), kind: ErrorKind::UnexpectedToken })
    );
}

#[test]
fn comments_between_operands_are_transparent() {
    let toks = vec![
        Token { pos: p(1), kind: TokenKind::Comment },
        num(1, 2),
        Token { pos: p(3), kind: TokenKind::Comment },
        word("and", 4),
        Token { pos: p(5), kind: TokenKind::Comment },
        num(2, 6),
        Token { pos: p(7), kind: TokenKind::Comment },
    ];
    assert_eq!(eval(&toks), Ok(Value::Number(2)));
}

fn sym(s: Symbol, c: u32) -> Token {
    Token { pos: p(c), kind: TokenKind::Symbol(s) }
}

#[test]
fn other_operators_are_parsed_but_not_computed() {
    let toks = vec![num(1, 1), sym(Symbol::Plus, 2), num(1, 3)];
    assert_eq!(
        eval(&toks),
        Err(SassError { pos: p(2), kind: ErrorKind::UnsupportedOperation })
    );
    let toks = vec![num(1, 1), sym(Symbol::Equal, 2), sym(Symbol::Equal, 3), num(1, 4), word("and", 5), num(2, 6), sym(Symbol::Lt, 7), num(3, 8)];
    assert_eq!(
        eval(&toks),
        Err(SassError { pos: p(2), kind: ErrorKind::UnsupportedOperation })
    );
}

#[test]
fn single_equal_needs_a_second() {
    let toks = vec![num(1, 1), sym(Symbol::Plus, 2), num(1, 3), sym(Symbol::Equal, 4), word("s", 5)];
    assert_eq!(
        eval(&toks),
        Err(SassError { pos: p(5), kind: ErrorKind::ExpectedSymbol(Symbol::Equal) })
    );
    let toks = vec![num(1, 1), sym(Symbol::Bang, 2)];
    assert_eq!(
        eval(&toks),
        Err(SassError { pos: p(2), kind: ErrorKind::ExpectedSymbol(Symbol::Equal) })
    );
}

#[test]
fn syntax_error_after_operator_wins() {
    let toks = vec![num(1, 1), sym(Symbol::Mul, 2), num(2, 3), num(4, 4)];
    assert_eq!(
        eval(&toks),
        Err(SassError { pos: p(4), kind: ErrorKind::UnexpectedToken })
    );
}
