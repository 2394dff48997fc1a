use grass::common::{Pos, Symbol};
use grass::token::{Token, TokenKind};

/// A small tokenizer for the tests: words, `$variables`, integers, quoted
/// strings, `@keywords` (hex escapes decoded), comments, whitespace, symbols.
pub fn lex(src: &str) -> Vec<Token> {
    let cs: Vec<char> = src.chars().collect();
    let mut out = Vec::new();
    let mut i = 0;
    while i < cs.len() {
        let pos = Pos { line: 1, column: i as u32 + 1, offset: i };
        let c = cs[i];
        if c.is_whitespace() {
            while i < cs.len() && cs[i].is_whitespace() {
                i += 1;
            }
            out.push(Token { pos, kind: TokenKind::Whitespace });
        } else if c == '/' && i + 1 < cs.len() && cs[i + 1] == '*' {
            i += 2;
            while i + 1 < cs.len() && !(cs[i] == '*' && cs[i + 1] == '/') {
                i += 1;
            }
            i += 2;
            out.push(Token { pos, kind: TokenKind::Comment });
        } else if c == '@' || c == '$' || c.is_alphabetic() || c == '-' && i + 1 < cs.len() && cs[i + 1].is_alphabetic() {
            if c == '@' || c == '$' {
                i += 1;
            }
            let mut name = String::new();
            while i < cs.len() && (cs[i].is_alphanumeric() || cs[i] == '-' || cs[i] == '_' || cs[i] == '\\') {
                if cs[i] == '\\' {
                    i += 1;
                    let mut hex = String::new();
                    while i < cs.len() && cs[i].is_ascii_hexdigit() && hex.len() < 6 {
                        hex.push(cs[i]);
                        i += 1;
                    }
                    if i < cs.len() && cs[i] == ' ' {
                        i += 1;
                    }
                    name.push(char::from_u32(u32::from_str_radix(&hex, 16).unwrap()).unwrap());
                } else {
                    name.push(cs[i]);
                    i += 1;
                }
            }
            let kind = match c {
                '@' => TokenKind::AtRule(name),
                '$' => TokenKind::Variable(name),
                _ => TokenKind::Ident(name),
            };
            out.push(Token { pos, kind });
        } else if c.is_ascii_digit() {
            let mut n: i64 = 0;
            while i < cs.len() && cs[i].is_ascii_digit() {
                n = n * 10 + cs[i].to_digit(10).unwrap() as i64;
                i += 1;
            }
            out.push(Token { pos, kind: TokenKind::Number(n) });
        } else if c == '"' || c == '\'' {
            i += 1;
            let mut s = String::new();
            while i < cs.len() && cs[i] != c {
                s.push(cs[i]);
                i += 1;
            }
            i += 1;
            out.push(Token { pos, kind: TokenKind::Str(s) });
        } else {
            let sym = match c {
                '(' => Symbol::OpenParen,
                ')' => Symbol::CloseParen,
                '{' => Symbol::OpenCurlyBrace,
                '}' => Symbol::CloseCurlyBrace,
                '[' => Symbol::OpenSquareBrace,
                ']' => Symbol::CloseSquareBrace,
                ':' => Symbol::Colon,
                ';' => Symbol::SemiColon,
                ',' => Symbol::Comma,
                '+' => Symbol::Plus,
                '-' => Symbol::Minus,
                '*' => Symbol::Mul,
                '/' => Symbol::Div,
                '%' => Symbol::Percent,
                '=' => Symbol::Equal,
                '<' => Symbol::Lt,
                '>' => Symbol::Gt,
                '!' => Symbol::Bang,
                '.' => Symbol::Dot,
                _ => Symbol::Hash,
            };
            i += 1;
            out.push(Token { pos, kind: TokenKind::Symbol(sym) });
        }
    }
    out
}

use grass::common::{ErrorKind, SassError};
use grass::control::{directive_of, eval_if_chain, Directive};
use grass::fs::{FsError, NullFs};
use grass::function::{CallArgs, Function};
use grass::scope::Scope;
use grass::value::Value;

fn at(line_col: usize) -> Pos {
    Pos { line: 1, column: line_col as u32, offset: line_col - 1 }
}

/// Runs the chain of `src`, whose first token is `@if`; gives the words of
/// the selected body and the index past the chain.
fn run_chain(src: &str) -> Result<(Option<Vec<String>>, usize), SassError> {
    run_chain_in(src, &Scope::new())
}

fn run_chain_in(src: &str, scope: &Scope) -> Result<(Option<Vec<String>>, usize), SassError> {
    let toks = lex(src);
    let mut cursor = 1;
    let sel = eval_if_chain(&toks, &mut cursor, scope)?;
    let words = sel.map(|(a, b)| {
        toks[a..b]
            .iter()
            .filter_map(|t| match &t.kind {
                TokenKind::Ident(s) => Some(s.clone()),
                _ => None,
            })
            .collect()
    });
    Ok((words, cursor))
}

fn words(ws: &[&str]) -> Option<Vec<String>> {
    Some(ws.iter().map(|w| w.to_string()).collect())
}

#[test]
fn if_toplevel_true() {
    let src = "@if true {\n  a {\n    color: foo;\n}\n}\n";
    let (sel, end) = run_chain(src).unwrap();
    assert_eq!(sel, words(&["a", "color", "foo"]));
    assert_eq!(end, lex(src).len() - 1);
}

#[test]
fn if_toplevel_false() {
    assert_eq!(run_chain("@if false {\n  a {\n    color: foo;\n}\n}\n").unwrap().0, None);
}

#[test]
fn if_else_toplevel_true() {
    let src = "@if true {\n  a {\n    color: foo;\n}\n} @else {\n  b {\n    color: bar;\n}\n}\n";
    assert_eq!(run_chain(src).unwrap().0, words(&["a", "color", "foo"]));
}

#[test]
fn if_else_toplevel_false() {
    let src = "@if false {\n  a {\n    color: foo;\n}\n} @else {\n  a {\n    color: bar;\n}\n}\n";
    let (sel, end) = run_chain(src).unwrap();
    assert_eq!(sel, words(&["a", "color", "bar"]));
    assert_eq!(end, lex(src).len() - 1);
}

#[test]
fn if_else_if_no_else() {
    let src = "@if false {\n    color: red;\n} @else if true {\n    color: blue;\n}\n";
    assert_eq!(run_chain(src).unwrap().0, words(&["color", "blue"]));
}

#[test]
fn if_false_else_if_false_else() {
    let src = "@if false {\n    color: red;\n} @else if false {\n    color: blue;\n} @else {\n    color: green;\n}\n";
    assert_eq!(run_chain(src).unwrap().0, words(&["color", "green"]));
}

#[test]
fn if_false_else_if_true_else() {
    let src = "@if false {\n    color: red;\n} @else if true {\n    color: blue;\n} @else {\n    color: green;\n}\n";
    assert_eq!(run_chain(src).unwrap().0, words(&["color", "blue"]));
}

#[test]
fn first_truthy_branch_of_three_then_else() {
    let src = "@if false { one } @else if false { two } @else if true { three } @else { four }";
    assert_eq!(run_chain(src).unwrap().0, words(&["three"]));
    let src = "@if false { one } @else if true { two } @else if true { three } @else { four }";
    assert_eq!(run_chain(src).unwrap().0, words(&["two"]));
}

#[test]
fn chain_without_match_selects_nothing() {
    let src = "@if false { one } @else if null { two }";
    assert_eq!(run_chain(src).unwrap().0, None);
}

#[test]
fn nested_blocks_stay_in_the_body() {
    let src = "@if true { a { b { c } } } @else { d }";
    assert_eq!(run_chain(src).unwrap().0, words(&["a", "b", "c"]));
}

#[test]
fn atrule_other_than_else_immediately_following() {
    let src = "@if true { a } @if true { b }";
    let toks = lex(src);
    let (sel, end) = run_chain(src).unwrap();
    assert_eq!(sel, words(&["a"]));
    assert_eq!(end, 9);
    assert!(matches!(&toks[end + 1].kind, TokenKind::AtRule(s) if s == "if"));
}

#[test]
fn escaped_if() {
    let toks = lex("@\\69 f true {\n  a {\n    color: red;\n  }\n}\n");
    assert_eq!(toks[0].kind, TokenKind::AtRule("if".to_string()));
    let (sel, _) = run_chain("@\\69 f true {\n  a {\n    color: red;\n  }\n}\n").unwrap();
    assert_eq!(sel, words(&["a", "color", "red"]));
}

#[test]
fn uppercase_escaped_if() {
    let src = "@\\49 f true {\n  a {\n    color: red;\n  }\n}\n";
    assert_eq!(lex(src)[0].kind, TokenKind::AtRule("If".to_string()));
    assert_eq!(run_chain(src).unwrap().0, words(&["a", "color", "red"]));
}

#[test]
fn uppercase_escaped_else() {
    let src = "@if false {}\n\n@\\45lse {\n  a {\n    color: red;\n  }\n}\n";
    assert_eq!(run_chain(src).unwrap().0, words(&["a", "color", "red"]));
}

#[test]
fn escaped_else() {
    let src = "@if false {}\n\n@\\65lse {\n  a {\n    color: red;\n  }\n}\n";
    assert_eq!(run_chain(src).unwrap().0, words(&["a", "color", "red"]));
}

#[test]
fn spellings_with_same_decoding_dispatch_alike() {
    let plain = lex("@if @else @function @return @each");
    let escaped = lex("@\\69 f @\\65lse @f\\75nction @\\72 eturn @each");
    let upper = lex("@\\49 f @\\45lse @FUNCTION @Return @each");
    let kinds = |ts: &Vec<Token>| -> Vec<Directive> {
        ts.iter()
            .filter_map(|t| match &t.kind {
                TokenKind::AtRule(s) => Some(directive_of(s)),
                _ => None,
            })
            .collect()
    };
    assert_eq!(kinds(&plain), kinds(&escaped));
    assert_eq!(kinds(&plain), kinds(&upper));
    assert_eq!(
        kinds(&plain),
        vec![Directive::If, Directive::Else, Directive::Function, Directive::Return, Directive::Other]
    );
}

#[test]
fn multiline_comments_surrounding_condition_empty() {
    let (sel, _) = run_chain("@if/**/true/**/{ a { color: red; } }").unwrap();
    assert_eq!(sel, words(&["a", "color", "red"]));
}

#[test]
fn multiline_comments_surrounding_condition() {
    let (sel, _) = run_chain("@if/* pre 1 */true/* post 1 */{ a { color: red; } }").unwrap();
    assert_eq!(sel, words(&["a", "color", "red"]));
    let (sel, _) = run_chain("@if /* a */ false /* b */ { x } /* c */ @else /* d */ { y }").unwrap();
    assert_eq!(sel, words(&["y"]));
}

#[test]
fn no_brace_after_else() {
    assert_eq!(
        run_chain("@if false {} @else -}"),
        Err(SassError { pos: at(20), kind: ErrorKind::ExpectedSymbol(Symbol::OpenCurlyBrace) })
    );
}

#[test]
fn nothing_after_if() {
    assert_eq!(
        run_chain("@if"),
        Err(SassError { pos: at(1), kind: ErrorKind::ExpectedExpression })
    );
}

#[test]
fn no_condition() {
    assert_eq!(
        run_chain("@if{}"),
        Err(SassError { pos: at(1), kind: ErrorKind::ExpectedExpression })
    );
}

#[test]
fn nothing_after_open_curly() {
    assert_eq!(
        run_chain("@if foo {"),
        Err(SassError { pos: at(9), kind: ErrorKind::ExpectedSymbol(Symbol::CloseCurlyBrace) })
    );
}

#[test]
fn condition_is_evaluated_eagerly() {
    assert_eq!(
        run_chain("@if 1 + 1 =s {\n}"),
        Err(SassError { pos: at(12), kind: ErrorKind::ExpectedSymbol(Symbol::Equal) })
    );
}

#[test]
fn later_condition_is_checked_after_a_match() {
    assert_eq!(
        run_chain("@if true { a } @else if 1 + { b }"),
        Err(SassError { pos: at(27), kind: ErrorKind::ExpectedExpression })
    );
    assert_eq!(
        run_chain("@if true { a } @else if $nope { b }"),
        Err(SassError { pos: at(25), kind: ErrorKind::UndefinedVariable })
    );
}

#[test]
fn condition_reads_variables() {
    let mut scope = Scope::new();
    scope.insert("on".to_string(), Value::Number(0));
    assert_eq!(run_chain_in("@if $on { yes } @else { no }", &scope).unwrap().0, words(&["yes"]));
    scope.insert("on".to_string(), Value::Null);
    assert_eq!(run_chain_in("@if $on { yes } @else { no }", &scope).unwrap().0, words(&["no"]));
}

#[test]
fn cursor_stays_on_error() {
    let toks = lex("@if foo {");
    let mut cursor = 1;
    assert!(eval_if_chain(&toks, &mut cursor, &Scope::new()).is_err());
    assert_eq!(cursor, 1);
}

/// Declares the function of `src` (first token `@function`) in `scope`.
fn declare(src: &str, scope: &Scope) -> Result<(String, Function, usize), SassError> {
    let toks = lex(src);
    let mut cursor = 1;
    let (name, f) = Function::decl_from_tokens(&toks, &mut cursor, scope)?;
    Ok((name, f, cursor))
}

fn call_args(positional: Vec<Value>, named: Vec<(&str, Value)>) -> CallArgs {
    let mut scope = Scope::new();
    for (n, v) in named {
        scope.insert(n.to_string(), v);
    }
    CallArgs { positional, named: scope }
}

fn bar() -> Value {
    Value::Ident("bar".to_string())
}

#[test]
fn function_returns_its_argument() {
    let src = "@function foo($value) {\n  @return $value;\n}";
    let (name, f, end) = declare(src, &Scope::new()).unwrap();
    assert_eq!(name, "foo");
    assert_eq!(end, lex(src).len());
    let bound = f.args(&call_args(vec![bar()], vec![])).unwrap();
    assert_eq!(bound.call(at(1)), Ok(bar()));
}

#[test]
fn named_argument_binds_by_name() {
    let (_, f, _) = declare("@function foo($a, $b) { @return $b; }", &Scope::new()).unwrap();
    let bound = f
        .args(&call_args(vec![Value::Number(1)], vec![("b", Value::Number(2))]))
        .unwrap();
    assert_eq!(bound.call(at(1)), Ok(Value::Number(2)));
}

#[test]
fn positional_wins_over_named() {
    let (_, f, _) = declare("@function foo($a) { @return $a; }", &Scope::new()).unwrap();
    let bound = f
        .args(&call_args(vec![Value::Number(1)], vec![("a", Value::Number(2))]))
        .unwrap();
    assert_eq!(bound.call(at(1)), Ok(Value::Number(1)));
}

#[test]
fn default_is_evaluated_at_declaration() {
    let mut outer = Scope::new();
    outer.insert("x".to_string(), Value::Number(5));
    let (_, f, _) = declare("@function foo($a: $x) { @return $a; }", &outer).unwrap();
    let bound = f.args(&call_args(vec![], vec![("x", Value::Number(9))])).unwrap();
    assert_eq!(bound.call(at(1)), Ok(Value::Number(5)));
}

#[test]
fn default_with_undefined_variable_fails_at_declaration() {
    assert_eq!(
        declare("@function foo($a: $x) { @return $a; }", &Scope::new()).err(),
        Some(SassError { pos: at(19), kind: ErrorKind::UndefinedVariable })
    );
}

#[test]
fn missing_argument_is_an_error() {
    let (_, f, _) = declare("@function foo($a, $b) { @return $a; }", &Scope::new()).unwrap();
    assert_eq!(
        f.args(&call_args(vec![Value::Number(1)], vec![])).err(),
        Some(SassError { pos: at(19), kind: ErrorKind::MissingArgument })
    );
}

#[test]
fn captured_scope_is_a_snapshot() {
    let mut outer = Scope::new();
    outer.insert("x".to_string(), Value::Number(1));
    let (_, f, _) = declare("@function foo() { @return $x and $y; }", &outer).unwrap();
    outer.insert("x".to_string(), Value::Number(2));
    outer.insert("y".to_string(), Value::Number(3));
    let bound = f.args(&call_args(vec![], vec![])).unwrap();
    assert_eq!(
        bound.call(at(1)),
        Err(SassError { pos: at(34), kind: ErrorKind::UndefinedVariable })
    );
}

#[test]
fn parameter_shadows_captured_variable() {
    let mut outer = Scope::new();
    outer.insert("a".to_string(), Value::Number(1));
    let (_, f, _) = declare("@function foo($a) { @return $a; }", &outer).unwrap();
    let bound = f.args(&call_args(vec![Value::Number(7)], vec![])).unwrap();
    assert_eq!(bound.call(at(1)), Ok(Value::Number(7)));
}

#[test]
fn nested_if_in_function() {
    let src = "@function foo($value) {\n  @if true {\n    @if false {\n      @error foo;\n    }\n\n    @else {\n      @return $value;\n    }\n  }\n}";
    let (_, f, end) = declare(src, &Scope::new()).unwrap();
    assert_eq!(end, lex(src).len());
    let bound = f.args(&call_args(vec![bar()], vec![])).unwrap();
    assert_eq!(bound.call(at(1)), Ok(bar()));
}

fn call_plain(src: &str) -> Result<Value, SassError> {
    let (_, f, _) = declare(src, &Scope::new())?;
    f.args(&call_args(vec![], vec![]))?.call(at(1))
}

#[test]
fn body_chain_selects_first_truthy_branch() {
    let src = "@function foo() { @if false { @return 1; } @else if false { @return 2; } @else if true { @return 3; } @else { @return 4; } }";
    assert_eq!(call_plain(src), Ok(Value::Number(3)));
}

#[test]
fn body_chain_else_branch() {
    assert_eq!(
        call_plain("@function foo() { @if false { @return 1; } @else { @return 2; } }"),
        Ok(Value::Number(2))
    );
    assert_eq!(
        call_plain("@function foo() { @if true { @return 1; } @else { @return 2; } }"),
        Ok(Value::Number(1))
    );
}

#[test]
fn body_chain_without_match_adds_nothing() {
    assert_eq!(
        call_plain("@function foo() { @if false { @return 1; } @return 5; }"),
        Ok(Value::Number(5))
    );
}

#[test]
fn body_chain_condition_error_fails_declaration() {
    let src = "@function foo() { @if 1 + 1 =s {} }";
    let offending = src.find("=s").unwrap() + 2;
    assert_eq!(
        declare(src, &Scope::new()).err(),
        Some(SassError { pos: at(offending), kind: ErrorKind::ExpectedSymbol(Symbol::Equal) })
    );
    let src = "@function foo() { @if true { @return 1; } @else if 1 + 1 =s { @return 2; } }";
    let offending = src.find("=s").unwrap() + 2;
    assert_eq!(
        declare(src, &Scope::new()).err(),
        Some(SassError { pos: at(offending), kind: ErrorKind::ExpectedSymbol(Symbol::Equal) })
    );
}

#[test]
fn body_chain_reads_declaring_scope() {
    let mut outer = Scope::new();
    outer.insert("mode".to_string(), Value::Null);
    let (_, f, _) = declare(
        "@function foo($a) { @if $mode { @return 1; } @else { @return $a; } }",
        &outer,
    )
    .unwrap();
    let bound = f.args(&call_args(vec![Value::Number(8)], vec![])).unwrap();
    assert_eq!(bound.call(at(1)), Ok(Value::Number(8)));
}

#[test]
fn one_declaration_bound_twice() {
    let (_, f, _) = declare("@function foo($value) { @return $value; }", &Scope::new()).unwrap();
    let g1 = f.copied().args(&call_args(vec![Value::Number(1)], vec![])).unwrap();
    let g2 = f.copied().args(&call_args(vec![Value::Number(2)], vec![])).unwrap();
    assert_eq!(g2.call(at(1)), Ok(Value::Number(2)));
    assert_eq!(g1.call(at(1)), Ok(Value::Number(1)));
    let g3 = f.args(&call_args(vec![], vec![]));
    assert!(g3.is_err());
}

#[test]
fn parameters_must_be_separated() {
    let src = "@function foo($a $b) {}";
    assert_eq!(
        declare(src, &Scope::new()).err(),
        Some(SassError { pos: at(18), kind: ErrorKind::ExpectedSymbol(Symbol::CloseParen) })
    );
}

#[test]
fn diagnostics_text() {
    let e = |kind| SassError { pos: at(1), kind };
    assert_eq!(e(ErrorKind::ExpectedSymbol(Symbol::OpenCurlyBrace)).message(), "Error: expected \"{\".");
    assert_eq!(e(ErrorKind::ExpectedExpression).message(), "Error: Expected expression.");
    assert_eq!(e(ErrorKind::ExpectedIdentifier).message(), "Error: Expected identifier.");
    assert_eq!(
        e(ErrorKind::ExpectedFunctionName).message(),
        "Error: expected identifier after function declaration."
    );
    assert_eq!(
        e(ErrorKind::ExpectedFunctionParen).message(),
        "Error: expected `(` after function declaration."
    );
    assert_eq!(e(ErrorKind::UnexpectedEof).message(), "Error: Unexpected end of input.");
    assert_eq!(
        e(ErrorKind::MissingReturnValue).message(),
        "Error: Function finished without a return value."
    );
    assert_eq!(
        e(ErrorKind::UnsupportedDirective).message(),
        "Error: Unsupported directive in function body."
    );
}

#[test]
fn unsupported_directive_in_body() {
    assert_eq!(
        call_plain("@function foo() { @each $x in a { } @return 1; }"),
        Err(SassError { pos: at(19), kind: ErrorKind::UnsupportedDirective })
    );
}

#[test]
fn function_without_return() {
    let (_, f, _) = declare("@function foo() { }", &Scope::new()).unwrap();
    let bound = f.args(&call_args(vec![], vec![])).unwrap();
    assert_eq!(
        bound.call(at(40)),
        Err(SassError { pos: at(40), kind: ErrorKind::MissingReturnValue })
    );
}

#[test]
fn declaration_needs_a_name() {
    assert_eq!(
        declare("@function ($a) {}", &Scope::new()).err(),
        Some(SassError { pos: at(11), kind: ErrorKind::ExpectedFunctionName })
    );
}

#[test]
fn declaration_needs_a_paren() {
    assert_eq!(
        declare("@function foo {}", &Scope::new()).err(),
        Some(SassError { pos: at(15), kind: ErrorKind::ExpectedFunctionParen })
    );
}

#[test]
fn declaration_needs_a_brace() {
    assert_eq!(
        declare("@function foo() ;", &Scope::new()).err(),
        Some(SassError { pos: at(17), kind: ErrorKind::ExpectedSymbol(Symbol::OpenCurlyBrace) })
    );
}

#[test]
fn declaration_body_must_close() {
    assert_eq!(
        declare("@function foo() { @return 1;", &Scope::new()).err(),
        Some(SassError { pos: at(11), kind: ErrorKind::UnexpectedEof })
    );
}

#[test]
fn parameter_list_must_close() {
    assert_eq!(
        declare("@function foo($a", &Scope::new()).err(),
        Some(SassError { pos: at(15), kind: ErrorKind::ExpectedSymbol(Symbol::CloseParen) })
    );
}

#[test]
fn parameters_are_variables() {
    assert_eq!(
        declare("@function foo(a) {}", &Scope::new()).err(),
        Some(SassError { pos: at(15), kind: ErrorKind::ExpectedIdentifier })
    );
}

#[test]
fn null_fs_has_nothing() {
    let fs = NullFs;
    assert!(!fs.is_file("a.scss"));
    assert!(!fs.is_dir("/"));
    assert_eq!(fs.read("a.scss"), Err(FsError::NotFound));
}
