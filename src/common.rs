use vstd::prelude::*;
use vstd::string::StringExecFns;

verus! {

/// A place in the source text: line and column (both counted from 1) and byte offset.
#[derive(Clone, Copy, Debug, PartialEq, Eq, Structural)]
pub struct Pos {
    pub line: u32,
    pub column: u32,
    pub offset: usize,
}

/// Structural punctuation.
#[derive(Clone, Copy, Debug, PartialEq, Eq, Structural)]
pub enum Symbol {
    OpenParen,
    CloseParen,
    OpenCurlyBrace,
    CloseCurlyBrace,
    OpenSquareBrace,
    CloseSquareBrace,
    Colon,
    SemiColon,
    Comma,
    Plus,
    Minus,
    Mul,
    Div,
    Percent,
    Equal,
    Lt,
    Gt,
    Bang,
    Dot,
    Hash,
}

/// What went wrong.
#[derive(Clone, Copy, Debug, PartialEq, Eq, Structural)]
pub enum ErrorKind {
    /// An operand was required (syntax error).
    ExpectedExpression,
    /// A name was required (syntax error).
    ExpectedIdentifier,
    /// A function declaration without a name (syntax error).
    ExpectedFunctionName,
    /// A function name not followed by `(` (syntax error).
    ExpectedFunctionParen,
    /// An operator that this evaluator does not compute.
    UnsupportedOperation,
    /// A given punctuation symbol was required (syntax error).
    ExpectedSymbol(Symbol),
    /// A token that cannot continue the construct (syntax error).
    UnexpectedToken,
    /// The input ended inside a construct (syntax error).
    UnexpectedEof,
    /// A variable that no scope binds.
    UndefinedVariable,
    /// A parameter that no argument and no default binds.
    MissingArgument,
    /// A directive that a function body cannot execute.
    UnsupportedDirective,
    /// A function body that ended without `@return`.
    MissingReturnValue,
}

/// A failure, anchored at the token that caused it.
#[derive(Clone, Copy, Debug, PartialEq, Eq, Structural)]
pub struct SassError {
    pub pos: Pos,
    pub kind: ErrorKind,
}

pub open spec fn err_at<T>(pos: Pos, kind: ErrorKind) -> Result<T, SassError> {
    Err(SassError { pos, kind })
}

pub fn error_at<T>(pos: Pos, kind: ErrorKind) -> (r: Result<T, SassError>)
    ensures
        r == err_at::<T>(pos, kind),
{
    Err(SassError { pos, kind })
}

/// How a symbol is written.
pub open spec fn symbol_spelling(s: Symbol) -> Seq<char> {
    match s {
        Symbol::OpenParen => "("@,
        Symbol::CloseParen => ")"@,
        Symbol::OpenCurlyBrace => "{"@,
        Symbol::CloseCurlyBrace => "}"@,
        Symbol::OpenSquareBrace => "["@,
        Symbol::CloseSquareBrace => "]"@,
        Symbol::Colon => ":"@,
        Symbol::SemiColon => ";"@,
        Symbol::Comma => ","@,
        Symbol::Plus => "+"@,
        Symbol::Minus => "-"@,
        Symbol::Mul => "*"@,
        Symbol::Div => "/"@,
        Symbol::Percent => "%"@,
        Symbol::Equal => "="@,
        Symbol::Lt => "<"@,
        Symbol::Gt => ">"@,
        Symbol::Bang => "!"@,
        Symbol::Dot => "."@,
        Symbol::Hash => "#"@,
    }
}

/// The message of an error kind, without the `Error: ` prefix and the period.
pub open spec fn message_text(k: ErrorKind) -> Seq<char> {
    match k {
        ErrorKind::ExpectedExpression => "Expected expression"@,
        ErrorKind::ExpectedIdentifier => "Expected identifier"@,
        ErrorKind::ExpectedFunctionName => "expected identifier after function declaration"@,
        ErrorKind::ExpectedFunctionParen => "expected `(` after function declaration"@,
        ErrorKind::UnsupportedOperation => "This operation is not supported"@,
        ErrorKind::ExpectedSymbol(s) => "expected \""@ + symbol_spelling(s) + "\""@,
        ErrorKind::UnexpectedToken => "Unexpected token"@,
        ErrorKind::UnexpectedEof => "Unexpected end of input"@,
        ErrorKind::UndefinedVariable => "Undefined variable"@,
        ErrorKind::MissingArgument => "Missing argument"@,
        ErrorKind::UnsupportedDirective => "Unsupported directive in function body"@,
        ErrorKind::MissingReturnValue => "Function finished without a return value"@,
    }
}

/// The diagnostic line of an error kind: `Error: <message>.`
pub open spec fn diagnostic(k: ErrorKind) -> Seq<char> {
    "Error: "@ + message_text(k) + "."@
}

pub fn symbol_str(s: Symbol) -> (r: &'static str)
    ensures
        r@ == symbol_spelling(s),
{
    match s {
        Symbol::OpenParen => "(",
        Symbol::CloseParen => ")",
        Symbol::OpenCurlyBrace => "{",
        Symbol::CloseCurlyBrace => "}",
        Symbol::OpenSquareBrace => "[",
        Symbol::CloseSquareBrace => "]",
        Symbol::Colon => ":",
        Symbol::SemiColon => ";",
        Symbol::Comma => ",",
        Symbol::Plus => "+",
        Symbol::Minus => "-",
        Symbol::Mul => "*",
        Symbol::Div => "/",
        Symbol::Percent => "%",
        Symbol::Equal => "=",
        Symbol::Lt => "<",
        Symbol::Gt => ">",
        Symbol::Bang => "!",
        Symbol::Dot => ".",
        Symbol::Hash => "#",
    }
}

impl SassError {
    /// The diagnostic line: `Error: <message>.`
    pub fn message(&self) -> (r: String)
        ensures
            r@ == diagnostic(self.kind),
    {
        let mut out = "Error: ".to_owned();
        match self.kind {
            ErrorKind::ExpectedExpression => out.append("Expected expression"),
            ErrorKind::ExpectedIdentifier => out.append("Expected identifier"),
            ErrorKind::ExpectedFunctionName => out.append(
                "expected identifier after function declaration",
            ),
            ErrorKind::ExpectedFunctionParen => out.append("expected `(` after function declaration"),
            ErrorKind::UnsupportedOperation => out.append("This operation is not supported"),
            ErrorKind::ExpectedSymbol(s) => {
                out.append("expected \"");
                out.append(symbol_str(s));
                out.append("\"");
            },
            ErrorKind::UnexpectedToken => out.append("Unexpected token"),
            ErrorKind::UnexpectedEof => out.append("Unexpected end of input"),
            ErrorKind::UndefinedVariable => out.append("Undefined variable"),
            ErrorKind::MissingArgument => out.append("Missing argument"),
            ErrorKind::UnsupportedDirective => out.append("Unsupported directive in function body"),
            ErrorKind::MissingReturnValue => out.append("Function finished without a return value"),
        }
        out.append(".");
        proof {
            if let ErrorKind::ExpectedSymbol(s) = self.kind {
                assert("Error: "@ + "expected \""@ + symbol_spelling(s) + "\""@ =~= "Error: "@ + (
                "expected \""@ + symbol_spelling(s) + "\""@));
            }
        }
        out
    }
}

} // verus!
