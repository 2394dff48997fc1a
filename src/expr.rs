use vstd::prelude::*;

use crate::common::{err_at, error_at, ErrorKind, Pos, SassError, Symbol};
use crate::scope::Scope;
use crate::token::{is_ident_text, is_symbol, significant, significant_tokens, Token, TokenKind, text_is};
use crate::value::{and_chain, truthy, Value};

verus! {

/// An operand of an expression, parsed but not yet evaluated.
#[derive(Debug)]
pub enum Term {
    Literal(Value),
    /// A variable reference, with the place where it stands.
    Var(String, Pos),
}

/// The operand that a token spells, if it spells one.
pub open spec fn term_of(t: Token) -> Option<Term> {
    match t.kind {
        TokenKind::Number(n) => Some(Term::Literal(Value::Number(n))),
        TokenKind::Str(s) => Some(Term::Literal(Value::Str(s))),
        TokenKind::Variable(s) => Some(Term::Var(s, t.pos)),
        TokenKind::Ident(s) => if s@ == "true"@ {
            Some(Term::Literal(Value::Bool(true)))
        } else if s@ == "false"@ {
            Some(Term::Literal(Value::Bool(false)))
        } else if s@ == "null"@ {
            Some(Term::Literal(Value::Null))
        } else if s@ == "and"@ {
            None
        } else {
            Some(Term::Literal(Value::Ident(s)))
        },
        _ => None,
    }
}

/// Parses `operand (and operand)*` from significant tokens, starting at `i`.
/// `at` is where an operand that is missing at the end is reported.
/// Besides `and`, the binary operators `+ - * / % == != < <= > >=` are
/// recognised, so that the whole expression is checked for syntax; an
/// expression that uses one of them then fails at the first such operator,
/// since only `and` is computed here.
pub open spec fn parse_from(sig: Seq<Token>, i: int, at: Pos) -> Result<Seq<Term>, SassError>
    decreases sig.len() - i,
{
    if i < 0 || i >= sig.len() {
        err_at(at, ErrorKind::ExpectedExpression)
    } else {
        match term_of(sig[i]) {
            None => err_at(sig[i].pos, ErrorKind::ExpectedExpression),
            Some(t) => if i + 1 >= sig.len() {
                Ok(seq![t])
            } else {
                match operator_at(sig, i + 1) {
                    Err(e) => Err(e),
                    Ok((is_and, w)) => if is_and {
                        prepend(seq![t], parse_from(sig, i + 1 + w, sig[i + 1].pos))
                    } else {
                        unsupported(sig[i + 1].pos, parse_from(sig, i + 1 + w, sig[i + 1].pos))
                    },
                }
            },
        }
    }
}

/// The binary operator that starts at `k`: whether it is `and`, and how many
/// tokens it spans. `=` and `!` must be followed by `=`.
pub open spec fn operator_at(sig: Seq<Token>, k: int) -> Result<(bool, int), SassError> {
    let t = sig[k];
    let then_equal = k + 1 < sig.len() && is_symbol(sig[k + 1], Symbol::Equal);
    if is_ident_text(t, "and"@) {
        Ok((true, 1))
    } else if is_symbol(t, Symbol::Plus) || is_symbol(t, Symbol::Minus) || is_symbol(t, Symbol::Mul)
        || is_symbol(t, Symbol::Div) || is_symbol(t, Symbol::Percent) {
        Ok((false, 1))
    } else if is_symbol(t, Symbol::Equal) || is_symbol(t, Symbol::Bang) {
        if then_equal {
            Ok((false, 2))
        } else {
            err_at(
                if k + 1 < sig.len() { sig[k + 1].pos } else { t.pos },
                ErrorKind::ExpectedSymbol(Symbol::Equal),
            )
        }
    } else if is_symbol(t, Symbol::Lt) || is_symbol(t, Symbol::Gt) {
        Ok((false, if then_equal { 2 } else { 1 }))
    } else {
        err_at(t.pos, ErrorKind::UnexpectedToken)
    }
}

/// An operator that is not computed at `p`: a syntax error after it is
/// reported first, else the first such operator.
pub open spec fn unsupported(p: Pos, r: Result<Seq<Term>, SassError>) -> Result<
    Seq<Term>,
    SassError,
> {
    match r {
        Err(e) => if e.kind != ErrorKind::UnsupportedOperation {
            Err(e)
        } else {
            err_at(p, ErrorKind::UnsupportedOperation)
        },
        Ok(_) => err_at(p, ErrorKind::UnsupportedOperation),
    }
}

/// The state of a parse so far: operands collected, or the first operator
/// that is not computed.
pub open spec fn resume(ts: Seq<Term>, pending: Option<Pos>, r: Result<Seq<Term>, SassError>) -> Result<
    Seq<Term>,
    SassError,
> {
    match pending {
        None => prepend(ts, r),
        Some(p) => unsupported(p, r),
    }
}

fn operator_exec(sig: &Vec<Token>, k: usize) -> (r: Result<(bool, usize), SassError>)
    requires
        k < sig.len(),
    ensures
        match operator_at(sig@, k as int) {
            Ok((a, w)) => r matches Ok((b, x)) && a == b && w == x as int,
            Err(e) => r == Err::<(bool, usize), SassError>(e),
        },
{
    let t = &sig[k];
    let then_equal = k + 1 < sig.len() && sig[k + 1].is_symbol(Symbol::Equal);
    if t.is_ident_text("and") {
        Ok((true, 1))
    } else if t.is_symbol(Symbol::Plus) || t.is_symbol(Symbol::Minus) || t.is_symbol(Symbol::Mul)
        || t.is_symbol(Symbol::Div) || t.is_symbol(Symbol::Percent) {
        Ok((false, 1))
    } else if t.is_symbol(Symbol::Equal) || t.is_symbol(Symbol::Bang) {
        if then_equal {
            Ok((false, 2))
        } else {
            let p = if k + 1 < sig.len() {
                sig[k + 1].pos
            } else {
                t.pos
            };
            error_at(p, ErrorKind::ExpectedSymbol(Symbol::Equal))
        }
    } else if t.is_symbol(Symbol::Lt) || t.is_symbol(Symbol::Gt) {
        Ok(
            (
                false,
                if then_equal {
                    2
                } else {
                    1
                },
            ),
        )
    } else {
        error_at(t.pos, ErrorKind::UnexpectedToken)
    }
}

pub open spec fn prepend(ts: Seq<Term>, r: Result<Seq<Term>, SassError>) -> Result<
    Seq<Term>,
    SassError,
> {
    match r {
        Ok(rest) => Ok(ts + rest),
        Err(e) => Err(e),
    }
}

/// The value of one operand in the variable bindings `sc`.
pub open spec fn term_value(t: Term, sc: Map<Seq<char>, Value>) -> Result<Value, SassError> {
    match t {
        Term::Literal(v) => Ok(v),
        Term::Var(n, p) => if sc.contains_key(n@) {
            Ok(sc[n@])
        } else {
            err_at(p, ErrorKind::UndefinedVariable)
        },
    }
}

/// Short-circuit evaluation of an AND chain from operand `i` on: operands are
/// evaluated left to right until one is falsy or the last one is reached.
pub open spec fn eval_from(ts: Seq<Term>, i: int, sc: Map<Seq<char>, Value>) -> Result<
    Value,
    SassError,
>
    decreases ts.len() - i,
{
    if i < 0 || i >= ts.len() {
        Ok(Value::Null)
    } else {
        match term_value(ts[i], sc) {
            Err(e) => Err(e),
            Ok(v) => if !truthy(v) || i + 1 >= ts.len() {
                Ok(v)
            } else {
                eval_from(ts, i + 1, sc)
            },
        }
    }
}

/// The value of the expression that the tokens `s` spell, in bindings `sc`;
/// `at` is where an empty expression is reported.
pub open spec fn eval_tokens(s: Seq<Token>, at: Pos, sc: Map<Seq<char>, Value>) -> Result<
    Value,
    SassError,
> {
    match parse_from(significant(s), 0, at) {
        Err(e) => Err(e),
        Ok(ts) => eval_from(ts, 0, sc),
    }
}

pub fn term_from_token(t: &Token) -> (r: Option<Term>)
    ensures
        r == term_of(*t),
{
    match &t.kind {
        TokenKind::Number(n) => Some(Term::Literal(Value::Number(*n))),
        TokenKind::Str(s) => Some(Term::Literal(Value::Str(s.clone()))),
        TokenKind::Variable(s) => Some(Term::Var(s.clone(), t.pos)),
        TokenKind::Ident(s) => {
            if text_is(s, "true") {
                Some(Term::Literal(Value::Bool(true)))
            } else if text_is(s, "false") {
                Some(Term::Literal(Value::Bool(false)))
            } else if text_is(s, "null") {
                Some(Term::Literal(Value::Null))
            } else if text_is(s, "and") {
                None
            } else {
                Some(Term::Literal(Value::Ident(s.clone())))
            }
        },
        _ => None,
    }
}

proof fn lemma_prepend_push(ts: Seq<Term>, t: Term, r: Result<Seq<Term>, SassError>)
    ensures
        prepend(ts, prepend(seq![t], r)) == prepend(ts.push(t), r),
{
    if let Ok(rest) = r {
        assert(ts + (seq![t] + rest) =~= ts.push(t) + rest);
    }
}

/// Parses significant tokens as a chain of operands joined by operators.
pub fn parse_terms(sig: &Vec<Token>, at: Pos) -> (r: Result<Vec<Term>, SassError>)
    ensures
        match r {
            Ok(v) => parse_from(sig@, 0, at) == Ok::<Seq<Term>, SassError>(v@),
            Err(e) => parse_from(sig@, 0, at) == Err::<Seq<Term>, SassError>(e),
        },
{
    let mut terms: Vec<Term> = Vec::new();
    let mut pending: Option<Pos> = None;
    let mut i: usize = 0;
    let mut cur = at;
    assert(terms@ + seq![] =~= terms@);
    loop
        invariant
            i <= sig.len(),
            parse_from(sig@, 0, at) == resume(terms@, pending, parse_from(sig@, i as int, cur)),
        decreases sig.len() - i,
    {
        if i >= sig.len() {
            return error_at(cur, ErrorKind::ExpectedExpression);
        }
        let t = match term_from_token(&sig[i]) {
            None => {
                return error_at(sig[i].pos, ErrorKind::ExpectedExpression);
            },
            Some(t) => t,
        };
        if i + 1 >= sig.len() {
            match pending {
                Some(p) => {
                    return error_at(p, ErrorKind::UnsupportedOperation);
                },
                None => {
                    proof {
                        lemma_prepend_push(terms@, t, Ok(seq![]));
                        assert(seq![t] + seq![] =~= seq![t]);
                        assert(terms@.push(t) + seq![] =~= terms@.push(t));
                    }
                    terms.push(t);
                    return Ok(terms);
                },
            }
        }
        let (is_and, w) = match operator_exec(sig, i + 1) {
            Ok(x) => x,
            Err(e) => {
                return Err(e);
            },
        };
        let ghost rest = parse_from(sig@, i + 1 + w, sig@[i + 1].pos);
        if is_and {
            if pending.is_none() {
                proof {
                    lemma_prepend_push(terms@, t, rest);
                }
                terms.push(t);
            }
        } else if pending.is_none() {
            pending = Some(sig[i + 1].pos);
        }
        cur = sig[i + 1].pos;
        i = i + 1 + w;
    }
}

/// Evaluates one operand.
pub fn eval_term(t: &Term, scope: &Scope) -> (r: Result<Value, SassError>)
    ensures
        r == term_value(*t, scope@),
{
    match t {
        Term::Literal(v) => Ok(v.copied()),
        Term::Var(name, p) => match scope.get(name) {
            Some(v) => Ok(v),
            None => error_at(*p, ErrorKind::UndefinedVariable),
        },
    }
}

/// Evaluates an AND chain of operands, stopping at the first falsy one.
pub fn eval_terms(ts: &Vec<Term>, scope: &Scope) -> (r: Result<Value, SassError>)
    requires
        ts.len() >= 1,
    ensures
        r == eval_from(ts@, 0, scope@),
{
    let mut i: usize = 0;
    loop
        invariant
            i < ts.len(),
            eval_from(ts@, 0, scope@) == eval_from(ts@, i as int, scope@),
        decreases ts.len() - i,
    {
        let v = match eval_term(&ts[i], scope) {
            Ok(v) => v,
            Err(e) => {
                return Err(e);
            },
        };
        if !v.is_truthy() || i + 1 >= ts.len() {
            return Ok(v);
        }
        i = i + 1;
    }
}

/// Evaluates the expression spelled by `toks[start..end]` in `scope`.
/// Whitespace and comments among the tokens are ignored; an empty expression
/// is reported at `at`.
pub fn eval_expression(toks: &Vec<Token>, start: usize, end: usize, at: Pos, scope: &Scope) -> (r:
    Result<Value, SassError>)
    requires
        start <= end <= toks.len(),
    ensures
        r == eval_tokens(toks@.subrange(start as int, end as int), at, scope@),
{
    let sig = significant_tokens(toks, start, end);
    match parse_terms(&sig, at) {
        Err(e) => Err(e),
        Ok(ts) => {
            assert(ts@.len() >= 1);
            eval_terms(&ts, scope)
        },
    }
}

proof fn lemma_eval_suffix(ts: Seq<Term>, sc: Map<Seq<char>, Value>, vs: Seq<Value>, i: int)
    requires
        ts.len() == vs.len(),
        0 <= i < ts.len(),
        forall|j: int| 0 <= j < ts.len() ==> term_value(#[trigger] ts[j], sc) == Ok::<
            Value,
            SassError,
        >(vs[j]),
    ensures
        eval_from(ts, i, sc) == Ok::<Value, SassError>(and_chain(vs.subrange(i, vs.len() as int))),
    decreases ts.len() - i,
{
    let tail = vs.subrange(i, vs.len() as int);
    assert(tail[0] == vs[i]);
    assert(term_value(ts[i], sc) == Ok::<Value, SassError>(vs[i]));
    if truthy(vs[i]) && i + 1 < ts.len() {
        lemma_eval_suffix(ts, sc, vs, i + 1);
        assert(tail.drop_first() =~= vs.subrange(i + 1, vs.len() as int));
    }
}

/// Evaluating an AND chain whose operands evaluate without error to `vs`
/// yields the AND of `vs`: the first falsy value, or the last value when all
/// are truthy.
pub proof fn lemma_eval_is_and(ts: Seq<Term>, sc: Map<Seq<char>, Value>, vs: Seq<Value>)
    requires
        ts.len() == vs.len(),
        ts.len() >= 1,
        forall|j: int| 0 <= j < ts.len() ==> term_value(#[trigger] ts[j], sc) == Ok::<
            Value,
            SassError,
        >(vs[j]),
    ensures
        eval_from(ts, 0, sc) == Ok::<Value, SassError>(and_chain(vs)),
{
    lemma_eval_suffix(ts, sc, vs, 0);
    assert(vs.subrange(0, vs.len() as int) =~= vs);
}

proof fn lemma_stops_at(ts: Seq<Term>, sc: Map<Seq<char>, Value>, k: int, i: int)
    requires
        0 <= i <= k < ts.len(),
        term_value(ts[k], sc) is Ok,
        !truthy(term_value(ts[k], sc)->Ok_0),
        forall|j: int|
            0 <= j < k ==> #[trigger] term_value(ts[j], sc) is Ok && truthy(
                term_value(ts[j], sc)->Ok_0,
            ),
    ensures
        eval_from(ts, i, sc) == term_value(ts[k], sc),
    decreases k - i,
{
    if i < k {
        lemma_stops_at(ts, sc, k, i + 1);
    }
}

/// Once an operand evaluates to a falsy value (all before it being truthy),
/// that value is the result and the operands after it are never evaluated:
/// any chain that agrees up to that operand gives the same result, even one
/// whose later operands would fail.
pub proof fn lemma_and_short_circuits(
    ts: Seq<Term>,
    other: Seq<Term>,
    sc: Map<Seq<char>, Value>,
    k: int,
)
    requires
        0 <= k < ts.len(),
        k < other.len(),
        ts.take(k + 1) == other.take(k + 1),
        term_value(ts[k], sc) is Ok,
        !truthy(term_value(ts[k], sc)->Ok_0),
        forall|j: int|
            0 <= j < k ==> #[trigger] term_value(ts[j], sc) is Ok && truthy(
                term_value(ts[j], sc)->Ok_0,
            ),
    ensures
        eval_from(ts, 0, sc) == term_value(ts[k], sc),
        eval_from(other, 0, sc) == eval_from(ts, 0, sc),
{
    lemma_stops_at(ts, sc, k, 0);
    assert forall|j: int| 0 <= j <= k implies other[j] == ts[j] by {
        assert(other.take(k + 1)[j] == other[j]);
        assert(ts.take(k + 1)[j] == ts[j]);
    }
    assert forall|j: int|
        0 <= j < k implies #[trigger] term_value(other[j], sc) is Ok && truthy(
            term_value(other[j], sc)->Ok_0,
        ) by {
        assert(other[j] == ts[j]);
        assert(term_value(ts[j], sc) is Ok);
    }
    lemma_stops_at(other, sc, k, 0);
}

/// Whitespace and comments are transparent: two token runs with the same
/// significant tokens evaluate alike, wherever comments stand among them.
pub proof fn lemma_trivia_transparent(
    s: Seq<Token>,
    t: Seq<Token>,
    at: Pos,
    sc: Map<Seq<char>, Value>,
)
    requires
        significant(s) == significant(t),
    ensures
        eval_tokens(s, at, sc) == eval_tokens(t, at, sc),
{
}

} // verus!
