use vstd::prelude::*;

use crate::common::{err_at, error_at, ErrorKind, Pos, SassError, Symbol};
use crate::expr::{eval_expression, eval_from, eval_tokens, operator_at, parse_from, prepend, term_of, Term};
use crate::scope::Scope;
use crate::token::{
    is_at_rule_text,
    is_ident_text,
    is_symbol,
    is_trivia,
    keyword_is,
    keyword_matches,
    significant,
    Token,
};
use crate::value::truthy;

verus! {

/// The directives that the interpreter tells apart.
#[derive(Clone, Copy, Debug, PartialEq, Eq, Structural)]
pub enum Directive {
    If,
    Else,
    Function,
    Return,
    Other,
}

/// A directive is identified by its decoded keyword text alone, ignoring
/// ASCII case.
pub open spec fn directive_spec(text: Seq<char>) -> Directive {
    if keyword_is(text, "if"@) {
        Directive::If
    } else if keyword_is(text, "else"@) {
        Directive::Else
    } else if keyword_is(text, "function"@) {
        Directive::Function
    } else if keyword_is(text, "return"@) {
        Directive::Return
    } else {
        Directive::Other
    }
}

/// Dispatches a decoded directive keyword.
pub fn directive_of(text: &String) -> (r: Directive)
    ensures
        r == directive_spec(text@),
{
    if keyword_matches(text, "if") {
        Directive::If
    } else if keyword_matches(text, "else") {
        Directive::Else
    } else if keyword_matches(text, "function") {
        Directive::Function
    } else if keyword_matches(text, "return") {
        Directive::Return
    } else {
        Directive::Other
    }
}

/// Index of the first `{` at or after `i`, or `s.len()` if there is none.
pub open spec fn find_open(s: Seq<Token>, i: int) -> int
    decreases s.len() - i,
{
    if i < 0 || i >= s.len() {
        s.len() as int
    } else if is_symbol(s[i], Symbol::OpenCurlyBrace) {
        i
    } else {
        find_open(s, i + 1)
    }
}

/// Index of the `}` that closes a block whose contents start at `i`, with
/// `depth` blocks opened inside it so far; `s.len()` if the input ends first.
pub open spec fn find_close(s: Seq<Token>, i: int, depth: nat) -> int
    decreases s.len() - i,
{
    if i < 0 || i >= s.len() {
        s.len() as int
    } else if is_symbol(s[i], Symbol::CloseCurlyBrace) {
        if depth == 0 {
            i
        } else {
            find_close(s, i + 1, (depth - 1) as nat)
        }
    } else if is_symbol(s[i], Symbol::OpenCurlyBrace) {
        find_close(s, i + 1, depth + 1)
    } else {
        find_close(s, i + 1, depth)
    }
}

/// Index of the first token at or after `i` that is not trivia, or `s.len()`.
pub open spec fn skip_trivia(s: Seq<Token>, i: int) -> int
    decreases s.len() - i,
{
    if i < 0 || i >= s.len() {
        s.len() as int
    } else if is_trivia(s[i]) {
        skip_trivia(s, i + 1)
    } else {
        i
    }
}

/// Where running out of input is reported.
pub open spec fn end_pos(s: Seq<Token>, fallback: Pos) -> Pos {
    if s.len() > 0 {
        s.last().pos
    } else {
        fallback
    }
}

/// The branch chosen here, or else the one chosen further down the chain.
pub open spec fn pick(here: Option<(int, int)>, r: Result<(Option<(int, int)>, int), SassError>) -> Result<
    (Option<(int, int)>, int),
    SassError,
> {
    match r {
        Ok((later, end)) => Ok((if here is Some { here } else { later }, end)),
        Err(e) => Err(e),
    }
}

/// Interprets a conditional chain whose condition starts at `i`, the keyword
/// before it standing at `kp`. `done` says whether an earlier branch was
/// selected. The result is the token range of the selected body, if any, and
/// the index just past the chain. Every condition of the chain is evaluated,
/// whether or not an earlier branch was selected.
pub open spec fn chain_from(
    s: Seq<Token>,
    i: int,
    kp: Pos,
    sc: Map<Seq<char>, crate::value::Value>,
    done: bool,
) -> Result<(Option<(int, int)>, int), SassError>
    decreases s.len() - i,
    via chain_from_decreases
{
    if i < 0 || i > s.len() {
        err_at(kp, ErrorKind::UnexpectedEof)
    } else {
        let j = find_open(s, i);
        match eval_tokens(s.subrange(i, j), kp, sc) {
            Err(e) => Err(e),
            Ok(v) => if j >= s.len() {
                err_at(end_pos(s, kp), ErrorKind::ExpectedSymbol(Symbol::OpenCurlyBrace))
            } else {
                let c = find_close(s, j + 1, 0);
                if c >= s.len() {
                    err_at(end_pos(s, kp), ErrorKind::ExpectedSymbol(Symbol::CloseCurlyBrace))
                } else {
                    let here: Option<(int, int)> = if !done && truthy(v) {
                        Some((j + 1, c))
                    } else {
                        None
                    };
                    let done2 = done || truthy(v);
                    let k = skip_trivia(s, c + 1);
                    if k < s.len() && is_at_rule_text(s[k], "else"@) {
                        let m = skip_trivia(s, k + 1);
                        if m < s.len() && is_ident_text(s[m], "if"@) {
                            pick(here, chain_from(s, m + 1, s[m].pos, sc, done2))
                        } else if m < s.len() && is_symbol(s[m], Symbol::OpenCurlyBrace) {
                            let c2 = find_close(s, m + 1, 0);
                            if c2 >= s.len() {
                                err_at(
                                    end_pos(s, kp),
                                    ErrorKind::ExpectedSymbol(Symbol::CloseCurlyBrace),
                                )
                            } else {
                                Ok((if done2 { here } else { Some((m + 1, c2)) }, c2 + 1))
                            }
                        } else {
                            err_at(
                                if m < s.len() { s[m].pos } else { s[k].pos },
                                ErrorKind::ExpectedSymbol(Symbol::OpenCurlyBrace),
                            )
                        }
                    } else {
                        Ok((here, c + 1))
                    }
                }
            },
        }
    }
}

proof fn lemma_find_open_bounds(s: Seq<Token>, i: int)
    requires
        0 <= i <= s.len(),
    ensures
        i <= find_open(s, i) <= s.len(),
    decreases s.len() - i,
{
    if i < s.len() {
        lemma_find_open_bounds(s, i + 1);
    }
}

proof fn lemma_find_close_bounds(s: Seq<Token>, i: int, depth: nat)
    requires
        0 <= i <= s.len(),
    ensures
        i <= find_close(s, i, depth) <= s.len(),
    decreases s.len() - i,
{
    if i < s.len() {
        lemma_find_close_bounds(s, i + 1, (depth - 1) as nat);
        lemma_find_close_bounds(s, i + 1, depth + 1);
        lemma_find_close_bounds(s, i + 1, depth);
    }
}

pub proof fn lemma_skip_trivia_bounds(s: Seq<Token>, i: int)
    requires
        0 <= i <= s.len(),
    ensures
        i <= skip_trivia(s, i) <= s.len(),
    decreases s.len() - i,
{
    if i < s.len() {
        lemma_skip_trivia_bounds(s, i + 1);
    }
}

#[via_fn]
proof fn chain_from_decreases(
    s: Seq<Token>,
    i: int,
    kp: Pos,
    sc: Map<Seq<char>, crate::value::Value>,
    done: bool,
) {
    if 0 <= i <= s.len() {
        lemma_find_open_bounds(s, i);
        let j = find_open(s, i);
        if j < s.len() {
            lemma_find_close_bounds(s, j + 1, 0);
            let c = find_close(s, j + 1, 0);
            if c < s.len() {
                lemma_skip_trivia_bounds(s, c + 1);
                let k = skip_trivia(s, c + 1);
                if k < s.len() {
                    lemma_skip_trivia_bounds(s, k + 1);
                }
            }
        }
    }
}

/// A chain that succeeds ends after where it started, and its selected body
/// lies strictly inside it.
pub proof fn lemma_chain_bounds(
    s: Seq<Token>,
    i: int,
    kp: Pos,
    sc: Map<Seq<char>, crate::value::Value>,
    done: bool,
)
    requires
        0 <= i <= s.len(),
    ensures
        chain_from(s, i, kp, sc, done) matches Ok((sel, end)) ==> i < end <= s.len() && (
        sel matches Some((a, b)) ==> i < a <= b < end),
    decreases s.len() - i,
{
    lemma_find_open_bounds(s, i);
    let j = find_open(s, i);
    if j < s.len() {
        lemma_find_close_bounds(s, j + 1, 0);
        let c = find_close(s, j + 1, 0);
        if c < s.len() {
            lemma_skip_trivia_bounds(s, c + 1);
            let k = skip_trivia(s, c + 1);
            if k < s.len() {
                lemma_skip_trivia_bounds(s, k + 1);
                let m = skip_trivia(s, k + 1);
                if m < s.len() {
                    lemma_find_close_bounds(s, m + 1, 0);
                    let v = eval_tokens(s.subrange(i, j), kp, sc);
                    if v is Ok {
                        lemma_chain_bounds(s, m + 1, s[m].pos, sc, done || truthy(v->Ok_0));
                    }
                }
            }
        }
    }
}

fn find_open_exec(toks: &Vec<Token>, i: usize) -> (r: usize)
    requires
        i <= toks.len(),
    ensures
        r as int == find_open(toks@, i as int),
        i <= r <= toks.len(),
{
    let mut k: usize = i;
    while k < toks.len() && !toks[k].is_symbol(Symbol::OpenCurlyBrace)
        invariant
            i <= k <= toks.len(),
            find_open(toks@, i as int) == find_open(toks@, k as int),
        decreases toks.len() - k,
    {
        k = k + 1;
    }
    k
}

/// Index of the `}` closing the block whose contents start at `i`, or the
/// length of `toks` if the input ends first.
pub fn find_close_exec(toks: &Vec<Token>, i: usize) -> (r: usize)
    requires
        i <= toks.len(),
    ensures
        r as int == find_close(toks@, i as int, 0),
        i <= r <= toks.len(),
{
    let mut k: usize = i;
    let mut depth: usize = 0;
    while k < toks.len()
        invariant
            i <= k <= toks.len(),
            depth <= k,
            find_close(toks@, i as int, 0) == find_close(toks@, k as int, depth as nat),
        decreases toks.len() - k,
    {
        if toks[k].is_symbol(Symbol::CloseCurlyBrace) {
            if depth == 0 {
                return k;
            }
            depth = depth - 1;
        } else if toks[k].is_symbol(Symbol::OpenCurlyBrace) {
            depth = depth + 1;
        }
        k = k + 1;
    }
    k
}

/// Index of the first token at or after `i` that is not trivia.
pub fn skip_trivia_exec(toks: &Vec<Token>, i: usize) -> (r: usize)
    requires
        i <= toks.len(),
    ensures
        r as int == skip_trivia(toks@, i as int),
        i <= r <= toks.len(),
{
    let mut k: usize = i;
    while k < toks.len() && toks[k].is_trivia()
        invariant
            i <= k <= toks.len(),
            skip_trivia(toks@, i as int) == skip_trivia(toks@, k as int),
        decreases toks.len() - k,
    {
        k = k + 1;
    }
    k
}

pub fn end_pos_exec(toks: &Vec<Token>, fallback: Pos) -> (r: Pos)
    ensures
        r == end_pos(toks@, fallback),
{
    if toks.len() > 0 {
        toks[toks.len() - 1].pos
    } else {
        fallback
    }
}

/// The spec-level form of a chain result.
pub open spec fn chain_view(r: Result<(Option<(usize, usize)>, usize), SassError>) -> Result<
    (Option<(int, int)>, int),
    SassError,
> {
    match r {
        Ok((Some((a, b)), e)) => Ok((Some((a as int, b as int)), e as int)),
        Ok((None, e)) => Ok((None, e as int)),
        Err(e) => Err(e),
    }
}

fn chain_exec(toks: &Vec<Token>, i: usize, kp: Pos, scope: &Scope, done: bool) -> (r: Result<
    (Option<(usize, usize)>, usize),
    SassError,
>)
    requires
        i <= toks.len(),
    ensures
        chain_view(r) == chain_from(toks@, i as int, kp, scope@, done),
        r matches Ok((_, e)) ==> e <= toks.len(),
    decreases toks.len() - i,
{
    let j = find_open_exec(toks, i);
    let v = match eval_expression(toks, i, j, kp, scope) {
        Err(e) => {
            return Err(e);
        },
        Ok(v) => v,
    };
    if j >= toks.len() {
        return error_at(
            end_pos_exec(toks, kp),
            ErrorKind::ExpectedSymbol(Symbol::OpenCurlyBrace),
        );
    }
    let c = find_close_exec(toks, j + 1);
    if c >= toks.len() {
        return error_at(
            end_pos_exec(toks, kp),
            ErrorKind::ExpectedSymbol(Symbol::CloseCurlyBrace),
        );
    }
    let t = v.is_truthy();
    let here: Option<(usize, usize)> = if !done && t {
        Some((j + 1, c))
    } else {
        None
    };
    let done2 = done || t;
    let k = skip_trivia_exec(toks, c + 1);
    if k < toks.len() && toks[k].is_at_rule_text("else") {
        let m = skip_trivia_exec(toks, k + 1);
        if m < toks.len() && toks[m].is_ident_text("if") {
            let rest = chain_exec(toks, m + 1, toks[m].pos, scope, done2);
            match rest {
                Err(e) => Err(e),
                Ok((later, end)) => Ok(
                    (
                        match here {
                            Some(h) => Some(h),
                            None => later,
                        },
                        end,
                    ),
                ),
            }
        } else if m < toks.len() && toks[m].is_symbol(Symbol::OpenCurlyBrace) {
            let c2 = find_close_exec(toks, m + 1);
            if c2 >= toks.len() {
                return error_at(
                    end_pos_exec(toks, kp),
                    ErrorKind::ExpectedSymbol(Symbol::CloseCurlyBrace),
                );
            }
            Ok(
                (
                    if done2 {
                        here
                    } else {
                        Some((m + 1, c2))
                    },
                    c2 + 1,
                ),
            )
        } else {
            let p = if m < toks.len() {
                toks[m].pos
            } else {
                toks[k].pos
            };
            error_at(p, ErrorKind::ExpectedSymbol(Symbol::OpenCurlyBrace))
        }
    } else {
        Ok((here, c + 1))
    }
}

/// Interprets the conditional chain that starts with the `@if` keyword just
/// before `*at`. Every condition of the chain is evaluated eagerly; the first
/// truthy one selects its body (or the final `@else` body if none is). On
/// success the result is the token range `(start, end)` of the selected body's
/// contents, `None` when no branch is selected, and `*at` moves past the chain.
pub fn eval_if_chain(toks: &Vec<Token>, at: &mut usize, scope: &Scope) -> (r: Result<
    Option<(usize, usize)>,
    SassError,
>)
    requires
        1 <= *old(at) <= toks.len(),
    ensures
        match chain_from(toks@, *old(at) as int, toks@[*old(at) - 1].pos, scope@, false) {
            Ok((sel, end)) => r is Ok && *final(at) == end && match (r->Ok_0, sel) {
                (Some((a, b)), Some((x, y))) => a == x && b == y,
                (None, None) => true,
                _ => false,
            },
            Err(e) => r == Err::<Option<(usize, usize)>, SassError>(e) && *final(at) == *old(at),
        },
{
    let kp = toks[*at - 1].pos;
    match chain_exec(toks, *at, kp, scope, false) {
        Err(e) => Err(e),
        Ok((sel, end)) => {
            *at = end;
            Ok(sel)
        },
    }
}

/// Once a branch of a chain is selected, no later branch is: a chain entered
/// after a selection selects nothing more.
pub proof fn lemma_chain_selects_at_most_one(
    s: Seq<Token>,
    i: int,
    kp: Pos,
    sc: Map<Seq<char>, crate::value::Value>,
)
    ensures
        chain_from(s, i, kp, sc, true) matches Ok((sel, _)) ==> sel is None,
    decreases s.len() - i,
{
    if 0 <= i <= s.len() {
        lemma_find_open_bounds(s, i);
        let j = find_open(s, i);
        if j < s.len() {
            lemma_find_close_bounds(s, j + 1, 0);
            let c = find_close(s, j + 1, 0);
            if c < s.len() {
                lemma_skip_trivia_bounds(s, c + 1);
                let k = skip_trivia(s, c + 1);
                if k < s.len() {
                    lemma_skip_trivia_bounds(s, k + 1);
                    let m = skip_trivia(s, k + 1);
                    if m < s.len() {
                        lemma_chain_selects_at_most_one(s, m + 1, s[m].pos, sc);
                    }
                }
            }
        }
    }
}

/// A chain whose first condition is truthy selects the first body: the
/// tokens between its `{` and the matching `}`, whatever the later branches
/// hold.
pub proof fn lemma_chain_first_truthy_selected(
    s: Seq<Token>,
    i: int,
    kp: Pos,
    sc: Map<Seq<char>, crate::value::Value>,
)
    requires
        0 <= i <= s.len(),
        eval_tokens(s.subrange(i, find_open(s, i)), kp, sc) matches Ok(v) && truthy(v),
        chain_from(s, i, kp, sc, false) is Ok,
    ensures
        chain_from(s, i, kp, sc, false)->Ok_0.0 == Some(
            (find_open(s, i) + 1, find_close(s, find_open(s, i) + 1, 0)),
        ),
{
    lemma_find_open_bounds(s, i);
    let j = find_open(s, i);
    if j < s.len() {
        lemma_find_close_bounds(s, j + 1, 0);
        let c = find_close(s, j + 1, 0);
        if c < s.len() {
            lemma_skip_trivia_bounds(s, c + 1);
            let k = skip_trivia(s, c + 1);
            if k < s.len() {
                lemma_skip_trivia_bounds(s, k + 1);
            }
        }
    }
}

/// A chain whose first condition is falsy selects what the rest of the chain
/// selects: the next `@else if` branch onward, or the `@else` body, or nothing
/// when the chain ends there.
pub proof fn lemma_chain_falsy_passes_on(
    s: Seq<Token>,
    i: int,
    kp: Pos,
    sc: Map<Seq<char>, crate::value::Value>,
)
    requires
        0 <= i <= s.len(),
        eval_tokens(s.subrange(i, find_open(s, i)), kp, sc) matches Ok(v) && !truthy(v),
        chain_from(s, i, kp, sc, false) is Ok,
    ensures
        ({
            let j = find_open(s, i);
            let c = find_close(s, j + 1, 0);
            let k = skip_trivia(s, c + 1);
            let m = skip_trivia(s, k + 1);
            let sel = chain_from(s, i, kp, sc, false)->Ok_0.0;
            if k < s.len() && is_at_rule_text(s[k], "else"@) {
                if is_ident_text(s[m], "if"@) {
                    sel == chain_from(s, m + 1, s[m].pos, sc, false)->Ok_0.0
                } else {
                    sel == Some((m + 1, find_close(s, m + 1, 0)))
                }
            } else {
                sel is None
            }
        }),
{
}

/// Two tokens that differ at most in how a directive keyword was spelled,
/// wherever they stand: the same kind, or keywords that decode to the same
/// text. Positions are free, since a longer spelling moves later tokens.
pub open spec fn respelled(a: Token, b: Token) -> bool {
    a.kind == b.kind || (a.kind is AtRule && b.kind is AtRule && a.kind->AtRule_0@
        == b.kind->AtRule_0@)
}

pub open spec fn all_respelled(s: Seq<Token>, t: Seq<Token>) -> bool {
    s.len() == t.len() && forall|i: int| 0 <= i < s.len() ==> respelled(#[trigger] s[i], t[i])
}

/// The same operand, wherever it stands.
pub open spec fn term_match(a: Term, b: Term) -> bool {
    match (a, b) {
        (Term::Literal(v), Term::Literal(w)) => v == w,
        (Term::Var(n, _), Term::Var(m, _)) => n == m,
        _ => false,
    }
}

pub open spec fn terms_match(a: Seq<Term>, b: Seq<Term>) -> bool {
    a.len() == b.len() && forall|k: int| 0 <= k < a.len() ==> term_match(#[trigger] a[k], b[k])
}

/// Two outcomes that agree up to where an error is reported.
pub open spec fn same_outcome<T>(r1: Result<T, SassError>, r2: Result<T, SassError>) -> bool {
    match (r1, r2) {
        (Ok(x), Ok(y)) => x == y,
        (Err(e1), Err(e2)) => e1.kind == e2.kind,
        _ => false,
    }
}

pub open spec fn parse_match(r1: Result<Seq<Term>, SassError>, r2: Result<Seq<Term>, SassError>) -> bool {
    match (r1, r2) {
        (Ok(x), Ok(y)) => terms_match(x, y),
        (Err(e1), Err(e2)) => e1.kind == e2.kind,
        _ => false,
    }
}

pub proof fn lemma_respelled_scans(s: Seq<Token>, t: Seq<Token>, i: int, depth: nat)
    requires
        all_respelled(s, t),
        0 <= i <= s.len(),
    ensures
        find_open(s, i) == find_open(t, i),
        find_close(s, i, depth) == find_close(t, i, depth),
        skip_trivia(s, i) == skip_trivia(t, i),
    decreases s.len() - i,
{
    if i < s.len() {
        assert(respelled(s[i], t[i]));
        lemma_respelled_scans(s, t, i + 1, depth);
        lemma_respelled_scans(s, t, i + 1, depth + 1);
        if depth > 0 {
            lemma_respelled_scans(s, t, i + 1, (depth - 1) as nat);
        }
    }
}

proof fn lemma_respelled_significant(s: Seq<Token>, t: Seq<Token>)
    requires
        all_respelled(s, t),
    ensures
        all_respelled(significant(s), significant(t)),
    decreases s.len(),
{
    if s.len() > 0 {
        assert(respelled(s[s.len() - 1], t[t.len() - 1]));
        assert(all_respelled(s.drop_last(), t.drop_last())) by {
            assert forall|i: int| 0 <= i < s.drop_last().len() implies respelled(
                #[trigger] s.drop_last()[i],
                t.drop_last()[i],
            ) by {
                assert(respelled(s[i], t[i]));
            }
        }
        lemma_respelled_significant(s.drop_last(), t.drop_last());
        let a = significant(s.drop_last());
        let b = significant(t.drop_last());
        if !is_trivia(s.last()) {
            assert forall|i: int| 0 <= i < a.push(s.last()).len() implies respelled(
                #[trigger] a.push(s.last())[i],
                b.push(t.last())[i],
            ) by {
                if i < a.len() {
                    assert(respelled(a[i], b[i]));
                }
            }
        }
    }
}

proof fn lemma_prepend_match(x: Seq<Term>, y: Seq<Term>, r1: Result<Seq<Term>, SassError>, r2: Result<Seq<Term>, SassError>)
    requires
        terms_match(x, y),
        parse_match(r1, r2),
    ensures
        parse_match(prepend(x, r1), prepend(y, r2)),
{
    if let (Ok(a), Ok(b)) = (r1, r2) {
        assert forall|k: int| 0 <= k < (x + a).len() implies term_match(#[trigger] (x + a)[k], (y + b)[k]) by {
            if k < x.len() {
                assert(term_match(x[k], y[k]));
            } else {
                assert(term_match(a[k - x.len()], b[k - x.len()]));
            }
        }
    }
}

proof fn lemma_respelled_parse(s: Seq<Token>, t: Seq<Token>, i: int, at1: Pos, at2: Pos)
    requires
        all_respelled(s, t),
    ensures
        parse_match(parse_from(s, i, at1), parse_from(t, i, at2)),
    decreases s.len() - i,
{
    if 0 <= i < s.len() {
        assert(respelled(s[i], t[i]));
        if i + 1 < s.len() {
            assert(respelled(s[i + 1], t[i + 1]));
            if i + 2 < s.len() {
                assert(respelled(s[i + 2], t[i + 2]));
            }
            assert(same_outcome(operator_at(s, i + 1), operator_at(t, i + 1)));
            lemma_respelled_parse(s, t, i + 2, s[i + 1].pos, t[i + 1].pos);
            if i + 3 <= s.len() {
                lemma_respelled_parse(s, t, i + 3, s[i + 1].pos, t[i + 1].pos);
            }
            if let Some(x) = term_of(s[i]) {
                let y = term_of(t[i])->Some_0;
                assert(terms_match(seq![x], seq![y]));
                if let Ok((is_and, w)) = operator_at(s, i + 1) {
                    lemma_prepend_match(
                        seq![x],
                        seq![y],
                        parse_from(s, i + 1 + w, s[i + 1].pos),
                        parse_from(t, i + 1 + w, t[i + 1].pos),
                    );
                }
            }
        } else if let Some(x) = term_of(s[i]) {
            assert(term_match(x, term_of(t[i])->Some_0));
        }
    }
}

proof fn lemma_matching_eval(x: Seq<Term>, y: Seq<Term>, i: int, sc: Map<Seq<char>, crate::value::Value>)
    requires
        terms_match(x, y),
    ensures
        same_outcome(eval_from(x, i, sc), eval_from(y, i, sc)),
    decreases x.len() - i,
{
    if 0 <= i < x.len() {
        assert(term_match(x[i], y[i]));
        lemma_matching_eval(x, y, i + 1, sc);
    }
}

pub proof fn lemma_respelled_eval(s: Seq<Token>, t: Seq<Token>, i: int, j: int, at1: Pos, at2: Pos, sc: Map<Seq<char>, crate::value::Value>)
    requires
        all_respelled(s, t),
        0 <= i <= j <= s.len(),
    ensures
        same_outcome(eval_tokens(s.subrange(i, j), at1, sc), eval_tokens(t.subrange(i, j), at2, sc)),
{
    let a = s.subrange(i, j);
    let b = t.subrange(i, j);
    assert forall|k: int| 0 <= k < a.len() implies respelled(#[trigger] a[k], b[k]) by {
        assert(respelled(s[i + k], t[i + k]));
    }
    lemma_respelled_significant(a, b);
    lemma_respelled_parse(significant(a), significant(b), 0, at1, at2);
    if let (Ok(x), Ok(y)) = (parse_from(significant(a), 0, at1), parse_from(significant(b), 0, at2)) {
        lemma_matching_eval(x, y, 0, sc);
    }
}

/// Respelling directive keywords (for instance with escapes, or in another
/// ASCII case) leaves a conditional chain's outcome as it was, even though the
/// positions of the tokens change: the same branch is selected and the chain
/// ends at the same token, or the same kind of error is reported.
pub proof fn lemma_chain_respelled(
    s: Seq<Token>,
    t: Seq<Token>,
    i: int,
    kp1: Pos,
    kp2: Pos,
    sc: Map<Seq<char>, crate::value::Value>,
    done: bool,
)
    requires
        all_respelled(s, t),
    ensures
        same_outcome(chain_from(s, i, kp1, sc, done), chain_from(t, i, kp2, sc, done)),
    decreases s.len() - i,
{
    if 0 <= i <= s.len() {
        lemma_find_open_bounds(s, i);
        lemma_respelled_scans(s, t, i, 0);
        let j = find_open(s, i);
        lemma_respelled_eval(s, t, i, j, kp1, kp2, sc);
        if j < s.len() {
            lemma_find_close_bounds(s, j + 1, 0);
            lemma_respelled_scans(s, t, j + 1, 0);
            let c = find_close(s, j + 1, 0);
            if c < s.len() {
                lemma_skip_trivia_bounds(s, c + 1);
                lemma_respelled_scans(s, t, c + 1, 0);
                let k = skip_trivia(s, c + 1);
                if k < s.len() {
                    assert(respelled(s[k], t[k]));
                    lemma_skip_trivia_bounds(s, k + 1);
                    lemma_respelled_scans(s, t, k + 1, 0);
                    let m = skip_trivia(s, k + 1);
                    if m < s.len() {
                        assert(respelled(s[m], t[m]));
                        lemma_find_close_bounds(s, m + 1, 0);
                        lemma_respelled_scans(s, t, m + 1, 0);
                        let v = eval_tokens(s.subrange(i, j), kp1, sc);
                        if v is Ok {
                            let done2 = done || truthy(v->Ok_0);
                            lemma_chain_respelled(s, t, m + 1, s[m].pos, t[m].pos, sc, done2);
                        }
                    }
                }
            }
        }
    }
}

} // verus!
