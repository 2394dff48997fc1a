use vstd::prelude::*;

use crate::common::{err_at, error_at, ErrorKind, Pos, SassError, Symbol};
use crate::control::{
    directive_of,
    directive_spec,
    end_pos,
    end_pos_exec,
    all_respelled,
    respelled,
    lemma_respelled_eval,
    lemma_respelled_scans,
    lemma_chain_respelled,
    lemma_chain_bounds,
    lemma_skip_trivia_bounds,
    chain_from,
    eval_if_chain,
    skip_trivia,
    skip_trivia_exec,
    Directive,
};
use crate::expr::{eval_expression, eval_from, eval_tokens, parse_from, Term};
use crate::scope::Scope;
use crate::token::{is_symbol, significant, Token, TokenKind};
use crate::value::Value;

verus! {

/// A declared parameter: its name, its default (already evaluated where the
/// function was declared), and where it was declared.
#[derive(Debug)]
pub struct FuncArg {
    pub name: String,
    pub default: Option<Value>,
    pub pos: Pos,
}

/// The parameters of a function, in declared order.
#[derive(Debug)]
pub struct FuncArgs(pub Vec<FuncArg>);

/// The arguments of a call: by position, and by parameter name.
#[derive(Debug)]
pub struct CallArgs {
    pub positional: Vec<Value>,
    pub named: Scope,
}

/// A directive of a function body, kept unevaluated until the call.
#[derive(Debug)]
pub enum AtRule {
    /// `@return <tokens>;`, with the place of the keyword.
    Return(Pos, Vec<Token>),
    /// Any other directive, with the place of its keyword.
    Other(Pos),
}

/// The model of a body directive.
pub enum AtRuleView {
    Return(Pos, Seq<Token>),
    Other(Pos),
}

impl View for AtRule {
    type V = AtRuleView;

    open spec fn view(&self) -> AtRuleView {
        match self {
            AtRule::Return(p, t) => AtRuleView::Return(*p, t@),
            AtRule::Other(p) => AtRuleView::Other(*p),
        }
    }
}

pub open spec fn body_view(b: Seq<AtRule>) -> Seq<AtRuleView> {
    b.map_values(|r: AtRule| r@)
}

/// A user-defined function: the scope captured where it was declared, its
/// parameters, and its body.
#[derive(Debug)]
pub struct Function {
    scope: Scope,
    args: FuncArgs,
    body: Vec<AtRule>,
}

/// The value a parameter at index `idx` receives: the positional argument,
/// else the named one, else its default.
pub open spec fn arg_value(a: FuncArg, idx: int, call: CallArgs) -> Option<Value> {
    if 0 <= idx < call.positional@.len() {
        Some(call.positional@[idx])
    } else if call.named@.contains_key(a.name@) {
        Some(call.named@[a.name@])
    } else {
        a.default
    }
}

/// The bindings after binding the parameters `params` in order on top of `sc`.
pub open spec fn bind_params(params: Seq<FuncArg>, call: CallArgs, sc: Map<Seq<char>, Value>) -> Result<
    Map<Seq<char>, Value>,
    SassError,
>
    decreases params.len(),
{
    if params.len() == 0 {
        Ok(sc)
    } else {
        match bind_params(params.drop_last(), call, sc) {
            Err(e) => Err(e),
            Ok(m) => match arg_value(params.last(), params.len() - 1, call) {
                None => err_at(params.last().pos, ErrorKind::MissingArgument),
                Some(v) => Ok(m.insert(params.last().name@, v)),
            },
        }
    }
}

/// The result of running a body in bindings `sc`, called from `at`: the first
/// directive decides. `@return` evaluates its expression; any other directive
/// is unsupported; an empty body returns nothing.
pub open spec fn run_body(body: Seq<AtRuleView>, sc: Map<Seq<char>, Value>, at: Pos) -> Result<
    Value,
    SassError,
> {
    if body.len() == 0 {
        err_at(at, ErrorKind::MissingReturnValue)
    } else {
        match body[0] {
            AtRuleView::Return(p, toks) => eval_tokens(toks, p, sc),
            AtRuleView::Other(p) => err_at(p, ErrorKind::UnsupportedDirective),
        }
    }
}


/// Index of the first token at or after `i` that is the symbol `a` or `b`,
/// or `s.len()` if there is none.
pub open spec fn find_either(s: Seq<Token>, i: int, a: Symbol, b: Symbol) -> int
    decreases s.len() - i,
{
    if i < 0 || i >= s.len() {
        s.len() as int
    } else if is_symbol(s[i], a) || is_symbol(s[i], b) {
        i
    } else {
        find_either(s, i + 1, a, b)
    }
}

proof fn lemma_find_either_bounds(s: Seq<Token>, i: int, a: Symbol, b: Symbol)
    requires
        0 <= i <= s.len(),
    ensures
        i <= find_either(s, i, a, b) <= s.len(),
    decreases s.len() - i,
{
    if i < s.len() {
        lemma_find_either_bounds(s, i + 1, a, b);
    }
}

fn find_either_exec(toks: &Vec<Token>, i: usize, a: Symbol, b: Symbol) -> (r: usize)
    requires
        i <= toks.len(),
    ensures
        r as int == find_either(toks@, i as int, a, b),
        i <= r <= toks.len(),
{
    let mut k: usize = i;
    while k < toks.len() && !toks[k].is_symbol(a) && !toks[k].is_symbol(b)
        invariant
            i <= k <= toks.len(),
            find_either(toks@, i as int, a, b) == find_either(toks@, k as int, a, b),
        decreases toks.len() - k,
    {
        k = k + 1;
    }
    k
}

pub open spec fn prepend_param(a: FuncArg, r: Result<(Seq<FuncArg>, int), SassError>) -> Result<
    (Seq<FuncArg>, int),
    SassError,
> {
    match r {
        Ok((ps, e)) => Ok((seq![a] + ps, e)),
        Err(e) => Err(e),
    }
}

/// Parses the parameter list after `(`, from index `i` up to and including
/// `)`: `$name` or `$name: default`, separated by commas. Each default is
/// evaluated here, in the declaring bindings `sc`. The result holds the
/// parameters and the index just past `)`; `fb` is where running out of input
/// is reported when there is no token at all.
pub open spec fn params_from(s: Seq<Token>, i: int, sc: Map<Seq<char>, Value>, fb: Pos) -> Result<
    (Seq<FuncArg>, int),
    SassError,
>
    decreases s.len() - i,
    via params_from_decreases
{
    let q = skip_trivia(s, i);
    if i < 0 || i > s.len() || q >= s.len() {
        err_at(end_pos(s, fb), ErrorKind::ExpectedSymbol(Symbol::CloseParen))
    } else if is_symbol(s[q], Symbol::CloseParen) {
        Ok((seq![], q + 1))
    } else {
        match s[q].kind {
            TokenKind::Variable(name) => {
                let r = skip_trivia(s, q + 1);
                let has_default = r < s.len() && is_symbol(s[r], Symbol::Colon);
                let next = if has_default {
                    find_either(s, r + 1, Symbol::Comma, Symbol::CloseParen)
                } else {
                    r
                };
                let dflt = if has_default {
                    eval_tokens(s.subrange(r + 1, next), s[r].pos, sc)
                } else {
                    Ok(Value::Null)
                };
                match dflt {
                    Err(e) => Err(e),
                    Ok(v) => {
                        let a = FuncArg {
                            name,
                            default: if has_default { Some(v) } else { None },
                            pos: s[q].pos,
                        };
                        if next < s.len() && is_symbol(s[next], Symbol::Comma) {
                            prepend_param(a, params_from(s, next + 1, sc, fb))
                        } else if next < s.len() && is_symbol(s[next], Symbol::CloseParen) {
                            Ok((seq![a], next + 1))
                        } else {
                            err_at(
                                if next < s.len() { s[next].pos } else { end_pos(s, fb) },
                                ErrorKind::ExpectedSymbol(Symbol::CloseParen),
                            )
                        }
                    },
                }
            },
            _ => err_at(s[q].pos, ErrorKind::ExpectedIdentifier),
        }
    }
}

#[via_fn]
proof fn params_from_decreases(s: Seq<Token>, i: int, sc: Map<Seq<char>, Value>, fb: Pos) {
    if 0 <= i <= s.len() {
        lemma_skip_trivia_bounds(s, i);
        let q = skip_trivia(s, i);
        if q < s.len() {
            lemma_skip_trivia_bounds(s, q + 1);
            let r = skip_trivia(s, q + 1);
            if r < s.len() {
                lemma_find_either_bounds(s, r + 1, Symbol::Comma, Symbol::CloseParen);
            }
        }
    }
}

pub open spec fn prepend_node(n: AtRuleView, r: Result<(Seq<AtRuleView>, int), SassError>) -> Result<
    (Seq<AtRuleView>, int),
    SassError,
> {
    match r {
        Ok((ns, e)) => Ok((seq![n] + ns, e)),
        Err(e) => Err(e),
    }
}

/// Scans a function body from index `i`, inside `depth` open braces, up to and
/// including the brace that closes it. Each directive becomes nodes:
/// `@return` keeps the tokens up to `;` or `}` unevaluated; an `@if` chain is
/// interpreted now, in the declaring bindings `sc` (every condition evaluated,
/// errors propagated), and contributes exactly the nodes of its selected body,
/// or none when no branch is selected; any other directive is kept as
/// unsupported. Every other `{` opens and `}` closes a level. The result holds
/// the nodes and the index just past the closing brace; running out of input
/// is reported at `fb`.
pub open spec fn body_from(
    s: Seq<Token>,
    i: int,
    depth: nat,
    sc: Map<Seq<char>, Value>,
    fb: Pos,
) -> Result<
    (Seq<AtRuleView>, int),
    SassError,
>
    decreases s.len() - i,
    via body_from_decreases
{
    if i < 0 || i >= s.len() {
        err_at(fb, ErrorKind::UnexpectedEof)
    } else {
        match s[i].kind {
            TokenKind::AtRule(t) => if directive_spec(t@) == Directive::Return {
                let e = find_either(s, i + 1, Symbol::SemiColon, Symbol::CloseCurlyBrace);
                let next = if e < s.len() && is_symbol(s[e], Symbol::SemiColon) {
                    e + 1
                } else {
                    e
                };
                prepend_node(
                    AtRuleView::Return(s[i].pos, s.subrange(i + 1, e)),
                    body_from(s, next, depth, sc, fb),
                )
            } else if directive_spec(t@) == Directive::If {
                match chain_from(s, i + 1, s[i].pos, sc, false) {
                    Err(e) => Err(e),
                    Ok((None, end)) => body_from(s, end, depth, sc, fb),
                    Ok((Some((a, _b)), end)) => match body_from(s, a, 1, sc, fb) {
                        Err(e) => Err(e),
                        Ok((inner, _)) => prepend_nodes(inner, body_from(s, end, depth, sc, fb)),
                    },
                }
            } else {
                prepend_node(AtRuleView::Other(s[i].pos), body_from(s, i + 1, depth, sc, fb))
            },
            TokenKind::Symbol(Symbol::CloseCurlyBrace) => if depth <= 1 {
                Ok((seq![], i + 1))
            } else {
                body_from(s, i + 1, (depth - 1) as nat, sc, fb)
            },
            TokenKind::Symbol(Symbol::OpenCurlyBrace) => body_from(s, i + 1, depth + 1, sc, fb),
            _ => body_from(s, i + 1, depth, sc, fb),
        }
    }
}

#[via_fn]
proof fn body_from_decreases(
    s: Seq<Token>,
    i: int,
    depth: nat,
    sc: Map<Seq<char>, Value>,
    fb: Pos,
) {
    if 0 <= i < s.len() {
        lemma_chain_bounds(s, i + 1, s[i].pos, sc, false);
        lemma_find_either_bounds(s, i + 1, Symbol::SemiColon, Symbol::CloseCurlyBrace);
    }
}

/// A declaration after the `@function` keyword (which stands just before
/// `at`): the name, the parameters, the body, and the index just past the
/// closing brace.
pub open spec fn decl_spec(s: Seq<Token>, at: int, sc: Map<Seq<char>, Value>) -> Result<
    (Seq<char>, Seq<FuncArg>, Seq<AtRuleView>, int),
    SassError,
> {
    let kp = s[at - 1].pos;
    let n = skip_trivia(s, at);
    if n >= s.len() {
        err_at(kp, ErrorKind::ExpectedFunctionName)
    } else {
        match s[n].kind {
            TokenKind::Ident(name) => {
                let p = skip_trivia(s, n + 1);
                if p >= s.len() || !is_symbol(s[p], Symbol::OpenParen) {
                    err_at(
                        if p < s.len() { s[p].pos } else { s[n].pos },
                        ErrorKind::ExpectedFunctionParen,
                    )
                } else {
                    match params_from(s, p + 1, sc, s[n].pos) {
                        Err(e) => Err(e),
                        Ok((ps, c)) => {
                            let b = skip_trivia(s, c);
                            if b >= s.len() || !is_symbol(s[b], Symbol::OpenCurlyBrace) {
                                err_at(
                                    if b < s.len() { s[b].pos } else { s[n].pos },
                                    ErrorKind::ExpectedSymbol(Symbol::OpenCurlyBrace),
                                )
                            } else {
                                match body_from(s, b + 1, 1, sc, s[n].pos) {
                                    Err(e) => Err(e),
                                    Ok((body, end)) => Ok((name@, ps, body, end)),
                                }
                            }
                        },
                    }
                }
            },
            _ => err_at(s[n].pos, ErrorKind::ExpectedFunctionName),
        }
    }
}


/// `toks[a..b]`, copied.
fn copy_range(toks: &Vec<Token>, a: usize, b: usize) -> (r: Vec<Token>)
    requires
        a <= b <= toks.len(),
    ensures
        r@ == toks@.subrange(a as int, b as int),
{
    let mut out: Vec<Token> = Vec::new();
    let mut k: usize = a;
    while k < b
        invariant
            a <= k <= b <= toks.len(),
            out@ == toks@.subrange(a as int, k as int),
        decreases b - k,
    {
        out.push(toks[k].copied());
        assert(out@ =~= toks@.subrange(a as int, k + 1));
        k = k + 1;
    }
    out
}

proof fn lemma_prepend_param_push(ps: Seq<FuncArg>, a: FuncArg, r: Result<(Seq<FuncArg>, int), SassError>)
    ensures
        prepend_params(ps, prepend_param(a, r)) == prepend_params(ps.push(a), r),
{
    if let Ok((rest, e)) = r {
        assert(ps + (seq![a] + rest) =~= ps.push(a) + rest);
    }
}

pub open spec fn prepend_params(ps: Seq<FuncArg>, r: Result<(Seq<FuncArg>, int), SassError>) -> Result<
    (Seq<FuncArg>, int),
    SassError,
> {
    match r {
        Ok((rest, e)) => Ok((ps + rest, e)),
        Err(e) => Err(e),
    }
}

/// Parses a parameter list from just after `(`, as `params_from` says.
fn parse_params(toks: &Vec<Token>, start: usize, scope: &Scope, fb: Pos) -> (r: Result<
    (Vec<FuncArg>, usize),
    SassError,
>)
    requires
        start <= toks.len(),
    ensures
        match params_from(toks@, start as int, scope@, fb) {
            Ok((ps, e)) => r matches Ok((v, e2)) && v@ == ps && e2 == e,
            Err(e) => r == Err::<(Vec<FuncArg>, usize), SassError>(e),
        },
        r matches Ok((_, e)) ==> e <= toks.len(),
{
    let mut out: Vec<FuncArg> = Vec::new();
    let mut i: usize = start;
    assert(out@ + seq![] =~= out@);
    loop
        invariant
            i <= toks.len(),
            params_from(toks@, start as int, scope@, fb) == prepend_params(
                out@,
                params_from(toks@, i as int, scope@, fb),
            ),
        decreases toks.len() - i,
    {
        let q = skip_trivia_exec(toks, i);
        if q >= toks.len() {
            return error_at(end_pos_exec(toks, fb), ErrorKind::ExpectedSymbol(Symbol::CloseParen));
        }
        if toks[q].is_symbol(Symbol::CloseParen) {
            assert(out@ + seq![] =~= out@);
            return Ok((out, q + 1));
        }
        let name = match &toks[q].kind {
            TokenKind::Variable(n) => n.clone(),
            _ => {
                return error_at(toks[q].pos, ErrorKind::ExpectedIdentifier);
            },
        };
        let r = skip_trivia_exec(toks, q + 1);
        let has_default = r < toks.len() && toks[r].is_symbol(Symbol::Colon);
        let next = if has_default {
            find_either_exec(toks, r + 1, Symbol::Comma, Symbol::CloseParen)
        } else {
            r
        };
        let default = if has_default {
            match eval_expression(toks, r + 1, next, toks[r].pos, scope) {
                Ok(v) => Some(v),
                Err(e) => {
                    return Err(e);
                },
            }
        } else {
            None
        };
        let a = FuncArg { name, default, pos: toks[q].pos };
        if next < toks.len() && toks[next].is_symbol(Symbol::Comma) {
            proof {
                lemma_prepend_param_push(out@, a, params_from(toks@, next + 1, scope@, fb));
            }
            out.push(a);
            i = next + 1;
        } else if next < toks.len() && toks[next].is_symbol(Symbol::CloseParen) {
            proof {
                lemma_prepend_param_push(out@, a, Ok((seq![], next + 1)));
                assert(seq![a] + seq![] =~= seq![a]);
                assert(out@.push(a) + seq![] =~= out@.push(a));
            }
            out.push(a);
            return Ok((out, next + 1));
        } else {
            let ep = if next < toks.len() {
                toks[next].pos
            } else {
                end_pos_exec(toks, fb)
            };
            return error_at(ep, ErrorKind::ExpectedSymbol(Symbol::CloseParen));
        }
    }
}

pub open spec fn prepend_nodes(ns: Seq<AtRuleView>, r: Result<(Seq<AtRuleView>, int), SassError>) -> Result<
    (Seq<AtRuleView>, int),
    SassError,
> {
    match r {
        Ok((rest, e)) => Ok((ns + rest, e)),
        Err(e) => Err(e),
    }
}

proof fn lemma_prepend_node_push(
    ns: Seq<AtRuleView>,
    n: AtRuleView,
    r: Result<(Seq<AtRuleView>, int), SassError>,
)
    ensures
        prepend_nodes(ns, prepend_node(n, r)) == prepend_nodes(ns.push(n), r),
{
    if let Ok((rest, e)) = r {
        assert(ns + (seq![n] + rest) =~= ns.push(n) + rest);
    }
}

proof fn lemma_prepend_nodes_concat(
    ns: Seq<AtRuleView>,
    more: Seq<AtRuleView>,
    r: Result<(Seq<AtRuleView>, int), SassError>,
)
    ensures
        prepend_nodes(ns, prepend_nodes(more, r)) == prepend_nodes(ns + more, r),
{
    if let Ok((rest, e)) = r {
        assert(ns + (more + rest) =~= (ns + more) + rest);
    }
}

/// Moves the nodes of `more` to the end of `out`.
fn append_nodes(out: &mut Vec<AtRule>, more: Vec<AtRule>)
    ensures
        body_view(final(out)@) == body_view(old(out)@) + body_view(more@),
{
    let ghost first = out@;
    let mut rest = more;
    out.append(&mut rest);
    assert(body_view(out@) =~= body_view(first) + body_view(more@));
}

/// Scans a function body from just after its `{`, as `body_from` says.
fn scan_body(toks: &Vec<Token>, start: usize, scope: &Scope, fb: Pos) -> (r: Result<
    (Vec<AtRule>, usize),
    SassError,
>)
    requires
        1 <= start <= toks.len(),
    ensures
        match body_from(toks@, start as int, 1, scope@, fb) {
            Ok((ns, e)) => r matches Ok((v, e2)) && body_view(v@) == ns && e2 == e,
            Err(e) => r == Err::<(Vec<AtRule>, usize), SassError>(e),
        },
        r matches Ok((_, e)) ==> e <= toks.len(),
    decreases toks.len() - start,
{
    let mut out: Vec<AtRule> = Vec::new();
    let mut i: usize = start;
    let mut depth: usize = 1;
    assert(body_view(out@) + seq![] =~= body_view(out@));
    loop
        invariant
            i <= toks.len(),
            1 <= start <= i,
            1 <= depth <= i - start + 1,
            body_from(toks@, start as int, 1, scope@, fb) == prepend_nodes(
                body_view(out@),
                body_from(toks@, i as int, depth as nat, scope@, fb),
            ),
        decreases toks.len() - i,
    {
        if i >= toks.len() {
            return error_at(fb, ErrorKind::UnexpectedEof);
        }
        match &toks[i].kind {
            TokenKind::AtRule(t) => {
                if directive_of(t) == Directive::Return {
                    let e = find_either_exec(toks, i + 1, Symbol::SemiColon, Symbol::CloseCurlyBrace);
                    let next = if e < toks.len() && toks[e].is_symbol(Symbol::SemiColon) {
                        e + 1
                    } else {
                        e
                    };
                    let node = AtRule::Return(toks[i].pos, copy_range(toks, i + 1, e));
                    proof {
                        lemma_prepend_node_push(
                            body_view(out@),
                            node@,
                            body_from(toks@, next as int, depth as nat, scope@, fb),
                        );
                    }
                    let ghost prev = out@;
                    out.push(node);
                    assert(body_view(out@) =~= body_view(prev).push(node@));
                    i = next;
                } else if directive_of(t) == Directive::If {
                    let mut end = i + 1;
                    let sel = match eval_if_chain(toks, &mut end, scope) {
                        Ok(sel) => sel,
                        Err(e) => {
                            return Err(e);
                        },
                    };
                    proof {
                        lemma_chain_bounds(toks@, i + 1, toks@[i as int].pos, scope@, false);
                    }
                    if let Some((a, _b)) = sel {
                        let inner = match scan_body(toks, a, scope, fb) {
                            Ok((inner, _)) => inner,
                            Err(e) => {
                                return Err(e);
                            },
                        };
                        proof {
                            lemma_prepend_nodes_concat(
                                body_view(out@),
                                body_view(inner@),
                                body_from(toks@, end as int, depth as nat, scope@, fb),
                            );
                        }
                        append_nodes(&mut out, inner);
                    }
                    i = end;
                } else {
                    let node = AtRule::Other(toks[i].pos);
                    proof {
                        lemma_prepend_node_push(
                            body_view(out@),
                            node@,
                            body_from(toks@, i + 1, depth as nat, scope@, fb),
                        );
                    }
                    let ghost prev = out@;
                    out.push(node);
                    assert(body_view(out@) =~= body_view(prev).push(node@));
                    i = i + 1;
                }
            },
            TokenKind::Symbol(Symbol::CloseCurlyBrace) => {
                if depth <= 1 {
                    assert(body_view(out@) + seq![] =~= body_view(out@));
                    return Ok((out, i + 1));
                }
                depth = depth - 1;
                i = i + 1;
            },
            TokenKind::Symbol(Symbol::OpenCurlyBrace) => {
                depth = depth + 1;
                i = i + 1;
            },
            _ => {
                i = i + 1;
            },
        }
    }
}


impl FuncArg {
    /// An independent copy.
    pub fn copied(&self) -> (r: FuncArg)
        ensures
            r == *self,
    {
        let default = match &self.default {
            Some(v) => Some(v.copied()),
            None => None,
        };
        FuncArg { name: self.name.clone(), default, pos: self.pos }
    }
}

impl AtRule {
    /// An independent copy.
    pub fn copied(&self) -> (r: AtRule)
        ensures
            r@ == self@,
    {
        match self {
            AtRule::Return(p, toks) => {
                let copy = copy_range(toks, 0, toks.len());
                assert(copy@ =~= toks@);
                AtRule::Return(*p, copy)
            },
            AtRule::Other(p) => AtRule::Other(*p),
        }
    }
}

impl Function {
    /// The bindings that the body sees.
    pub closed spec fn scope_view(&self) -> Map<Seq<char>, Value> {
        self.scope@
    }

    /// The declared parameters.
    pub closed spec fn params(&self) -> Seq<FuncArg> {
        self.args.0@
    }

    /// The body directives.
    pub closed spec fn body(&self) -> Seq<AtRuleView> {
        body_view(self.body@)
    }

    pub fn new(scope: Scope, args: FuncArgs, body: Vec<AtRule>) -> (r: Function)
        ensures
            r.scope_view() == scope@,
            r.params() == args.0@,
            r.body() == body_view(body@),
    {
        Function { scope, args, body }
    }

    /// Parses a function declaration whose `@function` keyword stands just
    /// before `*at`: the name, the parameter list (defaults evaluated now, in
    /// `scope`), and the body. The function captures a snapshot of `scope`.
    /// On success `*at` moves past the closing brace.
    pub fn decl_from_tokens(toks: &Vec<Token>, at: &mut usize, scope: &Scope) -> (r: Result<
        (String, Function),
        SassError,
    >)
        requires
            1 <= *old(at) <= toks.len(),
        ensures
            match decl_spec(toks@, *old(at) as int, scope@) {
                Ok((name, ps, body, end)) => r matches Ok((n, f)) && n@ == name && f.params()
                    == ps && f.body() == body && f.scope_view() == scope@ && *final(at) == end,
                Err(e) => r == Err::<(String, Function), SassError>(e) && *final(at) == *old(at),
            },
    {
        let kp = toks[*at - 1].pos;
        let n = skip_trivia_exec(toks, *at);
        if n >= toks.len() {
            return error_at(kp, ErrorKind::ExpectedFunctionName);
        }
        let name = match &toks[n].kind {
            TokenKind::Ident(s) => s.clone(),
            _ => {
                return error_at(toks[n].pos, ErrorKind::ExpectedFunctionName);
            },
        };
        let npos = toks[n].pos;
        let p = skip_trivia_exec(toks, n + 1);
        if p >= toks.len() || !toks[p].is_symbol(Symbol::OpenParen) {
            let ep = if p < toks.len() {
                toks[p].pos
            } else {
                npos
            };
            return error_at(ep, ErrorKind::ExpectedFunctionParen);
        }
        let (params, c) = match parse_params(toks, p + 1, scope, npos) {
            Ok(x) => x,
            Err(e) => {
                return Err(e);
            },
        };
        let b = skip_trivia_exec(toks, c);
        if b >= toks.len() || !toks[b].is_symbol(Symbol::OpenCurlyBrace) {
            let ep = if b < toks.len() {
                toks[b].pos
            } else {
                npos
            };
            return error_at(ep, ErrorKind::ExpectedSymbol(Symbol::OpenCurlyBrace));
        }
        let (body, end) = match scan_body(toks, b + 1, scope, npos) {
            Ok(x) => x,
            Err(e) => {
                return Err(e);
            },
        };
        *at = end;
        Ok((name, Function::new(scope.snapshot(), FuncArgs(params), body)))
    }

    /// An independent copy: binding either leaves the other as it is, so
    /// one declaration can be bound and called many times.
    pub fn copied(&self) -> (r: Function)
        ensures
            r.scope_view() == self.scope_view(),
            r.params() == self.params(),
            r.body() == self.body(),
    {
        let mut args: Vec<FuncArg> = Vec::new();
        let mut i: usize = 0;
        while i < self.args.0.len()
            invariant
                i <= self.args.0.len(),
                args@ == self.args.0@.take(i as int),
            decreases self.args.0.len() - i,
        {
            args.push(self.args.0[i].copied());
            assert(args@ =~= self.args.0@.take(i + 1));
            i = i + 1;
        }
        assert(args@ =~= self.args.0@);
        let mut body: Vec<AtRule> = Vec::new();
        let mut k: usize = 0;
        while k < self.body.len()
            invariant
                k <= self.body.len(),
                body_view(body@) == body_view(self.body@.take(k as int)),
            decreases self.body.len() - k,
        {
            let ghost prev = body@;
            body.push(self.body[k].copied());
            assert(body_view(body@) =~= body_view(prev).push(self.body@[k as int]@));
            assert(body_view(self.body@.take(k + 1)) =~= body_view(self.body@.take(k as int)).push(
                self.body@[k as int]@,
            ));
            k = k + 1;
        }
        assert(self.body@.take(self.body.len() as int) =~= self.body@);
        Function { scope: self.scope.snapshot(), args: FuncArgs(args), body }
    }

    /// Binds the call's arguments to the parameters, in declared order: each
    /// takes the positional argument at its index, else the argument named
    /// like it, else its default; a parameter with none of these fails.
    /// The bound values shadow the captured bindings.
    pub fn args(self, call: &CallArgs) -> (r: Result<Function, SassError>)
        ensures
            match bind_params(self.params(), *call, self.scope_view()) {
                Ok(m) => r matches Ok(f) && f.scope_view() == m && f.params() == self.params()
                    && f.body() == self.body(),
                Err(e) => r == Err::<Function, SassError>(e),
            },
    {
        let Function { scope, args, body } = self;
        let mut bound = scope;
        match bind_into(&args, call, &mut bound) {
            Ok(()) => Ok(Function { scope: bound, args, body }),
            Err(e) => Err(e),
        }
    }

    /// Runs the body in the bound scope; `at` is the place of the call.
    pub fn call(&self, at: Pos) -> (r: Result<Value, SassError>)
        ensures
            r == run_body(self.body(), self.scope_view(), at),
    {
        if self.body.len() == 0 {
            return error_at(at, ErrorKind::MissingReturnValue);
        }
        assert(self.body()[0] == self.body@[0]@);
        match &self.body[0] {
            AtRule::Return(p, toks) => {
                assert(toks@.subrange(0, toks.len() as int) =~= toks@);
                eval_expression(toks, 0, toks.len(), *p, &self.scope)
            },
            AtRule::Other(p) => error_at(*p, ErrorKind::UnsupportedDirective),
        }
    }
}

/// Binds the parameters `args` into `scope`, as `bind_params` says.
fn bind_into(args: &FuncArgs, call: &CallArgs, scope: &mut Scope) -> (r: Result<(), SassError>)
    ensures
        match bind_params(args.0@, *call, old(scope)@) {
            Ok(m) => r is Ok && final(scope)@ == m,
            Err(e) => r == Err::<(), SassError>(e),
        },
{
    let ghost sc0 = scope@;
    let mut i: usize = 0;
    while i < args.0.len()
        invariant
            i <= args.0.len(),
            sc0 == old(scope)@,
            bind_params(args.0@.take(i as int), *call, sc0) == Ok::<Map<Seq<char>, Value>, SassError>(
                scope@,
            ),
        decreases args.0.len() - i,
    {
        let a = &args.0[i];
        assert(args.0@.take(i + 1).drop_last() =~= args.0@.take(i as int));
        assert(args.0@.take(i + 1).last() == args.0@[i as int]);
        let v = if i < call.positional.len() {
            call.positional[i].copied()
        } else {
            match call.named.get(&a.name) {
                Some(v) => v,
                None => match &a.default {
                    Some(d) => d.copied(),
                    None => {
                        proof {
                            assert(arg_value(args.0@[i as int], i as int, *call) is None);
                            lemma_bind_error_persists(args.0@, *call, sc0, i + 1);
                            assert(args.0@.take(args.0.len() as int) =~= args.0@);
                        }
                        return error_at(a.pos, ErrorKind::MissingArgument);
                    },
                },
            }
        };
        scope.insert(a.name.clone(), v);
        i = i + 1;
    }
    assert(args.0@.take(args.0.len() as int) =~= args.0@);
    Ok(())
}

proof fn lemma_bind_error_persists(
    params: Seq<FuncArg>,
    call: CallArgs,
    sc: Map<Seq<char>, Value>,
    n: int,
)
    requires
        1 <= n <= params.len(),
        bind_params(params.take(n), call, sc) is Err,
    ensures
        bind_params(params, call, sc) == bind_params(params.take(n), call, sc),
    decreases params.len() - n,
{
    if n < params.len() {
        assert(params.take(n + 1).drop_last() =~= params.take(n));
        lemma_bind_error_persists(params, call, sc, n + 1);
    } else {
        assert(params.take(n) =~= params);
    }
}

/// A function whose single parameter has no default and whose body is just
/// `@return` of that parameter, called with one positional argument, returns
/// that argument.
pub proof fn lemma_returns_bound_argument(
    f: Function,
    call: CallArgs,
    at: Pos,
    param: FuncArg,
    ret_pos: Pos,
    var: Token,
    var_name: String,
    v: Value,
)
    requires
        f.params() == seq![param],
        param.default is None,
        var.kind == TokenKind::Variable(var_name),
        var_name@ == param.name@,
        f.body() == seq![AtRuleView::Return(ret_pos, seq![var])],
        call.positional@ == seq![v],
    ensures
        bind_params(f.params(), call, f.scope_view()) matches Ok(m) && run_body(f.body(), m, at)
            == Ok::<Value, SassError>(v),
{
    let ps = f.params();
    assert(ps.drop_last() =~= Seq::<FuncArg>::empty());
    let m = f.scope_view().insert(param.name@, v);
    assert(bind_params(ps.drop_last(), call, f.scope_view()) == Ok::<
        Map<Seq<char>, Value>,
        SassError,
    >(f.scope_view()));
    assert(ps.last() == param);
    assert(arg_value(param, 0, call) == Some(v));
    assert(bind_params(ps, call, f.scope_view()) == Ok::<Map<Seq<char>, Value>, SassError>(m));
    let toks = seq![var];
    assert(toks.drop_last() =~= Seq::<Token>::empty());
    assert(significant(Seq::<Token>::empty()) == Seq::<Token>::empty());
    assert(Seq::<Token>::empty().push(var) =~= toks);
    assert(significant(toks) == toks);
    let t = Term::Var(var_name, var.pos);
    assert(parse_from(toks, 0, ret_pos) == Ok::<Seq<Term>, SassError>(seq![t]));
    assert(eval_from(seq![t], 0, m) == Ok::<Value, SassError>(v));
}

/// Two body directives of the same kind, whose `@return` tokens differ at
/// most in how keywords were spelled; positions are free.
pub open spec fn node_match(a: AtRuleView, b: AtRuleView) -> bool {
    match (a, b) {
        (AtRuleView::Return(_, s), AtRuleView::Return(_, t)) => all_respelled(s, t),
        (AtRuleView::Other(_), AtRuleView::Other(_)) => true,
        _ => false,
    }
}

pub open spec fn nodes_match(a: Seq<AtRuleView>, b: Seq<AtRuleView>) -> bool {
    a.len() == b.len() && forall|k: int| 0 <= k < a.len() ==> node_match(#[trigger] a[k], b[k])
}

/// Two parameters with the same name and default; positions are free.
pub open spec fn param_match(a: FuncArg, b: FuncArg) -> bool {
    a.name == b.name && a.default == b.default
}

pub open spec fn params_match(a: Seq<FuncArg>, b: Seq<FuncArg>) -> bool {
    a.len() == b.len() && forall|k: int| 0 <= k < a.len() ==> param_match(#[trigger] a[k], b[k])
}

pub open spec fn body_outcomes_match(
    r1: Result<(Seq<AtRuleView>, int), SassError>,
    r2: Result<(Seq<AtRuleView>, int), SassError>,
) -> bool {
    match (r1, r2) {
        (Ok((a, e1)), Ok((b, e2))) => e1 == e2 && nodes_match(a, b),
        (Err(e1), Err(e2)) => e1.kind == e2.kind,
        _ => false,
    }
}

pub open spec fn param_outcomes_match(
    r1: Result<(Seq<FuncArg>, int), SassError>,
    r2: Result<(Seq<FuncArg>, int), SassError>,
) -> bool {
    match (r1, r2) {
        (Ok((a, e1)), Ok((b, e2))) => e1 == e2 && params_match(a, b),
        (Err(e1), Err(e2)) => e1.kind == e2.kind,
        _ => false,
    }
}

proof fn lemma_prepend_nodes_match(
    a: Seq<AtRuleView>,
    b: Seq<AtRuleView>,
    r1: Result<(Seq<AtRuleView>, int), SassError>,
    r2: Result<(Seq<AtRuleView>, int), SassError>,
)
    requires
        nodes_match(a, b),
        body_outcomes_match(r1, r2),
    ensures
        body_outcomes_match(prepend_nodes(a, r1), prepend_nodes(b, r2)),
{
    if let (Ok((x, _)), Ok((y, _))) = (r1, r2) {
        assert forall|k: int| 0 <= k < (a + x).len() implies node_match(#[trigger] (a + x)[k], (b + y)[k]) by {
            if k < a.len() {
                assert(node_match(a[k], b[k]));
            } else {
                assert(node_match(x[k - a.len()], y[k - a.len()]));
            }
        }
    }
}

proof fn lemma_prepend_param_match(
    a: FuncArg,
    b: FuncArg,
    r1: Result<(Seq<FuncArg>, int), SassError>,
    r2: Result<(Seq<FuncArg>, int), SassError>,
)
    requires
        param_match(a, b),
        param_outcomes_match(r1, r2),
    ensures
        param_outcomes_match(prepend_param(a, r1), prepend_param(b, r2)),
{
    if let (Ok((x, _)), Ok((y, _))) = (r1, r2) {
        assert forall|k: int| 0 <= k < (seq![a] + x).len() implies param_match(
            #[trigger] (seq![a] + x)[k],
            (seq![b] + y)[k],
        ) by {
            if k >= 1 {
                assert(param_match(x[k - 1], y[k - 1]));
            }
        }
    }
}

proof fn lemma_respelled_find_either(s: Seq<Token>, t: Seq<Token>, i: int, a: Symbol, b: Symbol)
    requires
        all_respelled(s, t),
        0 <= i <= s.len(),
    ensures
        find_either(s, i, a, b) == find_either(t, i, a, b),
    decreases s.len() - i,
{
    if i < s.len() {
        assert(respelled(s[i], t[i]));
        lemma_respelled_find_either(s, t, i + 1, a, b);
    }
}

proof fn lemma_respelled_params(
    s: Seq<Token>,
    t: Seq<Token>,
    i: int,
    sc: Map<Seq<char>, Value>,
    fb1: Pos,
    fb2: Pos,
)
    requires
        all_respelled(s, t),
    ensures
        param_outcomes_match(params_from(s, i, sc, fb1), params_from(t, i, sc, fb2)),
    decreases s.len() - i,
{
    if 0 <= i <= s.len() {
        lemma_respelled_scans(s, t, i, 0);
        lemma_skip_trivia_bounds(s, i);
        let q = skip_trivia(s, i);
        if q < s.len() {
            assert(respelled(s[q], t[q]));
            lemma_respelled_scans(s, t, q + 1, 0);
            lemma_skip_trivia_bounds(s, q + 1);
            let r = skip_trivia(s, q + 1);
            if r < s.len() {
                assert(respelled(s[r], t[r]));
                lemma_respelled_find_either(s, t, r + 1, Symbol::Comma, Symbol::CloseParen);
                lemma_find_either_bounds(s, r + 1, Symbol::Comma, Symbol::CloseParen);
                let next = find_either(s, r + 1, Symbol::Comma, Symbol::CloseParen);
                lemma_respelled_eval(s, t, r + 1, next, s[r].pos, t[r].pos, sc);
            }
            let has_default = r < s.len() && is_symbol(s[r], Symbol::Colon);
            let next = if has_default {
                find_either(s, r + 1, Symbol::Comma, Symbol::CloseParen)
            } else {
                r
            };
            if next < s.len() {
                assert(respelled(s[next], t[next]));
                lemma_respelled_params(s, t, next + 1, sc, fb1, fb2);
                if let TokenKind::Variable(name) = s[q].kind {
                    let dflt = if has_default {
                        eval_tokens(s.subrange(r + 1, next), s[r].pos, sc)
                    } else {
                        Ok(Value::Null)
                    };
                    if let Ok(v) = dflt {
                        let a = FuncArg {
                            name,
                            default: if has_default { Some(v) } else { None },
                            pos: s[q].pos,
                        };
                        let b = FuncArg {
                            name,
                            default: if has_default { Some(v) } else { None },
                            pos: t[q].pos,
                        };
                        lemma_prepend_param_match(
                            a,
                            b,
                            params_from(s, next + 1, sc, fb1),
                            params_from(t, next + 1, sc, fb2),
                        );
                        assert(params_match(seq![a], seq![b]));
                    }
                }
            }
        }
    }
}

proof fn lemma_respelled_body(
    s: Seq<Token>,
    t: Seq<Token>,
    i: int,
    depth: nat,
    sc: Map<Seq<char>, Value>,
    fb1: Pos,
    fb2: Pos,
)
    requires
        all_respelled(s, t),
    ensures
        body_outcomes_match(body_from(s, i, depth, sc, fb1), body_from(t, i, depth, sc, fb2)),
    decreases s.len() - i,
{
    if 0 <= i < s.len() {
        assert(respelled(s[i], t[i]));
        lemma_respelled_body(s, t, i + 1, depth, sc, fb1, fb2);
        lemma_respelled_body(s, t, i + 1, depth + 1, sc, fb1, fb2);
        if depth > 0 {
            lemma_respelled_body(s, t, i + 1, (depth - 1) as nat, sc, fb1, fb2);
        }
        if let TokenKind::AtRule(x) = s[i].kind {
            if directive_spec(x@) == Directive::Return {
                lemma_respelled_find_either(s, t, i + 1, Symbol::SemiColon, Symbol::CloseCurlyBrace);
                lemma_find_either_bounds(s, i + 1, Symbol::SemiColon, Symbol::CloseCurlyBrace);
                let e = find_either(s, i + 1, Symbol::SemiColon, Symbol::CloseCurlyBrace);
                if e < s.len() {
                    assert(respelled(s[e], t[e]));
                }
                let next = if e < s.len() && is_symbol(s[e], Symbol::SemiColon) {
                    e + 1
                } else {
                    e
                };
                lemma_respelled_body(s, t, next, depth, sc, fb1, fb2);
                let n1 = AtRuleView::Return(s[i].pos, s.subrange(i + 1, e));
                let n2 = AtRuleView::Return(t[i].pos, t.subrange(i + 1, e));
                assert forall|k: int| 0 <= k < e - i - 1 implies respelled(
                    #[trigger] s.subrange(i + 1, e)[k],
                    t.subrange(i + 1, e)[k],
                ) by {
                    assert(respelled(s[i + 1 + k], t[i + 1 + k]));
                }
                assert(nodes_match(seq![n1], seq![n2]));
                lemma_prepend_nodes_match(
                    seq![n1],
                    seq![n2],
                    body_from(s, next, depth, sc, fb1),
                    body_from(t, next, depth, sc, fb2),
                );
            } else if directive_spec(x@) == Directive::If {
                lemma_chain_respelled(s, t, i + 1, s[i].pos, t[i].pos, sc, false);
                lemma_chain_bounds(s, i + 1, s[i].pos, sc, false);
                if let Ok((sel, end)) = chain_from(s, i + 1, s[i].pos, sc, false) {
                    lemma_respelled_body(s, t, end, depth, sc, fb1, fb2);
                    if let Some((a, _b)) = sel {
                        lemma_respelled_body(s, t, a, 1, sc, fb1, fb2);
                        if let (Ok((n1, _)), Ok((n2, _))) = (
                            body_from(s, a, 1, sc, fb1),
                            body_from(t, a, 1, sc, fb2),
                        ) {
                            lemma_prepend_nodes_match(
                                n1,
                                n2,
                                body_from(s, end, depth, sc, fb1),
                                body_from(t, end, depth, sc, fb2),
                            );
                        }
                    }
                }
            } else {
                let n1 = AtRuleView::Other(s[i].pos);
                let n2 = AtRuleView::Other(t[i].pos);
                assert(nodes_match(seq![n1], seq![n2]));
                lemma_prepend_nodes_match(
                    seq![n1],
                    seq![n2],
                    body_from(s, i + 1, depth, sc, fb1),
                    body_from(t, i + 1, depth, sc, fb2),
                );
            }
        }
    }
}

/// Respelling directive keywords (with escapes, or in another ASCII case)
/// leaves a function declaration's outcome as it was, even though token
/// positions move: both succeed with the same name and end, parameters with
/// the same names and defaults, and bodies whose directives match one for one
/// (`@return` tokens differing at most in keyword spelling), or both fail with
/// the same kind of error.
pub proof fn lemma_declaration_respelled(
    s: Seq<Token>,
    t: Seq<Token>,
    at: int,
    sc: Map<Seq<char>, Value>,
)
    requires
        all_respelled(s, t),
        1 <= at <= s.len(),
    ensures
        match (decl_spec(s, at, sc), decl_spec(t, at, sc)) {
            (Ok((n1, p1, b1, e1)), Ok((n2, p2, b2, e2))) => n1 == n2 && params_match(p1, p2) && e1
                == e2 && nodes_match(b1, b2),
            (Err(x), Err(y)) => x.kind == y.kind,
            _ => false,
        },
{
    assert(respelled(s[at - 1], t[at - 1]));
    lemma_respelled_scans(s, t, at, 0);
    lemma_skip_trivia_bounds(s, at);
    let n = skip_trivia(s, at);
    if n < s.len() {
        assert(respelled(s[n], t[n]));
        lemma_respelled_scans(s, t, n + 1, 0);
        lemma_skip_trivia_bounds(s, n + 1);
        let p = skip_trivia(s, n + 1);
        if p < s.len() {
            assert(respelled(s[p], t[p]));
            lemma_respelled_params(s, t, p + 1, sc, s[n].pos, t[n].pos);
            if let Ok((ps, c)) = params_from(s, p + 1, sc, s[n].pos) {
                if 0 <= c <= s.len() {
                    lemma_respelled_scans(s, t, c, 0);
                    lemma_skip_trivia_bounds(s, c);
                    let b = skip_trivia(s, c);
                    if b < s.len() {
                        assert(respelled(s[b], t[b]));
                        lemma_respelled_body(s, t, b + 1, 1, sc, s[n].pos, t[n].pos);
                    }
                }
            }
        }
    }
}

} // verus!
