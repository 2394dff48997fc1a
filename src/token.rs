use vstd::prelude::*;

use crate::common::{Pos, Symbol};
use vstd::string::StrSliceExecFns;

verus! {

/// The kind of a lexical unit. Escapes are already decoded: the texts below
/// are what the source spells, not how it spells it.
#[derive(Clone, Debug, PartialEq, Eq)]
pub enum TokenKind {
    /// A bare word (`foo`, `true`, `and`).
    Ident(String),
    /// A variable reference `$name`, holding `name`.
    Variable(String),
    /// An integer literal.
    Number(i64),
    /// A quoted string, holding its contents.
    Str(String),
    Symbol(Symbol),
    /// A directive keyword `@name`, holding `name`.
    AtRule(String),
    Whitespace,
    Comment,
}

#[derive(Clone, Debug, PartialEq, Eq)]
pub struct Token {
    pub pos: Pos,
    pub kind: TokenKind,
}

/// Whitespace and comments: transparent to every parser here.
pub open spec fn is_trivia(t: Token) -> bool {
    t.kind is Whitespace || t.kind is Comment
}

pub open spec fn is_symbol(t: Token, s: Symbol) -> bool {
    t.kind == TokenKind::Symbol(s)
}

pub open spec fn is_ident_text(t: Token, text: Seq<char>) -> bool {
    match t.kind {
        TokenKind::Ident(s) => s@ == text,
        _ => false,
    }
}

/// `c` is the lowercase letter `k`, or its ASCII uppercase form.
pub open spec fn same_letter_ignoring_case(c: char, k: char) -> bool {
    c == k || ('a' <= k && k <= 'z' && c as u32 + 32 == k as u32)
}

/// Directive keywords match ignoring ASCII case: `text` spells the lowercase
/// keyword `kw`, letter by letter.
pub open spec fn keyword_is(text: Seq<char>, kw: Seq<char>) -> bool {
    text.len() == kw.len() && forall|i: int|
        0 <= i < kw.len() ==> same_letter_ignoring_case(#[trigger] text[i], kw[i])
}

pub open spec fn is_at_rule_text(t: Token, text: Seq<char>) -> bool {
    match t.kind {
        TokenKind::AtRule(s) => keyword_is(s@, text),
        _ => false,
    }
}

/// `s@ == lit@`, decided.
pub fn text_is(s: &String, lit: &str) -> (r: bool)
    ensures
        r == (s@ == lit@),
{
    s.eq(&lit.to_owned())
}

/// `keyword_is(s@, kw@)`, decided.
pub fn keyword_matches(s: &String, kw: &str) -> (r: bool)
    ensures
        r == keyword_is(s@, kw@),
{
    let text = s.as_str();
    let n = kw.unicode_len();
    if text.unicode_len() != n {
        return false;
    }
    let mut i: usize = 0;
    while i < n
        invariant
            i <= n,
            n == kw@.len(),
            text@ == s@,
            s@.len() == kw@.len(),
            forall|j: int| 0 <= j < i ==> same_letter_ignoring_case(#[trigger] s@[j], kw@[j]),
        decreases n - i,
    {
        let c = text.get_char(i);
        let k = kw.get_char(i);
        if !(c == k || ('a' <= k && k <= 'z' && c as u32 + 32 == k as u32)) {
            return false;
        }
        i = i + 1;
    }
    true
}

impl TokenKind {
    /// An independent copy.
    pub fn copied(&self) -> (r: TokenKind)
        ensures
            r == *self,
    {
        match self {
            TokenKind::Ident(s) => TokenKind::Ident(s.clone()),
            TokenKind::Variable(s) => TokenKind::Variable(s.clone()),
            TokenKind::Number(n) => TokenKind::Number(*n),
            TokenKind::Str(s) => TokenKind::Str(s.clone()),
            TokenKind::Symbol(s) => TokenKind::Symbol(*s),
            TokenKind::AtRule(s) => TokenKind::AtRule(s.clone()),
            TokenKind::Whitespace => TokenKind::Whitespace,
            TokenKind::Comment => TokenKind::Comment,
        }
    }
}

impl Token {
    /// An independent copy.
    pub fn copied(&self) -> (r: Token)
        ensures
            r == *self,
    {
        Token { pos: self.pos, kind: self.kind.copied() }
    }

    pub fn is_trivia(&self) -> (r: bool)
        ensures
            r == is_trivia(*self),
    {
        match self.kind {
            TokenKind::Whitespace | TokenKind::Comment => true,
            _ => false,
        }
    }

    pub fn is_symbol(&self, s: Symbol) -> (r: bool)
        ensures
            r == is_symbol(*self, s),
    {
        match self.kind {
            TokenKind::Symbol(t) => t == s,
            _ => false,
        }
    }

    pub fn is_ident_text(&self, lit: &str) -> (r: bool)
        ensures
            r == is_ident_text(*self, lit@),
    {
        match &self.kind {
            TokenKind::Ident(s) => text_is(s, lit),
            _ => false,
        }
    }

    pub fn is_at_rule_text(&self, lit: &str) -> (r: bool)
        ensures
            r == is_at_rule_text(*self, lit@),
    {
        match &self.kind {
            TokenKind::AtRule(s) => keyword_matches(s, lit),
            _ => false,
        }
    }
}

/// The tokens of `s` that are not trivia, in order.
pub open spec fn significant(s: Seq<Token>) -> Seq<Token>
    decreases s.len(),
{
    if s.len() == 0 {
        Seq::empty()
    } else if is_trivia(s.last()) {
        significant(s.drop_last())
    } else {
        significant(s.drop_last()).push(s.last())
    }
}

/// The tokens of `toks[start..end]` that are not trivia.
pub fn significant_tokens(toks: &Vec<Token>, start: usize, end: usize) -> (r: Vec<Token>)
    requires
        start <= end <= toks.len(),
    ensures
        r@ == significant(toks@.subrange(start as int, end as int)),
{
    let mut out: Vec<Token> = Vec::new();
    let mut i: usize = start;
    assert(toks@.subrange(start as int, start as int) =~= Seq::<Token>::empty());
    while i < end
        invariant
            start <= i <= end <= toks.len(),
            out@ == significant(toks@.subrange(start as int, i as int)),
        decreases end - i,
    {
        assert(toks@.subrange(start as int, i + 1).drop_last() =~= toks@.subrange(
            start as int,
            i as int,
        ));
        if !toks[i].is_trivia() {
            out.push(toks[i].copied());
        }
        i = i + 1;
    }
    out
}

} // verus!
