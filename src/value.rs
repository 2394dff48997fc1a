use vstd::prelude::*;

verus! {

/// A stylesheet value.
#[derive(Clone, Debug, PartialEq, Eq)]
pub enum Value {
    Null,
    Bool(bool),
    /// An integer number.
    Number(i64),
    /// An unquoted word such as `bar` or `red`.
    Ident(String),
    /// A quoted string.
    Str(String),
}

/// Only `false` and `null` are falsy; zero and the empty string are truthy.
pub open spec fn truthy(v: Value) -> bool {
    !(v is Null) && v != Value::Bool(false)
}

/// `a₁ and … and aₙ`: the first falsy operand, or the last one when all are truthy.
pub open spec fn and_chain(vs: Seq<Value>) -> Value
    recommends
        vs.len() >= 1,
    decreases vs.len(),
{
    if vs.len() <= 1 || !truthy(vs[0]) {
        vs[0]
    } else {
        and_chain(vs.drop_first())
    }
}

impl Value {
    /// An independent copy.
    pub fn copied(&self) -> (r: Value)
        ensures
            r == *self,
    {
        match self {
            Value::Null => Value::Null,
            Value::Bool(b) => Value::Bool(*b),
            Value::Number(n) => Value::Number(*n),
            Value::Ident(s) => Value::Ident(s.clone()),
            Value::Str(s) => Value::Str(s.clone()),
        }
    }

    pub fn is_truthy(&self) -> (r: bool)
        ensures
            r == truthy(*self),
    {
        match self {
            Value::Null => false,
            Value::Bool(b) => *b,
            _ => true,
        }
    }
}

/// Logical AND over a chain of already evaluated operands.
pub fn and_values(vs: &Vec<Value>) -> (r: Value)
    requires
        vs.len() >= 1,
    ensures
        r == and_chain(vs@),
{
    let mut i: usize = 0;
    assert(vs@.subrange(0, vs.len() as int) =~= vs@);
    while i + 1 < vs.len() && vs[i].is_truthy()
        invariant
            i < vs.len(),
            and_chain(vs@) == and_chain(vs@.subrange(i as int, vs.len() as int)),
        decreases vs.len() - i,
    {
        assert(vs@.subrange(i as int, vs.len() as int).drop_first() =~= vs@.subrange(
            i + 1,
            vs.len() as int,
        ));
        i = i + 1;
    }
    vs[i].copied()
}

/// When every operand is truthy, the chain yields the last one.
pub proof fn lemma_and_all_truthy(vs: Seq<Value>)
    requires
        vs.len() >= 1,
        forall|i: int| 0 <= i < vs.len() ==> truthy(#[trigger] vs[i]),
    ensures
        and_chain(vs) == vs.last(),
    decreases vs.len(),
{
    if vs.len() > 1 {
        assert(truthy(vs[0]));
        assert forall|i: int| 0 <= i < vs.drop_first().len() implies truthy(
            #[trigger] vs.drop_first()[i],
        ) by {
            assert(truthy(vs[i + 1]));
        }
        lemma_and_all_truthy(vs.drop_first());
    }
}

/// When some operand is falsy, the chain yields the first falsy operand, and the
/// operands after it have no bearing on the result.
pub proof fn lemma_and_first_falsy(vs: Seq<Value>, k: int)
    requires
        0 <= k < vs.len(),
        !truthy(vs[k]),
        forall|i: int| 0 <= i < k ==> truthy(#[trigger] vs[i]),
    ensures
        and_chain(vs) == vs[k],
        and_chain(vs) == and_chain(vs.take(k + 1)),
    decreases k,
{
    if k > 0 {
        assert(truthy(vs[0]));
        assert forall|i: int| 0 <= i < k - 1 implies truthy(#[trigger] vs.drop_first()[i]) by {
            assert(truthy(vs[i + 1]));
        }
        lemma_and_first_falsy(vs.drop_first(), k - 1);
        assert(vs.take(k + 1).drop_first() =~= vs.drop_first().take(k));
    }
}

} // verus!
