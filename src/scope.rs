use vstd::prelude::*;

use crate::value::Value;

verus! {

/// Variable bindings. Each binding is recorded in order; a later binding of
/// a name shadows an earlier one.
#[derive(Debug)]
pub struct Scope {
    bindings: Vec<(String, Value)>,
}

/// The name-to-value map that a list of bindings denotes.
pub open spec fn bindings_map(s: Seq<(String, Value)>) -> Map<Seq<char>, Value>
    decreases s.len(),
{
    if s.len() == 0 {
        Map::empty()
    } else {
        bindings_map(s.drop_last()).insert(s.last().0@, s.last().1)
    }
}

impl View for Scope {
    type V = Map<Seq<char>, Value>;

    closed spec fn view(&self) -> Map<Seq<char>, Value> {
        bindings_map(self.bindings@)
    }
}

impl Scope {
    pub fn new() -> (r: Scope)
        ensures
            r@ == Map::<Seq<char>, Value>::empty(),
    {
        Scope { bindings: Vec::new() }
    }

    /// The value bound to `name`, if any.
    pub fn get(&self, name: &String) -> (r: Option<Value>)
        ensures
            r == (if self@.contains_key(name@) {
                Some(self@[name@])
            } else {
                None
            }),
    {
        let mut i: usize = self.bindings.len();
        assert(self.bindings@.take(i as int) =~= self.bindings@);
        while i > 0
            invariant
                i <= self.bindings.len(),
                forall|k: Seq<char>|
                    k == name@ ==> (#[trigger] self@.contains_key(k) == bindings_map(
                        self.bindings@.take(i as int),
                    ).contains_key(k) && (self@.contains_key(k) ==> self@[k] == bindings_map(
                        self.bindings@.take(i as int),
                    )[k])),
            decreases i,
        {
            assert(self.bindings@.take(i as int).drop_last() =~= self.bindings@.take(i - 1));
            if self.bindings[i - 1].0.eq(name) {
                return Some(self.bindings[i - 1].1.copied());
            }
            i = i - 1;
        }
        None
    }

    /// Binds `name` to `value`, shadowing any earlier binding of it.
    pub fn insert(&mut self, name: String, value: Value)
        ensures
            final(self)@ == old(self)@.insert(name@, value),
    {
        let ghost before = self.bindings@;
        self.bindings.push((name, value));
        assert(self.bindings@.drop_last() =~= before);
    }

    /// An independent copy: later changes to either leave the other as it is.
    pub fn snapshot(&self) -> (r: Scope)
        ensures
            r@ == self@,
    {
        let mut out: Vec<(String, Value)> = Vec::new();
        let mut i: usize = 0;
        while i < self.bindings.len()
            invariant
                i <= self.bindings.len(),
                out@ == self.bindings@.take(i as int),
            decreases self.bindings.len() - i,
        {
            let b = &self.bindings[i];
            out.push((b.0.clone(), b.1.copied()));
            assert(out@ =~= self.bindings@.take(i + 1));
            i = i + 1;
        }
        assert(out@ =~= self.bindings@);
        Scope { bindings: out }
    }
}

} // verus!
