//! The local environment: a stack of values with cheap push and
//! index-from-top lookup by de Bruijn depth.

use vstd::prelude::*;

use crate::interpreter::value::{value_view, values_view, Value, ValueV};

verus! {

/// The (local) environment stack.
#[derive(Debug)]
pub struct Env {
    pub stack: Vec<Value>,
}

impl View for Env {
    type V = Seq<ValueV>;

    open spec fn view(&self) -> Seq<ValueV> {
        values_view(self.stack@)
    }
}

impl Env {
    /// Creates a new, empty environment.
    pub fn new() -> (r: Env)
        ensures
            r@ == Seq::<ValueV>::empty(),
    {
        let r = Env { stack: Vec::new() };
        proof {
            assert(r@ =~= Seq::<ValueV>::empty());
        }
        r
    }

    /// Gets a local variable by its de Bruijn depth from the top.
    pub fn local(&self, depth: usize) -> (r: Value)
        requires
            depth < self@.len(),
        ensures
            value_view(r) == self@[self@.len() - 1 - depth],
    {
        let v = self.stack[self.stack.len() - 1 - depth].duplicate();
        proof {
            assert(self@[self@.len() - 1 - depth as int] == value_view(
                self.stack@[self.stack@.len() - 1 - depth as int],
            ));
        }
        v
    }

    /// Adds a local variable on top.
    pub fn push(&mut self, val: Value)
        ensures
            final(self)@ == old(self)@.push(value_view(val)),
    {
        self.stack.push(val);
        proof {
            assert(self@ =~= old(self)@.push(value_view(self.stack@.last())));
        }
    }

    /// Structurally copies this environment; closures capture by copy.
    pub fn duplicate(&self) -> (r: Env)
        ensures
            r@ == self@,
    {
        let mut out: Vec<Value> = Vec::new();
        let mut i: usize = 0;
        #[verifier::loop_isolation(false)]
        while i < self.stack.len()
            invariant
                i <= self.stack@.len(),
                out@.len() == i,
                forall|j: int| 0 <= j < i ==> value_view(#[trigger] out@[j]) == value_view(
                    self.stack@[j],
                ),
            decreases self.stack@.len() - i,
        {
            let v = self.stack[i].duplicate();
            out.push(v);
            i = i + 1;
        }
        let r = Env { stack: out };
        proof {
            assert(r@ =~= self@);
        }
        r
    }

    /// The number of values on the stack.
    pub fn depth(&self) -> (r: usize)
        ensures
            r == self@.len(),
    {
        let r = self.stack.len();
        proof {
            assert(self@.len() == self.stack@.len());
        }
        r
    }
}

} // verus!
