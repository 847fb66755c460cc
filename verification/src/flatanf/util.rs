//! The two-level conversion context: a mapping from local names to
//! fully-qualified global names, and a stack of local names resolved to
//! de Bruijn indices.

use vstd::prelude::*;

use crate::error::ErrorKind;
use crate::flatanf::{AExpr, AExprV};

verus! {

/// The global mapping a sequence of (local name, qualified name) pairs
/// holds; a later pair for the same name wins.
pub open spec fn globals_map(s: Seq<(Seq<char>, Seq<char>)>) -> Map<Seq<char>, Seq<char>>
    decreases s.len(),
{
    if s.len() == 0 {
        Map::empty()
    } else {
        globals_map(s.drop_last()).insert(s.last().0, s.last().1)
    }
}

/// The de Bruijn index of `name` in a stack of local names, measured from
/// the top, if it is bound there.
pub open spec fn local_depth(locals: Seq<Seq<char>>, name: Seq<char>) -> Option<int>
    decreases locals.len(),
{
    if locals.len() == 0 {
        None
    } else if locals.last() == name {
        Some(0int)
    } else {
        match local_depth(locals.drop_last(), name) {
            Some(n) => Some(n + 1),
            None => None,
        }
    }
}

/// A found de Bruijn index is within the stack.
pub proof fn lemma_local_depth_bound(locals: Seq<Seq<char>>, name: Seq<char>)
    ensures
        local_depth(locals, name) matches Some(n) ==> 0 <= n < locals.len(),
    decreases locals.len(),
{
    if locals.len() > 0 {
        lemma_local_depth_bound(locals.drop_last(), name);
    }
}

/// What a variable resolves to under a context: a local index, a global
/// name, or nothing.
pub open spec fn spec_resolve(
    locals: Seq<Seq<char>>,
    globals: Map<Seq<char>, Seq<char>>,
    name: Seq<char>,
) -> Option<AExprV> {
    match local_depth(locals, name) {
        Some(n) => Some(AExprV::Local(n as usize)),
        None => if globals.contains_key(name) {
            Some(AExprV::Global(globals[name]))
        } else {
            None
        },
    }
}

/// A context for converting to use de Bruijn indices.
#[derive(Debug)]
pub struct Context {
    pub globals: Vec<(String, String)>,
    pub locals: Vec<String>,
}

impl Context {
    /// The global mapping this context holds.
    pub open spec fn gmap(&self) -> Map<Seq<char>, Seq<char>> {
        globals_map(pairs_view(self.globals@))
    }

    /// The stack of local names this context holds.
    pub open spec fn lview(&self) -> Seq<Seq<char>> {
        self.locals.deep_view()
    }

    /// Creates a context from an initial set of global bindings.
    pub fn from_globals(globals: Vec<(String, String)>) -> (r: Context)
        ensures
            r.gmap() == globals_map(pairs_view(globals@)),
            r.lview().len() == 0,
    {
        let r = Context { globals, locals: Vec::new() };
        proof {
            assert(r.lview() =~= Seq::<Seq<char>>::empty());
        }
        r
    }

    /// Adds a global binding from a local name to a fully-qualified name.
    pub fn add_global(&mut self, name: String, fully_qualified: String)
        ensures
            final(self).gmap() == old(self).gmap().insert(name@, fully_qualified@),
            final(self).lview() == old(self).lview(),
    {
        let ghost pre = pairs_view(self.globals@);
        self.globals.push((name, fully_qualified));
        proof {
            assert(pairs_view(self.globals@).drop_last() =~= pre);
        }
    }

    /// Pushes a local binding.
    pub fn push(&mut self, name: String)
        ensures
            final(self).lview() == old(self).lview().push(name@),
            final(self).gmap() == old(self).gmap(),
    {
        self.locals.push(name);
        proof {
            assert(self.lview() =~= old(self).lview().push(name@));
        }
    }

    /// Pushes several local bindings, first name deepest.
    pub fn push_many(&mut self, names: &Vec<String>)
        ensures
            final(self).lview() == old(self).lview() + names.deep_view(),
            final(self).gmap() == old(self).gmap(),
    {
        let mut i: usize = 0;
        #[verifier::loop_isolation(false)]
        while i < names.len()
            invariant
                i <= names@.len(),
                self.lview() == old(self).lview() + names.deep_view().take(i as int),
                self.gmap() == old(self).gmap(),
            decreases names@.len() - i,
        {
            self.push(names[i].clone());
            proof {
                assert(old(self).lview() + names.deep_view().take(i + 1) =~= (old(self).lview()
                    + names.deep_view().take(i as int)).push(names.deep_view()[i as int]));
            }
            i = i + 1;
        }
        proof {
            assert(names.deep_view().take(names@.len() as int) =~= names.deep_view());
        }
    }

    /// Removes the most recently pushed local binding.
    pub fn pop(&mut self)
        requires
            old(self).lview().len() > 0,
        ensures
            final(self).lview() == old(self).lview().drop_last(),
            final(self).gmap() == old(self).gmap(),
    {
        let _ = self.locals.pop();
        proof {
            assert(self.lview() =~= old(self).lview().drop_last());
        }
    }

    /// Removes the `n` most recently pushed local bindings.
    pub fn pop_many(&mut self, n: usize)
        requires
            old(self).lview().len() >= n,
        ensures
            final(self).lview() == old(self).lview().take(old(self).lview().len() - n),
            final(self).gmap() == old(self).gmap(),
    {
        let mut i: usize = 0;
        #[verifier::loop_isolation(false)]
        while i < n
            invariant
                i <= n,
                self.lview() == old(self).lview().take(old(self).lview().len() - i),
                self.gmap() == old(self).gmap(),
            decreases n - i,
        {
            proof {
                assert(self.lview().drop_last() =~= old(self).lview().take(
                    old(self).lview().len() - i - 1,
                ));
            }
            self.pop();
            i = i + 1;
        }
    }

    /// Retrieves what a name resolves to: the innermost local binding as a
    /// de Bruijn index, else the global mapping, else an unresolved-variable
    /// error.
    pub fn get(&self, name: &str) -> (r: Result<AExpr, ErrorKind>)
        ensures
            r matches Ok(a) ==> (Some(a@) == spec_resolve(self.lview(), self.gmap(), name@) && (
            a@ matches AExprV::Local(n) ==> n < self.lview().len())),
            r is Err <==> spec_resolve(self.lview(), self.gmap(), name@) is None,
            r matches Err(k) ==> k matches ErrorKind::NoSuchVar(v) && v@ == name@,
    {
        proof {
            lemma_local_depth_bound(self.lview(), name@);
        }
        let len = self.locals.len();
        let mut n: usize = 0;
        #[verifier::loop_isolation(false)]
        while n < len
            invariant
                n <= len,
                len == self.lview().len(),
                local_depth(self.lview(), name@) matches Some(d) ==> n <= d,
                forall|d: int| 0 <= d < n ==> #[trigger] self.lview()[len - 1 - d] != name@,
            decreases len - n,
        {
            if crate::literal::str_eq(self.locals[len - 1 - n].as_str(), name) {
                proof {
                    assert(self.lview()[len - 1 - n] == name@);
                    lemma_local_depth_at(self.lview(), name@, n as int);
                }
                return Ok(AExpr::Local(n));
            }
            proof {
                lemma_local_depth_next(self.lview(), name@, n as int);
            }
            n = n + 1;
        }
        proof {
            if local_depth(self.lview(), name@) matches Some(d) {
                lemma_local_depth_bound(self.lview(), name@);
                assert(false);
            }
        }
        // Not a local; consult the global mapping, last binding first.
        let glen = self.globals.len();
        proof {
            assert(pairs_view(self.globals@).take(glen as int) =~= pairs_view(self.globals@));
        }
        let mut i: usize = glen;
        #[verifier::loop_isolation(false)]
        while i > 0
            invariant
                i <= glen,
                glen == self.globals@.len(),
                globals_map(pairs_view(self.globals@).take(i as int)).contains_key(name@)
                    == self.gmap().contains_key(name@),
                globals_map(pairs_view(self.globals@).take(i as int)).contains_key(name@)
                    ==> globals_map(pairs_view(self.globals@).take(i as int))[name@]
                    == self.gmap()[name@],
            decreases i,
        {
            proof {
                assert(pairs_view(self.globals@).take(i as int).drop_last() =~= pairs_view(
                    self.globals@,
                ).take(i - 1));
                assert(pairs_view(self.globals@).take(i as int).last() == (
                    self.globals@[i - 1].0@,
                    self.globals@[i - 1].1@,
                ));
            }
            if crate::literal::str_eq(self.globals[i - 1].0.as_str(), name) {
                return Ok(AExpr::Global(self.globals[i - 1].1.clone()));
            }
            i = i - 1;
        }
        proof {
            assert(pairs_view(self.globals@).take(0) =~= Seq::<(Seq<char>, Seq<char>)>::empty());
        }
        Err(ErrorKind::NoSuchVar(name.to_owned()))
    }
}

/// The models of a sequence of string pairs.
pub open spec fn pairs_view(s: Seq<(String, String)>) -> Seq<(Seq<char>, Seq<char>)> {
    Seq::new(s.len(), |i: int| (s[i].0@, s[i].1@))
}

/// If the name at depth `d` from the top matches and no shallower one does,
/// the local depth is `d`.
proof fn lemma_local_depth_at(locals: Seq<Seq<char>>, name: Seq<char>, d: int)
    requires
        0 <= d < locals.len(),
        locals[locals.len() - 1 - d] == name,
        forall|e: int| 0 <= e < d ==> #[trigger] locals[locals.len() - 1 - e] != name,
    ensures
        local_depth(locals, name) == Some(d),
    decreases d,
{
    if d == 0 {
        assert(locals[locals.len() - 1 - 0] == name);
    } else {
        assert(locals[locals.len() - 1 - 0] != name);
        assert forall|e: int| 0 <= e < d - 1 implies #[trigger] locals.drop_last()[locals.drop_last().len()
            - 1 - e] != name by {
            assert(locals.drop_last()[locals.drop_last().len() - 1 - e] == locals[locals.len() - 1
                - (e + 1)]);
        }
        assert(locals.drop_last()[locals.drop_last().len() - 1 - (d - 1)] == locals[locals.len() - 1
            - d]);
        lemma_local_depth_at(locals.drop_last(), name, d - 1);
    }
}

/// If no binding at depth up to `d` matches, the local depth is beyond `d`.
proof fn lemma_local_depth_next(locals: Seq<Seq<char>>, name: Seq<char>, d: int)
    requires
        0 <= d < locals.len(),
        forall|e: int| 0 <= e <= d ==> #[trigger] locals[locals.len() - 1 - e] != name,
    ensures
        local_depth(locals, name) matches Some(n) ==> n > d,
    decreases d,
{
    if local_depth(locals, name) matches Some(n) {
        assert(locals[locals.len() - 1 - 0] != name);
        lemma_local_depth_bound(locals.drop_last(), name);
        if d == 0 {
        } else {
            assert forall|e: int| 0 <= e <= d - 1 implies #[trigger] locals.drop_last()[locals.drop_last().len()
                - 1 - e] != name by {
                assert(locals.drop_last()[locals.drop_last().len() - 1 - e] == locals[locals.len()
                    - 1 - (e + 1)]);
            }
            lemma_local_depth_next(locals.drop_last(), name, d - 1);
        }
    }
}

} // verus!
