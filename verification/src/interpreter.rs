//! The CESK-style interpreter for the flat A-Normal Form: a step function
//! over control, environment, store and continuation stack, with a heap
//! segregated by value kind.

pub mod env;
pub mod eval;
pub mod store;
pub mod value;

use vstd::prelude::*;

use crate::flatanf::{Expr, ExprV};
use crate::interpreter::env::Env;
use crate::interpreter::eval::{spec_kontinue, spec_step, step};
use crate::interpreter::store::{Store, StoreV};
use crate::interpreter::value::{Value, ValueV};

verus! {

/// Relies on `core::mem::replace`: swaps in the new value and returns the
/// old one.
pub assume_specification<T>[ core::mem::replace::<T> ](dest: &mut T, src: T) -> (r: T)
    ensures
        *final(dest) == src,
        r == *old(dest),
;

/// A continuation on the continuation stack.
#[derive(Debug)]
pub enum Kont {
    /// A continuation for let evaluation: the body and its saved
    /// environment.
    Let(Expr, Env),
    /// A continuation of a vector-building intrinsic: current index, last
    /// index, the builder function, and the collected cell addresses.
    MakeVector(usize, usize, Value, Vec<usize>),
    /// A continuation for sequence evaluation.
    Sequence(Expr, Env),
}

/// The mathematical model of a continuation.
#[verifier::ext_equal]
pub enum KontV {
    Let(ExprV, Seq<ValueV>),
    MakeVector(nat, nat, ValueV, Seq<nat>),
    Sequence(ExprV, Seq<ValueV>),
}

/// The model of a continuation.
pub open spec fn kont_view(k: Kont) -> KontV {
    match k {
        Kont::Let(e, env) => KontV::Let(crate::flatanf::expr_view(e), env@),
        Kont::MakeVector(cur, last, f, acc) => KontV::MakeVector(
            cur as nat,
            last as nat,
            value_view(f),
            Seq::new(acc@.len(), |i: int| acc@[i] as nat),
        ),
        Kont::Sequence(e, env) => KontV::Sequence(crate::flatanf::expr_view(e), env@),
    }
}

impl View for Kont {
    type V = KontV;

    open spec fn view(&self) -> KontV {
        kont_view(*self)
    }
}

/// The models of a continuation stack.
pub open spec fn konts_view(s: Seq<Kont>) -> Seq<KontV> {
    Seq::new(s.len(), |i: int| kont_view(s[i]))
}

/// The model of a value.
pub open spec fn value_view(v: Value) -> ValueV {
    crate::interpreter::value::value_view(v)
}

/// The state of the interpreter.
#[derive(Debug)]
pub enum State {
    /// A running machine: the expression under evaluation, its environment,
    /// and the continuation stack.
    Running(Expr, Env, Vec<Kont>),
    /// A halted state: evaluation has produced the value.
    Halted(Value),
    /// The machine is about to apply the named intrinsic; the host computes
    /// the result and resumes the machine.
    Intrinsic(String, Vec<Value>, Vec<Kont>),
    /// A fatal error, with a diagnostic.
    Failed(String),
}

/// The mathematical model of a state.
#[verifier::ext_equal]
pub enum StateV {
    Running(ExprV, Seq<ValueV>, Seq<KontV>),
    Halted(ValueV),
    Intrinsic(Seq<char>, Seq<ValueV>, Seq<KontV>),
    Failed,
}

/// The model of a state.
pub open spec fn state_view(s: State) -> StateV {
    match s {
        State::Running(e, env, konts) => StateV::Running(
            crate::flatanf::expr_view(e),
            env@,
            konts_view(konts@),
        ),
        State::Halted(v) => StateV::Halted(value_view(v)),
        State::Intrinsic(name, args, konts) => StateV::Intrinsic(
            name@,
            crate::interpreter::value::values_view(args@),
            konts_view(konts@),
        ),
        State::Failed(_) => StateV::Failed,
    }
}

impl View for State {
    type V = StateV;

    open spec fn view(&self) -> StateV {
        state_view(*self)
    }
}

/// The global-environment mapping a sequence of bindings holds; a later
/// binding for the same name wins.
pub open spec fn globals_map_view(s: Seq<(String, Value)>) -> Map<Seq<char>, ValueV>
    decreases s.len(),
{
    if s.len() == 0 {
        Map::empty()
    } else {
        globals_map_view(s.drop_last()).insert(s.last().0@, value_view(s.last().1))
    }
}

/// What running the machine for at most `fuel` steps yields: the step
/// function iterates from the state until it halts, stops for an
/// intrinsic, fails, or the fuel runs out. The store component is the one
/// the machine holds when it has not failed; a fatal error abandons the
/// store's contents.
pub open spec fn spec_run(
    s: StateV,
    globals: Map<Seq<char>, ValueV>,
    st: StoreV,
    fuel: nat,
) -> (StateV, StoreV)
    decreases fuel,
{
    if fuel == 0 {
        (s, st)
    } else {
        match s {
            StateV::Running(e, env, konts) => {
                let (s2, st2) = spec_step(e, env, konts, globals, st);
                spec_run(s2, globals, st2, (fuel - 1) as nat)
            },
            _ => (s, st),
        }
    }
}

/// The interpreter: a global environment, the store, and the current state.
#[derive(Debug)]
pub struct Interpreter {
    pub globals: Vec<(String, Value)>,
    pub store: Store,
    pub state: State,
}

impl Interpreter {
    /// The model of the global environment.
    pub open spec fn gmap(&self) -> Map<Seq<char>, ValueV> {
        globals_map_view(self.globals@)
    }

    /// Creates a new interpreter with no globals and an empty store, in the
    /// halted state.
    pub fn new() -> (r: Interpreter)
        ensures
            r.gmap() == Map::<Seq<char>, ValueV>::empty(),
            r.store@ == StoreV::initial(),
            r.state@ == StateV::Halted(ValueV::Nil),
    {
        let r = Interpreter {
            globals: Vec::new(),
            store: Store::new(),
            state: State::Halted(Value::Nil),
        };
        proof {
            assert(globals_map_view(r.globals@) =~= Map::<Seq<char>, ValueV>::empty());
        }
        r
    }

    /// Creates a new interpreter with the given globals and store, in the
    /// halted state.
    pub fn with_globals_and_store(globals: Vec<(String, Value)>, store: Store) -> (r: Interpreter)
        ensures
            r.globals == globals,
            r.store == store,
            r.state@ == StateV::Halted(ValueV::Nil),
    {
        Interpreter { globals, store, state: State::Halted(Value::Nil) }
    }

    /// Installs a global binding.
    pub fn add_global(&mut self, name: String, value: Value)
        ensures
            final(self).gmap() == old(self).gmap().insert(name@, value_view(value)),
            final(self).store == old(self).store,
            final(self).state == old(self).state,
    {
        let ghost pre = self.globals@;
        self.globals.push((name, value));
        proof {
            assert(self.globals@.drop_last() =~= pre);
        }
    }

    /// Loads an expression into the interpreter, erasing any previous
    /// evaluation state.
    pub fn load_expr(&mut self, expr: &Expr)
        ensures
            final(self).state@ == StateV::Running(expr@, Seq::empty(), Seq::empty()),
            final(self).store == old(self).store,
            final(self).globals == old(self).globals,
    {
        let e = expr.duplicate();
        let konts: Vec<Kont> = Vec::new();
        self.state = State::Running(e, Env::new(), konts);
        proof {
            assert(konts_view(konts@) =~= Seq::<KontV>::empty());
        }
    }

    /// Makes one evaluation step if the machine is running; otherwise
    /// leaves the state alone.
    pub fn eval_step(&mut self)
        ensures
            final(self).globals == old(self).globals,
            (old(self).state@ matches StateV::Running(e, env, konts) ==> final(self).state@
                == spec_step(e, env, konts, old(self).gmap(), old(self).store@).0),
            (old(self).state@ matches StateV::Running(e, env, konts) ==> (!(spec_step(
                e,
                env,
                konts,
                old(self).gmap(),
                old(self).store@,
            ).0 is Failed) ==> final(self).store@ == spec_step(
                e,
                env,
                konts,
                old(self).gmap(),
                old(self).store@,
            ).1)),
            (!(old(self).state@ is Running) ==> (final(self).state == old(self).state
                && final(self).store == old(self).store)),
    {
        let st = core::mem::replace(&mut self.state, State::Halted(Value::Nil));
        match st {
            State::Running(e, env, konts) => {
                self.state = step(e, env, konts, &self.globals, &mut self.store);
            },
            other => {
                self.state = other;
            },
        }
    }

    /// Runs the machine for at most `fuel` steps or until it is no longer
    /// `Running`: it halts with a value, stops at an intrinsic call for the
    /// host, fails, or exhausts the fuel while still running. The result is
    /// exactly the iterated step function.
    pub fn run(&mut self, fuel: u64)
        ensures
            final(self).globals == old(self).globals,
            ({
                let (sv, stv) = spec_run(
                    old(self).state@,
                    old(self).gmap(),
                    old(self).store@,
                    fuel as nat,
                );
                &&& final(self).state@ == sv
                &&& (!(sv is Failed) ==> final(self).store@ == stv)
            }),
    {
        let ghost tgt = spec_run(self.state@, self.gmap(), self.store@, fuel as nat);
        let mut left = fuel;
        loop
            invariant
                self.globals == old(self).globals,
                tgt == spec_run(
                    old(self).state@,
                    old(self).gmap(),
                    old(self).store@,
                    fuel as nat,
                ),
                ({
                    let (sv, stv) = spec_run(self.state@, self.gmap(), self.store@, left as nat);
                    &&& sv == tgt.0
                    &&& (!(tgt.0 is Failed) ==> stv == tgt.1)
                }),
            ensures
                self.globals == old(self).globals,
                self.state@ == tgt.0,
                !(tgt.0 is Failed) ==> self.store@ == tgt.1,
            decreases left,
        {
            if left == 0 {
                proof {
                    assert(spec_run(self.state@, self.gmap(), self.store@, 0) == (
                        self.state@,
                        self.store@,
                    ));
                }
                break ;
            }
            let running = match &self.state {
                State::Running(_, _, _) => true,
                _ => false,
            };
            if !running {
                proof {
                    assert(spec_run(self.state@, self.gmap(), self.store@, left as nat) == (
                        self.state@,
                        self.store@,
                    ));
                }
                break ;
            }
            let ghost pre_state = self.state@;
            let ghost pre_store = self.store@;
            let ghost g = self.gmap();
            let ghost pre_left = left as nat;
            self.eval_step();
            proof {
                let (s2, st2) = spec_step(
                    pre_state->Running_0,
                    pre_state->Running_1,
                    pre_state->Running_2,
                    g,
                    pre_store,
                );
                assert(self.gmap() == g);
                assert(self.state@ == s2);
                assert(spec_run(pre_state, g, pre_store, pre_left) == spec_run(
                    s2,
                    g,
                    st2,
                    (pre_left - 1) as nat,
                ));
                if s2 is Failed {
                    assert(spec_run(s2, g, st2, (pre_left - 1) as nat) == (s2, st2));
                    assert(spec_run(s2, g, self.store@, (pre_left - 1) as nat) == (
                        s2,
                        self.store@,
                    ));
                    assert(tgt.0 is Failed);
                } else {
                    assert(self.store@ == st2);
                }
            }
            left = left - 1;
        }
    }

    /// Evaluates an expression from an empty environment, running for at
    /// most `fuel` steps. Returns the value if the machine halted, or
    /// nothing if it stopped at an intrinsic call, failed, or ran out of
    /// fuel (the state says which).
    pub fn eval(&mut self, expr: &Expr, fuel: u64) -> (r: Option<Value>)
        ensures
            final(self).globals == old(self).globals,
            ({
                let (sv, stv) = spec_run(
                    StateV::Running(expr@, Seq::empty(), Seq::empty()),
                    old(self).gmap(),
                    old(self).store@,
                    fuel as nat,
                );
                &&& final(self).state@ == sv
                &&& (!(sv is Failed) ==> final(self).store@ == stv)
                &&& (r is Some <==> sv is Halted)
                &&& (r matches Some(v) ==> sv == StateV::Halted(value_view(v)))
            }),
    {
        self.load_expr(expr);
        self.run(fuel);
        match &self.state {
            State::Halted(v) => {
                let out = v.duplicate();
                proof {
                    assert(self.state@ == StateV::Halted(value_view(out)));
                }
                Some(out)
            },
            _ => None,
        }
    }

    /// Hands the result of an intrinsic call back to the machine, which
    /// continues with the saved continuation stack.
    pub fn resume_with_value(&mut self, v: Value)
        requires
            old(self).state@ is Intrinsic,
        ensures
            final(self).globals == old(self).globals,
            (old(self).state@ matches StateV::Intrinsic(_, _, konts) ==> (final(self).state@,
            final(self).store@) == crate::interpreter::eval::spec_kontinue(
                value_view(v),
                old(self).store@,
                konts,
            )),
    {
        let st = core::mem::replace(&mut self.state, State::Halted(Value::Nil));
        match st {
            State::Intrinsic(_, _, konts) => {
                self.state = crate::interpreter::eval::kontinue(v, &mut self.store, konts);
            },
            other => {
                self.state = other;
            },
        }
    }

    /// Applies a function value on behalf of an intrinsic (such as a
    /// host-level `apply`), resuming the machine.
    pub fn resume_apply(&mut self, f: Value, args: Vec<Value>)
        requires
            old(self).state@ is Intrinsic,
        ensures
            final(self).globals == old(self).globals,
            (old(self).state@ matches StateV::Intrinsic(_, _, konts) ==> (final(self).state@,
            final(self).store@) == crate::interpreter::eval::spec_apply(
                value_view(f),
                crate::interpreter::value::values_view(args@),
                old(self).store@,
                konts,
            )),
    {
        let st = core::mem::replace(&mut self.state, State::Halted(Value::Nil));
        match st {
            State::Intrinsic(_, _, konts) => {
                self.state = crate::interpreter::eval::apply(f, args, &mut self.store, konts);
            },
            other => {
                self.state = other;
            },
        }
    }
}

} // verus!
