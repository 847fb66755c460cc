//! The step function of the CESK machine, with atomic evaluation,
//! application, and continuation of values.

use vstd::prelude::*;

use crate::flatanf::{
    aexpr_view, aexprs_view, cexpr_view, expr_view, lemma_aexprs_view_index,
    lemma_letrec_view_index, letrec_view, AExpr, AExprV, CExpr, CExprV, Expr, ExprV,
};
use crate::interpreter::env::Env;
use crate::interpreter::store::{
    clos_view, spec_store_literal, store_val, ClosV, ClosureData, Store, StoreV,
};
use crate::interpreter::value::{value_view, values_view, Addr, Intrinsic, Value, ValueV};
use crate::interpreter::{konts_view, Kont, KontV, State, StateV};

verus! {

/// The model of one continuation (a local alias).
pub open spec fn kont_view_of(k: Kont) -> KontV {
    crate::interpreter::kont_view(k)
}

} // verus!

verus! {

/// What atomic evaluation yields: a value, and the store grown by any
/// allocation; `None` is a fatal error (an unknown global or an
/// out-of-range local, which linked programs never produce).
pub open spec fn spec_atomic(
    a: AExprV,
    env: Seq<ValueV>,
    globals: Map<Seq<char>, ValueV>,
    st: StoreV,
) -> Option<(ValueV, StoreV)>
    decreases a, 2int,
{
    match a {
        AExprV::Global(name) => if globals.contains_key(name) {
            Some((globals[name], st))
        } else {
            None
        },
        AExprV::Lambda(name, argn, body) => Some(
            (
                ValueV::Closure(st.clos.len()),
                StoreV {
                    clos: st.clos.push(ClosV { argn, body: *body, name, env }),
                    ..st
                },
            ),
        ),
        AExprV::Literal(l) => Some(spec_store_literal(st, l)),
        AExprV::Local(n) => if n < env.len() {
            Some((env[env.len() - 1 - n], st))
        } else {
            None
        },
        AExprV::Vector(es) => match spec_atomic_cells(es, env, globals, st) {
            Some((addrs, st1)) => Some(
                (
                    ValueV::Vector(st1.vecs.len(), es.len()),
                    StoreV { vecs: st1.vecs + addrs, ..st1 },
                ),
            ),
            None => None,
        },
    }
}

/// Evaluates each element atomically and stores each resulting value,
/// yielding the cell addresses in order.
pub open spec fn spec_atomic_cells(
    es: Seq<AExprV>,
    env: Seq<ValueV>,
    globals: Map<Seq<char>, ValueV>,
    st: StoreV,
) -> Option<(Seq<nat>, StoreV)>
    decreases es, 3int,
{
    if es.len() == 0 {
        Some((Seq::empty(), st))
    } else {
        match spec_atomic(es[0], env, globals, st) {
            Some((v, st1)) => {
                let (a, st2) = store_val(st1, v);
                match spec_atomic_cells(es.drop_first(), env, globals, st2) {
                    Some((rest, st3)) => Some((seq![a] + rest, st3)),
                    None => None,
                }
            },
            None => None,
        }
    }
}

/// Evaluates each call operand atomically, left to right.
pub open spec fn spec_atomic_list(
    es: Seq<AExprV>,
    env: Seq<ValueV>,
    globals: Map<Seq<char>, ValueV>,
    st: StoreV,
) -> Option<(Seq<ValueV>, StoreV)>
    decreases es, 3int,
{
    if es.len() == 0 {
        Some((Seq::empty(), st))
    } else {
        match spec_atomic(es[0], env, globals, st) {
            Some((v, st1)) => match spec_atomic_list(es.drop_first(), env, globals, st1) {
                Some((rest, st2)) => Some((seq![v] + rest, st2)),
                None => None,
            },
            None => None,
        }
    }
}

/// What applying a function value yields: a closure resumes its body under
/// its captured environment extended with the arguments; an intrinsic hands
/// control to the host; anything else, or an arity mismatch, is fatal.
pub open spec fn spec_apply(
    f: ValueV,
    args: Seq<ValueV>,
    st: StoreV,
    konts: Seq<KontV>,
) -> (StateV, StoreV) {
    match f {
        ValueV::Closure(ca) => if ca < st.clos.len() {
            let c = st.clos[ca as int];
            if c.argn == args.len() {
                (StateV::Running(c.body, c.env + args, konts), st)
            } else {
                (StateV::Failed, st)
            }
        } else {
            (StateV::Failed, st)
        },
        ValueV::Intrinsic(name) => (StateV::Intrinsic(name, args, konts), st),
        _ => (StateV::Failed, st),
    }
}

/// What continuing with a value yields: an empty stack halts; a let frame
/// pushes the value and resumes; a sequence frame discards it; a
/// vector-building frame collects it and either finalizes the vector or
/// applies the builder to the next index.
pub open spec fn spec_kontinue(v: ValueV, st: StoreV, konts: Seq<KontV>) -> (StateV, StoreV)
    decreases konts.len(),
{
    if konts.len() == 0 {
        (StateV::Halted(v), st)
    } else {
        match konts.last() {
            KontV::Let(e, env) => (StateV::Running(e, env.push(v), konts.drop_last()), st),
            KontV::Sequence(e, env) => (StateV::Running(e, env, konts.drop_last()), st),
            KontV::MakeVector(cur, last, f, acc) => {
                let (a, st1) = store_val(st, v);
                let acc2 = acc.push(a);
                if cur >= last {
                    let off = st1.vecs.len();
                    let st2 = StoreV { vecs: st1.vecs + acc2, ..st1 };
                    spec_kontinue(ValueV::Vector(off, acc2.len()), st2, konts.drop_last())
                } else {
                    let nxt = ValueV::Fixnum((((cur + 1) as usize) as i64));
                    spec_apply(f, seq![nxt], st1, konts.drop_last().push(
                        KontV::MakeVector((cur + 1) as nat, last, f, acc2),
                    ))
                }
            },
        }
    }
}

/// Allocates one closure per letrec binding with an empty environment,
/// pushing each onto the environment so later bindings see earlier ones.
pub open spec fn spec_letrec_alloc(
    bound: Seq<(Seq<char>, nat, ExprV)>,
    env: Seq<ValueV>,
    st: StoreV,
) -> (Seq<nat>, Seq<ValueV>, StoreV)
    decreases bound.len(),
{
    if bound.len() == 0 {
        (Seq::empty(), env, st)
    } else {
        let a = st.clos.len();
        let st1 = StoreV {
            clos: st.clos.push(
                ClosV {
                    argn: bound[0].1,
                    body: bound[0].2,
                    name: Some(bound[0].0),
                    env: Seq::empty(),
                },
            ),
            ..st
        };
        let env1 = env.push(ValueV::Closure(a));
        let (rest, envf, stf) = spec_letrec_alloc(bound.drop_first(), env1, st1);
        (seq![a] + rest, envf, stf)
    }
}

/// Back-patches each allocated closure's captured environment to the
/// now-complete environment, tying the recursive knot.
pub open spec fn spec_backpatch(st: StoreV, addrs: Seq<nat>, env: Seq<ValueV>) -> StoreV
    decreases addrs.len(),
{
    if addrs.len() == 0 {
        st
    } else {
        let st1 = if addrs[0] < st.clos.len() {
            StoreV {
                clos: st.clos.update(
                    addrs[0] as int,
                    ClosV { env, ..st.clos[addrs[0] as int] },
                ),
                ..st
            }
        } else {
            st
        };
        spec_backpatch(st1, addrs.drop_first(), env)
    }
}

/// One step of the machine on a running state.
pub open spec fn spec_step(
    e: ExprV,
    env: Seq<ValueV>,
    konts: Seq<KontV>,
    globals: Map<Seq<char>, ValueV>,
    st: StoreV,
) -> (StateV, StoreV) {
    match e {
        ExprV::AExpr(a) => match spec_atomic(a, env, globals, st) {
            Some((v, st1)) => spec_kontinue(v, st1, konts),
            None => (StateV::Failed, st),
        },
        ExprV::CExpr(c) => match c {
            CExprV::Call(f, args) => match spec_atomic(f, env, globals, st) {
                Some((fv, st1)) => match spec_atomic_list(args, env, globals, st1) {
                    Some((argvs, st2)) => spec_apply(fv, argvs, st2, konts),
                    None => (StateV::Failed, st),
                },
                None => (StateV::Failed, st),
            },
            CExprV::If(cond, t, e2) => match spec_atomic(cond, env, globals, st) {
                Some((cv, st1)) => if cv is Nil {
                    (StateV::Running(*e2, env, konts), st1)
                } else {
                    (StateV::Running(*t, env, konts), st1)
                },
                None => (StateV::Failed, st),
            },
            CExprV::LetRec(bound, body) => {
                let (addrs, env2, st1) = spec_letrec_alloc(bound, env, st);
                let st2 = spec_backpatch(st1, addrs, env2);
                (StateV::Running(*body, env2, konts), st2)
            },
        },
        ExprV::Let(a, b) => (
            StateV::Running(*a, env, konts.push(KontV::Let(*b, env))),
            st,
        ),
        ExprV::Sequence(a, b) => (
            StateV::Running(*a, env, konts.push(KontV::Sequence(*b, env))),
            st,
        ),
    }
}

/// Looks a name up in the global environment; the latest binding wins.
pub fn lookup_global(globals: &Vec<(String, Value)>, name: &str) -> (r: Option<Value>)
    ensures
        r is Some <==> crate::interpreter::globals_map_view(globals@).contains_key(name@),
        r matches Some(v) ==> value_view(v) == crate::interpreter::globals_map_view(globals@)[name@],
{
    let glen = globals.len();
    proof {
        assert(globals@.take(glen as int) =~= globals@);
    }
    let mut i: usize = glen;
    #[verifier::loop_isolation(false)]
    while i > 0
        invariant
            i <= glen,
            crate::interpreter::globals_map_view(globals@.take(i as int)).contains_key(name@)
                == crate::interpreter::globals_map_view(globals@).contains_key(name@),
            crate::interpreter::globals_map_view(globals@.take(i as int)).contains_key(name@)
                ==> crate::interpreter::globals_map_view(globals@.take(i as int))[name@]
                == crate::interpreter::globals_map_view(globals@)[name@],
        decreases i,
    {
        proof {
            assert(globals@.take(i as int).drop_last() =~= globals@.take(i - 1));
            assert(globals@.take(i as int).last() == globals@[i - 1]);
        }
        if crate::literal::str_eq(globals[i - 1].0.as_str(), name) {
            return Some(globals[i - 1].1.duplicate());
        }
        i = i - 1;
    }
    proof {
        assert(globals@.take(0) =~= Seq::<(String, Value)>::empty());
    }
    None
}

/// Evaluates an atomic expression to a value, or reports a fatal error.
pub fn atomic(
    expr: &AExpr,
    env: &Env,
    globals: &Vec<(String, Value)>,
    store: &mut Store,
) -> (r: Result<Value, String>)
    ensures
        ({
            let s = spec_atomic(
                expr@,
                env@,
                crate::interpreter::globals_map_view(globals@),
                old(store)@,
            );
            &&& r is Ok <==> s is Some
            &&& (r matches Ok(v) ==> s matches Some(sv) && (value_view(v), final(store)@) == sv)
        }),
    decreases expr, 2int,
{
    broadcast use lemma_aexprs_view_index;

    match expr {
        AExpr::Global(name) => {
            proof {
                assert(expr@->Global_0 == name@);
            }
            match lookup_global(globals, name.as_str()) {
                Some(v) => Ok(v),
                None => {
                    let mut msg: Vec<char> = Vec::new();
                    crate::literal::push_str_chars(&mut msg, "unknown global: ");
                    crate::literal::push_str_chars(&mut msg, name.as_str());
                    Err(crate::util::chars_to_string(msg))
                },
            }
        },
        AExpr::Lambda(name, argn, body) => {
            proof {
                assert(*expr@->Lambda_2 == expr_view(**body));
            }
            let n2 = match name {
                Some(n) => Some(n.clone()),
                None => None,
            };
            proof {
                assert(expr@->Lambda_0 == (match n2 {
                    Some(n) => Some(n@),
                    None => None::<Seq<char>>,
                }));
            }
            let a = store.store_closure(*argn, body, n2, env.duplicate());
            Ok(Value::Closure(a))
        },
        AExpr::Literal(l) => {
            proof {
                assert(expr@->Literal_0 == crate::literal::lit_view(*l));
            }
            Ok(store.store_literal(l))
        },
        AExpr::Local(n) => {
            if *n < env.depth() {
                Ok(env.local(*n))
            } else {
                Err("environment stack underflow".to_owned())
            }
        },
        AExpr::Vector(es) => {
            proof {
                assert(expr@->Vector_0 == aexprs_view(es@));
            }
            let ghost esv = aexprs_view(es@);
            let ghost tgt = spec_atomic_cells(
                esv,
                env@,
                crate::interpreter::globals_map_view(globals@),
                old(store)@,
            );
            let mut addrs: Vec<usize> = Vec::new();
            let mut i: usize = 0;
            proof {
                assert(esv.skip(0) =~= esv);
            }
            #[verifier::loop_isolation(false)]
            while i < es.len()
                invariant
                    i <= es@.len(),
                    addrs@.len() == i,
                    ({
                        let s = spec_atomic_cells(
                            esv.skip(i as int),
                            env@,
                            crate::interpreter::globals_map_view(globals@),
                            store@,
                        );
                        &&& (s matches Some((rest, stf)) ==> tgt matches Some((ta, tst)) && ta
                            == Seq::new(addrs@.len(), |j: int| addrs@[j] as nat) + rest && tst
                            == stf)
                        &&& (s is None ==> tgt is None)
                    }),
                decreases es@.len() - i,
            {
                proof {
                    assert(decreases_to!(*expr => expr->Vector_0@[i as int]));
                    assert(expr->Vector_0@[i as int] == es@[i as int]);
                    assert(esv.skip(i as int)[0] == esv[i as int]);
                    assert(esv[i as int] == aexpr_view(es@[i as int]));
                    assert(esv.skip(i as int).drop_first() =~= esv.skip(i + 1));
                }
                let ghost prea = addrs@;
                let v = match atomic(&es[i], env, globals, store) {
                    Ok(v) => v,
                    Err(m) => {
                        return Err(m);
                    },
                };
                let a = store.store(v);
                addrs.push(a.idx);
                proof {
                    let cur = Seq::new(addrs@.len(), |j: int| addrs@[j] as nat);
                    match spec_atomic_cells(
                        esv.skip(i + 1),
                        env@,
                        crate::interpreter::globals_map_view(globals@),
                        store@,
                    ) {
                        Some((rest, stf)) => {
                            assert(cur + rest =~= Seq::new(prea.len(), |j: int| prea[j] as nat)
                                + (seq![a.idx as nat] + rest));
                        },
                        None => {},
                    }
                }
                i = i + 1;
            }
            proof {
                assert(esv.skip(es@.len() as int) =~= Seq::<AExprV>::empty());
                let cur = Seq::new(addrs@.len(), |j: int| addrs@[j] as nat);
                assert(cur + Seq::<nat>::empty() =~= cur);
            }
            let (a, l) = store.store_vec(&addrs);
            proof {
                assert(esv.len() == es@.len());
            }
            Ok(Value::Vector(a, l))
        },
    }
}

/// Calls a function: a closure resumes its body, an intrinsic stops the
/// machine for the host, anything else fails.
pub fn apply(func: Value, args: Vec<Value>, store: &mut Store, konts: Vec<Kont>) -> (r: State)
    ensures
        (r@, final(store)@) == spec_apply(
            value_view(func),
            values_view(args@),
            old(store)@,
            konts_view(konts@),
        ),
{
    match func {
        Value::Closure(ca) => {
            if ca.idx < store.clos.len() {
                proof {
                    assert(store@.clos[ca.idx as int] == clos_view(store.clos@[ca.idx as int]));
                }
                let c = store.get_closure(&ca);
                if c.argn == args.len() {
                    let mut env = c.env;
                    let mut i: usize = 0;
                    #[verifier::loop_isolation(false)]
                    while i < args.len()
                        invariant
                            i <= args@.len(),
                            env@ == clos_view(store.clos@[ca.idx as int]).env + values_view(
                                args@,
                            ).take(i as int),
                        decreases args@.len() - i,
                    {
                        env.push(args[i].duplicate());
                        proof {
                            assert(values_view(args@).take(i + 1) =~= values_view(args@).take(
                                i as int,
                            ).push(value_view(args@[i as int])));
                            assert(env@ =~= clos_view(store.clos@[ca.idx as int]).env
                                + values_view(args@).take(i + 1));
                        }
                        i = i + 1;
                    }
                    proof {
                        assert(values_view(args@).take(args@.len() as int) =~= values_view(
                            args@,
                        ));
                    }
                    State::Running(c.body, env, konts)
                } else {
                    State::Failed("arity mismatch in call".to_owned())
                }
            } else {
                State::Failed("dangling closure handle".to_owned())
            }
        },
        Value::Intrinsic(i) => State::Intrinsic(i.0, args, konts),
        _ => State::Failed("not callable".to_owned()),
    }
}

/// Applies a value onto the top continuation of the continuation stack,
/// returning the new state.
#[verifier::rlimit(50)]
pub fn kontinue(val: Value, store: &mut Store, konts: Vec<Kont>) -> (r: State)
    ensures
        (r@, final(store)@) == spec_kontinue(value_view(val), old(store)@, konts_view(konts@)),
    decreases konts@.len(),
{
    let mut konts = konts;
    let ghost kv = konts_view(konts@);
    if konts.len() == 0 {
        proof {
            assert(kv.len() == 0);
        }
        State::Halted(val)
    } else {
        let top = konts.pop().unwrap();
        proof {
            assert(konts_view(konts@) =~= kv.drop_last());
            assert(kv.last() == crate::interpreter::kont_view(top));
        }
        match top {
            Kont::Let(e, env) => {
                proof {
                    assert(kv.last() is Let);
                    assert(kv.last()->Let_0 == expr_view(e));
                    assert(kv.last()->Let_1 == env@);
                    assert(spec_kontinue(value_view(val), old(store)@, kv) == (
                        StateV::Running(
                            kv.last()->Let_0,
                            kv.last()->Let_1.push(value_view(val)),
                            kv.drop_last(),
                        ),
                        old(store)@,
                    ));
                }
                let mut env = env;
                env.push(val);
                let res = State::Running(e, env, konts);
                proof {
                    assert(res@ == spec_kontinue(value_view(val), old(store)@, kv).0);
                    assert(store@ == spec_kontinue(value_view(val), old(store)@, kv).1);
                }
                res
            },
            Kont::Sequence(e, env) => {
                proof {
                    assert(kv.last() is Sequence);
                    assert(kv.last()->Sequence_0 == expr_view(e));
                    assert(kv.last()->Sequence_1 == env@);
                }
                State::Running(e, env, konts)
            },
            Kont::MakeVector(cur, last, f, acc) => {
                let a = store.store(val);
                let mut acc = acc;
                acc.push(a.idx);
                let ghost accv = Seq::new(acc@.len(), |j: int| acc@[j] as nat);
                proof {
                    assert(accv =~= Seq::new((acc@.len() - 1) as nat, |j: int| acc@[j] as nat).push(
                        a.idx as nat,
                    ));
                }
                if cur >= last {
                    let ghost st1 = store@;
                    let (off, l) = store.store_vec(&acc);
                    proof {
                        assert(store@ =~= (StoreV { vecs: st1.vecs + accv, ..st1 }));
                        assert(off.idx == st1.vecs.len() && l == accv.len());
                    }
                    proof {
                        assert(accv == kv.last()->MakeVector_3.push(store_val(old(store)@, value_view(val)).0));
                    }
                    let res = kontinue(Value::Vector(off, l), store, konts);
                    proof {
                        assert(res@ == spec_kontinue(value_view(val), old(store)@, kv).0);
                    }
                    res
                } else {
                    let nxt = Value::Fixnum(#[verifier::truncate] ((cur + 1) as i64));
                    let mut args: Vec<Value> = Vec::new();
                    args.push(nxt);
                    let f2 = f.duplicate();
                    konts.push(Kont::MakeVector(cur + 1, last, f, acc));
                    proof {
                        assert(values_view(args@) =~= seq![ValueV::Fixnum((((cur + 1) as usize) as i64))]);
                        assert(konts_view(konts@) =~= kv.drop_last().push(
                            KontV::MakeVector(
                                (cur + 1) as nat,
                                last as nat,
                                value_view(f2),
                                accv,
                            ),
                        ));
                    }
                    let res = apply(f2, args, store, konts);
                    proof {
                        assert(res@ =~~= spec_kontinue(value_view(val), old(store)@, kv).0);
                        assert(store@ =~~= spec_kontinue(value_view(val), old(store)@, kv).1);
                    }
                    res
                }
            },
        }
    }
}

/// Evaluates by a single step.
#[verifier::rlimit(100)]
pub fn step(
    e: Expr,
    env: Env,
    konts: Vec<Kont>,
    globals: &Vec<(String, Value)>,
    store: &mut Store,
) -> (r: State)
    ensures
        ({
            let (sv, stv) = spec_step(
                e@,
                env@,
                konts_view(konts@),
                crate::interpreter::globals_map_view(globals@),
                old(store)@,
            );
            &&& r@ == sv
            &&& (!(sv is Failed) ==> final(store)@ == stv)
        }),
{
    broadcast use lemma_letrec_view_index;
    broadcast use lemma_aexprs_view_index;

    match e {
        Expr::AExpr(a) => {
            proof {
                assert(expr_view(e)->AExpr_0 == aexpr_view(a));
            }
            match atomic(&a, &env, globals, store) {
                Ok(v) => kontinue(v, store, konts),
                Err(m) => State::Failed(m),
            }
        },
        Expr::CExpr(c) => {
            proof {
                assert(expr_view(e)->CExpr_0 == cexpr_view(c));
            }
            match c {
                CExpr::Call(f, args) => {
                    proof {
                        assert(cexpr_view(c)->Call_0 == aexpr_view(f));
                        assert(cexpr_view(c)->Call_1 == aexprs_view(args@));
                    }
                    let fv = match atomic(&f, &env, globals, store) {
                        Ok(v) => v,
                        Err(m) => {
                            return State::Failed(m);
                        },
                    };
                    let ghost argsv = aexprs_view(args@);
                    let ghost tgt = spec_atomic_list(
                        argsv,
                        env@,
                        crate::interpreter::globals_map_view(globals@),
                        store@,
                    );
                    let mut argvs: Vec<Value> = Vec::new();
                    let mut i: usize = 0;
                    proof {
                        assert(argsv.skip(0) =~= argsv);
                    }
                    #[verifier::loop_isolation(false)]
                    while i < args.len()
                        invariant
                            i <= args@.len(),
                            argvs@.len() == i,
                            ({
                                let s = spec_atomic_list(
                                    argsv.skip(i as int),
                                    env@,
                                    crate::interpreter::globals_map_view(globals@),
                                    store@,
                                );
                                &&& (s matches Some((rest, stf)) ==> tgt matches Some(
                                    (ta, tst),
                                ) && ta == values_view(argvs@) + rest && tst == stf)
                                &&& (s is None ==> tgt is None)
                            }),
                        decreases args@.len() - i,
                    {
                        broadcast use lemma_aexprs_view_index;

                        proof {
                            assert(argsv.skip(i as int)[0] == argsv[i as int]);
                            assert(argsv[i as int] == aexpr_view(args@[i as int]));
                            assert(argsv.skip(i as int).drop_first() =~= argsv.skip(i + 1));
                        }
                        let ghost prev = values_view(argvs@);
                        let v = match atomic(&args[i], &env, globals, store) {
                            Ok(v) => v,
                            Err(m) => {
                                return State::Failed(m);
                            },
                        };
                        argvs.push(v);
                        proof {
                            match spec_atomic_list(
                                argsv.skip(i + 1),
                                env@,
                                crate::interpreter::globals_map_view(globals@),
                                store@,
                            ) {
                                Some((rest, stf)) => {
                                    assert(values_view(argvs@) + rest =~= prev + (seq![
                                        value_view(argvs@.last()),
                                    ] + rest));
                                },
                                None => {},
                            }
                        }
                        i = i + 1;
                    }
                    proof {
                        assert(argsv.skip(args@.len() as int) =~= Seq::<AExprV>::empty());
                        assert(values_view(argvs@) + Seq::<ValueV>::empty() =~= values_view(
                            argvs@,
                        ));
                    }
                    apply(fv, argvs, store, konts)
                },
                CExpr::If(cond, t, e2) => {
                    proof {
                        assert(cexpr_view(c)->If_0 == aexpr_view(cond));
                        assert(*cexpr_view(c)->If_1 == expr_view(*t));
                        assert(*cexpr_view(c)->If_2 == expr_view(*e2));
                    }
                    let cv = match atomic(&cond, &env, globals, store) {
                        Ok(v) => v,
                        Err(m) => {
                            return State::Failed(m);
                        },
                    };
                    match cv {
                        Value::Nil => State::Running(*e2, env, konts),
                        _ => State::Running(*t, env, konts),
                    }
                },
                CExpr::LetRec(bound, body) => {
                    proof {
                        assert(cexpr_view(c)->LetRec_0 == letrec_view(bound@));
                        assert(*cexpr_view(c)->LetRec_1 == expr_view(*body));
                    }
                    let ghost boundv = letrec_view(bound@);
                    let ghost tgt = spec_letrec_alloc(boundv, env@, store@);
                    let mut env = env;
                    let mut addrs: Vec<usize> = Vec::new();
                    let mut i: usize = 0;
                    proof {
                        assert(boundv.skip(0) =~= boundv);
                    }
                    #[verifier::loop_isolation(false)]
                    while i < bound.len()
                        invariant
                            i <= bound@.len(),
                            addrs@.len() == i,
                            ({
                                let (rest, envf, stf) = spec_letrec_alloc(
                                    boundv.skip(i as int),
                                    env@,
                                    store@,
                                );
                                &&& tgt.0 == Seq::new(addrs@.len(), |j: int| addrs@[j] as nat)
                                    + rest
                                &&& tgt.1 == envf
                                &&& tgt.2 == stf
                            }),
                        decreases bound@.len() - i,
                    {
                        proof {
                            assert(boundv.skip(i as int)[0] == boundv[i as int]);
                            assert(boundv[i as int] == (
                                bound@[i as int].0@,
                                bound@[i as int].1 as nat,
                                expr_view(bound@[i as int].2),
                            ));
                            assert(boundv.skip(i as int).drop_first() =~= boundv.skip(i + 1));
                        }
                        let ghost prea = addrs@;
                        let a = store.store_closure(
                            bound[i].1,
                            &bound[i].2,
                            Some(bound[i].0.clone()),
                            Env::new(),
                        );
                        addrs.push(a.idx);
                        env.push(Value::Closure(a));
                        proof {
                            let cur = Seq::new(addrs@.len(), |j: int| addrs@[j] as nat);
                            let (rest, envf, stf) = spec_letrec_alloc(
                                boundv.skip(i + 1),
                                env@,
                                store@,
                            );
                            assert(cur + rest =~= Seq::new(prea.len(), |j: int| prea[j] as nat)
                                + (seq![cur.last()] + rest));
                        }
                        i = i + 1;
                    }
                    proof {
                        assert(boundv.skip(bound@.len() as int) =~= Seq::<
                            (Seq<char>, nat, ExprV),
                        >::empty());
                        let cur = Seq::new(addrs@.len(), |j: int| addrs@[j] as nat);
                        assert(cur + Seq::<nat>::empty() =~= cur);
                    }
                    // Tie the knot: every closure captures the full environment.
                    let ghost allads = Seq::new(addrs@.len(), |j: int| addrs@[j] as nat);
                    let ghost patch_tgt = spec_backpatch(store@, allads, env@);
                    let mut i: usize = 0;
                    proof {
                        assert(allads.skip(0) =~= allads);
                    }
                    #[verifier::loop_isolation(false)]
                    while i < addrs.len()
                        invariant
                            i <= addrs@.len(),
                            spec_backpatch(store@, allads.skip(i as int), env@) == patch_tgt,
                        decreases addrs@.len() - i,
                    {
                        let ghost rem = allads.skip(i as int);
                        proof {
                            assert(rem[0] == addrs@[i as int] as nat);
                            assert(rem.drop_first() =~= allads.skip(i + 1));
                        }
                        let ghost stpre = store@;
                        proof {
                            assert(spec_backpatch(stpre, rem, env@) == patch_tgt);
                        }
                        if addrs[i] < store.clos.len() {
                            let aa: Addr<crate::interpreter::store::Closure> = Addr::at(addrs[i]);
                            store.mutate_closure_env(&aa, env.duplicate());
                            proof {
                                assert(store@ =~= (StoreV {
                                    clos: stpre.clos.update(
                                        addrs@[i as int] as int,
                                        ClosV {
                                            env: env@,
                                            ..stpre.clos[addrs@[i as int] as int]
                                        },
                                    ),
                                    ..stpre
                                }));
                                assert(spec_backpatch(store@, rem.drop_first(), env@)
                                    == patch_tgt);
                            }
                        } else {
                            proof {
                                assert(!(rem[0] < stpre.clos.len()));
                                assert(spec_backpatch(store@, rem.drop_first(), env@)
                                    == patch_tgt);
                            }
                        }
                        i = i + 1;
                    }
                    proof {
                        assert(allads.skip(addrs@.len() as int) =~= Seq::<nat>::empty());
                    }
                    State::Running(*body, env, konts)
                },
            }
        },
        Expr::Let(a, b) => {
            proof {
                assert(*expr_view(e)->Let_0 == expr_view(*a));
                assert(*expr_view(e)->Let_1 == expr_view(*b));
            }
            let ghost kv0 = konts_view(konts@);
            let mut konts = konts;
            let benv = env.duplicate();
            konts.push(Kont::Let(*b, benv));
            proof {
                assert(konts_view(konts@) =~= kv0.push(kont_view_of(konts@.last())));
            }
            State::Running(*a, env, konts)
        },
        Expr::Sequence(a, b) => {
            proof {
                assert(*expr_view(e)->Sequence_0 == expr_view(*a));
                assert(*expr_view(e)->Sequence_1 == expr_view(*b));
            }
            let ghost kv0 = konts_view(konts@);
            let mut konts = konts;
            let benv = env.duplicate();
            konts.push(Kont::Sequence(*b, benv));
            proof {
                assert(konts_view(konts@) =~= kv0.push(kont_view_of(konts@.last())));
            }
            State::Running(*a, env, konts)
        },
    }
}

} // verus!
