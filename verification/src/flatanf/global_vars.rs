//! The set of global names that an expression references.

use vstd::prelude::*;

use crate::ast::all_distinct;
use crate::flatanf::{
    aexpr_view, aexprs_view, cexpr_view, expr_view, lemma_aexprs_view_index,
    lemma_letrec_view_index, letrec_view, AExpr, AExprV, CExpr, CExprV, Expr, ExprV,
};

verus! {

/// The global names referenced by an expression model.
pub open spec fn expr_globals(e: ExprV) -> Set<Seq<char>>
    decreases e, 3int,
{
    match e {
        ExprV::AExpr(a) => aexpr_globals(a),
        ExprV::CExpr(c) => cexpr_globals(c),
        ExprV::Let(a, b) => expr_globals(*a).union(expr_globals(*b)),
        ExprV::Sequence(a, b) => expr_globals(*a).union(expr_globals(*b)),
    }
}

/// The global names referenced by a complex expression model.
pub open spec fn cexpr_globals(c: CExprV) -> Set<Seq<char>>
    decreases c, 3int,
{
    match c {
        CExprV::Call(f, args) => aexpr_globals(f).union(aexprs_globals(args)),
        CExprV::If(cond, t, e) => aexpr_globals(cond).union(expr_globals(*t)).union(
            expr_globals(*e),
        ),
        CExprV::LetRec(bound, body) => letrec_globals(bound).union(expr_globals(*body)),
    }
}

/// The global names referenced by an atomic expression model.
pub open spec fn aexpr_globals(a: AExprV) -> Set<Seq<char>>
    decreases a, 3int,
{
    match a {
        AExprV::Global(name) => Set::empty().insert(name),
        AExprV::Lambda(_, _, body) => expr_globals(*body),
        AExprV::Literal(_) => Set::empty(),
        AExprV::Local(_) => Set::empty(),
        AExprV::Vector(es) => aexprs_globals(es),
    }
}

/// The global names referenced by a sequence of atomic expression models.
pub open spec fn aexprs_globals(s: Seq<AExprV>) -> Set<Seq<char>>
    decreases s, 0int,
{
    if s.len() == 0 {
        Set::empty()
    } else {
        aexprs_globals(s.drop_last()).union(aexpr_globals(s.last()))
    }
}

/// The global names referenced by a sequence of letrec binding models.
pub open spec fn letrec_globals(s: Seq<(Seq<char>, nat, ExprV)>) -> Set<Seq<char>>
    decreases s, 0int,
{
    if s.len() == 0 {
        Set::empty()
    } else {
        letrec_globals(s.drop_last()).union(expr_globals(s.last().2))
    }
}

/// Whether a sequence of texts contains the given text.
pub open spec fn names_contain(v: Seq<Seq<char>>, x: Seq<char>) -> bool {
    exists|i: int| 0 <= i < v.len() && v[i] == x
}

/// The two spellings of sequence membership agree.
pub broadcast proof fn lemma_names_contain_is_contains(v: Seq<Seq<char>>, x: Seq<char>)
    ensures
        #[trigger] names_contain(v, x) <==> v.contains(x),
{
}

/// Whether a vector of strings holds the given text, executably.
pub fn vec_contains_name(v: &Vec<String>, x: &str) -> (r: bool)
    ensures
        r == names_contain(v.deep_view(), x@),
{
    let mut i: usize = 0;
    #[verifier::loop_isolation(false)]
    while i < v.len()
        invariant
            i <= v@.len(),
            forall|j: int| 0 <= j < i ==> v.deep_view()[j] != x@,
        decreases v@.len() - i,
    {
        if crate::literal::str_eq(v[i].as_str(), x) {
            proof {
                assert(v.deep_view()[i as int] == x@);
            }
            return true;
        }
        i = i + 1;
    }
    false
}

/// Appends `x` to `out` unless it is already present.
pub fn push_name(out: &mut Vec<String>, x: &String)
    ensures
        forall|y: Seq<char>|
            names_contain(final(out).deep_view(), y) <==> (names_contain(
                old(out).deep_view(),
                y,
            ) || y == x@),
        all_distinct(old(out).deep_view()) ==> all_distinct(final(out).deep_view()),
{
    if !vec_contains_name(out, x.as_str()) {
        let ghost pre = out.deep_view();
        out.push(x.clone());
        proof {
            assert(out.deep_view() =~= pre.push(x@));
            assert forall|y: Seq<char>|
                names_contain(out.deep_view(), y) implies (names_contain(pre, y) || y == x@) by {
                let i = choose|i: int| 0 <= i < out.deep_view().len() && out.deep_view()[i] == y;
                if i < pre.len() {
                    assert(pre[i] == y);
                }
            }
            assert forall|y: Seq<char>| names_contain(pre, y) implies names_contain(
                out.deep_view(),
                y,
            ) by {
                let i = choose|i: int| 0 <= i < pre.len() && pre[i] == y;
                assert(out.deep_view()[i] == y);
            }
            assert(names_contain(out.deep_view(), x@)) by {
                assert(out.deep_view()[pre.len() as int] == x@);
            }
        }
    } else {
        proof {
            assert(names_contain(out.deep_view(), x@));
        }
    }
}

/// Appends to `out` each global name referenced by `e` that is not already
/// present.
pub fn push_expr_globals(e: &Expr, out: &mut Vec<String>)
    ensures
        forall|x: Seq<char>|
            names_contain(final(out).deep_view(), x) <==> (names_contain(
                old(out).deep_view(),
                x,
            ) || expr_globals(e@).contains(x)),
        all_distinct(old(out).deep_view()) ==> all_distinct(final(out).deep_view()),
    decreases e, 3int,
{
    match e {
        Expr::AExpr(a) => {
            proof {
                assert(e@->AExpr_0 == aexpr_view(*a));
                assert(expr_globals(e@) =~= aexpr_globals(aexpr_view(*a)));
            }
            push_aexpr_globals(a, out)
        },
        Expr::CExpr(c) => {
            proof {
                assert(e@->CExpr_0 == cexpr_view(*c));
                assert(expr_globals(e@) =~= cexpr_globals(cexpr_view(*c)));
            }
            push_cexpr_globals(c, out)
        },
        Expr::Let(a, b) => {
            proof {
                assert(*e@->Let_0 == expr_view(**a));
                assert(*e@->Let_1 == expr_view(**b));
                assert(expr_globals(e@) =~= expr_globals(expr_view(**a)).union(
                    expr_globals(expr_view(**b)),
                ));
            }
            push_expr_globals(a, out);
            push_expr_globals(b, out);
        },
        Expr::Sequence(a, b) => {
            proof {
                assert(*e@->Sequence_0 == expr_view(**a));
                assert(*e@->Sequence_1 == expr_view(**b));
                assert(expr_globals(e@) =~= expr_globals(expr_view(**a)).union(
                    expr_globals(expr_view(**b)),
                ));
            }
            push_expr_globals(a, out);
            push_expr_globals(b, out);
        },
    }
}

/// Appends to `out` each global name referenced by `c` that is not already
/// present.
pub fn push_cexpr_globals(c: &CExpr, out: &mut Vec<String>)
    ensures
        forall|x: Seq<char>|
            names_contain(final(out).deep_view(), x) <==> (names_contain(
                old(out).deep_view(),
                x,
            ) || cexpr_globals(c@).contains(x)),
        all_distinct(old(out).deep_view()) ==> all_distinct(final(out).deep_view()),
    decreases c, 3int,
{
    broadcast use lemma_aexprs_view_index;
    broadcast use lemma_letrec_view_index;

    match c {
        CExpr::Call(f, args) => {
            proof {
                assert(*f == c->Call_0);
                assert(*args == c->Call_1);
                assert(c@->Call_0 == aexpr_view(*f));
                assert(c@->Call_1 == aexprs_view(args@));
                assert(cexpr_globals(c@) =~= aexpr_globals(aexpr_view(*f)).union(
                    aexprs_globals(aexprs_view(args@)),
                ));
            }
            push_aexpr_globals(f, out);
            let ghost argsv = aexprs_view(args@);
            let ghost base = out.deep_view();
            let mut i: usize = 0;
            proof {
                assert(aexprs_globals(argsv.take(0)) =~= Set::<Seq<char>>::empty()) by {
                    assert(argsv.take(0) =~= Seq::<AExprV>::empty());
                }
            }
            #[verifier::loop_isolation(false)]
            while i < args.len()
                invariant
                    i <= args@.len(),
                    forall|x: Seq<char>|
                        #![all_triggers]
                        names_contain(out.deep_view(), x) <==> (names_contain(base, x)
                            || aexprs_globals(argsv.take(i as int)).contains(x)),
                    all_distinct(base) ==> all_distinct(out.deep_view()),
                decreases args@.len() - i,
            {
                proof {
                    assert(decreases_to!(*c => c->Call_1));
                    assert(decreases_to!(c->Call_1 => c->Call_1@[i as int]));
                    assert(c->Call_1@[i as int] == args@[i as int]);
                    assert(argsv.take(i + 1).drop_last() =~= argsv.take(i as int));
                    assert(argsv.take(i + 1).last() == aexpr_view(args@[i as int]));
                    assert(aexprs_globals(argsv.take(i + 1)) =~= aexprs_globals(
                        argsv.take(i as int),
                    ).union(aexpr_globals(aexpr_view(args@[i as int]))));
                }
                let ghost mid = out.deep_view();
                push_aexpr_globals(&args[i], out);
                proof {
                    assert forall|x: Seq<char>|
                        names_contain(out.deep_view(), x) <==> (names_contain(base, x)
                            || aexprs_globals(argsv.take(i + 1)).contains(x)) by {
                        assert(names_contain(out.deep_view(), x) <==> (names_contain(mid, x)
                            || aexpr_globals(aexpr_view(args@[i as int])).contains(x)));
                        assert(names_contain(mid, x) <==> (names_contain(base, x)
                            || aexprs_globals(argsv.take(i as int)).contains(x)));
                    }
                }
                i = i + 1;
            }
            proof {
                assert(argsv.take(args@.len() as int) =~= argsv);
            }
        },
        CExpr::If(cond, t, e) => {
            proof {
                assert(c@->If_0 == aexpr_view(*cond));
                assert(*c@->If_1 == expr_view(**t));
                assert(*c@->If_2 == expr_view(**e));
                assert(cexpr_globals(c@) =~= aexpr_globals(aexpr_view(*cond)).union(
                    expr_globals(expr_view(**t)),
                ).union(expr_globals(expr_view(**e))));
            }
            push_aexpr_globals(cond, out);
            push_expr_globals(t, out);
            push_expr_globals(e, out);
        },
        CExpr::LetRec(bound, body) => {
            proof {
                assert(c@->LetRec_0 == letrec_view(bound@));
                assert(*c@->LetRec_1 == expr_view(**body));
                assert(cexpr_globals(c@) =~= letrec_globals(letrec_view(bound@)).union(
                    expr_globals(expr_view(**body)),
                ));
            }
            let ghost boundv = letrec_view(bound@);
            let ghost base = out.deep_view();
            let mut i: usize = 0;
            proof {
                assert(letrec_globals(boundv.take(0)) =~= Set::<Seq<char>>::empty()) by {
                    assert(boundv.take(0) =~= Seq::<(Seq<char>, nat, ExprV)>::empty());
                }
            }
            #[verifier::loop_isolation(false)]
            while i < bound.len()
                invariant
                    i <= bound@.len(),
                    forall|x: Seq<char>|
                        #![all_triggers]
                        names_contain(out.deep_view(), x) <==> (names_contain(base, x)
                            || letrec_globals(boundv.take(i as int)).contains(x)),
                    all_distinct(base) ==> all_distinct(out.deep_view()),
                decreases bound@.len() - i,
            {
                proof {
                    assert(decreases_to!(*c => c->LetRec_0));
                    assert(decreases_to!(c->LetRec_0 => c->LetRec_0@[i as int]));
                    assert(c->LetRec_0@[i as int] == bound@[i as int]);
                    assert(decreases_to!(bound@[i as int] => bound@[i as int].2));
                    assert(boundv.take(i + 1).drop_last() =~= boundv.take(i as int));
                    assert(boundv.take(i + 1).last() == (
                        bound@[i as int].0@,
                        bound@[i as int].1 as nat,
                        expr_view(bound@[i as int].2),
                    ));
                    assert(letrec_globals(boundv.take(i + 1)) =~= letrec_globals(
                        boundv.take(i as int),
                    ).union(expr_globals(expr_view(bound@[i as int].2))));
                }
                let ghost mid = out.deep_view();
                push_expr_globals(&bound[i].2, out);
                proof {
                    assert forall|x: Seq<char>|
                        names_contain(out.deep_view(), x) <==> (names_contain(base, x)
                            || letrec_globals(boundv.take(i + 1)).contains(x)) by {
                        assert(names_contain(out.deep_view(), x) <==> (names_contain(mid, x)
                            || expr_globals(expr_view(bound@[i as int].2)).contains(x)));
                        assert(names_contain(mid, x) <==> (names_contain(base, x)
                            || letrec_globals(boundv.take(i as int)).contains(x)));
                    }
                }
                i = i + 1;
            }
            proof {
                assert(boundv.take(bound@.len() as int) =~= boundv);
            }
            push_expr_globals(body, out);
        },
    }
}

/// Appends to `out` each global name referenced by `a` that is not already
/// present.
pub fn push_aexpr_globals(a: &AExpr, out: &mut Vec<String>)
    ensures
        forall|x: Seq<char>|
            names_contain(final(out).deep_view(), x) <==> (names_contain(
                old(out).deep_view(),
                x,
            ) || aexpr_globals(a@).contains(x)),
        all_distinct(old(out).deep_view()) ==> all_distinct(final(out).deep_view()),
    decreases a, 3int,
{
    broadcast use lemma_aexprs_view_index;

    match a {
        AExpr::Global(name) => {
            proof {
                assert(a@->Global_0 == name@);
                assert(aexpr_globals(a@) =~= Set::empty().insert(name@));
            }
            push_name(out, name);
        },
        AExpr::Lambda(_, _, body) => {
            proof {
                assert(*a@->Lambda_2 == expr_view(**body));
                assert(aexpr_globals(a@) =~= expr_globals(expr_view(**body)));
            }
            push_expr_globals(body, out);
        },
        AExpr::Literal(_) => {
            proof {
                assert(aexpr_globals(a@) =~= Set::<Seq<char>>::empty());
            }
        },
        AExpr::Local(_) => {
            proof {
                assert(aexpr_globals(a@) =~= Set::<Seq<char>>::empty());
            }
        },
        AExpr::Vector(es) => {
            proof {
                assert(a@->Vector_0 == aexprs_view(es@));
                assert(aexpr_globals(a@) =~= aexprs_globals(aexprs_view(es@)));
            }
            let ghost esv = aexprs_view(es@);
            let ghost base = out.deep_view();
            let mut i: usize = 0;
            proof {
                assert(aexprs_globals(esv.take(0)) =~= Set::<Seq<char>>::empty()) by {
                    assert(esv.take(0) =~= Seq::<AExprV>::empty());
                }
            }
            #[verifier::loop_isolation(false)]
            while i < es.len()
                invariant
                    i <= es@.len(),
                    forall|x: Seq<char>|
                        #![all_triggers]
                        names_contain(out.deep_view(), x) <==> (names_contain(base, x)
                            || aexprs_globals(esv.take(i as int)).contains(x)),
                    all_distinct(base) ==> all_distinct(out.deep_view()),
                decreases es@.len() - i,
            {
                proof {
                    assert(decreases_to!(*a => a->Vector_0));
                    assert(decreases_to!(a->Vector_0 => a->Vector_0@[i as int]));
                    assert(a->Vector_0@[i as int] == es@[i as int]);
                    assert(esv.take(i + 1).drop_last() =~= esv.take(i as int));
                    assert(esv.take(i + 1).last() == aexpr_view(es@[i as int]));
                    assert(aexprs_globals(esv.take(i + 1)) =~= aexprs_globals(
                        esv.take(i as int),
                    ).union(aexpr_globals(aexpr_view(es@[i as int]))));
                }
                let ghost mid = out.deep_view();
                push_aexpr_globals(&es[i], out);
                proof {
                    assert forall|x: Seq<char>|
                        names_contain(out.deep_view(), x) <==> (names_contain(base, x)
                            || aexprs_globals(esv.take(i + 1)).contains(x)) by {
                        assert(names_contain(out.deep_view(), x) <==> (names_contain(mid, x)
                            || aexpr_globals(aexpr_view(es@[i as int])).contains(x)));
                        assert(names_contain(mid, x) <==> (names_contain(base, x)
                            || aexprs_globals(esv.take(i as int)).contains(x)));
                    }
                }
                i = i + 1;
            }
            proof {
                assert(esv.take(es@.len() as int) =~= esv);
            }
        },
    }
}

impl Expr {
    /// Returns the global variables used by the given expression or its
    /// subexpressions, each once, in discovery order.
    pub fn global_vars(&self) -> (r: Vec<String>)
        ensures
            forall|x: Seq<char>|
                names_contain(r.deep_view(), x) <==> expr_globals(self@).contains(x),
            all_distinct(r.deep_view()),
    {
        let mut out: Vec<String> = Vec::new();
        proof {
            assert(out.deep_view() =~= Seq::<Seq<char>>::empty());
        }
        push_expr_globals(self, &mut out);
        out
    }
}

} // verus!
