//! Sanity checks run on a linked program before it is claimed compiled:
//! every referenced global is declared or intrinsic, a `main:main` entry
//! exists, and every de Bruijn index is within the environment that will
//! exist at its evaluation point.

use vstd::prelude::*;

use crate::error::ErrorKind;
use crate::flatanf::global_vars::{
    expr_globals, names_contain, push_expr_globals, vec_contains_name,
};
use crate::flatanf::{
    aexpr_view, aexprs_view, cexpr_view, expr_view, lemma_aexprs_view_index,
    lemma_letrec_view_index, letrec_view, AExpr, AExprV, CExpr, CExprV, Expr, ExprV, Program,
    ProgramV,
};

verus! {

/// Whether every local reference in an atomic expression is below the
/// number of environment entries in scope.
pub open spec fn aexpr_locals_ok(depth: int, a: AExprV) -> bool
    decreases a, 3int,
{
    match a {
        AExprV::Global(_) => true,
        AExprV::Lambda(_, argn, body) => expr_locals_ok(depth + argn, *body),
        AExprV::Literal(_) => true,
        AExprV::Local(n) => (n as int) < depth,
        AExprV::Vector(es) => aexprs_locals_ok(depth, es),
    }
}

/// Whether every local reference in a sequence of atomic expressions is in
/// scope.
pub open spec fn aexprs_locals_ok(depth: int, s: Seq<AExprV>) -> bool
    decreases s, 0int,
{
    if s.len() == 0 {
        true
    } else {
        aexprs_locals_ok(depth, s.drop_last()) && aexpr_locals_ok(depth, s.last())
    }
}

/// Whether every local reference in an expression is in scope.
pub open spec fn expr_locals_ok(depth: int, e: ExprV) -> bool
    decreases e, 3int,
{
    match e {
        ExprV::AExpr(a) => aexpr_locals_ok(depth, a),
        ExprV::CExpr(c) => cexpr_locals_ok(depth, c),
        ExprV::Let(a, b) => expr_locals_ok(depth, *a) && expr_locals_ok(depth + 1, *b),
        ExprV::Sequence(a, b) => expr_locals_ok(depth, *a) && expr_locals_ok(depth, *b),
    }
}

/// Whether every local reference in a complex expression is in scope. A
/// letrec brings all its binders into scope, and each binding's parameters
/// on top of those.
pub open spec fn cexpr_locals_ok(depth: int, c: CExprV) -> bool
    decreases c, 3int,
{
    match c {
        CExprV::Call(f, args) => aexpr_locals_ok(depth, f) && aexprs_locals_ok(depth, args),
        CExprV::If(cond, t, e) => aexpr_locals_ok(depth, cond) && expr_locals_ok(depth, *t)
            && expr_locals_ok(depth, *e),
        CExprV::LetRec(bound, body) => {
            let d2 = depth + bound.len();
            letrec_locals_ok(d2, bound) && expr_locals_ok(d2, *body)
        },
    }
}

/// Whether every letrec binding body's local references are in scope, given
/// the depth that already includes the binders.
pub open spec fn letrec_locals_ok(d2: int, bound: Seq<(Seq<char>, nat, ExprV)>) -> bool
    decreases bound, 0int,
{
    if bound.len() == 0 {
        true
    } else {
        letrec_locals_ok(d2, bound.drop_last()) && expr_locals_ok(
            d2 + bound.last().1,
            bound.last().2,
        )
    }
}

/// Whether every `Local(n)` in the program is preceded at its evaluation
/// point by strictly more than `n` pushes on the environment.
pub open spec fn program_locals_valid(p: ProgramV) -> bool {
    forall|i: int| 0 <= i < p.decls.len() ==> expr_locals_ok(0, #[trigger] p.decls[i].1)
}

/// Checks the local references of an atomic expression; `d` is the true
/// depth, of which `depth` is the clamped executable image.
pub fn aexpr_locals_check(depth: usize, Ghost(d): Ghost<int>, deep: bool, a: &AExpr) -> (r: bool)
    requires
        deep == (d > usize::MAX as int),
        !deep ==> depth as int == d,
        deep ==> depth == usize::MAX,
    ensures
        r == aexpr_locals_ok(d, a@),
    decreases a, 3int,
{
    broadcast use lemma_aexprs_view_index;

    match a {
        AExpr::Global(_) => true,
        AExpr::Lambda(_, argn, body) => {
            let ghost d2 = d + *argn;
            if usize::MAX - *argn < depth {
                expr_locals_check(usize::MAX, Ghost(d2), true, body)
            } else {
                expr_locals_check(depth + *argn, Ghost(d2), deep, body)
            }
        },
        AExpr::Literal(_) => true,
        AExpr::Local(n) => deep || *n < depth,
        AExpr::Vector(es) => {
            proof {
                assert(a@->Vector_0 == aexprs_view(es@));
            }
            let ghost esv = aexprs_view(es@);
            let mut i: usize = 0;
            let mut ok = true;
            proof {
                assert(aexprs_locals_ok(d, esv.take(0)) == true) by {
                    assert(esv.take(0) =~= Seq::<AExprV>::empty());
                }
            }
            #[verifier::loop_isolation(false)]
            while i < es.len()
                invariant
                    i <= es@.len(),
                    ok == aexprs_locals_ok(d, esv.take(i as int)),
                decreases es@.len() - i,
            {
                proof {
                    assert(decreases_to!(*a => a->Vector_0));
                    assert(decreases_to!(a->Vector_0 => a->Vector_0@[i as int]));
                    assert(a->Vector_0@[i as int] == es@[i as int]);
                    assert(esv.take(i + 1).drop_last() =~= esv.take(i as int));
                    assert(esv.take(i + 1).last() == aexpr_view(es@[i as int]));
                }
                let sub = aexpr_locals_check(depth, Ghost(d), deep, &es[i]);
                ok = ok && sub;
                i = i + 1;
            }
            proof {
                assert(esv.take(es@.len() as int) =~= esv);
            }
            ok
        },
    }
}

/// Checks the local references of an expression.
pub fn expr_locals_check(depth: usize, Ghost(d): Ghost<int>, deep: bool, e: &Expr) -> (r: bool)
    requires
        deep == (d > usize::MAX as int),
        !deep ==> depth as int == d,
        deep ==> depth == usize::MAX,
    ensures
        r == expr_locals_ok(d, e@),
    decreases e, 3int,
{
    match e {
        Expr::AExpr(a) => aexpr_locals_check(depth, Ghost(d), deep, a),
        Expr::CExpr(c) => cexpr_locals_check(depth, Ghost(d), deep, c),
        Expr::Let(a, b) => {
            let first = expr_locals_check(depth, Ghost(d), deep, a);
            let second = if depth == usize::MAX {
                expr_locals_check(usize::MAX, Ghost(d + 1), true, b)
            } else {
                expr_locals_check(depth + 1, Ghost(d + 1), deep, b)
            };
            first && second
        },
        Expr::Sequence(a, b) => {
            let first = expr_locals_check(depth, Ghost(d), deep, a);
            let second = expr_locals_check(depth, Ghost(d), deep, b);
            first && second
        },
    }
}

/// Checks the local references of a complex expression.
pub fn cexpr_locals_check(depth: usize, Ghost(d): Ghost<int>, deep: bool, c: &CExpr) -> (r: bool)
    requires
        deep == (d > usize::MAX as int),
        !deep ==> depth as int == d,
        deep ==> depth == usize::MAX,
    ensures
        r == cexpr_locals_ok(d, c@),
    decreases c, 3int,
{
    broadcast use lemma_aexprs_view_index;
    broadcast use lemma_letrec_view_index;

    match c {
        CExpr::Call(f, args) => {
            proof {
                assert(c@->Call_0 == aexpr_view(*f));
                assert(c@->Call_1 == aexprs_view(args@));
            }
            let mut ok = aexpr_locals_check(depth, Ghost(d), deep, f);
            let ghost argsv = aexprs_view(args@);
            let mut i: usize = 0;
            let ghost fok = ok;
            proof {
                assert(aexprs_locals_ok(d, argsv.take(0)) == true) by {
                    assert(argsv.take(0) =~= Seq::<AExprV>::empty());
                }
            }
            #[verifier::loop_isolation(false)]
            while i < args.len()
                invariant
                    i <= args@.len(),
                    ok == (fok && aexprs_locals_ok(d, argsv.take(i as int))),
                decreases args@.len() - i,
            {
                proof {
                    assert(decreases_to!(*c => c->Call_1));
                    assert(decreases_to!(c->Call_1 => c->Call_1@[i as int]));
                    assert(c->Call_1@[i as int] == args@[i as int]);
                    assert(argsv.take(i + 1).drop_last() =~= argsv.take(i as int));
                    assert(argsv.take(i + 1).last() == aexpr_view(args@[i as int]));
                }
                let sub = aexpr_locals_check(depth, Ghost(d), deep, &args[i]);
                ok = ok && sub;
                i = i + 1;
            }
            proof {
                assert(argsv.take(args@.len() as int) =~= argsv);
            }
            ok
        },
        CExpr::If(cond, t, e) => {
            proof {
                assert(c@->If_0 == aexpr_view(*cond));
                assert(*c@->If_1 == expr_view(**t));
                assert(*c@->If_2 == expr_view(**e));
            }
            let a = aexpr_locals_check(depth, Ghost(d), deep, cond);
            let b = expr_locals_check(depth, Ghost(d), deep, t);
            let dd = expr_locals_check(depth, Ghost(d), deep, e);
            a && b && dd
        },
        CExpr::LetRec(bound, body) => {
            proof {
                assert(c@->LetRec_0 == letrec_view(bound@));
                assert(*c@->LetRec_1 == expr_view(**body));
            }
            let ghost boundv = letrec_view(bound@);
            let ghost d2 = d + boundv.len();
            let (depth2, deep2): (usize, bool) = if usize::MAX - bound.len() < depth {
                (usize::MAX, true)
            } else {
                (depth + bound.len(), deep)
            };
            proof {
                assert(boundv.len() == bound@.len());
            }
            let a = letrec_bodies_check(depth2, Ghost(d2), deep2, bound, Ghost(c));
            let b = expr_locals_check(depth2, Ghost(d2), deep2, body);
            a && b
        },
    }
}

/// Checks the bodies of letrec bindings at the given extended depth.
fn letrec_bodies_check(
    d2x: usize,
    Ghost(d2): Ghost<int>,
    deep: bool,
    bound: &Vec<(String, usize, Expr)>,
    parent: Ghost<&CExpr>,
) -> (r: bool)
    requires
        *parent@ matches CExpr::LetRec(b, _) && b == bound,
        deep == (d2 > usize::MAX as int),
        !deep ==> d2x as int == d2,
        deep ==> d2x == usize::MAX,
    ensures
        r == letrec_locals_ok(d2, letrec_view(bound@)),
    decreases bound, 1int,
{
    broadcast use lemma_letrec_view_index;

    let ghost boundv = letrec_view(bound@);
    let mut ok = true;
    let mut i: usize = 0;
    proof {
        assert(letrec_locals_ok(d2, boundv.take(0)) == true) by {
            assert(boundv.take(0) =~= Seq::<(Seq<char>, nat, ExprV)>::empty());
        }
    }
    #[verifier::loop_isolation(false)]
    while i < bound.len()
        invariant
            i <= bound@.len(),
            ok == letrec_locals_ok(d2, boundv.take(i as int)),
        decreases bound@.len() - i,
    {
        proof {
            assert(decreases_to!(*bound => bound@[i as int]));
            assert(decreases_to!(bound@[i as int] => bound@[i as int].2));
            assert(boundv.take(i + 1).drop_last() =~= boundv.take(i as int));
            assert(boundv.take(i + 1).last() == (
                bound@[i as int].0@,
                bound@[i as int].1 as nat,
                expr_view(bound@[i as int].2),
            ));
        }
        let argn = bound[i].1;
        let ghost d3 = d2 + argn;
        let sub = if usize::MAX - argn < d2x {
            expr_locals_check(usize::MAX, Ghost(d3), true, &bound[i].2)
        } else {
            expr_locals_check(d2x + argn, Ghost(d3), deep, &bound[i].2)
        };
        ok = ok && sub;
        i = i + 1;
    }
    proof {
        assert(boundv.take(bound@.len() as int) =~= boundv);
    }
    ok
}

/// A body valid at depth `argn` makes a lambda of `argn` parameters valid at
/// depth zero.
pub proof fn lemma_locals_ok_zero_lambda(argn: nat, b: ExprV)
    ensures
        expr_locals_ok(argn as int, b) ==> aexpr_locals_ok(
            0,
            AExprV::Lambda(None, argn, Box::new(b)),
        ),
        forall|nm: Option<Seq<char>>|
            expr_locals_ok(argn as int, b) ==> #[trigger] aexpr_locals_ok(
                0,
                AExprV::Lambda(nm, argn, Box::new(b)),
            ),
{
}

/// Checks that all referenced local variables would actually exist. A
/// failure indicates a compiler bug, never bad user input.
pub fn locals_valid(program: &Program) -> (r: bool)
    ensures
        r == program_locals_valid(program@),
{
    let mut i: usize = 0;
    #[verifier::loop_isolation(false)]
    while i < program.decls.len()
        invariant
            i <= program.decls@.len(),
            forall|j: int| 0 <= j < i ==> expr_locals_ok(0, #[trigger] program@.decls[j].1),
        decreases program.decls@.len() - i,
    {
        proof {
            assert(program@.decls[i as int].1 == expr_view(program.decls@[i as int].1));
        }
        if !expr_locals_check(0, Ghost(0int), false, &program.decls[i].1) {
            return false;
        }
        i = i + 1;
    }
    true
}

/// The set of names declared by a program: its intrinsics and its
/// declarations' names.
pub open spec fn declared_names(p: ProgramV) -> Set<Seq<char>> {
    Set::new(
        |x: Seq<char>|
            names_contain(p.intrinsics, x) || exists|i: int|
                0 <= i < p.decls.len() && p.decls[i].0 == x,
    )
}

/// The set of global names referenced anywhere in a program's declarations.
pub open spec fn referenced_names(p: ProgramV) -> Set<Seq<char>> {
    Set::new(
        |x: Seq<char>| exists|i: int| 0 <= i < p.decls.len() && expr_globals(#[trigger] p.decls[i].1).contains(x),
    )
}

/// Checks that every referenced global is declared or intrinsic.
pub fn globals_exist(program: &Program) -> (r: Result<(), ErrorKind>)
    ensures
        r is Ok <==> referenced_names(program@).subset_of(declared_names(program@)),
        r matches Err(k) ==> (k matches ErrorKind::FreeVars(vs) && vs.deep_view().len() > 0
            && crate::ast::all_distinct(vs.deep_view()) && (forall|j: int|
            0 <= j < vs.deep_view().len() ==> referenced_names(program@).contains(
                #[trigger] vs.deep_view()[j],
            ) && !declared_names(program@).contains(vs.deep_view()[j])) && (forall|x: Seq<char>|
            referenced_names(program@).contains(x) && !declared_names(program@).contains(x)
                ==> names_contain(vs.deep_view(), x))),
{
    // Gather every referenced name, once each.
    let mut referenced: Vec<String> = Vec::new();
    proof {
        assert(referenced.deep_view() =~= Seq::<Seq<char>>::empty());
        assert(crate::ast::all_distinct(referenced.deep_view()));
    }
    let mut i: usize = 0;
    #[verifier::loop_isolation(false)]
    while i < program.decls.len()
        invariant
            i <= program.decls@.len(),
            crate::ast::all_distinct(referenced.deep_view()),
            forall|x: Seq<char>|
                names_contain(referenced.deep_view(), x) <==> exists|j: int|
                    0 <= j < i && expr_globals(#[trigger] program@.decls[j].1).contains(x),
        decreases program.decls@.len() - i,
    {
        proof {
            assert(program@.decls[i as int].1 == expr_view(program.decls@[i as int].1));
        }
        push_expr_globals(&program.decls[i].1, &mut referenced);
        i = i + 1;
    }

    // Keep those that are neither intrinsics nor declared.
    let mut free: Vec<String> = Vec::new();
    proof {
        assert(free.deep_view() =~= Seq::<Seq<char>>::empty());
    }
    let mut k: usize = 0;
    #[verifier::loop_isolation(false)]
    while k < referenced.len()
        invariant
            k <= referenced@.len(),
            crate::ast::all_distinct(free.deep_view()),
            forall|jj: int|
                0 <= jj < free.deep_view().len() ==> exists|j: int|
                    0 <= j < k && #[trigger] free.deep_view()[jj] == referenced.deep_view()[j],
            forall|j: int|
                0 <= j < free.deep_view().len() ==> referenced_names(program@).contains(
                    #[trigger] free.deep_view()[j],
                ) && !declared_names(program@).contains(free.deep_view()[j]),
            forall|j: int|
                0 <= j < k ==> (declared_names(program@).contains(
                    #[trigger] referenced.deep_view()[j],
                ) || names_contain(free.deep_view(), referenced.deep_view()[j])),
        decreases referenced@.len() - k,
    {
        let name = &referenced[k];
        proof {
            assert(referenced.deep_view()[k as int] == name@);
        }
        if !vec_contains_name(&program.intrinsics, name.as_str()) && !decl_names_contain(
            program,
            name.as_str(),
        ) {
            let ghost pre = free.deep_view();
            free.push(name.clone());
            proof {
                assert(free.deep_view() =~= pre.push(name@));
                assert(names_contain(free.deep_view(), name@)) by {
                    assert(free.deep_view()[pre.len() as int] == name@);
                }
                assert forall|j: int| 0 <= j < pre.len() implies free.deep_view()[j] == pre[j] by {}
                assert(names_contain(referenced.deep_view(), name@)) by {
                    assert(referenced.deep_view()[k as int] == name@);
                }
                // The pushed name is new: earlier entries came from earlier
                // positions of the duplicate-free `referenced`.
                assert forall|jj: int| 0 <= jj < pre.len() implies pre[jj] != name@ by {
                    let j = choose|j: int|
                        0 <= j < k && pre[jj] == referenced.deep_view()[j];
                    assert(referenced.deep_view()[j] != referenced.deep_view()[k as int]);
                }
                assert(crate::ast::all_distinct(free.deep_view()));
            }
        } else {
            proof {
                assert(program.intrinsics.deep_view() == program@.intrinsics);
            }
        }
        k = k + 1;
    }

    if free.len() == 0 {
        proof {
            assert forall|x: Seq<char>| referenced_names(program@).contains(
                x,
            ) implies declared_names(program@).contains(x) by {
                assert(names_contain(referenced.deep_view(), x));
                let j = choose|j: int|
                    0 <= j < referenced.deep_view().len() && referenced.deep_view()[j] == x;
                assert(free.deep_view().len() == 0);
            }
        }
        Ok(())
    } else {
        proof {
            let x = free.deep_view()[0];
            assert(referenced_names(program@).contains(x) && !declared_names(
                program@,
            ).contains(x));
            assert forall|y: Seq<char>|
                referenced_names(program@).contains(y) && !declared_names(program@).contains(
                    y,
                ) implies names_contain(free.deep_view(), y) by {
                assert(names_contain(referenced.deep_view(), y));
                let j = choose|j: int|
                    0 <= j < referenced.deep_view().len() && referenced.deep_view()[j] == y;
            }
        }
        Err(ErrorKind::FreeVars(free))
    }
}

/// Whether the program declares the given name.
fn decl_names_contain(program: &Program, name: &str) -> (r: bool)
    ensures
        r == exists|i: int|
            0 <= i < program@.decls.len() && #[trigger] program@.decls[i].0 == name@,
{
    let mut i: usize = 0;
    #[verifier::loop_isolation(false)]
    while i < program.decls.len()
        invariant
            i <= program.decls@.len(),
            forall|j: int| 0 <= j < i ==> #[trigger] program@.decls[j].0 != name@,
        decreases program.decls@.len() - i,
    {
        if crate::literal::str_eq(program.decls[i].0.as_str(), name) {
            proof {
                assert(program@.decls[i as int].0 == name@);
            }
            return true;
        }
        i = i + 1;
    }
    false
}

/// Checks that the program declares a `main:main` function.
pub fn main_exists(program: &Program) -> (r: Result<(), ErrorKind>)
    ensures
        r is Ok <==> exists|i: int|
            0 <= i < program@.decls.len() && #[trigger] program@.decls[i].0 == "main:main"@,
        r matches Err(k) ==> k == ErrorKind::NoMainFunction,
{
    if decl_names_contain(program, "main:main") {
        Ok(())
    } else {
        Err(ErrorKind::NoMainFunction)
    }
}

/// Runs all sanity checks on a program whose local references are already
/// known valid; linker output always is.
pub fn check(program: &Program) -> (r: Result<(), ErrorKind>)
    requires
        program_locals_valid(program@),
    ensures
        r is Ok <==> (referenced_names(program@).subset_of(declared_names(program@)) && exists|
            i: int,
        |
            0 <= i < program@.decls.len() && #[trigger] program@.decls[i].0 == "main:main"@),
        r matches Err(k) ==> (k is FreeVars || k is NoMainFunction),
{
    let () = globals_exist(program)?;
    let () = main_exists(program)?;
    Ok(())
}

} // verus!
