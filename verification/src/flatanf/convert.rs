//! The linker: collapses a set of lowered modules plus the built-in module
//! names into one global declaration list with qualified names and
//! de Bruijn-indexed locals.

use vstd::prelude::*;

use crate::anf;
use crate::error::ErrorKind;
use crate::flatanf::global_vars::{expr_globals, names_contain, push_expr_globals};
use crate::flatanf::util::{
    globals_map, local_depth, pairs_view, spec_resolve, Context,
};
use crate::flatanf::{decls_view, expr_view, AExpr, AExprV, CExpr, CExprV, Expr, ExprV, Program, ProgramV};

verus! {

/// A linking failure: an unresolved variable, a letrec binding whose
/// right-hand side is not a function, a name bound twice, or a reserved
/// declaration name.
#[verifier::ext_equal]
pub enum LinkErrV {
    NoSuchVar(Seq<char>),
    VarInLetrec(Seq<char>, Seq<char>),
    DuplicateLetrecName(Seq<char>),
    DuplicateDeclName(Seq<char>),
    IllegalDeclName(Seq<char>),
    NonLambdaInLetrec(Seq<char>),
}

/// The first name of the sequence (scanning from `j`) that already
/// occurred earlier in it, if any.
pub open spec fn first_repeat(names: Seq<Seq<char>>, j: int) -> Option<Seq<char>>
    decreases names.len() - j,
{
    if j < 0 || j >= names.len() {
        None
    } else if names.take(j).contains(names[j]) {
        Some(names[j])
    } else {
        first_repeat(names, j + 1)
    }
}

/// The first name of the sequence (scanning from `j`) that holds a colon,
/// if any; such names are reserved for qualified globals and cannot be
/// declared.
pub open spec fn first_illegal(names: Seq<Seq<char>>, j: int) -> Option<Seq<char>>
    decreases names.len() - j,
{
    if j < 0 || j >= names.len() {
        None
    } else if has_colon(names[j]) {
        Some(names[j])
    } else {
        first_illegal(names, j + 1)
    }
}

/// Whether a name contains a colon, marking it as already qualified.
pub open spec fn has_colon(s: Seq<char>) -> bool {
    exists|i: int| 0 <= i < s.len() && s[i] == ':'
}

/// The fully-qualified form of declaration `d` of module `m`: `m:d`.
pub open spec fn qualified(m: Seq<char>, d: Seq<char>) -> Seq<char> {
    m + seq![':'] + d
}

/// Resolves the variables of an atomic expression.
pub open spec fn sc_aexpr(
    locals: Seq<Seq<char>>,
    gmap: Map<Seq<char>, Seq<char>>,
    a: anf::AExprV,
) -> Result<AExprV, LinkErrV>
    decreases a, 2int,
{
    match a {
        anf::AExprV::Lambda(name, params, body) => match sc_expr(locals + params, gmap, *body) {
            Ok(b) => Ok(AExprV::Lambda(name, params.len(), Box::new(b))),
            Err(e) => Err(e),
        },
        anf::AExprV::Literal(l) => Ok(AExprV::Literal(l)),
        anf::AExprV::Var(v) => if has_colon(v) {
            Ok(AExprV::Global(v))
        } else {
            match spec_resolve(locals, gmap, v) {
                Some(r) => Ok(r),
                None => Err(LinkErrV::NoSuchVar(v)),
            }
        },
        anf::AExprV::Vector(es) => match sc_aexprs(locals, gmap, es) {
            Ok(rs) => Ok(AExprV::Vector(rs)),
            Err(e) => Err(e),
        },
    }
}

/// Resolves the variables of a sequence of atomic expressions; the error of
/// the earliest failing element wins.
pub open spec fn sc_aexprs(
    locals: Seq<Seq<char>>,
    gmap: Map<Seq<char>, Seq<char>>,
    s: Seq<anf::AExprV>,
) -> Result<Seq<AExprV>, LinkErrV>
    decreases s, 0int,
{
    if s.len() == 0 {
        Ok(Seq::empty())
    } else {
        match sc_aexprs(locals, gmap, s.drop_last()) {
            Ok(rs) => match sc_aexpr(locals, gmap, s.last()) {
                Ok(r) => Ok(rs.push(r)),
                Err(e) => Err(e),
            },
            Err(e) => Err(e),
        }
    }
}

/// Resolves the variables of an expression.
pub open spec fn sc_expr(
    locals: Seq<Seq<char>>,
    gmap: Map<Seq<char>, Seq<char>>,
    e: anf::ExprV,
) -> Result<ExprV, LinkErrV>
    decreases e, 3int,
{
    match e {
        anf::ExprV::AExpr(a) => match sc_aexpr(locals, gmap, a) {
            Ok(r) => Ok(ExprV::AExpr(r)),
            Err(err) => Err(err),
        },
        anf::ExprV::CExpr(c) => match sc_cexpr(locals, gmap, c) {
            Ok(r) => Ok(ExprV::CExpr(r)),
            Err(err) => Err(err),
        },
        anf::ExprV::Let(name, bound, body) => match sc_expr(locals, gmap, *bound) {
            Ok(b) => match sc_expr(locals.push(name), gmap, *body) {
                Ok(r) => Ok(ExprV::Let(Box::new(b), Box::new(r))),
                Err(err) => Err(err),
            },
            Err(err) => Err(err),
        },
        anf::ExprV::Sequence(e1, e2) => match sc_expr(locals, gmap, *e1) {
            Ok(a) => match sc_expr(locals, gmap, *e2) {
                Ok(b) => Ok(ExprV::Sequence(Box::new(a), Box::new(b))),
                Err(err) => Err(err),
            },
            Err(err) => Err(err),
        },
    }
}

/// The binder names of a sequence of letrec bindings.
pub open spec fn letrec_names(bound: Seq<(Seq<char>, anf::AExprV)>) -> Seq<Seq<char>> {
    Seq::new(bound.len(), |i: int| bound[i].0)
}

/// Resolves the variables of a complex expression. All letrec binders enter
/// scope before any right-hand side is compiled; a right-hand side that is
/// not a function is rejected.
pub open spec fn sc_cexpr(
    locals: Seq<Seq<char>>,
    gmap: Map<Seq<char>, Seq<char>>,
    c: anf::CExprV,
) -> Result<CExprV, LinkErrV>
    decreases c, 3int,
{
    match c {
        anf::CExprV::Call(f, args) => match sc_aexpr(locals, gmap, f) {
            Ok(fr) => match sc_aexprs(locals, gmap, args) {
                Ok(rs) => Ok(CExprV::Call(fr, rs)),
                Err(e) => Err(e),
            },
            Err(e) => Err(e),
        },
        anf::CExprV::If(cond, t, e2) => match sc_aexpr(locals, gmap, cond) {
            Ok(cr) => match sc_expr(locals, gmap, *t) {
                Ok(tr) => match sc_expr(locals, gmap, *e2) {
                    Ok(er) => Ok(CExprV::If(cr, Box::new(tr), Box::new(er))),
                    Err(e) => Err(e),
                },
                Err(e) => Err(e),
            },
            Err(e) => Err(e),
        },
        anf::CExprV::LetRec(bound, body) => match first_repeat(letrec_names(bound), 0) {
            Some(n) => Err(LinkErrV::DuplicateLetrecName(n)),
            None => {
                let locals2 = locals + letrec_names(bound);
                match sc_letrec(locals2, gmap, bound) {
                    Ok(ls) => match sc_expr(locals2, gmap, *body) {
                        Ok(b) => Ok(CExprV::LetRec(ls, Box::new(b))),
                        Err(e) => Err(e),
                    },
                    Err(e) => Err(e),
                }
            },
        },
    }
}

/// Resolves the right-hand sides of letrec bindings under the already
/// extended scope.
pub open spec fn sc_letrec(
    locals2: Seq<Seq<char>>,
    gmap: Map<Seq<char>, Seq<char>>,
    bound: Seq<(Seq<char>, anf::AExprV)>,
) -> Result<Seq<(Seq<char>, nat, ExprV)>, LinkErrV>
    decreases bound, 0int,
{
    if bound.len() == 0 {
        Ok(Seq::empty())
    } else {
        match sc_letrec(locals2, gmap, bound.drop_last()) {
            Ok(rs) => {
                let (name, rhs) = bound.last();
                match rhs {
                    anf::AExprV::Lambda(_, params, lbody) => match sc_expr(
                        locals2 + params,
                        gmap,
                        *lbody,
                    ) {
                        Ok(b) => Ok(rs.push((name, params.len(), b))),
                        Err(e) => Err(e),
                    },
                    anf::AExprV::Var(v) => Err(LinkErrV::VarInLetrec(name, v)),
                    _ => Err(LinkErrV::NonLambdaInLetrec(name)),
                }
            },
            Err(e) => Err(e),
        }
    }
}

/// Compiles one declaration: a `def` keeps its expression, a `defn` becomes
/// a named lambda; either way the name is qualified with the module name.
pub open spec fn sc_decl(
    modname: Seq<char>,
    gmap: Map<Seq<char>, Seq<char>>,
    d: anf::DeclV,
) -> Result<(Seq<char>, ExprV), LinkErrV> {
    match d {
        anf::DeclV::Def(name, e) => match sc_expr(Seq::empty(), gmap, e) {
            Ok(r) => Ok((qualified(modname, name), r)),
            Err(err) => Err(err),
        },
        anf::DeclV::Defn(name, params, body) => match sc_expr(params, gmap, body) {
            Ok(b) => {
                let q = qualified(modname, name);
                Ok(
                    (
                        q,
                        ExprV::AExpr(
                            AExprV::Lambda(Some(q), params.len(), Box::new(b)),
                        ),
                    ),
                )
            },
            Err(err) => Err(err),
        },
    }
}


/// Whether a map has the given value.
pub open spec fn gmap_has_value(gmap: Map<Seq<char>, Seq<char>>, x: Seq<char>) -> bool {
    exists|k: Seq<char>| gmap.contains_key(k) && gmap[k] == x
}

/// Resolution yields only in-scope de Bruijn indices (the linker's part of
/// de-Bruijn correctness).
pub proof fn lemma_sc_aexpr_locals_ok(
    locals: Seq<Seq<char>>,
    gmap: Map<Seq<char>, Seq<char>>,
    a: anf::AExprV,
)
    ensures
        sc_aexpr(locals, gmap, a) matches Ok(r) ==> crate::sanity::aexpr_locals_ok(
            locals.len() as int,
            r,
        ),
    decreases a, 2int,
{
    match a {
        anf::AExprV::Lambda(name, params, body) => {
            lemma_sc_expr_locals_ok(locals + params, gmap, *body);
        },
        anf::AExprV::Var(v) => {
            if !has_colon(v) {
                crate::flatanf::util::lemma_local_depth_bound(locals, v);
            }
        },
        anf::AExprV::Vector(es) => {
            lemma_sc_aexprs_locals_ok(locals, gmap, es);
        },
        _ => {},
    }
}

/// See [`lemma_sc_aexpr_locals_ok`].
pub proof fn lemma_sc_aexprs_locals_ok(
    locals: Seq<Seq<char>>,
    gmap: Map<Seq<char>, Seq<char>>,
    s: Seq<anf::AExprV>,
)
    ensures
        sc_aexprs(locals, gmap, s) matches Ok(rs) ==> crate::sanity::aexprs_locals_ok(
            locals.len() as int,
            rs,
        ),
    decreases s, 0int,
{
    if s.len() > 0 {
        lemma_sc_aexprs_locals_ok(locals, gmap, s.drop_last());
        lemma_sc_aexpr_locals_ok(locals, gmap, s.last());
        match sc_aexprs(locals, gmap, s.drop_last()) {
            Ok(rs) => {
                match sc_aexpr(locals, gmap, s.last()) {
                    Ok(r) => {
                        assert(rs.push(r).drop_last() =~= rs);
                        assert(rs.push(r).last() == r);
                    },
                    Err(_) => {},
                }
            },
            Err(_) => {},
        }
    }
}

/// See [`lemma_sc_aexpr_locals_ok`].
pub proof fn lemma_sc_expr_locals_ok(
    locals: Seq<Seq<char>>,
    gmap: Map<Seq<char>, Seq<char>>,
    e: anf::ExprV,
)
    ensures
        sc_expr(locals, gmap, e) matches Ok(r) ==> crate::sanity::expr_locals_ok(
            locals.len() as int,
            r,
        ),
    decreases e, 3int,
{
    match e {
        anf::ExprV::AExpr(a) => {
            lemma_sc_aexpr_locals_ok(locals, gmap, a);
        },
        anf::ExprV::CExpr(c) => {
            lemma_sc_cexpr_locals_ok(locals, gmap, c);
        },
        anf::ExprV::Let(name, bound, body) => {
            lemma_sc_expr_locals_ok(locals, gmap, *bound);
            lemma_sc_expr_locals_ok(locals.push(name), gmap, *body);
        },
        anf::ExprV::Sequence(e1, e2) => {
            lemma_sc_expr_locals_ok(locals, gmap, *e1);
            lemma_sc_expr_locals_ok(locals, gmap, *e2);
        },
    }
}

/// See [`lemma_sc_aexpr_locals_ok`].
pub proof fn lemma_sc_cexpr_locals_ok(
    locals: Seq<Seq<char>>,
    gmap: Map<Seq<char>, Seq<char>>,
    c: anf::CExprV,
)
    ensures
        sc_cexpr(locals, gmap, c) matches Ok(r) ==> crate::sanity::cexpr_locals_ok(
            locals.len() as int,
            r,
        ),
    decreases c, 3int,
{
    match c {
        anf::CExprV::Call(f, args) => {
            lemma_sc_aexpr_locals_ok(locals, gmap, f);
            lemma_sc_aexprs_locals_ok(locals, gmap, args);
            match (sc_aexpr(locals, gmap, f), sc_aexprs(locals, gmap, args)) {
                (Ok(fr), Ok(rs)) => {
                    assert(sc_cexpr(locals, gmap, c) == Ok::<CExprV, LinkErrV>(
                        CExprV::Call(fr, rs),
                    ));
                },
                _ => {},
            }
        },
        anf::CExprV::If(cond, t, e2) => {
            lemma_sc_aexpr_locals_ok(locals, gmap, cond);
            lemma_sc_expr_locals_ok(locals, gmap, *t);
            lemma_sc_expr_locals_ok(locals, gmap, *e2);
        },
        anf::CExprV::LetRec(bound, body) => {
            let locals2 = locals + letrec_names(bound);
            lemma_sc_letrec_locals_ok(locals2, gmap, bound);
            lemma_sc_expr_locals_ok(locals2, gmap, *body);
            assert(letrec_names(bound).len() == bound.len());
            assert(locals2.len() == locals.len() + bound.len());
            if first_repeat(letrec_names(bound), 0) is Some {
                assert(sc_cexpr(locals, gmap, c) is Err);
            } else {
                match sc_letrec(locals2, gmap, bound) {
                    Ok(ls) => {
                        match sc_expr(locals2, gmap, *body) {
                            Ok(b) => {
                                assert(sc_cexpr(locals, gmap, c) == Ok::<CExprV, LinkErrV>(
                                    CExprV::LetRec(ls, Box::new(b)),
                                ));
                                assert(crate::sanity::cexpr_locals_ok(
                                    locals.len() as int,
                                    CExprV::LetRec(ls, Box::new(b)),
                                ));
                            },
                            Err(_) => {},
                        }
                    },
                    Err(_) => {},
                }
            }
        },
    }
}

/// See [`lemma_sc_aexpr_locals_ok`].
pub proof fn lemma_sc_letrec_locals_ok(
    locals2: Seq<Seq<char>>,
    gmap: Map<Seq<char>, Seq<char>>,
    bound: Seq<(Seq<char>, anf::AExprV)>,
)
    ensures
        sc_letrec(locals2, gmap, bound) matches Ok(rs) ==> (crate::sanity::letrec_locals_ok(
            locals2.len() as int,
            rs,
        ) && rs.len() == bound.len()),
    decreases bound, 0int,
{
    if bound.len() > 0 {
        lemma_sc_letrec_locals_ok(locals2, gmap, bound.drop_last());
        let (name, rhs) = bound.last();
        match rhs {
            anf::AExprV::Lambda(_, params, lbody) => {
                lemma_sc_expr_locals_ok(locals2 + params, gmap, *lbody);
                assert((locals2 + params).len() == locals2.len() + params.len());
                match sc_letrec(locals2, gmap, bound.drop_last()) {
                    Ok(rs) => {
                        match sc_expr(locals2 + params, gmap, *lbody) {
                            Ok(b) => {
                                assert(rs.push((name, params.len(), b)).drop_last() =~= rs);
                                assert(rs.push((name, params.len(), b)).last() == (
                                    name,
                                    params.len(),
                                    b,
                                ));
                            },
                            Err(_) => {},
                        }
                    },
                    Err(_) => {},
                }
            },
            _ => {},
        }
    }
}

/// A compiled declaration's body has all its local references in scope.
pub proof fn lemma_sc_decl_locals_ok(
    modname: Seq<char>,
    gmap: Map<Seq<char>, Seq<char>>,
    d: anf::DeclV,
)
    ensures
        sc_decl(modname, gmap, d) matches Ok(r) ==> crate::sanity::expr_locals_ok(0, r.1),
{
    match d {
        anf::DeclV::Def(name, e) => {
            lemma_sc_expr_locals_ok(Seq::empty(), gmap, e);
            assert(Seq::<Seq<char>>::empty().len() == 0);
            match sc_expr(Seq::empty(), gmap, e) {
                Ok(rr) => {
                    assert(crate::sanity::expr_locals_ok(0, rr));
                },
                Err(_) => {},
            }
        },
        anf::DeclV::Defn(name, params, body) => {
            lemma_sc_expr_locals_ok(params, gmap, body);
            match sc_expr(params, gmap, body) {
                Ok(b) => {
                    crate::sanity::lemma_locals_ok_zero_lambda(params.len(), b);
                    let q = qualified(modname, name);
                    assert(crate::sanity::aexpr_locals_ok(
                        0,
                        AExprV::Lambda(Some(q), params.len(), Box::new(b)),
                    ));
                },
                Err(_) => {},
            }
        },
    }
}


/// Builds the fully-qualified name `m:d`.
pub fn qualify(m: &str, d: &str) -> (r: String)
    ensures
        r@ == qualified(m@, d@),
{
    let mut out: Vec<char> = Vec::new();
    crate::literal::push_str_chars(&mut out, m);
    out.push(':');
    crate::literal::push_str_chars(&mut out, d);
    proof {
        assert(out@ =~= qualified(m@, d@));
    }
    crate::util::chars_to_string(out)
}

/// Whether a name contains a colon, executably.
pub fn contains_colon(s: &str) -> (r: bool)
    ensures
        r == has_colon(s@),
{
    let len = s.unicode_len();
    let mut i: usize = 0;
    #[verifier::loop_isolation(false)]
    while i < len
        invariant
            len == s@.len(),
            i <= len,
            forall|j: int| 0 <= j < i ==> s@[j] != ':',
        decreases len - i,
    {
        if s.get_char(i) == ':' {
            return true;
        }
        i = i + 1;
    }
    false
}

/// Whether an error value matches a linking-failure model.
pub open spec fn err_matches(k: ErrorKind, e: LinkErrV) -> bool {
    match e {
        LinkErrV::NoSuchVar(v) => k matches ErrorKind::NoSuchVar(s) && s@ == v,
        LinkErrV::VarInLetrec(a, b) => k matches ErrorKind::VarInLetrec(x, y) && x@ == a && y@
            == b,
        LinkErrV::DuplicateLetrecName(n) => k matches ErrorKind::DuplicateLetrecName(s) && s@
            == n,
        LinkErrV::DuplicateDeclName(n) => k matches ErrorKind::DuplicateDeclName(s) && s@ == n,
        LinkErrV::IllegalDeclName(n) => k matches ErrorKind::IllegalDeclName(s) && s@ == n,
        LinkErrV::NonLambdaInLetrec(n) => k matches ErrorKind::NonLambdaInLetrec(s) && s@ == n,
    }
}

/// Resolves the variables of an atomic expression against the context.
pub fn compile_aexpr(ctx: &mut Context, a: &anf::AExpr) -> (r: Result<AExpr, ErrorKind>)
    ensures
        final(ctx).gmap() == old(ctx).gmap(),
        final(ctx).lview() == old(ctx).lview(),
        ({
            let s = sc_aexpr(old(ctx).lview(), old(ctx).gmap(), a@);
            &&& r is Ok <==> s is Ok
            &&& (r matches Ok(v) ==> s matches Ok(sv) && v@ == sv)
            &&& (r matches Err(k) ==> s matches Err(se) && err_matches(k, se))
        }),
    decreases a, 2int,
{
    broadcast use crate::anf::lemma_aexprs_view_index;
    broadcast use crate::flatanf::lemma_aexprs_view_index;

    match a {
        anf::AExpr::Lambda(name, params, body) => {
            proof {
                assert(decreases_to!(*a => a->Lambda_2));
            }
            ctx.push_many(params);
            let b = compile_expr(ctx, body);
            ctx.pop_many(params.len());
            proof {
                assert((old(ctx).lview() + params.deep_view()).take(
                    old(ctx).lview().len() as int,
                ) =~= old(ctx).lview());
            }
            match b {
                Ok(bv) => {
                    let n2 = match name {
                        Some(n) => Some(n.clone()),
                        None => None,
                    };
                    Ok(AExpr::Lambda(n2, params.len(), Box::new(bv)))
                },
                Err(k) => Err(k),
            }
        },
        anf::AExpr::Literal(l) => Ok(AExpr::Literal(l.duplicate())),
        anf::AExpr::Var(v) => {
            if contains_colon(v.as_str()) {
                Ok(AExpr::Global(v.clone()))
            } else {
                ctx.get(v.as_str())
            }
        },
        anf::AExpr::Vector(es) => {
            let ghost esv = crate::anf::aexprs_view(es@);
            let mut out: Vec<AExpr> = Vec::new();
            let mut i: usize = 0;
            proof {
                assert(sc_aexprs(ctx.lview(), ctx.gmap(), esv.take(0)) =~= Ok::<
                    Seq<AExprV>,
                    LinkErrV,
                >(crate::flatanf::aexprs_view(out@))) by {
                    assert(esv.take(0) =~= Seq::<anf::AExprV>::empty());
                    assert(crate::flatanf::aexprs_view(out@) =~= Seq::<AExprV>::empty());
                }
            }
            #[verifier::loop_isolation(false)]
            while i < es.len()
                invariant
                    i <= es@.len(),
                    ctx.gmap() == old(ctx).gmap(),
                    ctx.lview() == old(ctx).lview(),
                    sc_aexprs(ctx.lview(), ctx.gmap(), esv.take(i as int)) == Ok::<
                        Seq<AExprV>,
                        LinkErrV,
                    >(crate::flatanf::aexprs_view(out@)),
                decreases es@.len() - i,
            {
                proof {
                    assert(decreases_to!(*a => a->Vector_0));
                    assert(decreases_to!(a->Vector_0 => a->Vector_0@[i as int]));
                    assert(a->Vector_0@[i as int] == es@[i as int]);
                    assert(esv.take(i + 1).drop_last() =~= esv.take(i as int));
                    assert(esv.take(i + 1).last() == crate::anf::aexpr_view(es@[i as int]));
                }
                let ghost pre = out@;
                match compile_aexpr(ctx, &es[i]) {
                    Ok(r) => {
                        out.push(r);
                        proof {
                            assert(out@.drop_last() =~= pre);
                            assert(crate::flatanf::aexprs_view(out@).drop_last()
                                =~= crate::flatanf::aexprs_view(pre));
                            assert(crate::flatanf::aexprs_view(out@)
                                =~= crate::flatanf::aexprs_view(pre).push(r@));
                        }
                    },
                    Err(k) => {
                        proof {
                            lemma_sc_aexprs_prefix_err(
                                ctx.lview(),
                                ctx.gmap(),
                                esv,
                                i as int,
                            );
                        }
                        return Err(k);
                    },
                }
                i = i + 1;
            }
            proof {
                assert(esv.take(es@.len() as int) =~= esv);
            }
            Ok(AExpr::Vector(out))
        },
    }
}

/// An error at element `i` is the error of the whole sequence, provided the
/// prefix before it succeeded.
proof fn lemma_sc_aexprs_prefix_err(
    locals: Seq<Seq<char>>,
    gmap: Map<Seq<char>, Seq<char>>,
    s: Seq<anf::AExprV>,
    i: int,
)
    requires
        0 <= i < s.len(),
        sc_aexprs(locals, gmap, s.take(i)) is Ok,
        sc_aexpr(locals, gmap, s[i]) is Err,
    ensures
        sc_aexprs(locals, gmap, s) == Err::<Seq<AExprV>, LinkErrV>(
            sc_aexpr(locals, gmap, s[i])->Err_0,
        ),
    decreases s.len(),
{
    if s.len() > 0 {
        if i < s.len() - 1 {
            assert(s.drop_last().take(i) =~= s.take(i));
            assert(s.drop_last()[i] == s[i]);
            lemma_sc_aexprs_prefix_err(locals, gmap, s.drop_last(), i);
        } else {
            assert(s.take(i) =~= s.drop_last());
        }
    }
}

/// Resolves the variables of an expression against the context.
pub fn compile_expr(ctx: &mut Context, e: &anf::Expr) -> (r: Result<Expr, ErrorKind>)
    ensures
        final(ctx).gmap() == old(ctx).gmap(),
        final(ctx).lview() == old(ctx).lview(),
        ({
            let s = sc_expr(old(ctx).lview(), old(ctx).gmap(), e@);
            &&& r is Ok <==> s is Ok
            &&& (r matches Ok(v) ==> s matches Ok(sv) && v@ == sv)
            &&& (r matches Err(k) ==> s matches Err(se) && err_matches(k, se))
        }),
    decreases e, 3int,
{
    match e {
        anf::Expr::AExpr(a) => {
            match compile_aexpr(ctx, a) {
                Ok(r) => Ok(Expr::AExpr(r)),
                Err(k) => Err(k),
            }
        },
        anf::Expr::CExpr(c) => {
            match compile_cexpr(ctx, c) {
                Ok(r) => Ok(Expr::CExpr(r)),
                Err(k) => Err(k),
            }
        },
        anf::Expr::Let(name, bound, body) => {
            let b = match compile_expr(ctx, bound) {
                Ok(b) => b,
                Err(k) => {
                    return Err(k);
                },
            };
            ctx.push(name.clone());
            let r = compile_expr(ctx, body);
            ctx.pop();
            proof {
                assert(old(ctx).lview().push(name@).drop_last() =~= old(ctx).lview());
            }
            match r {
                Ok(rv) => Ok(Expr::Let(Box::new(b), Box::new(rv))),
                Err(k) => Err(k),
            }
        },
        anf::Expr::Sequence(e1, e2) => {
            let a = match compile_expr(ctx, e1) {
                Ok(a) => a,
                Err(k) => {
                    return Err(k);
                },
            };
            match compile_expr(ctx, e2) {
                Ok(b) => Ok(Expr::Sequence(Box::new(a), Box::new(b))),
                Err(k) => Err(k),
            }
        },
    }
}

/// Resolves the variables of a complex expression against the context.
#[verifier::rlimit(100)]
pub fn compile_cexpr(ctx: &mut Context, c: &anf::CExpr) -> (r: Result<CExpr, ErrorKind>)
    ensures
        final(ctx).gmap() == old(ctx).gmap(),
        final(ctx).lview() == old(ctx).lview(),
        ({
            let s = sc_cexpr(old(ctx).lview(), old(ctx).gmap(), c@);
            &&& r is Ok <==> s is Ok
            &&& (r matches Ok(v) ==> s matches Ok(sv) && v@ == sv)
            &&& (r matches Err(k) ==> s matches Err(se) && err_matches(k, se))
        }),
    decreases c, 3int,
{
    broadcast use crate::anf::lemma_aexprs_view_index;
    broadcast use crate::anf::lemma_letrec_view_index;
    broadcast use crate::flatanf::lemma_aexprs_view_index;
    broadcast use crate::flatanf::lemma_letrec_view_index;

    match c {
        anf::CExpr::Call(f, args) => {
            let fr = match compile_aexpr(ctx, f) {
                Ok(fr) => fr,
                Err(k) => {
                    return Err(k);
                },
            };
            let ghost argsv = crate::anf::aexprs_view(args@);
            let mut out: Vec<AExpr> = Vec::new();
            let mut i: usize = 0;
            proof {
                assert(sc_aexprs(ctx.lview(), ctx.gmap(), argsv.take(0)) =~= Ok::<
                    Seq<AExprV>,
                    LinkErrV,
                >(crate::flatanf::aexprs_view(out@))) by {
                    assert(argsv.take(0) =~= Seq::<anf::AExprV>::empty());
                    assert(crate::flatanf::aexprs_view(out@) =~= Seq::<AExprV>::empty());
                }
            }
            #[verifier::loop_isolation(false)]
            while i < args.len()
                invariant
                    i <= args@.len(),
                    ctx.gmap() == old(ctx).gmap(),
                    ctx.lview() == old(ctx).lview(),
                    sc_aexprs(ctx.lview(), ctx.gmap(), argsv.take(i as int)) == Ok::<
                        Seq<AExprV>,
                        LinkErrV,
                    >(crate::flatanf::aexprs_view(out@)),
                decreases args@.len() - i,
            {
                proof {
                    assert(decreases_to!(*c => c->Call_1));
                    assert(decreases_to!(c->Call_1 => c->Call_1@[i as int]));
                    assert(c->Call_1@[i as int] == args@[i as int]);
                    assert(argsv.take(i + 1).drop_last() =~= argsv.take(i as int));
                    assert(argsv.take(i + 1).last() == crate::anf::aexpr_view(args@[i as int]));
                }
                let ghost pre = out@;
                match compile_aexpr(ctx, &args[i]) {
                    Ok(r) => {
                        out.push(r);
                        proof {
                            assert(out@.drop_last() =~= pre);
                            assert(crate::flatanf::aexprs_view(out@).drop_last()
                                =~= crate::flatanf::aexprs_view(pre));
                            assert(crate::flatanf::aexprs_view(out@)
                                =~= crate::flatanf::aexprs_view(pre).push(r@));
                        }
                    },
                    Err(k) => {
                        proof {
                            lemma_sc_aexprs_prefix_err(
                                ctx.lview(),
                                ctx.gmap(),
                                argsv,
                                i as int,
                            );
                        }
                        return Err(k);
                    },
                }
                i = i + 1;
            }
            proof {
                assert(argsv.take(args@.len() as int) =~= argsv);
            }
            Ok(CExpr::Call(fr, out))
        },
        anf::CExpr::If(cond, t, e2) => {
            let cr = match compile_aexpr(ctx, cond) {
                Ok(cr) => cr,
                Err(k) => {
                    return Err(k);
                },
            };
            let tr = match compile_expr(ctx, t) {
                Ok(tr) => tr,
                Err(k) => {
                    return Err(k);
                },
            };
            match compile_expr(ctx, e2) {
                Ok(er) => Ok(CExpr::If(cr, Box::new(tr), Box::new(er))),
                Err(k) => Err(k),
            }
        },
        anf::CExpr::LetRec(bound, body) => {
            let ghost boundv = crate::anf::letrec_view(bound@);
            let mut names: Vec<String> = Vec::new();
            let mut i: usize = 0;
            proof {
                assert(names.deep_view() =~= letrec_names(boundv).take(0));
            }
            #[verifier::loop_isolation(false)]
            while i < bound.len()
                invariant
                    i <= bound@.len(),
                    names.deep_view() =~= letrec_names(boundv).take(i as int),
                decreases bound@.len() - i,
            {
                names.push(bound[i].0.clone());
                proof {
                    assert(names.deep_view() =~= letrec_names(boundv).take(i + 1));
                }
                i = i + 1;
            }
            proof {
                assert(letrec_names(boundv).take(bound@.len() as int) =~= letrec_names(boundv));
                assert(names.deep_view() =~= letrec_names(boundv));
            }
            match find_repeat(&names) {
                Some(n) => {
                    return Err(ErrorKind::DuplicateLetrecName(n));
                },
                None => {},
            }
            ctx.push_many(&names);
            let ghost locals2 = old(ctx).lview() + letrec_names(boundv);
            let mut out: Vec<(String, usize, Expr)> = Vec::new();
            let mut i: usize = 0;
            proof {
                assert(sc_letrec(locals2, ctx.gmap(), boundv.take(0)) =~= Ok::<
                    Seq<(Seq<char>, nat, ExprV)>,
                    LinkErrV,
                >(crate::flatanf::letrec_view(out@))) by {
                    assert(boundv.take(0) =~= Seq::<(Seq<char>, anf::AExprV)>::empty());
                    assert(crate::flatanf::letrec_view(out@) =~= Seq::<
                        (Seq<char>, nat, ExprV),
                    >::empty());
                }
            }
            #[verifier::loop_isolation(false)]
            while i < bound.len()
                invariant
                    i <= bound@.len(),
                    ctx.gmap() == old(ctx).gmap(),
                    ctx.lview() == locals2,
                    sc_letrec(locals2, ctx.gmap(), boundv.take(i as int)) == Ok::<
                        Seq<(Seq<char>, nat, ExprV)>,
                        LinkErrV,
                    >(crate::flatanf::letrec_view(out@)),
                decreases bound@.len() - i,
            {
                proof {
                    assert(decreases_to!(*c => c->LetRec_0));
                    assert(decreases_to!(c->LetRec_0 => c->LetRec_0@[i as int]));
                    assert(c->LetRec_0@[i as int] == bound@[i as int]);
                    assert(decreases_to!(bound@[i as int] => bound@[i as int].1));
                    assert(boundv.take(i + 1).drop_last() =~= boundv.take(i as int));
                    assert(boundv.take(i + 1).last() == (
                        bound@[i as int].0@,
                        crate::anf::aexpr_view(bound@[i as int].1),
                    ));
                }
                let ghost pre = out@;
                match &bound[i].1 {
                    anf::AExpr::Lambda(_, params, lbody) => {
                        proof {
                            assert(decreases_to!(bound@[i as int].1 => bound@[i as int].1->Lambda_2));
                        }
                        ctx.push_many(params);
                        let b = compile_expr(ctx, lbody);
                        ctx.pop_many(params.len());
                        proof {
                            assert((locals2 + params.deep_view()).take(locals2.len() as int)
                                =~= locals2);
                        }
                        match b {
                            Ok(bv) => {
                                out.push((bound[i].0.clone(), params.len(), bv));
                                proof {
                                    assert(out@.drop_last() =~= pre);
                                    assert(crate::flatanf::letrec_view(out@).drop_last()
                                        =~= crate::flatanf::letrec_view(pre));
                                    assert(crate::flatanf::letrec_view(out@)
                                        =~= crate::flatanf::letrec_view(pre).push(
                                        (
                                            out@.last().0@,
                                            out@.last().1 as nat,
                                            crate::flatanf::expr_view(out@.last().2),
                                        ),
                                    ));
                                }
                            },
                            Err(k) => {
                                proof {
                                    lemma_sc_letrec_prefix_err(
                                        locals2,
                                        ctx.gmap(),
                                        boundv,
                                        i as int,
                                    );
                                }
                                ctx.pop_many(names.len());
                                proof {
                                    assert(locals2.take(old(ctx).lview().len() as int)
                                        =~= old(ctx).lview());
                                }
                                return Err(k);
                            },
                        }
                    },
                    anf::AExpr::Var(v) => {
                        proof {
                            lemma_sc_letrec_prefix_err(locals2, ctx.gmap(), boundv, i as int);
                        }
                        let k = ErrorKind::VarInLetrec(bound[i].0.clone(), v.clone());
                        ctx.pop_many(names.len());
                        proof {
                            assert(locals2.take(old(ctx).lview().len() as int) =~= old(
                                ctx,
                            ).lview());
                        }
                        return Err(k);
                    },
                    _ => {
                        proof {
                            lemma_sc_letrec_prefix_err(locals2, ctx.gmap(), boundv, i as int);
                        }
                        let k = ErrorKind::NonLambdaInLetrec(bound[i].0.clone());
                        ctx.pop_many(names.len());
                        proof {
                            assert(locals2.take(old(ctx).lview().len() as int) =~= old(
                                ctx,
                            ).lview());
                        }
                        return Err(k);
                    },
                }
                i = i + 1;
            }
            proof {
                assert(boundv.take(bound@.len() as int) =~= boundv);
            }
            let b = compile_expr(ctx, body);
            ctx.pop_many(names.len());
            proof {
                assert(locals2.take(old(ctx).lview().len() as int) =~= old(ctx).lview());
            }
            match b {
                Ok(bv) => Ok(CExpr::LetRec(out, Box::new(bv))),
                Err(k) => Err(k),
            }
        },
    }
}

/// An error at binding `i` is the error of the whole letrec, provided the
/// prefix before it succeeded.
proof fn lemma_sc_letrec_prefix_err(
    locals2: Seq<Seq<char>>,
    gmap: Map<Seq<char>, Seq<char>>,
    bound: Seq<(Seq<char>, anf::AExprV)>,
    i: int,
)
    requires
        0 <= i < bound.len(),
        sc_letrec(locals2, gmap, bound.take(i)) is Ok,
        match bound[i].1 {
            anf::AExprV::Lambda(_, params, lbody) => sc_expr(locals2 + params, gmap, *lbody)
                is Err,
            _ => true,
        },
    ensures
        sc_letrec(locals2, gmap, bound) is Err,
        sc_letrec(locals2, gmap, bound)->Err_0 == match bound[i].1 {
            anf::AExprV::Lambda(_, params, lbody) => sc_expr(
                locals2 + params,
                gmap,
                *lbody,
            )->Err_0,
            anf::AExprV::Var(v) => LinkErrV::VarInLetrec(bound[i].0, v),
            _ => LinkErrV::NonLambdaInLetrec(bound[i].0),
        },
    decreases bound.len(),
{
    if bound.len() > 0 {
        if i < bound.len() - 1 {
            assert(bound.drop_last().take(i) =~= bound.take(i));
            assert(bound.drop_last()[i] == bound[i]);
            lemma_sc_letrec_prefix_err(locals2, gmap, bound.drop_last(), i);
        } else {
            assert(bound.take(i) =~= bound.drop_last());
        }
    }
}

/// Compiles one declaration under the module's context; the context must
/// have no local bindings.
pub fn compile_decl(modname: &str, ctx: &mut Context, d: &anf::Decl) -> (r: Result<
    (String, Expr),
    ErrorKind,
>)
    requires
        old(ctx).lview().len() == 0,
    ensures
        final(ctx).gmap() == old(ctx).gmap(),
        final(ctx).lview() == old(ctx).lview(),
        ({
            let s = sc_decl(modname@, old(ctx).gmap(), d@);
            &&& r is Ok <==> s is Ok
            &&& (r matches Ok(v) ==> s matches Ok(sv) && (v.0@, v.1@) == sv)
            &&& (r matches Err(k) ==> s matches Err(se) && err_matches(k, se))
        }),
{
    proof {
        reveal_with_fuel(crate::flatanf::expr_view, 3);
        reveal_with_fuel(crate::flatanf::aexpr_view, 3);
    }
    match d {
        anf::Decl::Def(name, e) => {
            proof {
                assert(old(ctx).lview() =~= Seq::<Seq<char>>::empty());
            }
            match compile_expr(ctx, e) {
                Ok(r) => Ok((qualify(modname, name.as_str()), r)),
                Err(k) => Err(k),
            }
        },
        anf::Decl::Defn(name, params, body) => {
            ctx.push_many(params);
            proof {
                assert(old(ctx).lview() + params.deep_view() =~= params.deep_view());
            }
            let b = compile_expr(ctx, body);
            ctx.pop_many(params.len());
            proof {
                assert(params.deep_view().take(0) =~= Seq::<Seq<char>>::empty());
                assert(old(ctx).lview() =~= Seq::<Seq<char>>::empty());
            }
            match b {
                Ok(bv) => {
                    let q = qualify(modname, name.as_str());
                    let argn = params.len();
                    Ok(
                        (
                            q.clone(),
                            Expr::AExpr(AExpr::Lambda(Some(q), argn, Box::new(bv))),
                        ),
                    )
                },
                Err(k) => Err(k),
            }
        },
    }
}

/// A module-level linking failure.
#[verifier::ext_equal]
pub enum ModErrV {
    Link(LinkErrV),
    NonexistentImport(Seq<char>, Seq<char>),
    MissingExport(Seq<char>, Seq<char>),
}

/// Whether an error value matches a module-level failure model.
pub open spec fn mod_err_matches(k: ErrorKind, e: ModErrV) -> bool {
    match e {
        ModErrV::Link(le) => err_matches(k, le),
        ModErrV::NonexistentImport(m, g) => k matches ErrorKind::NonexistentImport(a, b) && a@
            == m && b@ == g,
        ModErrV::MissingExport(m, g) => k matches ErrorKind::MissingExport(a, b) && a@ == m && b@
            == g,
    }
}

/// The global mapping induced by a module's imports: each import `(M, D)`
/// binds the local name `D` to `M:D`.
pub open spec fn import_gmap(imports: Seq<(Seq<char>, Seq<char>)>) -> Map<Seq<char>, Seq<char>>
    decreases imports.len(),
{
    if imports.len() == 0 {
        Map::empty()
    } else {
        import_gmap(imports.drop_last()).insert(
            imports.last().1,
            qualified(imports.last().0, imports.last().1),
        )
    }
}

/// The first import whose qualified name is not a known global, if any.
pub open spec fn first_bad_import(
    known: Set<Seq<char>>,
    imports: Seq<(Seq<char>, Seq<char>)>,
    i: int,
) -> Option<(Seq<char>, Seq<char>)>
    decreases imports.len() - i,
{
    if i < 0 || i >= imports.len() {
        None
    } else if known.contains(qualified(imports[i].0, imports[i].1)) {
        first_bad_import(known, imports, i + 1)
    } else {
        Some(imports[i])
    }
}

/// The qualified form of each name in a sequence, under one module name.
pub open spec fn qualify_all(m: Seq<char>, ds: Seq<Seq<char>>) -> Seq<Seq<char>> {
    Seq::new(ds.len(), |i: int| qualified(m, ds[i]))
}

/// The (unqualified) names of a module body's declarations.
pub open spec fn body_decl_names(body: Seq<anf::DeclV>) -> Seq<Seq<char>> {
    Seq::new(body.len(), |i: int| crate::anf::anf_decl_name(body[i]))
}

/// The names of a declaration list.
pub open spec fn decl_names(ds: Seq<(Seq<char>, ExprV)>) -> Seq<Seq<char>> {
    Seq::new(ds.len(), |i: int| ds[i].0)
}

/// Whether every global reference in the declarations is an initial global
/// or a declared name: the free-variable sanity the linker enforces.
pub open spec fn decls_refs_closed(intr0: Seq<Seq<char>>, ds: Seq<(Seq<char>, ExprV)>) -> bool {
    forall|i: int|
        0 <= i < ds.len() ==> crate::flatanf::global_vars::expr_globals(
            #[trigger] ds[i].1,
        ).subset_of(names_set(intr0).union(names_set(decl_names(ds))))
}

/// The first export whose qualified name is not among the declared names,
/// if any.
pub open spec fn first_missing_export(
    m: Seq<char>,
    names: Seq<Seq<char>>,
    exports: Seq<Seq<char>>,
    i: int,
) -> Option<Seq<char>>
    decreases exports.len() - i,
{
    if i < 0 || i >= exports.len() {
        None
    } else if names_contain(names, qualified(m, exports[i])) {
        first_missing_export(m, names, exports, i + 1)
    } else {
        Some(qualified(m, exports[i]))
    }
}

/// Adds a batch of pending `defn` names to the global mapping, so that the
/// batch's members see each other.
pub open spec fn batch_add(
    modname: Seq<char>,
    gmap: Map<Seq<char>, Seq<char>>,
    batch: Seq<(Seq<char>, Seq<Seq<char>>, anf::ExprV)>,
) -> Map<Seq<char>, Seq<char>>
    decreases batch.len(),
{
    if batch.len() == 0 {
        gmap
    } else {
        batch_add(modname, gmap, batch.drop_last()).insert(
            batch.last().0,
            qualified(modname, batch.last().0),
        )
    }
}

/// Compiles a batch of pending `defn`s under the batch-extended mapping.
pub open spec fn sc_batch(
    modname: Seq<char>,
    gmap2: Map<Seq<char>, Seq<char>>,
    batch: Seq<(Seq<char>, Seq<Seq<char>>, anf::ExprV)>,
) -> Result<Seq<(Seq<char>, ExprV)>, LinkErrV>
    decreases batch.len(),
{
    if batch.len() == 0 {
        Ok(Seq::empty())
    } else {
        match sc_batch(modname, gmap2, batch.drop_last()) {
            Ok(ds) => {
                let (name, params, body) = batch.last();
                match sc_decl(modname, gmap2, anf::DeclV::Defn(name, params, body)) {
                    Ok(d) => Ok(ds.push(d)),
                    Err(e) => Err(e),
                }
            },
            Err(e) => Err(e),
        }
    }
}

/// Walks a module body in source order: `defn`s batch up; a `def` first
/// flushes the batch, is compiled, and then becomes visible to what follows.
pub open spec fn sc_body(
    modname: Seq<char>,
    gmap: Map<Seq<char>, Seq<char>>,
    batch: Seq<(Seq<char>, Seq<Seq<char>>, anf::ExprV)>,
    body: Seq<anf::DeclV>,
) -> Result<Seq<(Seq<char>, ExprV)>, LinkErrV>
    decreases body.len(),
{
    if body.len() == 0 {
        sc_batch(modname, batch_add(modname, gmap, batch), batch)
    } else {
        match body[0] {
            anf::DeclV::Defn(n, p, b) => sc_body(
                modname,
                gmap,
                batch.push((n, p, b)),
                body.drop_first(),
            ),
            anf::DeclV::Def(n, e) => {
                let gmap2 = batch_add(modname, gmap, batch);
                match sc_batch(modname, gmap2, batch) {
                    Ok(bds) => match sc_decl(modname, gmap2, anf::DeclV::Def(n, e)) {
                        Ok(d) => match sc_body(
                            modname,
                            gmap2.insert(n, d.0),
                            Seq::empty(),
                            body.drop_first(),
                        ) {
                            Ok(rest) => Ok(bds.push(d) + rest),
                            Err(err) => Err(err),
                        },
                        Err(err) => Err(err),
                    },
                    Err(err) => Err(err),
                }
            },
        }
    }
}

/// Compiles one module against the known globals: imports must resolve, the
/// body compiles with `defn` batching, and every export must be declared.
/// On success, the module's qualified exports become known globals.
pub open spec fn sc_module(known: Set<Seq<char>>, m: anf::ModuleV) -> Result<
    (Seq<(Seq<char>, ExprV)>, Seq<Seq<char>>),
    ModErrV,
> {
    match first_bad_import(known, m.imports, 0) {
        Some((mm, d)) => Err(ModErrV::NonexistentImport(m.name, qualified(mm, d))),
        None => match first_illegal(body_decl_names(m.body), 0) {
            Some(n) => Err(ModErrV::Link(LinkErrV::IllegalDeclName(n))),
            None => match first_repeat(body_decl_names(m.body), 0) {
                Some(n) => Err(ModErrV::Link(LinkErrV::DuplicateDeclName(n))),
                None => {
            let gmap0 = import_gmap(m.imports);
            match sc_body(m.name, gmap0, Seq::empty(), m.body) {
                Ok(ds) => match first_missing_export(m.name, decl_names(ds), m.exports, 0) {
                    Some(q) => Err(ModErrV::MissingExport(m.name, q)),
                    None => Ok((ds, qualify_all(m.name, m.exports))),
                },
                Err(e) => Err(ModErrV::Link(e)),
            }
                },
            },
        },
    }
}

/// The set holding the given texts.
pub open spec fn names_set(v: Seq<Seq<char>>) -> Set<Seq<char>> {
    Set::new(|x: Seq<char>| names_contain(v, x))
}

/// Compiles a sequence of modules in order, accumulating declarations and
/// known globals.
pub open spec fn sc_modules(known: Set<Seq<char>>, mods: Seq<anf::ModuleV>) -> Result<
    (Seq<(Seq<char>, ExprV)>, Set<Seq<char>>),
    ModErrV,
>
    decreases mods.len(),
{
    if mods.len() == 0 {
        Ok((Seq::empty(), known))
    } else {
        match sc_module(known, mods[0]) {
            Ok((ds, exq)) => match sc_modules(known.union(names_set(exq)), mods.drop_first()) {
                Ok((rest, kf)) => Ok((ds + rest, kf)),
                Err(e) => Err(e),
            },
            Err(e) => Err(e),
        }
    }
}

/// Whether an ordering of modules respects imports: every import names a
/// built-in module or an earlier module.
pub open spec fn topo_sorted(order: Seq<anf::ModuleV>, builtins: Set<Seq<char>>) -> bool {
    forall|i: int, k: int|
        0 <= i < order.len() && 0 <= k < order[i].imports.len() ==> (builtins.contains(
            #[trigger] order[i].imports[k].0,
        ) || exists|j: int| 0 <= j < i && #[trigger] order[j].name == order[i].imports[k].0)
}

/// The views of a sequence of modules.
pub open spec fn mods_view(s: Seq<anf::Module>) -> Seq<anf::ModuleV> {
    Seq::new(s.len(), |i: int| s[i]@)
}

/// When a concatenation has the same multiset as a sequence, every member
/// of either part is a member of the sequence.
pub proof fn lemma_concat_multiset_members(
    a: Seq<anf::ModuleV>,
    b: Seq<anf::ModuleV>,
    whole: Seq<anf::ModuleV>,
)
    requires
        (a + b).to_multiset() == whole.to_multiset(),
    ensures
        forall|x: anf::ModuleV| (a + b).contains(x) ==> whole.contains(x),
        forall|x: anf::ModuleV| whole.contains(x) ==> (a + b).contains(x),
{
    broadcast use vstd::seq_lib::group_to_multiset_ensures;

    assert forall|x: anf::ModuleV| (a + b).contains(x) implies whole.contains(x) by {
        assert((a + b).to_multiset().count(x) > 0);
        assert(whole.to_multiset().count(x) > 0);
    }
    assert forall|x: anf::ModuleV| whole.contains(x) implies (a + b).contains(x) by {
        assert(whole.to_multiset().count(x) > 0);
        assert((a + b).to_multiset().count(x) > 0);
    }
}

/// Whether some module of the set imports the module name `n`, which is
/// neither a built-in module nor the name of any module of the set.
pub open spec fn has_missing_import(
    mods: Seq<anf::ModuleV>,
    builtins: Set<Seq<char>>,
    n: Seq<char>,
) -> bool {
    &&& !builtins.contains(n)
    &&& !names_contain(mod_names(mods), n)
    &&& exists|i: int, k: int|
        0 <= i < mods.len() && 0 <= k < mods[i].imports.len() && (#[trigger] mods[i].imports[k]).0
            == n
}

/// Whether the module has an import whose module is not yet closed.
pub open spec fn member_unready(m: anf::ModuleV, closed: Seq<Seq<char>>) -> bool {
    exists|k: int|
        0 <= k < m.imports.len() && !names_contain(closed, (#[trigger] m.imports[k]).0)
}

/// Whether the module has an import that is not a built-in and names one
/// of the given modules.
pub open spec fn member_locked(
    m: anf::ModuleV,
    builtins: Set<Seq<char>>,
    names: Seq<Seq<char>>,
) -> bool {
    exists|k: int|
        0 <= k < m.imports.len() && !builtins.contains((#[trigger] m.imports[k]).0)
            && names_contain(names, m.imports[k].0)
}

/// A nonempty selection of modules each of which imports some module of
/// the selection itself (never only built-ins): the shape that an import
/// cycle leaves behind, and exactly what makes a topological order
/// impossible when module names are distinct.
pub open spec fn locked_modules(
    mods: Seq<anf::ModuleV>,
    builtins: Set<Seq<char>>,
    sub: Seq<anf::ModuleV>,
) -> bool {
    &&& sub.len() > 0
    &&& forall|j: int| 0 <= j < sub.len() ==> mods.contains(#[trigger] sub[j])
    &&& forall|j: int| 0 <= j < sub.len() ==> member_locked(#[trigger] sub[j], builtins, mod_names(sub))
}

/// A compiled batch consists of declarations whose local references are in
/// scope.
pub proof fn lemma_sc_batch_locals_ok(
    modname: Seq<char>,
    gmap2: Map<Seq<char>, Seq<char>>,
    batch: Seq<(Seq<char>, Seq<Seq<char>>, anf::ExprV)>,
)
    ensures
        sc_batch(modname, gmap2, batch) matches Ok(ds) ==> forall|i: int|
            0 <= i < ds.len() ==> crate::sanity::expr_locals_ok(0, #[trigger] ds[i].1),
    decreases batch.len(),
{
    if batch.len() > 0 {
        lemma_sc_batch_locals_ok(modname, gmap2, batch.drop_last());
        let (name, params, body) = batch.last();
        lemma_sc_decl_locals_ok(modname, gmap2, anf::DeclV::Defn(name, params, body));
    }
}

/// A compiled module body consists of declarations whose local references
/// are in scope.
pub proof fn lemma_sc_body_locals_ok(
    modname: Seq<char>,
    gmap: Map<Seq<char>, Seq<char>>,
    batch: Seq<(Seq<char>, Seq<Seq<char>>, anf::ExprV)>,
    body: Seq<anf::DeclV>,
)
    ensures
        sc_body(modname, gmap, batch, body) matches Ok(ds) ==> forall|i: int|
            0 <= i < ds.len() ==> crate::sanity::expr_locals_ok(0, #[trigger] ds[i].1),
    decreases body.len(),
{
    if body.len() == 0 {
        lemma_sc_batch_locals_ok(modname, batch_add(modname, gmap, batch), batch);
    } else {
        match body[0] {
            anf::DeclV::Defn(n, p, b) => {
                lemma_sc_body_locals_ok(modname, gmap, batch.push((n, p, b)), body.drop_first());
            },
            anf::DeclV::Def(n, e) => {
                let gmap2 = batch_add(modname, gmap, batch);
                lemma_sc_batch_locals_ok(modname, gmap2, batch);
                lemma_sc_decl_locals_ok(modname, gmap2, anf::DeclV::Def(n, e));
                match sc_batch(modname, gmap2, batch) {
                    Ok(bds) => {
                        match sc_decl(modname, gmap2, anf::DeclV::Def(n, e)) {
                            Ok(d) => {
                                lemma_sc_body_locals_ok(
                                    modname,
                                    gmap2.insert(n, d.0),
                                    Seq::empty(),
                                    body.drop_first(),
                                );
                            },
                            Err(_) => {},
                        }
                    },
                    Err(_) => {},
                }
            },
        }
    }
}

/// A compiled module consists of declarations whose local references are in
/// scope.
pub proof fn lemma_sc_module_locals_ok(known: Set<Seq<char>>, m: anf::ModuleV)
    ensures
        sc_module(known, m) matches Ok((ds, _)) ==> forall|i: int|
            0 <= i < ds.len() ==> crate::sanity::expr_locals_ok(0, #[trigger] ds[i].1),
{
    lemma_sc_body_locals_ok(m.name, import_gmap(m.imports), Seq::empty(), m.body);
}

/// A compiled module sequence consists of declarations whose local
/// references are in scope.
pub proof fn lemma_sc_modules_locals_ok(known: Set<Seq<char>>, mods: Seq<anf::ModuleV>)
    ensures
        sc_modules(known, mods) matches Ok((ds, _)) ==> forall|i: int|
            0 <= i < ds.len() ==> crate::sanity::expr_locals_ok(0, #[trigger] ds[i].1),
    decreases mods.len(),
{
    if mods.len() > 0 {
        lemma_sc_module_locals_ok(known, mods[0]);
        match sc_module(known, mods[0]) {
            Ok((ds0, exq)) => {
                lemma_sc_modules_locals_ok(known.union(names_set(exq)), mods.drop_first());
            },
            Err(_) => {},
        }
    }
}

/// An error at batch entry `i` is the error of the whole batch, provided the
/// prefix before it succeeded.
proof fn lemma_sc_batch_prefix_err(
    modname: Seq<char>,
    gmap2: Map<Seq<char>, Seq<char>>,
    batch: Seq<(Seq<char>, Seq<Seq<char>>, anf::ExprV)>,
    i: int,
)
    requires
        0 <= i < batch.len(),
        sc_batch(modname, gmap2, batch.take(i)) is Ok,
        sc_decl(
            modname,
            gmap2,
            anf::DeclV::Defn(batch[i].0, batch[i].1, batch[i].2),
        ) is Err,
    ensures
        sc_batch(modname, gmap2, batch) is Err,
        sc_batch(modname, gmap2, batch)->Err_0 == sc_decl(
            modname,
            gmap2,
            anf::DeclV::Defn(batch[i].0, batch[i].1, batch[i].2),
        )->Err_0,
    decreases batch.len(),
{
    if batch.len() > 0 {
        if i < batch.len() - 1 {
            assert(batch.drop_last().take(i) =~= batch.take(i));
            assert(batch.drop_last()[i] == batch[i]);
            lemma_sc_batch_prefix_err(modname, gmap2, batch.drop_last(), i);
        } else {
            assert(batch.take(i) =~= batch.drop_last());
        }
    }
}

/// The batch triple a pending `defn` declaration holds.
pub open spec fn defn_triple(d: anf::DeclV) -> (Seq<char>, Seq<Seq<char>>, anf::ExprV) {
    (d->Defn_0, d->Defn_1, d->Defn_2)
}

/// Adds the pending batch's names to the context and compiles its members.
#[verifier::loop_isolation(false)]
fn flush_batch(
    modname: &str,
    ctx: &mut Context,
    body: &Vec<anf::Decl>,
    batch: &Vec<usize>,
) -> (r: Result<Vec<(String, Expr)>, ErrorKind>)
    requires
        old(ctx).lview().len() == 0,
        forall|j: int|
            0 <= j < batch@.len() ==> (batch@[j] < body@.len() && (#[trigger] body@[batch@[j] as int])@
                is Defn),
    ensures
        final(ctx).lview().len() == 0,
        final(ctx).gmap() == batch_add(modname@, old(ctx).gmap(), batch_view(body@, batch@)),
        ({
            let s = sc_batch(
                modname@,
                batch_add(modname@, old(ctx).gmap(), batch_view(body@, batch@)),
                batch_view(body@, batch@),
            );
            &&& r is Ok <==> s is Ok
            &&& (r matches Ok(v) ==> s matches Ok(sv) && decls_view(v@) == sv)
            &&& (r matches Err(k) ==> s matches Err(se) && err_matches(k, se))
        }),
{
    let ghost bv = batch_view(body@, batch@);
    let mut j: usize = 0;
    proof {
        assert(batch_add(modname@, ctx.gmap(), bv.take(0)) =~= ctx.gmap()) by {
            assert(bv.take(0) =~= Seq::<(Seq<char>, Seq<Seq<char>>, anf::ExprV)>::empty());
        }
    }
    while j < batch.len()
        invariant
            j <= batch@.len(),
            ctx.lview() == old(ctx).lview(),
            ctx.gmap() == batch_add(modname@, old(ctx).gmap(), bv.take(j as int)),
        decreases batch@.len() - j,
    {
        proof {
            assert(bv.take(j + 1).drop_last() =~= bv.take(j as int));
            assert(bv[j as int] == defn_triple(body@[batch@[j as int] as int]@));
        }
        match &body[batch[j]] {
            anf::Decl::Defn(name, _, _) => {
                ctx.add_global(name.clone(), qualify(modname, name.as_str()));
            },
            _ => {
                proof {
                    assert(false);
                }
            },
        }
        j = j + 1;
    }
    proof {
        assert(bv.take(batch@.len() as int) =~= bv);
    }
    let ghost gmap2 = ctx.gmap();
    let mut out: Vec<(String, Expr)> = Vec::new();
    let mut j: usize = 0;
    proof {
        assert(sc_batch(modname@, gmap2, bv.take(0)) =~= Ok::<
            Seq<(Seq<char>, ExprV)>,
            LinkErrV,
        >(decls_view(out@))) by {
            assert(bv.take(0) =~= Seq::<(Seq<char>, Seq<Seq<char>>, anf::ExprV)>::empty());
            assert(decls_view(out@) =~= Seq::<(Seq<char>, ExprV)>::empty());
        }
    }
    while j < batch.len()
        invariant
            j <= batch@.len(),
            ctx.lview() == old(ctx).lview(),
            ctx.gmap() == gmap2,
            sc_batch(modname@, gmap2, bv.take(j as int)) == Ok::<
                Seq<(Seq<char>, ExprV)>,
                LinkErrV,
            >(decls_view(out@)),
        decreases batch@.len() - j,
    {
        proof {
            assert(bv.take(j + 1).drop_last() =~= bv.take(j as int));
            assert(bv.take(j + 1).last() == bv[j as int]);
            assert(bv[j as int] == defn_triple(body@[batch@[j as int] as int]@));
            assert(body@[batch@[j as int] as int]@ == anf::DeclV::Defn(
                bv[j as int].0,
                bv[j as int].1,
                bv[j as int].2,
            ));
        }
        let ghost pre = out@;
        match compile_decl(modname, ctx, &body[batch[j]]) {
            Ok(d) => {
                out.push(d);
                proof {
                    assert(out@.drop_last() =~= pre);
                    assert(decls_view(out@) =~= decls_view(pre).push((d.0@, d.1@)));
                }
            },
            Err(k) => {
                proof {
                    lemma_sc_batch_prefix_err(modname@, gmap2, bv, j as int);
                }
                return Err(k);
            },
        }
        j = j + 1;
    }
    proof {
        assert(bv.take(batch@.len() as int) =~= bv);
    }
    Ok(out)
}

/// The batch triples selected by a list of indices into a module body.
pub open spec fn batch_view(body: Seq<anf::Decl>, batch: Seq<usize>) -> Seq<
    (Seq<char>, Seq<Seq<char>>, anf::ExprV),
> {
    Seq::new(batch.len(), |j: int| defn_triple(body[batch[j] as int]@))
}

/// Whether the declaration list contains the given name.
fn decls_contain_name(out: &Vec<(String, Expr)>, q: &str) -> (r: bool)
    ensures
        r == names_contain(decl_names(decls_view(out@)), q@),
{
    let mut i: usize = 0;
    #[verifier::loop_isolation(false)]
    while i < out.len()
        invariant
            i <= out@.len(),
            forall|j: int| 0 <= j < i ==> decl_names(decls_view(out@))[j] != q@,
        decreases out@.len() - i,
    {
        if crate::literal::str_eq(out[i].0.as_str(), q) {
            proof {
                assert(decl_names(decls_view(out@))[i as int] == q@);
            }
            return true;
        }
        i = i + 1;
    }
    false
}

/// Compiles one module against the known globals, returning its compiled
/// declarations and the qualified exports it adds to the known globals.
#[verifier::loop_isolation(false)]
pub fn compile_module(known: &Vec<String>, m: &anf::Module) -> (r: Result<
    (Vec<(String, Expr)>, Vec<String>),
    ErrorKind,
>)
    ensures
        ({
            let s = sc_module(names_set(known.deep_view()), m@);
            &&& r is Ok <==> s is Ok
            &&& (r matches Ok(v) ==> s matches Ok(sv) && decls_view(v.0@) == sv.0
                && v.1.deep_view() == sv.1)
            &&& (r matches Err(k) ==> s matches Err(se) && mod_err_matches(k, se))
        }),
{
    broadcast use crate::anf::lemma_anf_decls_view_index;

    let ghost knownset = names_set(known.deep_view());
    let ghost importsv = m@.imports;

    // Check the imports and build the initial context.
    let mut pairs: Vec<(String, String)> = Vec::new();
    let mut i: usize = 0;
    proof {
        assert(globals_map(pairs_view(pairs@)) =~= import_gmap(importsv.take(0))) by {
            assert(pairs_view(pairs@) =~= Seq::<(Seq<char>, Seq<char>)>::empty());
            assert(importsv.take(0) =~= Seq::<(Seq<char>, Seq<char>)>::empty());
        }
    }
    while i < m.imports.len()
        invariant
            i <= m.imports@.len(),
            importsv.len() == m.imports@.len(),
            forall|j: int| 0 <= j < i ==> knownset.contains(qualified(importsv[j].0, importsv[j].1)),
            globals_map(pairs_view(pairs@)) == import_gmap(importsv.take(i as int)),
        decreases m.imports@.len() - i,
    {
        proof {
            assert(importsv[i as int] == (m.imports@[i as int].0@, m.imports@[i as int].1@));
        }
        let q = qualify(m.imports[i].0.as_str(), m.imports[i].1.as_str());
        if !crate::flatanf::global_vars::vec_contains_name(known, q.as_str()) {
            proof {
                lemma_first_bad_import_at(knownset, importsv, i as int);
            }
            return Err(ErrorKind::NonexistentImport(m.name.clone(), q));
        }
        let ghost prepairs = pairs_view(pairs@);
        pairs.push((m.imports[i].1.clone(), q));
        proof {
            assert(pairs_view(pairs@).drop_last() =~= prepairs);
            assert(importsv.take(i + 1).drop_last() =~= importsv.take(i as int));
        }
        i = i + 1;
    }
    proof {
        lemma_first_bad_import_none(knownset, importsv, 0);
        assert(importsv.take(importsv.len() as int) =~= importsv);
    }

    // Declaration names must be legal (no colon) and pairwise distinct.
    let bnames = body_names(&m.body);
    match find_illegal(&bnames) {
        Some(n) => {
            return Err(ErrorKind::IllegalDeclName(n));
        },
        None => {},
    }
    match find_repeat(&bnames) {
        Some(n) => {
            return Err(ErrorKind::DuplicateDeclName(n));
        },
        None => {},
    }

    let mut ctx = Context::from_globals(pairs);
    let ghost gmap0 = import_gmap(importsv);

    // Walk the body, batching contiguous defns.
    let ghost bodyv = crate::anf::decls_view(m.body@);
    let ghost target = sc_body(m@.name, gmap0, Seq::empty(), bodyv);
    let mut out: Vec<(String, Expr)> = Vec::new();
    let mut batch: Vec<usize> = Vec::new();
    let mut i: usize = 0;
    proof {
        assert(batch_view(m.body@, batch@) =~= Seq::<
            (Seq<char>, Seq<Seq<char>>, anf::ExprV),
        >::empty());
        assert(bodyv.skip(0) =~= bodyv);
        assert(decls_view(out@) =~= Seq::<(Seq<char>, ExprV)>::empty());
    }
    while i < m.body.len()
        invariant
            i <= m.body@.len(),
            bodyv.len() == m.body@.len(),
            ctx.lview().len() == 0,
            forall|j: int|
                0 <= j < batch@.len() ==> (batch@[j] < m.body@.len() && (
                #[trigger] m.body@[batch@[j] as int])@ is Defn),
            ({
                let s = sc_body(
                    m@.name,
                    ctx.gmap(),
                    batch_view(m.body@, batch@),
                    bodyv.skip(i as int),
                );
                &&& (s matches Ok(rest) ==> target == Ok::<
                    Seq<(Seq<char>, ExprV)>,
                    LinkErrV,
                >(decls_view(out@) + rest))
                &&& (s is Err ==> target == s)
            }),
        decreases m.body@.len() - i,
    {
        proof {
            assert(bodyv.skip(i as int)[0] == bodyv[i as int]);
            assert(bodyv[i as int] == m.body@[i as int]@);
            assert(bodyv.skip(i as int).drop_first() =~= bodyv.skip(i + 1));
        }
        match &m.body[i] {
            anf::Decl::Defn(_, _, _) => {
                let ghost prebatch = batch@;
                batch.push(i);
                proof {
                    assert(batch_view(m.body@, batch@) =~= batch_view(m.body@, prebatch).push(
                        defn_triple(m.body@[i as int]@),
                    ));
                }
            },
            anf::Decl::Def(name, _) => {
                let mut bds = match flush_batch(m.name.as_str(), &mut ctx, &m.body, &batch) {
                    Ok(bds) => bds,
                    Err(k) => {
                        return Err(k);
                    },
                };
                batch = Vec::new();
                let d = match compile_decl(m.name.as_str(), &mut ctx, &m.body[i]) {
                    Ok(d) => d,
                    Err(k) => {
                        return Err(k);
                    },
                };
                let ghost preout = out@;
                let ghost bdsv = decls_view(bds@);
                let ghost dv = (d.0@, d.1@);
                ctx.add_global(name.clone(), d.0.clone());
                out.append(&mut bds);
                out.push(d);
                proof {
                    assert(decls_view(out@) =~= decls_view(preout) + bdsv.push(dv));
                    assert(batch_view(m.body@, batch@) =~= Seq::<
                        (Seq<char>, Seq<Seq<char>>, anf::ExprV),
                    >::empty());
                    match sc_body(
                        m@.name,
                        ctx.gmap(),
                        batch_view(m.body@, batch@),
                        bodyv.skip(i + 1),
                    ) {
                        Ok(rest) => {
                            assert((decls_view(preout) + bdsv.push(dv)) + rest
                                =~= decls_view(preout) + (bdsv.push(dv) + rest));
                        },
                        Err(_) => {},
                    }
                }
            },
        }
        i = i + 1;
    }
    proof {
        assert(bodyv.skip(m.body@.len() as int) =~= Seq::<anf::DeclV>::empty());
    }
    let mut bds = match flush_batch(m.name.as_str(), &mut ctx, &m.body, &batch) {
        Ok(bds) => bds,
        Err(k) => {
            return Err(k);
        },
    };
    let ghost preout = out@;
    let ghost bdsv = decls_view(bds@);
    out.append(&mut bds);
    proof {
        assert(decls_view(out@) =~= decls_view(preout) + bdsv);
    }

    // Check the exports and produce the qualified export names.
    let ghost dsv = decls_view(out@);
    let mut exports_q: Vec<String> = Vec::new();
    let mut e: usize = 0;
    proof {
        assert(exports_q.deep_view() =~= qualify_all(m@.name, m@.exports).take(0));
    }
    while e < m.exports.len()
        invariant
            e <= m.exports@.len(),
            m@.exports.len() == m.exports@.len(),
            forall|j: int|
                0 <= j < e ==> names_contain(
                    decl_names(dsv),
                    qualified(m@.name, #[trigger] m@.exports[j]),
                ),
            exports_q.deep_view() == qualify_all(m@.name, m@.exports).take(e as int),
        decreases m.exports@.len() - e,
    {
        proof {
            assert(m@.exports[e as int] == m.exports@[e as int]@);
        }
        let q = qualify(m.name.as_str(), m.exports[e].as_str());
        if !decls_contain_name(&out, q.as_str()) {
            proof {
                lemma_first_missing_export_at(m@.name, decl_names(dsv), m@.exports, e as int);
            }
            return Err(ErrorKind::MissingExport(m.name.clone(), q));
        }
        let ghost preq = exports_q.deep_view();
        exports_q.push(q);
        proof {
            assert(exports_q.deep_view() =~= preq.push(qualified(m@.name, m@.exports[e as int])));
            assert(qualify_all(m@.name, m@.exports).take(e + 1) =~= qualify_all(
                m@.name,
                m@.exports,
            ).take(e as int).push(qualified(m@.name, m@.exports[e as int])));
        }
        e = e + 1;
    }
    proof {
        lemma_first_missing_export_none(m@.name, decl_names(dsv), m@.exports, 0);
        assert(qualify_all(m@.name, m@.exports).take(m.exports@.len() as int) =~= qualify_all(
            m@.name,
            m@.exports,
        ));
        assert(decls_view(out@) + Seq::<(Seq<char>, ExprV)>::empty() =~= decls_view(out@));
    }
    Ok((out, exports_q))
}

/// The first missing export is at `e` when all earlier exports are declared
/// and `e`'s is not.
proof fn lemma_first_missing_export_at(
    m: Seq<char>,
    names: Seq<Seq<char>>,
    exports: Seq<Seq<char>>,
    e: int,
)
    requires
        0 <= e < exports.len(),
        forall|j: int| 0 <= j < e ==> names_contain(names, qualified(m, #[trigger] exports[j])),
        !names_contain(names, qualified(m, exports[e])),
    ensures
        first_missing_export(m, names, exports, 0) == Some(qualified(m, exports[e])),
{
    lemma_first_missing_export_from(m, names, exports, 0, e);
}

proof fn lemma_first_missing_export_from(
    m: Seq<char>,
    names: Seq<Seq<char>>,
    exports: Seq<Seq<char>>,
    from: int,
    e: int,
)
    requires
        0 <= from <= e < exports.len(),
        forall|j: int| from <= j < e ==> names_contain(names, qualified(m, #[trigger] exports[j])),
        !names_contain(names, qualified(m, exports[e])),
    ensures
        first_missing_export(m, names, exports, from) == Some(qualified(m, exports[e])),
    decreases e - from,
{
    if from < e {
        lemma_first_missing_export_from(m, names, exports, from + 1, e);
    }
}

/// When every export is declared there is no missing export.
proof fn lemma_first_missing_export_none(
    m: Seq<char>,
    names: Seq<Seq<char>>,
    exports: Seq<Seq<char>>,
    from: int,
)
    requires
        0 <= from <= exports.len(),
        forall|j: int|
            from <= j < exports.len() ==> names_contain(names, qualified(m, #[trigger] exports[j])),
    ensures
        first_missing_export(m, names, exports, from) is None,
    decreases exports.len() - from,
{
    if from < exports.len() {
        lemma_first_missing_export_none(m, names, exports, from + 1);
    }
}

/// The first bad import is at `i` when all earlier imports are known and
/// `i`'s is not.
proof fn lemma_first_bad_import_at(
    known: Set<Seq<char>>,
    imports: Seq<(Seq<char>, Seq<char>)>,
    i: int,
)
    requires
        0 <= i < imports.len(),
        forall|j: int| 0 <= j < i ==> known.contains(qualified(imports[j].0, imports[j].1)),
        !known.contains(qualified(imports[i].0, imports[i].1)),
    ensures
        first_bad_import(known, imports, 0) == Some(imports[i]),
{
    lemma_first_bad_import_from(known, imports, 0, i);
}

proof fn lemma_first_bad_import_from(
    known: Set<Seq<char>>,
    imports: Seq<(Seq<char>, Seq<char>)>,
    from: int,
    i: int,
)
    requires
        0 <= from <= i < imports.len(),
        forall|j: int| from <= j < i ==> known.contains(qualified(imports[j].0, imports[j].1)),
        !known.contains(qualified(imports[i].0, imports[i].1)),
    ensures
        first_bad_import(known, imports, from) == Some(imports[i]),
    decreases i - from,
{
    if from < i {
        lemma_first_bad_import_from(known, imports, from + 1, i);
    }
}

/// When every import is known there is no bad import.
proof fn lemma_first_bad_import_none(
    known: Set<Seq<char>>,
    imports: Seq<(Seq<char>, Seq<char>)>,
    from: int,
)
    requires
        0 <= from <= imports.len(),
        forall|j: int| from <= j < imports.len() ==> known.contains(
            qualified(imports[j].0, imports[j].1),
        ),
    ensures
        first_bad_import(known, imports, from) is None,
    decreases imports.len() - from,
{
    if from < imports.len() {
        lemma_first_bad_import_none(known, imports, from + 1);
    }
}

/// The names of a sequence of module models.
pub open spec fn mod_names(s: Seq<anf::ModuleV>) -> Seq<Seq<char>> {
    Seq::new(s.len(), |i: int| s[i].name)
}

/// Whether every import of the module names a closed module.
fn module_ready(m: &anf::Module, closed: &Vec<String>) -> (r: bool)
    ensures
        r == forall|k: int|
            0 <= k < m@.imports.len() ==> names_contain(
                closed.deep_view(),
                (#[trigger] m@.imports[k]).0,
            ),
{
    let mut k: usize = 0;
    #[verifier::loop_isolation(false)]
    while k < m.imports.len()
        invariant
            k <= m.imports@.len(),
            m@.imports.len() == m.imports@.len(),
            forall|j: int|
                0 <= j < k ==> names_contain(closed.deep_view(), (#[trigger] m@.imports[j]).0),
        decreases m.imports@.len() - k,
    {
        proof {
            assert(m@.imports[k as int] == (m.imports@[k as int].0@, m.imports@[k as int].1@));
        }
        if !crate::flatanf::global_vars::vec_contains_name(closed, m.imports[k].0.as_str()) {
            return false;
        }
        k = k + 1;
    }
    true
}

/// Topologically sorts the modules by import edge: each module appears after
/// every module it imports. Repeatedly emits the first module all of whose
/// imports are built-in or already emitted.
#[verifier::loop_isolation(false)]
#[verifier::rlimit(80)]
pub fn toposort_mods(mods: Vec<anf::Module>, builtin_mods: &Vec<String>) -> (r: Result<
    Vec<anf::Module>,
    ErrorKind,
>)
    ensures
        r matches Ok(sorted) ==> {
            &&& mods_view(sorted@).to_multiset() == mods_view(mods@).to_multiset()
            &&& topo_sorted(mods_view(sorted@), names_set(builtin_mods.deep_view()))
        },
        r matches Err(k) ==> ((k matches ErrorKind::NonexistentModule(n) && has_missing_import(
            mods_view(mods@),
            names_set(builtin_mods.deep_view()),
            n@,
        )) || (k matches ErrorKind::DependencyLoopInModule(m) && (exists|sub: Seq<anf::ModuleV>|
            locked_modules(mods_view(mods@), names_set(builtin_mods.deep_view()), sub)
                && names_contain(mod_names(sub), m@)))),
        (!(exists|n: Seq<char>|
            has_missing_import(mods_view(mods@), names_set(builtin_mods.deep_view()), n)) && !(
        exists|sub: Seq<anf::ModuleV>|
            locked_modules(mods_view(mods@), names_set(builtin_mods.deep_view()), sub)))
            ==> r is Ok,
{
    broadcast use vstd::seq_lib::group_seq_properties;

    let ghost origms = mods_view(mods@).to_multiset();
    let ghost binit = names_set(builtin_mods.deep_view());
    let mut remaining = mods;
    let mut sorted: Vec<anf::Module> = Vec::new();
    let mut closed: Vec<String> = crate::anf::clone_strings(builtin_mods);
    proof {
        vstd::seq_lib::lemma_multiset_commutative(mods_view(sorted@), mods_view(remaining@));
        assert(mods_view(sorted@) + mods_view(remaining@) =~= mods_view(remaining@));
        assert(closed.deep_view() =~= builtin_mods.deep_view() + mod_names(mods_view(sorted@)));
    }
    while remaining.len() > 0
        invariant
            closed.deep_view() == builtin_mods.deep_view() + mod_names(mods_view(sorted@)),
            (mods_view(sorted@) + mods_view(remaining@)).to_multiset() == origms,
            topo_sorted(mods_view(sorted@), binit),
        decreases remaining@.len(),
    {
        // Find the first module whose imports are all closed.
        let mut found: Option<usize> = None;
        let mut idx: usize = 0;
        while idx < remaining.len()
            invariant
                idx <= remaining@.len(),
                found matches Some(f) ==> (f < remaining@.len() && forall|k: int|
                    0 <= k < mods_view(remaining@)[f as int].imports.len() ==> names_contain(
                        closed.deep_view(),
                        (#[trigger] mods_view(remaining@)[f as int].imports[k]).0,
                    )),
                found is None ==> forall|j: int|
                    0 <= j < idx ==> member_unready(
                        #[trigger] mods_view(remaining@)[j],
                        closed.deep_view(),
                    ),
            decreases remaining@.len() - idx,
        {
            if module_ready(&remaining[idx], &closed) {
                found = Some(idx);
                proof {
                    assert(mods_view(remaining@)[idx as int] == remaining@[idx as int]@);
                }
                break ;
            }
            proof {
                assert(mods_view(remaining@)[idx as int] == remaining@[idx as int]@);
                let mv = mods_view(remaining@)[idx as int];
                assert(!(forall|k: int|
                    0 <= k < mv.imports.len() ==> names_contain(
                        closed.deep_view(),
                        (#[trigger] mv.imports[k]).0,
                    )));
                let k2 = choose|k: int|
                    0 <= k < mv.imports.len() && !names_contain(
                        closed.deep_view(),
                        (#[trigger] mv.imports[k]).0,
                    );
                assert(member_unready(mv, closed.deep_view()));
            }
            idx = idx + 1;
        }
        match found {
            Some(f) => {
                let ghost presorted = mods_view(sorted@);
                let ghost preremaining = mods_view(remaining@);
                let ghost preclosed = closed.deep_view();
                let m = remaining.remove(f);
                closed.push(m.name.clone());
                let ghost mname = m.name@;
                sorted.push(m);
                proof {
                    assert(mods_view(sorted@) =~= presorted.push(preremaining[f as int]));
                    assert(mods_view(remaining@) =~= preremaining.remove(f as int));
                    assert(closed.deep_view() =~= preclosed.push(mname));
                    assert(mname == preremaining[f as int].name);
                    assert(mod_names(mods_view(sorted@)) =~= mod_names(presorted).push(mname));
                    assert(closed.deep_view() =~= builtin_mods.deep_view() + mod_names(
                        mods_view(sorted@),
                    ));
                    assert((mods_view(sorted@) + mods_view(remaining@)).to_multiset()
                        == origms) by {
                        broadcast use vstd::seq_lib::group_to_multiset_ensures;

                        vstd::seq_lib::lemma_multiset_commutative(
                            presorted,
                            preremaining,
                        );
                        vstd::seq_lib::lemma_multiset_commutative(
                            mods_view(sorted@),
                            mods_view(remaining@),
                        );
                        assert(mods_view(sorted@).to_multiset() =~= presorted.to_multiset().insert(
                            preremaining[f as int],
                        ));
                        assert(mods_view(remaining@).to_multiset()
                            =~= preremaining.to_multiset().remove(preremaining[f as int]));
                        assert(preremaining.to_multiset().contains(preremaining[f as int])) by {
                            assert(preremaining.contains(preremaining[f as int]));
                        }
                        assert(presorted.to_multiset().insert(preremaining[f as int]).add(
                            preremaining.to_multiset().remove(preremaining[f as int]),
                        ) =~= presorted.to_multiset().add(preremaining.to_multiset()));
                    }
                    // topological order is preserved: the new module's imports
                    // are all built-in or already-emitted names
                    assert forall|i: int, k: int|
                        0 <= i < mods_view(sorted@).len() && 0 <= k < mods_view(
                            sorted@,
                        )[i].imports.len() implies (binit.contains(
                        #[trigger] mods_view(sorted@)[i].imports[k].0,
                    ) || exists|j: int|
                        0 <= j < i && #[trigger] mods_view(sorted@)[j].name == mods_view(
                            sorted@,
                        )[i].imports[k].0) by {
                        if i < presorted.len() {
                            assert(mods_view(sorted@)[i] == presorted[i]);
                            assert(binit.contains(presorted[i].imports[k].0) || exists|j: int|
                                0 <= j < i && #[trigger] presorted[j].name
                                    == presorted[i].imports[k].0);
                            if !binit.contains(presorted[i].imports[k].0) {
                                let j = choose|j: int|
                                    0 <= j < i && #[trigger] presorted[j].name
                                        == presorted[i].imports[k].0;
                                assert(mods_view(sorted@)[j].name == mods_view(
                                    sorted@,
                                )[i].imports[k].0);
                            }
                        } else {
                            assert(mods_view(sorted@)[i] == preremaining[f as int]);
                            assert(names_contain(
                                closed.deep_view().take(
                                    closed.deep_view().len() - 1,
                                ),
                                mods_view(sorted@)[i].imports[k].0,
                            )) by {
                                assert(names_contain(
                                    builtin_mods.deep_view() + mod_names(presorted),
                                    mods_view(sorted@)[i].imports[k].0,
                                ));
                                assert(closed.deep_view().take(closed.deep_view().len() - 1)
                                    =~= builtin_mods.deep_view() + mod_names(presorted));
                            }
                            let nm = mods_view(sorted@)[i].imports[k].0;
                            let bn = builtin_mods.deep_view();
                            let pn = mod_names(presorted);
                            assert(names_contain(bn + pn, nm));
                            let ix = choose|ix: int| 0 <= ix < (bn + pn).len() && (bn + pn)[ix] == nm;
                            if ix < bn.len() {
                                assert(binit.contains(nm)) by {
                                    assert(bn[ix] == nm);
                                }
                            } else {
                                assert(pn[ix - bn.len()] == nm);
                                assert(mods_view(sorted@)[ix - bn.len()].name == nm);
                            }
                        }
                    }
                }
            },
            None => {
                proof {
                    assert(forall|j: int|
                        0 <= j < remaining@.len() ==> member_unready(
                            #[trigger] mods_view(remaining@)[j],
                            closed.deep_view(),
                        ));
                }
                return Err(
                    stuck_error(
                        &remaining,
                        &closed,
                        builtin_mods,
                        Ghost(mods_view(sorted@)),
                        Ghost(mods_view(mods@)),
                    ),
                );
            },
        }
    }
    proof {
        assert(mods_view(remaining@) =~= Seq::<anf::ModuleV>::empty());
        vstd::seq_lib::lemma_multiset_commutative(mods_view(sorted@), mods_view(remaining@));
        assert(mods_view(sorted@) + mods_view(remaining@) =~= mods_view(sorted@));
    }
    Ok(sorted)
}


/// Names the error of a stuck sort: the remaining modules were scanned; an
/// import naming no module at all yields `NonexistentModule`, otherwise
/// the remaining modules lock each other and the first one names the
/// dependency loop.
#[verifier::loop_isolation(false)]
#[verifier::rlimit(100)]
#[verifier::spinoff_prover]
fn stuck_error(
    remaining: &Vec<anf::Module>,
    closed: &Vec<String>,
    builtin_mods: &Vec<String>,
    Ghost(sv): Ghost<Seq<anf::ModuleV>>,
    Ghost(allv): Ghost<Seq<anf::ModuleV>>,
) -> (r: ErrorKind)
    requires
        remaining@.len() > 0,
        closed.deep_view() == builtin_mods.deep_view() + mod_names(sv),
        (sv + mods_view(remaining@)).to_multiset() == allv.to_multiset(),
        forall|j: int|
            0 <= j < remaining@.len() ==> member_unready(
                #[trigger] mods_view(remaining@)[j],
                closed.deep_view(),
            ),
    ensures
        (r matches ErrorKind::NonexistentModule(n) && has_missing_import(
            allv,
            names_set(builtin_mods.deep_view()),
            n@,
        )) || (r matches ErrorKind::DependencyLoopInModule(m) && (exists|sub: Seq<anf::ModuleV>|
            locked_modules(allv, names_set(builtin_mods.deep_view()), sub) && names_contain(
                mod_names(sub),
                m@,
            ))),
{
    let ghost binit = names_set(builtin_mods.deep_view());
    proof {
        lemma_concat_multiset_members(sv, mods_view(remaining@), allv);
    }
                let mut j: usize = 0;
                while j < remaining.len()
                    invariant
                        j <= remaining@.len(),
                        forall|j2: int, k2: int|
                            0 <= j2 < j && 0 <= k2 < mods_view(remaining@)[j2].imports.len()
                                ==> (names_contain(
                                closed.deep_view(),
                                (#[trigger] mods_view(remaining@)[j2].imports[k2]).0,
                            ) || names_contain(
                                mod_names(mods_view(remaining@)),
                                mods_view(remaining@)[j2].imports[k2].0,
                            )),
                    decreases remaining@.len() - j,
                {
                    let mut k: usize = 0;
                    while k < remaining[j].imports.len()
                        invariant
                            j < remaining@.len(),
                            k <= remaining@[j as int].imports@.len(),
                            forall|k2: int|
                                0 <= k2 < k ==> (names_contain(
                                    closed.deep_view(),
                                    (#[trigger] mods_view(remaining@)[j as int].imports[k2]).0,
                                ) || names_contain(
                                    mod_names(mods_view(remaining@)),
                                    mods_view(remaining@)[j as int].imports[k2].0,
                                )),
                        decreases remaining@[j as int].imports@.len() - k,
                    {
                        proof {
                            assert(mods_view(remaining@)[j as int] == remaining@[j as int]@);
                            assert(mods_view(remaining@)[j as int].imports[k as int] == (
                                remaining@[j as int].imports@[k as int].0@,
                                remaining@[j as int].imports@[k as int].1@,
                            ));
                        }
                        let im = &remaining[j].imports[k].0;
                        if !crate::flatanf::global_vars::vec_contains_name(&closed, im.as_str())
                            && !module_names_contain(&remaining, im.as_str()) {
                            proof {
                                // The name is not a built-in (those are all
                                // closed), names no remaining module, and
                                // names no emitted module either (their
                                // names are closed), so it exists nowhere.
                                let n = im@;
                                let rv = mods_view(remaining@);
                                
                                let bn = builtin_mods.deep_view();
                                assert(!binit.contains(n)) by {
                                    if binit.contains(n) {
                                        let bi = choose|bi: int|
                                            0 <= bi < bn.len() && bn[bi] == n;
                                        assert(closed.deep_view()[bi] == n);
                                    }
                                }
                                assert(!names_contain(mod_names(allv), n)) by {
                                    if names_contain(mod_names(allv), n) {
                                        let mi = choose|mi: int|
                                            0 <= mi < allv.len() && mod_names(
                                                allv,
                                            )[mi] == n;
                                        assert(allv.contains(allv[mi]));
                                        assert((sv + rv).contains(allv[mi]));
                                        let ci = choose|ci: int|
                                            0 <= ci < (sv + rv).len() && (sv + rv)[ci]
                                                == allv[mi];
                                        if ci < sv.len() {
                                            assert(mod_names(sv)[ci] == n);
                                            assert(closed.deep_view()[bn.len() + ci] == n);
                                        } else {
                                            assert(mod_names(rv)[ci - sv.len()] == n);
                                        }
                                    }
                                }
                                assert(rv[j as int].imports[k as int].0 == n);
                                assert(allv.contains(rv[j as int])) by {
                                    assert((sv + rv).contains(rv[j as int])) by {
                                        assert((sv + rv)[sv.len() + j] == rv[j as int]);
                                    }
                                }
                                let ii = choose|ii: int|
                                    0 <= ii < allv.len() && allv[ii]
                                        == rv[j as int];
                                assert(has_missing_import(allv, binit, n));
                            }
                            return ErrorKind::NonexistentModule(im.clone());
                        }
                        k = k + 1;
                    }
                    j = j + 1;
                }
                proof {
                    // Every remaining module has an import outside `closed`
                    // (none was ready), and the scan above showed every such
                    // import names a remaining module: the remaining modules
                    // lock each other.
                    let rv = mods_view(remaining@);
                    
                    let bn = builtin_mods.deep_view();
                    assert forall|jj: int| 0 <= jj < rv.len() implies member_locked(
                        #[trigger] rv[jj],
                        binit,
                        mod_names(rv),
                    ) by {
                        assert(member_unready(rv[jj], closed.deep_view()));
                        let k = choose|k: int|
                            0 <= k < rv[jj].imports.len() && !names_contain(
                                closed.deep_view(),
                                (#[trigger] rv[jj].imports[k]).0,
                            );
                        let n = rv[jj].imports[k].0;
                        assert(!binit.contains(n)) by {
                            if binit.contains(n) {
                                let bi = choose|bi: int| 0 <= bi < bn.len() && bn[bi] == n;
                                assert(closed.deep_view()[bi] == n);
                            }
                        }
                        assert(names_contain(mod_names(rv), n));
                    }
                    assert forall|jj: int| 0 <= jj < rv.len() implies allv.contains(
                        #[trigger] rv[jj],
                    ) by {
                        assert((sv + rv)[sv.len() + jj] == rv[jj]);
                        assert((sv + rv).contains(rv[jj]));
                    }
                    assert(locked_modules(allv, binit, rv));
                    assert(names_contain(mod_names(rv), remaining@[0]@.name)) by {
                        assert(mod_names(rv)[0] == remaining@[0]@.name);
                    }
                }
                return ErrorKind::DependencyLoopInModule(remaining[0].name.clone());
}

/// Whether any of the modules has the given name.
fn module_names_contain(mods: &Vec<anf::Module>, name: &str) -> (r: bool)
    ensures
        r == names_contain(mod_names(mods_view(mods@)), name@),
{
    let mut i: usize = 0;
    #[verifier::loop_isolation(false)]
    while i < mods.len()
        invariant
            i <= mods@.len(),
            forall|j: int| 0 <= j < i ==> mod_names(mods_view(mods@))[j] != name@,
        decreases mods@.len() - i,
    {
        if crate::literal::str_eq(mods[i].name.as_str(), name) {
            proof {
                assert(mod_names(mods_view(mods@))[i as int] == name@);
            }
            return true;
        }
        i = i + 1;
    }
    false
}

/// Finds the first name that already occurred earlier in the vector.
#[verifier::loop_isolation(false)]
fn find_repeat(names: &Vec<String>) -> (r: Option<String>)
    ensures
        r is Some <==> first_repeat(names.deep_view(), 0) is Some,
        r matches Some(n) ==> first_repeat(names.deep_view(), 0) == Some(n@),
{
    let ghost nv = names.deep_view();
    let mut j: usize = 0;
    while j < names.len()
        invariant
            j <= names@.len(),
            nv.len() == names@.len(),
            first_repeat(nv, 0) == first_repeat(nv, j as int),
        decreases names@.len() - j,
    {
        let mut q: usize = 0;
        while q < j
            invariant
                q <= j < names@.len(),
                nv.len() == names@.len(),
                forall|p: int| 0 <= p < q ==> nv[p] != nv[j as int],
            decreases j - q,
        {
            if crate::literal::str_eq(names[q].as_str(), names[j].as_str()) {
                proof {
                    assert(nv[q as int] == nv[j as int]);
                    assert(nv.take(j as int)[q as int] == nv[j as int]);
                    assert(nv.take(j as int).contains(nv[j as int]));
                }
                return Some(names[j].clone());
            }
            q = q + 1;
        }
        proof {
            assert(!nv.take(j as int).contains(nv[j as int])) by {
                if nv.take(j as int).contains(nv[j as int]) {
                    let p = choose|p: int|
                        0 <= p < j && nv.take(j as int)[p] == nv[j as int];
                    assert(nv[p] == nv[j as int]);
                }
            }
        }
        j = j + 1;
    }
    None
}

/// Finds the first name that holds a colon, if any.
#[verifier::loop_isolation(false)]
fn find_illegal(names: &Vec<String>) -> (r: Option<String>)
    ensures
        r is Some <==> first_illegal(names.deep_view(), 0) is Some,
        r matches Some(n) ==> first_illegal(names.deep_view(), 0) == Some(n@),
{
    let ghost nv = names.deep_view();
    let mut j: usize = 0;
    while j < names.len()
        invariant
            j <= names@.len(),
            nv.len() == names@.len(),
            first_illegal(nv, 0) == first_illegal(nv, j as int),
        decreases names@.len() - j,
    {
        if contains_colon(names[j].as_str()) {
            return Some(names[j].clone());
        }
        j = j + 1;
    }
    None
}

/// Collects the (unqualified) names of a module body's declarations.
#[verifier::loop_isolation(false)]
fn body_names(body: &Vec<anf::Decl>) -> (r: Vec<String>)
    ensures
        r.deep_view() == body_decl_names(crate::anf::decls_view(body@)),
{
    broadcast use crate::anf::lemma_anf_decls_view_index;

    let ghost bv = crate::anf::decls_view(body@);
    let mut out: Vec<String> = Vec::new();
    let mut i: usize = 0;
    proof {
        assert(out.deep_view() =~= body_decl_names(bv).take(0));
    }
    while i < body.len()
        invariant
            i <= body@.len(),
            bv.len() == body@.len(),
            out.deep_view() == body_decl_names(bv).take(i as int),
        decreases body@.len() - i,
    {
        let n = body[i].name();
        out.push(n);
        proof {
            assert(bv[i as int] == body@[i as int]@);
            assert(out.deep_view() =~= body_decl_names(bv).take(i + 1));
        }
        i = i + 1;
    }
    proof {
        assert(body_decl_names(bv).take(body@.len() as int) =~= body_decl_names(bv));
    }
    out
}

/// The views of the built-in registry: each module name with its exported
/// names.
pub open spec fn builtins_view(s: Seq<(String, Vec<String>)>) -> Seq<(Seq<char>, Seq<Seq<char>>)> {
    Seq::new(s.len(), |i: int| (s[i].0@, s[i].1.deep_view()))
}

/// The qualified names of every built-in export, in registry order.
pub open spec fn builtins_flat(bs: Seq<(Seq<char>, Seq<Seq<char>>)>) -> Seq<Seq<char>>
    decreases bs.len(),
{
    if bs.len() == 0 {
        Seq::empty()
    } else {
        builtins_flat(bs.drop_last()) + qualify_all(bs.last().0, bs.last().1)
    }
}

/// The built-in module names.
pub open spec fn builtins_names(bs: Seq<(Seq<char>, Seq<Seq<char>>)>) -> Seq<Seq<char>> {
    Seq::new(bs.len(), |i: int| bs[i].0)
}


/// Builds the initial global environment (every qualified built-in name,
/// once, in registry order) and the list of built-in module names.
#[verifier::loop_isolation(false)]
fn builtin_globals(builtins: &Vec<(String, Vec<String>)>) -> (r: (Vec<String>, Vec<String>))
    ensures
        r.0.deep_view() == crate::ast::dedup_first(builtins_flat(builtins_view(builtins@))),
        r.1.deep_view() == builtins_names(builtins_view(builtins@)),
{
    broadcast use crate::flatanf::global_vars::lemma_names_contain_is_contains;

    let ghost bv = builtins_view(builtins@);
    let mut intr0: Vec<String> = Vec::new();
    let mut i: usize = 0;
    proof {
        assert(intr0.deep_view() =~= crate::ast::dedup_first(builtins_flat(bv.take(0)))) by {
            assert(bv.take(0) =~= Seq::<(Seq<char>, Seq<Seq<char>>)>::empty());
            assert(builtins_flat(bv.take(0)) =~= Seq::<Seq<char>>::empty());
        }
    }
    while i < builtins.len()
        invariant
            i <= builtins@.len(),
            bv.len() == builtins@.len(),
            intr0.deep_view() == crate::ast::dedup_first(builtins_flat(bv.take(i as int))),
        decreases builtins@.len() - i,
    {
        proof {
            assert(bv[i as int] == (builtins@[i as int].0@, builtins@[i as int].1.deep_view()));
        }
        let ghost flat_pre = builtins_flat(bv.take(i as int));
        let ghost pairs = qualify_all(bv[i as int].0, bv[i as int].1);
        let names = &builtins[i].1;
        let mut k: usize = 0;
        while k < names.len()
            invariant
                i < builtins@.len(),
                k <= names@.len(),
                names == &builtins@[i as int].1,
                pairs.len() == names@.len(),
                intr0.deep_view() == crate::ast::dedup_first(flat_pre + pairs.take(k as int)),
            decreases names@.len() - k,
        {
            proof {
                assert(pairs[k as int] == qualified(bv[i as int].0, names.deep_view()[k as int]));
                assert(names.deep_view()[k as int] == names@[k as int]@);
                assert((flat_pre + pairs.take(k + 1)).drop_last() =~= flat_pre + pairs.take(
                    k as int,
                ));
                assert((flat_pre + pairs.take(k + 1)).last() == pairs[k as int]);
            }
            let q = qualify(builtins[i].0.as_str(), names[k].as_str());
            let ghost eview = intr0.deep_view();
            if !crate::flatanf::global_vars::vec_contains_name(&intr0, q.as_str()) {
                intr0.push(q);
                proof {
                    assert(intr0.deep_view() =~= eview.push(pairs[k as int]));
                    assert(!(flat_pre + pairs.take(k as int)).contains(pairs[k as int])) by {
                        crate::ast::lemma_dedup_first_props(flat_pre + pairs.take(k as int));
                    }
                }
            } else {
                proof {
                    assert((flat_pre + pairs.take(k as int)).contains(pairs[k as int])) by {
                        crate::ast::lemma_dedup_first_props(flat_pre + pairs.take(k as int));
                    }
                    assert(intr0.deep_view() =~= eview);
                }
            }
            k = k + 1;
        }
        proof {
            assert(pairs.take(names@.len() as int) =~= pairs);
            assert(builtins_flat(bv.take(i + 1)) =~= flat_pre + pairs) by {
                assert(bv.take(i + 1).drop_last() =~= bv.take(i as int));
                assert(bv.take(i + 1).last() == bv[i as int]);
            }
        }
        i = i + 1;
    }
    proof {
        assert(bv.take(builtins@.len() as int) =~= bv);
    }
    let mut builtin_names: Vec<String> = Vec::new();
    let mut i: usize = 0;
    proof {
        assert(builtin_names.deep_view() =~= builtins_names(bv).take(0));
    }
    while i < builtins.len()
        invariant
            i <= builtins@.len(),
            builtin_names.deep_view() == builtins_names(bv).take(i as int),
        decreases builtins@.len() - i,
    {
        builtin_names.push(builtins[i].0.clone());
        proof {
            assert(builtin_names.deep_view() =~= builtins_names(bv).take(i + 1));
        }
        i = i + 1;
    }
    proof {
        assert(builtins_names(bv).take(builtins@.len() as int) =~= builtins_names(bv));
    }
    (intr0, builtin_names)
}

/// Gathers every global name the declarations reference, once each.
#[verifier::loop_isolation(false)]
fn gather_referenced(decls: &Vec<(String, Expr)>) -> (r: Vec<String>)
    ensures
        forall|x: Seq<char>|
            #![all_triggers]
            names_contain(r.deep_view(), x) <==> exists|j: int|
                0 <= j < decls@.len() && crate::flatanf::global_vars::expr_globals(
                    #[trigger] decls_view(decls@)[j].1,
                ).contains(x),
{
    let mut referenced: Vec<String> = Vec::new();
    proof {
        assert(referenced.deep_view() =~= Seq::<Seq<char>>::empty());
    }
    let mut k: usize = 0;
    while k < decls.len()
        invariant
            k <= decls@.len(),
            forall|x: Seq<char>|
                #![all_triggers]
                names_contain(referenced.deep_view(), x) <==> exists|j: int|
                    0 <= j < k && crate::flatanf::global_vars::expr_globals(
                        #[trigger] decls_view(decls@)[j].1,
                    ).contains(x),
        decreases decls@.len() - k,
    {
        proof {
            assert(decls_view(decls@)[k as int].1 == expr_view(decls@[k as int].1));
        }
        push_expr_globals(&decls[k].1, &mut referenced);
        k = k + 1;
    }
    referenced
}

/// Collects the referenced names that are neither initial globals nor
/// declared: the free variables the linker rejects.
#[verifier::loop_isolation(false)]
fn find_free(referenced: &Vec<String>, intr0: &Vec<String>, decls: &Vec<(String, Expr)>) -> (r:
    Vec<String>)
    ensures
        forall|j: int|
            0 <= j < r.deep_view().len() ==> (names_contain(
                referenced.deep_view(),
                #[trigger] r.deep_view()[j],
            ) && !names_contain(intr0.deep_view(), r.deep_view()[j]) && !names_contain(
                decl_names(decls_view(decls@)),
                r.deep_view()[j],
            )),
        forall|j: int|
            0 <= j < referenced@.len() ==> (names_contain(
                intr0.deep_view(),
                #[trigger] referenced.deep_view()[j],
            ) || names_contain(decl_names(decls_view(decls@)), referenced.deep_view()[j])
                || names_contain(r.deep_view(), referenced.deep_view()[j])),
{
    let mut free: Vec<String> = Vec::new();
    proof {
        assert(free.deep_view() =~= Seq::<Seq<char>>::empty());
    }
    let mut k: usize = 0;
    while k < referenced.len()
        invariant
            k <= referenced@.len(),
            forall|j: int|
                0 <= j < free.deep_view().len() ==> (names_contain(
                    referenced.deep_view(),
                    #[trigger] free.deep_view()[j],
                ) && !names_contain(intr0.deep_view(), free.deep_view()[j]) && !names_contain(
                    decl_names(decls_view(decls@)),
                    free.deep_view()[j],
                )),
            forall|j: int|
                0 <= j < k ==> (names_contain(
                    intr0.deep_view(),
                    #[trigger] referenced.deep_view()[j],
                ) || names_contain(decl_names(decls_view(decls@)), referenced.deep_view()[j])
                    || names_contain(free.deep_view(), referenced.deep_view()[j])),
        decreases referenced@.len() - k,
    {
        let name = &referenced[k];
        proof {
            assert(referenced.deep_view()[k as int] == name@);
        }
        let in_initial = crate::flatanf::global_vars::vec_contains_name(intr0, name.as_str());
        let in_decls = decls_contain_name(decls, name.as_str());
        if !in_initial && !in_decls {
            let ghost pre = free.deep_view();
            free.push(name.clone());
            proof {
                assert(free.deep_view() =~= pre.push(name@));
                assert(names_contain(free.deep_view(), name@)) by {
                    assert(free.deep_view()[pre.len() as int] == name@);
                }
                assert(names_contain(referenced.deep_view(), name@)) by {
                    assert(referenced.deep_view()[k as int] == name@);
                }
                assert(forall|j: int|
                    0 <= j < pre.len() ==> #[trigger] free.deep_view()[j] == pre[j]);
                assert forall|y: Seq<char>| names_contain(pre, y) implies names_contain(
                    free.deep_view(),
                    y,
                ) by {
                    let i = choose|i: int| 0 <= i < pre.len() && pre[i] == y;
                    assert(free.deep_view()[i] == y);
                }
            }
        }
        k = k + 1;
    }
    free
}

/// An element that satisfies the predicate is kept by the filter.
proof fn lemma_filter_keeps<A>(s: Seq<A>, pred: spec_fn(A) -> bool, x: A)
    requires
        s.contains(x),
        pred(x),
    ensures
        s.filter(pred).contains(x),
    decreases s.len(),
{
    reveal(vstd::seq::Seq::filter);
    if s.len() > 0 {
        if s.last() == x {
            assert(s.filter(pred).last() == x);
        } else {
            let i = choose|i: int| 0 <= i < s.len() && s[i] == x;
            assert(s.drop_last()[i] == x);
            lemma_filter_keeps(s.drop_last(), pred, x);
            let j = choose|j: int|
                0 <= j < s.drop_last().filter(pred).len() && s.drop_last().filter(pred)[j] == x;
            assert(s.filter(pred)[j] == x);
        }
    }
}

/// Keeps the initial globals that are actually referenced, in order.
#[verifier::loop_isolation(false)]
fn retained_intrinsics(intr0: &Vec<String>, referenced: &Vec<String>) -> (r: Vec<String>)
    ensures
        r.deep_view() == intr0.deep_view().filter(
            |x: Seq<char>| names_contain(referenced.deep_view(), x),
        ),
{
    let ghost intr0v = intr0.deep_view();
    let ghost refpred = |x: Seq<char>| names_contain(referenced.deep_view(), x);
    let mut intrinsics: Vec<String> = Vec::new();
    let mut k: usize = 0;
    proof {
        reveal(vstd::seq::Seq::filter);
        assert(intrinsics.deep_view() =~= intr0v.take(0).filter(refpred));
    }
    while k < intr0.len()
        invariant
            k <= intr0@.len(),
            intr0v.len() == intr0@.len(),
            intrinsics.deep_view() == intr0v.take(k as int).filter(refpred),
        decreases intr0@.len() - k,
    {
        proof {
            reveal(vstd::seq::Seq::filter);
            assert(intr0v.take(k + 1).drop_last() =~= intr0v.take(k as int));
            assert(intr0v.take(k + 1).last() == intr0v[k as int]);
            assert(intr0v[k as int] == intr0@[k as int]@);
        }
        let ghost pre = intrinsics.deep_view();
        if crate::flatanf::global_vars::vec_contains_name(referenced, intr0[k].as_str()) {
            intrinsics.push(intr0[k].clone());
            proof {
                assert(intrinsics.deep_view() =~= pre.push(intr0v[k as int]));
            }
        }
        k = k + 1;
    }
    proof {
        assert(intr0v.take(intr0@.len() as int) =~= intr0v);
    }
    intrinsics
}

/// Creates a program from a set of lowered modules and the registry of
/// built-in modules.
///
/// The modules are sorted topologically by import and compiled in that
/// order, each module's exports becoming visible to later modules. Every
/// local reference of the result is in scope, and the retained intrinsics
/// are exactly the built-in names that the declarations reference.
#[verifier::loop_isolation(false)]
#[verifier::rlimit(100)]
pub fn from_modules(mods: Vec<anf::Module>, builtins: &Vec<(String, Vec<String>)>) -> (r: Result<
    Program,
    ErrorKind,
>)
    ensures
        r matches Ok(p) ==> ({
            let bv = builtins_view(builtins@);
            let intr0 = crate::ast::dedup_first(builtins_flat(bv));
            &&& crate::sanity::program_locals_valid(p@)
            &&& exists|order: Seq<anf::ModuleV>|
                {
                    &&& order.to_multiset() == mods_view(mods@).to_multiset()
                    &&& topo_sorted(order, names_set(builtins_names(bv)))
                    &&& #[trigger] sc_modules(names_set(intr0), order) matches Ok((ds, _))
                        && p@.decls == ds
                }
            &&& p@.intrinsics == intr0.filter(
                |x: Seq<char>| crate::sanity::referenced_names(p@).contains(x),
            )
            &&& crate::sanity::referenced_names(p@).subset_of(
                crate::sanity::declared_names(p@),
            )
        }),
        r matches Err(k) ==> ({
            let bv = builtins_view(builtins@);
            let intr0 = crate::ast::dedup_first(builtins_flat(bv));
            let bset = names_set(builtins_names(bv));
            ||| (k matches ErrorKind::NonexistentModule(n) && has_missing_import(
                mods_view(mods@),
                bset,
                n@,
            ))
            ||| (k matches ErrorKind::DependencyLoopInModule(m) && (exists|
                sub: Seq<anf::ModuleV>,
            |
                locked_modules(mods_view(mods@), bset, sub) && names_contain(
                    mod_names(sub),
                    m@,
                )))
            ||| ((k is NoSuchVar || k is VarInLetrec || k is NonLambdaInLetrec
                || k is NonexistentImport || k is MissingExport || k is DuplicateLetrecName
                || k is DuplicateDeclName || k is IllegalDeclName) && (exists|order: Seq<anf::ModuleV>|
                {
                    &&& order.to_multiset() == mods_view(mods@).to_multiset()
                    &&& topo_sorted(order, bset)
                    &&& #[trigger] sc_modules(names_set(intr0), order) matches Err(se)
                        && mod_err_matches(k, se)
                }))
            ||| (k matches ErrorKind::FreeVars(vs) && vs@.len() > 0 && (exists|
                order: Seq<anf::ModuleV>,
            |
                {
                    &&& order.to_multiset() == mods_view(mods@).to_multiset()
                    &&& topo_sorted(order, bset)
                    &&& #[trigger] sc_modules(names_set(intr0), order) matches Ok((ds, _))
                        && !decls_refs_closed(intr0, ds)
                }))
        }),
        ({
            let bv = builtins_view(builtins@);
            let intr0 = crate::ast::dedup_first(builtins_flat(bv));
            let bset = names_set(builtins_names(bv));
            (!(exists|n: Seq<char>| has_missing_import(mods_view(mods@), bset, n)) && !(exists|
                sub: Seq<anf::ModuleV>,
            | locked_modules(mods_view(mods@), bset, sub)) && (forall|order: Seq<anf::ModuleV>|
                (order.to_multiset() == mods_view(mods@).to_multiset() && topo_sorted(
                    order,
                    bset,
                )) ==> (#[trigger] sc_modules(names_set(intr0), order) matches Ok((ds, _))
                    && decls_refs_closed(intr0, ds)))) ==> r is Ok
        }),
{
    broadcast use crate::flatanf::global_vars::lemma_names_contain_is_contains;

    let ghost bv = builtins_view(builtins@);

    // The initial global environment and the built-in module names.
    let (intr0, builtin_names) = builtin_globals(builtins);
    let ghost intr0v = intr0.deep_view();

    // Sort the modules topologically by import.
    let sorted = match toposort_mods(mods, &builtin_names) {
        Ok(sorted) => sorted,
        Err(k) => {
            return Err(k);
        },
    };

    // Compile each module in order, accumulating declarations and globals.
    let mut globals = crate::anf::clone_strings(&intr0);
    let mut decls: Vec<(String, Expr)> = Vec::new();
    let ghost sortedv = mods_view(sorted@);
    let ghost target = sc_modules(names_set(intr0v), sortedv);
    let mut i: usize = 0;
    proof {
        assert(sortedv.skip(0) =~= sortedv);
        assert(decls_view(decls@) =~= Seq::<(Seq<char>, ExprV)>::empty());
        match sc_modules(names_set(globals.deep_view()), sortedv.skip(0)) {
            Ok((rest, kf)) => {
                assert(decls_view(decls@) + rest =~= rest);
            },
            Err(_) => {},
        }
    }
    while i < sorted.len()
        invariant
            i <= sorted@.len(),
            sortedv.len() == sorted@.len(),
            ({
                let s = sc_modules(names_set(globals.deep_view()), sortedv.skip(i as int));
                &&& (s matches Ok((rest, kf)) ==> target matches Ok((tds, tkf)) && tds
                    == decls_view(decls@) + rest && tkf == kf)
                &&& (s is Err ==> target == s)
            }),
            forall|j: int|
                0 <= j < decls@.len() ==> crate::sanity::expr_locals_ok(
                    0,
                    #[trigger] decls_view(decls@)[j].1,
                ),
        decreases sorted@.len() - i,
    {
        proof {
            assert(sortedv.skip(i as int)[0] == sortedv[i as int]);
            assert(sortedv[i as int] == sorted@[i as int]@);
            assert(sortedv.skip(i as int).drop_first() =~= sortedv.skip(i + 1));
        }
        let (mut ds_m, mut exq) = match compile_module(&globals, &sorted[i]) {
            Ok(p) => p,
            Err(k) => {
                return Err(k);
            },
        };
        proof {
            lemma_sc_module_locals_ok(names_set(globals.deep_view()), sortedv[i as int]);
        }
        let ghost predecls = decls@;
        let ghost preglobals = globals.deep_view();
        let ghost dsv = decls_view(ds_m@);
        let ghost exqv = exq.deep_view();
        decls.append(&mut ds_m);
        globals.append(&mut exq);
        proof {
            assert(decls_view(decls@) =~= decls_view(predecls) + dsv);
            assert(globals.deep_view() =~= preglobals + exqv);
            assert(names_set(preglobals + exqv) =~= names_set(preglobals).union(
                names_set(exqv),
            )) by {
                assert forall|x: Seq<char>|
                    names_contain(preglobals + exqv, x) == (names_contain(preglobals, x)
                        || names_contain(exqv, x)) by {
                    if names_contain(preglobals + exqv, x) {
                        let ix = choose|ix: int|
                            0 <= ix < (preglobals + exqv).len() && (preglobals + exqv)[ix] == x;
                        if ix < preglobals.len() {
                            assert(preglobals[ix] == x);
                        } else {
                            assert(exqv[ix - preglobals.len()] == x);
                        }
                    }
                    if names_contain(preglobals, x) {
                        let ix = choose|ix: int| 0 <= ix < preglobals.len() && preglobals[ix] == x;
                        assert((preglobals + exqv)[ix] == x);
                    }
                    if names_contain(exqv, x) {
                        let ix = choose|ix: int| 0 <= ix < exqv.len() && exqv[ix] == x;
                        assert((preglobals + exqv)[preglobals.len() + ix] == x);
                    }
                }
            }
        }
        i = i + 1;
    }
    proof {
        assert(sortedv.skip(sorted@.len() as int) =~= Seq::<anf::ModuleV>::empty());
        match sc_modules(names_set(globals.deep_view()), Seq::<anf::ModuleV>::empty()) {
            Ok((rest, kf)) => {
                assert(decls_view(decls@) + rest =~= decls_view(decls@));
            },
            Err(_) => {},
        }
    }

    // The global names the program actually references.
    let referenced = gather_referenced(&decls);

    // Free-variable sanity: every referenced global must be an initial
    // global or a declared name.
    let free = find_free(&referenced, &intr0, &decls);
    if free.len() > 0 {
        proof {
            let bset = names_set(builtins_names(bv));
            let x = free.deep_view()[0];
            assert(names_contain(referenced.deep_view(), x));
            let j = choose|j: int|
                0 <= j < decls_view(decls@).len() && crate::flatanf::global_vars::expr_globals(
                    #[trigger] decls_view(decls@)[j].1,
                ).contains(x);
            assert(!decls_refs_closed(intr0v, decls_view(decls@))) by {
                assert(!(names_set(intr0v).union(names_set(decl_names(decls_view(decls@))))).contains(
                    x,
                ));
                assert(crate::flatanf::global_vars::expr_globals(
                    decls_view(decls@)[j].1,
                ).contains(x));
            }
            assert(sortedv.to_multiset() == mods_view(mods@).to_multiset());
        }
        return Err(ErrorKind::FreeVars(free));
    }

    let ghost p_decls = decls_view(decls@);
    let ghost refpred = |x: Seq<char>| names_contain(referenced.deep_view(), x);
    let intrinsics = retained_intrinsics(&intr0, &referenced);

    let p = Program { intrinsics, decls };
    proof {
        assert(p@.decls =~= p_decls);
        // Free-variable sanity: everything referenced is declared.
        assert(free@.len() == 0);
        assert forall|x: Seq<char>| crate::sanity::referenced_names(p@).contains(
            x,
        ) implies crate::sanity::declared_names(p@).contains(x) by {
            assert(names_contain(referenced.deep_view(), x));
            let j = choose|j: int|
                0 <= j < referenced.deep_view().len() && referenced.deep_view()[j] == x;
            assert(names_contain(intr0.deep_view(), x) || names_contain(
                decl_names(p_decls),
                x,
            ) || names_contain(free.deep_view(), x));
            if names_contain(decl_names(p_decls), x) {
                let i = choose|i: int|
                    0 <= i < decl_names(p_decls).len() && decl_names(p_decls)[i] == x;
                assert(p@.decls[i].0 == x);
            } else {
                assert(names_contain(intr0.deep_view(), x));
                assert(intr0.deep_view().contains(x));
                lemma_filter_keeps(
                    intr0.deep_view(),
                    |y: Seq<char>| names_contain(referenced.deep_view(), y),
                    x,
                );
                assert(intrinsics.deep_view().contains(x));
                assert(names_contain(p@.intrinsics, x));
            }
        }
        assert(crate::sanity::program_locals_valid(p@));
        let order = sortedv;
        assert(sc_modules(names_set(intr0v), order) matches Ok((ds, _)) && p@.decls == ds);
        assert(p@.intrinsics =~= intr0v.filter(refpred));
        assert(intr0v.filter(refpred) =~= intr0v.filter(
            |x: Seq<char>| crate::sanity::referenced_names(p@).contains(x),
        )) by {
            reveal(vstd::seq::Seq::filter);
            assert forall|x: Seq<char>| refpred(x) == crate::sanity::referenced_names(
                p@,
            ).contains(x) by {
                if names_contain(referenced.deep_view(), x) {
                    let j = choose|j: int|
                        0 <= j < p@.decls.len() && crate::flatanf::global_vars::expr_globals(
                            #[trigger] p@.decls[j].1,
                        ).contains(x);
                }
            }
            lemma_filter_congruence(
                intr0v,
                refpred,
                |x: Seq<char>| crate::sanity::referenced_names(p@).contains(x),
            );
        }
    }
    Ok(p)
}

/// Filtering by equivalent predicates yields the same sequence.
proof fn lemma_filter_congruence<A>(s: Seq<A>, p1: spec_fn(A) -> bool, p2: spec_fn(A) -> bool)
    requires
        forall|x: A| #[trigger] p1(x) == #[trigger] p2(x),
    ensures
        s.filter(p1) == s.filter(p2),
    decreases s.len(),
{
    reveal(vstd::seq::Seq::filter);
    if s.len() > 0 {
        lemma_filter_congruence(s.drop_last(), p1, p2);
    }
}

} // verus!
