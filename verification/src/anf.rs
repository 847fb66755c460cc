//! An intermediate form in A-Normal Form: every subexpression is atomic,
//! complex, a let, or a sequence.

use vstd::prelude::*;

use crate::ast;
use crate::ast::Attr;
use crate::literal::{lit_view, LitV, Literal};
use crate::util::dec_digits;

verus! {

/// A lowered module.
#[derive(Debug, PartialEq)]
pub struct Module {
    pub name: String,
    pub exports: Vec<String>,
    pub imports: Vec<(String, String)>,
    pub body: Vec<Decl>,
    pub attrs: Vec<Attr>,
}

/// A lowered declaration.
#[derive(Debug, PartialEq)]
pub enum Decl {
    Def(String, Expr),
    Defn(String, Vec<String>, Expr),
}

/// The root expression type, which may perform arbitrary continuation stack
/// manipulation.
#[derive(Debug, PartialEq)]
pub enum Expr {
    AExpr(AExpr),
    CExpr(CExpr),
    Let(String, Box<Expr>, Box<Expr>),
    Sequence(Box<Expr>, Box<Expr>),
}

/// A "complex" expression, which may replace the current continuation and
/// have side effects, but may not (net) push to or pop from the continuation
/// stack.
#[derive(Debug, PartialEq)]
pub enum CExpr {
    Call(AExpr, Vec<AExpr>),
    If(AExpr, Box<Expr>, Box<Expr>),
    LetRec(Vec<(String, AExpr)>, Box<Expr>),
}

/// An atomic expression, which must immediately evaluate to a value without
/// side effects.
#[derive(Debug, PartialEq)]
pub enum AExpr {
    Lambda(Option<String>, Vec<String>, Box<Expr>),
    Literal(Literal),
    Var(String),
    Vector(Vec<AExpr>),
}

/// The mathematical model of a lowered module.
#[verifier::ext_equal]
pub struct ModuleV {
    pub name: Seq<char>,
    pub exports: Seq<Seq<char>>,
    pub imports: Seq<(Seq<char>, Seq<char>)>,
    pub body: Seq<DeclV>,
    pub attrs: Seq<Attr>,
}

/// The mathematical model of a lowered declaration.
#[verifier::ext_equal]
pub enum DeclV {
    Def(Seq<char>, ExprV),
    Defn(Seq<char>, Seq<Seq<char>>, ExprV),
}

/// The mathematical model of a lowered expression.
#[verifier::ext_equal]
pub enum ExprV {
    AExpr(AExprV),
    CExpr(CExprV),
    Let(Seq<char>, Box<ExprV>, Box<ExprV>),
    Sequence(Box<ExprV>, Box<ExprV>),
}

/// The mathematical model of a complex expression.
#[verifier::ext_equal]
pub enum CExprV {
    Call(AExprV, Seq<AExprV>),
    If(AExprV, Box<ExprV>, Box<ExprV>),
    LetRec(Seq<(Seq<char>, AExprV)>, Box<ExprV>),
}

/// The mathematical model of an atomic expression.
#[verifier::ext_equal]
pub enum AExprV {
    Lambda(Option<Seq<char>>, Seq<Seq<char>>, Box<ExprV>),
    Literal(LitV),
    Var(Seq<char>),
    Vector(Seq<AExprV>),
}

/// The model of a lowered expression.
pub open spec fn expr_view(e: Expr) -> ExprV
    decreases e, 3int,
{
    match e {
        Expr::AExpr(a) => ExprV::AExpr(aexpr_view(a)),
        Expr::CExpr(c) => ExprV::CExpr(cexpr_view(c)),
        Expr::Let(n, bound, body) => ExprV::Let(
            n@,
            Box::new(expr_view(*bound)),
            Box::new(expr_view(*body)),
        ),
        Expr::Sequence(a, b) => ExprV::Sequence(Box::new(expr_view(*a)), Box::new(expr_view(*b))),
    }
}

/// The model of a complex expression.
pub open spec fn cexpr_view(c: CExpr) -> CExprV
    decreases c, 3int,
{
    match c {
        CExpr::Call(f, args) => CExprV::Call(aexpr_view(f), aexprs_view(args@)),
        CExpr::If(cond, t, e) => CExprV::If(
            aexpr_view(cond),
            Box::new(expr_view(*t)),
            Box::new(expr_view(*e)),
        ),
        CExpr::LetRec(lambdas, body) => CExprV::LetRec(
            letrec_view(lambdas@),
            Box::new(expr_view(*body)),
        ),
    }
}

/// The model of an atomic expression.
pub open spec fn aexpr_view(a: AExpr) -> AExprV
    decreases a, 3int,
{
    match a {
        AExpr::Lambda(name, params, body) => AExprV::Lambda(
            match name {
                Some(n) => Some(n@),
                None => None,
            },
            params.deep_view(),
            Box::new(expr_view(*body)),
        ),
        AExpr::Literal(l) => AExprV::Literal(lit_view(l)),
        AExpr::Var(s) => AExprV::Var(s@),
        AExpr::Vector(es) => AExprV::Vector(aexprs_view(es@)),
    }
}

/// The models of a sequence of atomic expressions.
pub open spec fn aexprs_view(s: Seq<AExpr>) -> Seq<AExprV>
    decreases s, 0int,
{
    if s.len() == 0 {
        Seq::empty()
    } else {
        aexprs_view(s.drop_last()).push(aexpr_view(s.last()))
    }
}

/// The models of a sequence of letrec bindings.
pub open spec fn letrec_view(s: Seq<(String, AExpr)>) -> Seq<(Seq<char>, AExprV)>
    decreases s, 0int,
{
    if s.len() == 0 {
        Seq::empty()
    } else {
        letrec_view(s.drop_last()).push((s.last().0@, aexpr_view(s.last().1)))
    }
}

/// The models of a sequence of lowered declarations.
pub open spec fn decls_view(s: Seq<Decl>) -> Seq<DeclV>
    decreases s,
{
    if s.len() == 0 {
        Seq::empty()
    } else {
        decls_view(s.drop_last()).push(decl_view(s.last()))
    }
}

/// The model of a lowered declaration.
pub open spec fn decl_view(d: Decl) -> DeclV
    decreases d,
{
    match d {
        Decl::Def(name, e) => DeclV::Def(name@, expr_view(e)),
        Decl::Defn(name, params, body) => DeclV::Defn(name@, params.deep_view(), expr_view(body)),
    }
}

impl View for Expr {
    type V = ExprV;

    open spec fn view(&self) -> ExprV {
        expr_view(*self)
    }
}

impl View for CExpr {
    type V = CExprV;

    open spec fn view(&self) -> CExprV {
        cexpr_view(*self)
    }
}

impl View for AExpr {
    type V = AExprV;

    open spec fn view(&self) -> AExprV {
        aexpr_view(*self)
    }
}

impl View for Decl {
    type V = DeclV;

    open spec fn view(&self) -> DeclV {
        decl_view(*self)
    }
}

impl View for Module {
    type V = ModuleV;

    open spec fn view(&self) -> ModuleV {
        ModuleV {
            name: self.name@,
            exports: self.exports.deep_view(),
            imports: Seq::new(
                self.imports@.len(),
                |i: int| (self.imports@[i].0@, self.imports@[i].1@),
            ),
            body: decls_view(self.body@),
            attrs: self.attrs@,
        }
    }
}

/// The atomic-expression model sequence indexes to the models of the
/// elements.
pub broadcast proof fn lemma_aexprs_view_index(s: Seq<AExpr>)
    ensures
        (#[trigger] aexprs_view(s)).len() == s.len(),
        forall|i: int| 0 <= i < s.len() ==> aexprs_view(s)[i] == aexpr_view(s[i]),
    decreases s.len(),
{
    if s.len() > 0 {
        lemma_aexprs_view_index(s.drop_last());
    }
}

/// The letrec-binding model sequence indexes to the models of the elements.
pub broadcast proof fn lemma_letrec_view_index(s: Seq<(String, AExpr)>)
    ensures
        (#[trigger] letrec_view(s)).len() == s.len(),
        forall|i: int| 0 <= i < s.len() ==> letrec_view(s)[i] == (s[i].0@, aexpr_view(s[i].1)),
    decreases s.len(),
{
    if s.len() > 0 {
        lemma_letrec_view_index(s.drop_last());
    }
}

/// The lowered-declaration model sequence indexes to the models of the
/// elements.
pub broadcast proof fn lemma_anf_decls_view_index(s: Seq<Decl>)
    ensures
        (#[trigger] decls_view(s)).len() == s.len(),
        forall|i: int| 0 <= i < s.len() ==> decls_view(s)[i] == decl_view(s[i]),
    decreases s.len(),
{
    if s.len() > 0 {
        lemma_anf_decls_view_index(s.drop_last());
    }
}

impl Decl {
    /// Returns the name of the decl.
    pub fn name(&self) -> (r: String)
        ensures
            r@ == anf_decl_name(self@),
    {
        match self {
            Decl::Def(name, _) => name.clone(),
            Decl::Defn(name, _, _) => name.clone(),
        }
    }
}

/// The name of a lowered declaration model.
pub open spec fn anf_decl_name(d: DeclV) -> Seq<char> {
    match d {
        DeclV::Def(name, _) => name,
        DeclV::Defn(name, _, _) => name,
    }
}

/// The name that the fresh-name generator yields for counter value `n`.
pub open spec fn gensym_name(n: u64) -> Seq<char> {
    "gensym@"@ + dec_digits(n as nat)
}

/// The counter value after one fresh name is drawn; it saturates at the
/// maximum, which a single compilation cannot reach.
pub open spec fn bump(n: u64) -> u64 {
    if n < u64::MAX {
        (n + 1) as u64
    } else {
        n
    }
}

/// The monotonic counter behind the fresh-name generator. Fresh names use
/// the character `@`, which user identifiers cannot contain.
#[derive(Debug, PartialEq)]
pub struct Gensym {
    pub counter: u64,
}

impl Gensym {
    /// Creates a generator starting at zero.
    pub fn new() -> (r: Gensym)
        ensures
            r.counter == 0,
    {
        Gensym { counter: 0 }
    }

    /// Generates a new symbol of the form `gensym@N`.
    pub fn gensym(&mut self) -> (r: String)
        ensures
            r@ == gensym_name(old(self).counter),
            final(self).counter == bump(old(self).counter),
    {
        let mut out: Vec<char> = Vec::new();
        out.push('g');
        out.push('e');
        out.push('n');
        out.push('s');
        out.push('y');
        out.push('m');
        out.push('@');
        crate::util::push_u64_dec(&mut out, self.counter);
        proof {
            crate::util::lemma_gensym_prefix();
            assert(out@ =~= "gensym@"@ + dec_digits(self.counter as nat));
        }
        if self.counter < u64::MAX {
            self.counter = self.counter + 1;
        }
        crate::util::chars_to_string(out)
    }
}


/// Wraps pending mutually-recursive lambdas around an expression, if any.
pub open spec fn save_lambdas(anf: ExprV, lambdas: Seq<(Seq<char>, AExprV)>) -> ExprV {
    if lambdas.len() == 0 {
        anf
    } else {
        ExprV::CExpr(CExprV::LetRec(lambdas, Box::new(anf)))
    }
}

/// Wraps the let-bindings collected in a context around an expression, the
/// earliest binding outermost.
pub open spec fn spec_apply_context(e: ExprV, ctx: Seq<(Seq<char>, ExprV)>) -> ExprV
    decreases ctx.len(),
{
    if ctx.len() == 0 {
        e
    } else {
        spec_apply_context(
            ExprV::Let(ctx.last().0, Box::new(ctx.last().1), Box::new(e)),
            ctx.drop_last(),
        )
    }
}

/// Lowers an AST expression, threading the fresh-name counter.
///
/// Calls, conditionals and vectors name their non-atomic parts in
/// let-bindings; a `def` in tail position keeps only its effect; a `defn` in
/// tail position is nil.
pub open spec fn spec_convert_expr(e: ast::ExprV, ctr: u64) -> (ExprV, u64)
    decreases e, 3int,
{
    match e {
        ast::ExprV::Call(f, args) => {
            let (fa, ctx1, c1) = spec_into_aexpr(*f, Seq::empty(), ctr);
            let (argsa, ctx2, c2) = spec_convert_args(args, ctx1, c1);
            (spec_apply_context(ExprV::CExpr(CExprV::Call(fa, argsa)), ctx2), c2)
        },
        ast::ExprV::Decl(d) => match *d {
            ast::DeclV::Def(_, de) => {
                let (ev, c1) = spec_convert_expr(de, ctr);
                (
                    ExprV::Sequence(
                        Box::new(ev),
                        Box::new(ExprV::AExpr(AExprV::Literal(LitV::Nil))),
                    ),
                    c1,
                )
            },
            ast::DeclV::Defn(_, _, _, _) => (ExprV::AExpr(AExprV::Literal(LitV::Nil)), ctr),
        },
        ast::ExprV::If(c, t, e2) => {
            let (ca, ctx1, c1) = spec_into_aexpr(*c, Seq::empty(), ctr);
            let (tv, c2) = spec_convert_expr(*t, c1);
            let (ev, c3) = spec_convert_expr(*e2, c2);
            (
                spec_apply_context(
                    ExprV::CExpr(CExprV::If(ca, Box::new(tv), Box::new(ev))),
                    ctx1,
                ),
                c3,
            )
        },
        ast::ExprV::Lambda(name, params, body, tail) => {
            let (tv, c1) = spec_convert_expr(*tail, ctr);
            let (bv, c2) = spec_block_fold(body, tv, Seq::empty(), c1);
            (ExprV::AExpr(AExprV::Lambda(name, params, Box::new(bv))), c2)
        },
        ast::ExprV::Literal(l) => (ExprV::AExpr(AExprV::Literal(l)), ctr),
        ast::ExprV::Progn(body, tail) => {
            let (tv, c1) = spec_convert_expr(*tail, ctr);
            spec_block_fold(body, tv, Seq::empty(), c1)
        },
        ast::ExprV::Var(n) => (ExprV::AExpr(AExprV::Var(n)), ctr),
        ast::ExprV::Vector(es) => {
            let (esa, ctx1, c1) = spec_convert_args(es, Seq::empty(), ctr);
            (spec_apply_context(ExprV::AExpr(AExprV::Vector(esa)), ctx1), c1)
        },
    }
}

/// Lowers the statements of a block, walking them in reverse while growing
/// the result; contiguous `defn` statements batch into one `LetRec`.
pub open spec fn spec_block_fold(
    body: Seq<ast::ExprV>,
    anf: ExprV,
    lambdas: Seq<(Seq<char>, AExprV)>,
    ctr: u64,
) -> (ExprV, u64)
    decreases body, 2int,
{
    if body.len() == 0 {
        (save_lambdas(anf, lambdas), ctr)
    } else {
        let stmt = body.last();
        match stmt {
            ast::ExprV::Decl(d) => match *d {
                ast::DeclV::Def(name, de) => {
                    let anf1 = save_lambdas(anf, lambdas);
                    let (ev, c1) = spec_convert_expr(de, ctr);
                    spec_block_fold(
                        body.drop_last(),
                        ExprV::Let(name, Box::new(ev), Box::new(anf1)),
                        Seq::empty(),
                        c1,
                    )
                },
                ast::DeclV::Defn(name, params, dbody, dtail) => {
                    let (tv, c1) = spec_convert_expr(*dtail, ctr);
                    let (bv, c2) = spec_block_fold(dbody, tv, Seq::empty(), c1);
                    spec_block_fold(
                        body.drop_last(),
                        anf,
                        lambdas.push((name, AExprV::Lambda(None, params, Box::new(bv)))),
                        c2,
                    )
                },
            },
            _ => {
                let anf1 = save_lambdas(anf, lambdas);
                let (ev, c1) = spec_convert_expr(stmt, ctr);
                spec_block_fold(
                    body.drop_last(),
                    ExprV::Sequence(Box::new(ev), Box::new(anf1)),
                    Seq::empty(),
                    c1,
                )
            },
        }
    }
}

/// Lowers an AST expression directly to an atomic expression where that is
/// possible: literals, variables, and lambdas.
pub open spec fn spec_convert_aexpr_opt(e: ast::ExprV, ctr: u64) -> Option<(AExprV, u64)>
    decreases e, 2int,
{
    match e {
        ast::ExprV::Lambda(name, params, body, tail) => {
            let (tv, c1) = spec_convert_expr(*tail, ctr);
            let (bv, c2) = spec_block_fold(body, tv, Seq::empty(), c1);
            Some((AExprV::Lambda(name, params, Box::new(bv)), c2))
        },
        ast::ExprV::Literal(l) => Some((AExprV::Literal(l), ctr)),
        ast::ExprV::Var(n) => Some((AExprV::Var(n), ctr)),
        _ => None,
    }
}

/// Coerces an AST expression to an atomic expression, binding it to a fresh
/// name in the context when it is not atomic.
pub open spec fn spec_into_aexpr(e: ast::ExprV, ctx: Seq<(Seq<char>, ExprV)>, ctr: u64) -> (
    AExprV,
    Seq<(Seq<char>, ExprV)>,
    u64,
)
    decreases e, 4int,
{
    match spec_convert_aexpr_opt(e, ctr) {
        Some((a, c1)) => (a, ctx, c1),
        None => {
            let name = gensym_name(ctr);
            let (anf, c2) = spec_convert_expr(e, bump(ctr));
            (AExprV::Var(name), ctx.push((name, anf)), c2)
        },
    }
}

/// Coerces each of a sequence of AST expressions to an atomic expression,
/// left to right, sharing one context.
pub open spec fn spec_convert_args(
    es: Seq<ast::ExprV>,
    ctx: Seq<(Seq<char>, ExprV)>,
    ctr: u64,
) -> (Seq<AExprV>, Seq<(Seq<char>, ExprV)>, u64)
    decreases es, 5int,
{
    if es.len() == 0 {
        (Seq::empty(), ctx, ctr)
    } else {
        let (a, ctx1, c1) = spec_into_aexpr(es[0], ctx, ctr);
        let (rest, ctx2, c2) = spec_convert_args(es.drop_first(), ctx1, c1);
        (seq![a] + rest, ctx2, c2)
    }
}

/// Lowers an AST declaration.
pub open spec fn spec_convert_decl(d: ast::DeclV, ctr: u64) -> (DeclV, u64)
    decreases d,
{
    match d {
        ast::DeclV::Def(name, e) => {
            let (ev, c1) = spec_convert_expr(e, ctr);
            (DeclV::Def(name, ev), c1)
        },
        ast::DeclV::Defn(name, params, body, tail) => {
            let (tv, c1) = spec_convert_expr(*tail, ctr);
            let (bv, c2) = spec_block_fold(body, tv, Seq::empty(), c1);
            (DeclV::Defn(name, params, bv), c2)
        },
    }
}

/// Lowers a sequence of AST declarations, left to right.
pub open spec fn spec_convert_decls(ds: Seq<ast::DeclV>, ctr: u64) -> (Seq<DeclV>, u64)
    decreases ds,
{
    if ds.len() == 0 {
        (Seq::empty(), ctr)
    } else {
        let (d, c1) = spec_convert_decl(ds[0], ctr);
        let (rest, c2) = spec_convert_decls(ds.drop_first(), c1);
        (seq![d] + rest, c2)
    }
}

/// The lowering of a whole module: each declaration lowered in order, the
/// rest carried over unchanged.
pub open spec fn spec_convert_module(m: ast::ModuleV, ctr: u64) -> (ModuleV, u64) {
    let (body, c1) = spec_convert_decls(m.body, ctr);
    (
        ModuleV {
            name: m.name,
            exports: m.exports,
            imports: m.imports,
            body: body,
            attrs: m.attrs,
        },
        c1,
    )
}


/// The models of a context of pending let-bindings.
pub open spec fn ctx_view(s: Seq<(String, Expr)>) -> Seq<(Seq<char>, ExprV)> {
    Seq::new(s.len(), |i: int| (s[i].0@, expr_view(s[i].1)))
}

/// Copies a vector of strings.
pub fn clone_strings(v: &Vec<String>) -> (r: Vec<String>)
    ensures
        r.deep_view() == v.deep_view(),
        r@.len() == v@.len(),
{
    let mut out: Vec<String> = Vec::new();
    let mut i: usize = 0;
    #[verifier::loop_isolation(false)]
    while i < v.len()
        invariant
            i <= v@.len(),
            out@.len() == i,
            forall|j: int| 0 <= j < i ==> #[trigger] out@[j]@ == v@[j]@,
        decreases v@.len() - i,
    {
        let e = v[i].clone();
        out.push(e);
        i = i + 1;
    }
    proof {
        assert(out.deep_view() =~= v.deep_view());
    }
    out
}

/// Wraps the collected let-bindings around an expression, the earliest
/// binding outermost.
pub fn apply_context(e: Expr, ctx: Vec<(String, Expr)>) -> (r: Expr)
    ensures
        r@ == spec_apply_context(e@, ctx_view(ctx@)),
{
    let ghost e0 = e@;
    let ghost ctx0 = ctx_view(ctx@);
    let mut expr = e;
    let mut ctx = ctx;
    #[verifier::loop_isolation(false)]
    while ctx.len() > 0
        invariant
            spec_apply_context(expr@, ctx_view(ctx@)) == spec_apply_context(e0, ctx0),
        decreases ctx@.len(),
    {
        let ghost pre = ctx@;
        let (name, bound) = ctx.pop().unwrap();
        proof {
            assert(ctx_view(pre).drop_last() =~= ctx_view(ctx@));
            assert(ctx_view(pre).last() == (name@, bound@));
        }
        expr = Expr::Let(name, Box::new(bound), Box::new(expr));
    }
    expr
}

/// Lowers an AST expression to an atomic expression where that is directly
/// possible.
pub fn convert_aexpr_opt(e: &ast::Expr, gen: &mut Gensym) -> (r: Option<AExpr>)
    ensures
        r is Some <==> spec_convert_aexpr_opt(e@, old(gen).counter) is Some,
        r matches Some(a) ==> Some((a@, final(gen).counter)) == spec_convert_aexpr_opt(
            e@,
            old(gen).counter,
        ),
        r is None ==> *final(gen) == *old(gen),
    decreases e, 2int,
{
    proof {
        reveal_with_fuel(expr_view, 3);
        reveal_with_fuel(aexpr_view, 3);
    }
    match e {
        ast::Expr::Lambda(name, params, body, tail) => {
            proof {
                assert(decreases_to!(*e => e->Lambda_3));
                assert(decreases_to!(*e => e->Lambda_2));
                assert(*e@->Lambda_3 == ast::expr_view(**tail));
                assert(e@->Lambda_2 == ast::exprs_view(body@));
                assert(e@->Lambda_1 == params.deep_view());
            }
            let tv = convert_expr(tail, gen);
            let bv = fold_block(body, tv, gen);
            let n2 = match name {
                Some(n) => Some(n.clone()),
                None => None,
            };
            Some(AExpr::Lambda(n2, clone_strings(params), Box::new(bv)))
        },
        ast::Expr::Literal(l) => {
            proof {
                assert(e@->Literal_0 == crate::literal::lit_view(*l));
            }
            Some(AExpr::Literal(l.duplicate()))
        },
        ast::Expr::Var(n) => Some(AExpr::Var(n.clone())),
        _ => None,
    }
}

/// Coerces an AST expression to an atomic expression, binding it to a fresh
/// name in the context when it is not atomic.
pub fn into_aexpr(e: &ast::Expr, ctx: &mut Vec<(String, Expr)>, gen: &mut Gensym) -> (r: AExpr)
    ensures
        (r@, ctx_view(final(ctx)@), final(gen).counter) == spec_into_aexpr(
            e@,
            ctx_view(old(ctx)@),
            old(gen).counter,
        ),
    decreases e, 4int,
{
    proof {
        reveal_with_fuel(expr_view, 3);
        reveal_with_fuel(aexpr_view, 3);
    }
    match convert_aexpr_opt(e, gen) {
        Some(a) => {
            proof {
                assert(ctx_view(ctx@) =~= spec_into_aexpr(
                    e@,
                    ctx_view(old(ctx)@),
                    old(gen).counter,
                ).1);
            }
            a
        },
        None => {
            let sym = gen.gensym();
            let anf = convert_expr(e, gen);
            let ghost pre = ctx@;
            ctx.push((sym.clone(), anf));
            proof {
                assert(ctx_view(ctx@) =~= ctx_view(pre).push((sym@, anf@)));
            }
            AExpr::Var(sym)
        },
    }
}

/// Coerces each expression to an atomic expression, left to right, sharing
/// one context.
pub fn convert_args(es: &Vec<ast::Expr>, ctx: &mut Vec<(String, Expr)>, gen: &mut Gensym) -> (r:
    Vec<AExpr>)
    ensures
        (aexprs_view(r@), ctx_view(final(ctx)@), final(gen).counter) == spec_convert_args(
            ast::exprs_view(es@),
            ctx_view(old(ctx)@),
            old(gen).counter,
        ),
    decreases es, 5int,
{
    broadcast use ast::lemma_exprs_view_index;

    let ghost ev = ast::exprs_view(es@);
    let ghost tgt = spec_convert_args(ev, ctx_view(old(ctx)@), old(gen).counter);
    let mut out: Vec<AExpr> = Vec::new();
    let mut j: usize = 0;
    proof {
        assert(ev.skip(0) =~= ev);
        assert(aexprs_view(out@) + tgt.0 =~= tgt.0);
    }
    #[verifier::loop_isolation(false)]
    while j < es.len()
        invariant
            j <= es@.len(),
            ({
                let (rest, ctxf, cf) = spec_convert_args(ev.skip(j as int), ctx_view(ctx@), gen.counter);
                &&& aexprs_view(out@) + rest == tgt.0
                &&& ctxf == tgt.1
                &&& cf == tgt.2
            }),
        decreases es@.len() - j,
    {
        proof {
            assert(decreases_to!(*es => es@[j as int]));
            assert(ev.skip(j as int)[0] == ev[j as int]);
            assert(ev[j as int] == es@[j as int]@);
            assert(ev.skip(j as int).drop_first() =~= ev.skip(j + 1));
        }
        let ghost pre_out = out@;
        let a = into_aexpr(&es[j], ctx, gen);
        out.push(a);
        proof {
            assert(out@.drop_last() =~= pre_out);
            assert(aexprs_view(out@).drop_last() =~= aexprs_view(pre_out));
            assert(aexprs_view(out@) =~= aexprs_view(pre_out).push(a@));
            let (rest, ctxf, cf) = spec_convert_args(ev.skip(j + 1), ctx_view(ctx@), gen.counter);
            assert(aexprs_view(out@) + rest =~= aexprs_view(pre_out) + (seq![a@] + rest));
        }
        j = j + 1;
    }
    proof {
        assert(ev.skip(es@.len() as int) =~= Seq::<ast::ExprV>::empty());
        assert(aexprs_view(out@) + Seq::<AExprV>::empty() =~= aexprs_view(out@));
    }
    out
}

/// Wraps pending mutually-recursive lambdas around an expression, if any.
pub fn flush_lambdas(anf: Expr, lambdas: Vec<(String, AExpr)>) -> (r: Expr)
    ensures
        r@ == save_lambdas(anf@, letrec_view(lambdas@)),
{
    let ghost end_anf = anf@;
    let ghost end_lv = letrec_view(lambdas@);
    if lambdas.len() > 0 {
        let r = Expr::CExpr(CExpr::LetRec(lambdas, Box::new(anf)));
        proof {
            reveal_with_fuel(expr_view, 2);
            reveal_with_fuel(cexpr_view, 2);
            assert(r@ == ExprV::CExpr(CExprV::LetRec(end_lv, Box::new(end_anf))));
            assert(save_lambdas(end_anf, end_lv) == ExprV::CExpr(
                CExprV::LetRec(end_lv, Box::new(end_anf)),
            ));
        }
        r
    } else {
        proof {
            assert(end_lv.len() == 0);
        }
        anf
    }
}

/// Lowers the statements of a block around an already-lowered tail, walking
/// them in reverse; contiguous `defn` statements batch into one `LetRec`.
pub fn fold_block(body: &Vec<ast::Expr>, tail_anf: Expr, gen: &mut Gensym) -> (r: Expr)
    ensures
        (r@, final(gen).counter) == spec_block_fold(
            ast::exprs_view(body@),
            tail_anf@,
            Seq::empty(),
            old(gen).counter,
        ),
    decreases body, 2int,
{
    broadcast use ast::lemma_exprs_view_index;

    let ghost bv = ast::exprs_view(body@);
    let ghost tgt = spec_block_fold(bv, tail_anf@, Seq::empty(), old(gen).counter);
    let mut anf = tail_anf;
    let mut lambdas: Vec<(String, AExpr)> = Vec::new();
    let mut i: usize = body.len();
    proof {
        assert(bv.take(body@.len() as int) =~= bv);
        assert(letrec_view(lambdas@) =~= Seq::<(Seq<char>, AExprV)>::empty());
    }
    #[verifier::loop_isolation(false)]
    while i > 0
        invariant
            i <= body@.len(),
            spec_block_fold(bv.take(i as int), anf@, letrec_view(lambdas@), gen.counter) == tgt,
        decreases i,
    {
        proof {
            assert(decreases_to!(*body => body@[i - 1]));
            assert(bv.take(i as int).last() == bv[i - 1]);
            assert(bv.take(i as int).drop_last() =~= bv.take(i - 1));
            assert(bv[i - 1] == body@[i - 1]@);
        }
        let ghost pre_lambdas = lambdas@;
        let ghost inv_anf = anf@;
        let ghost inv_lv = letrec_view(lambdas@);
        let ghost inv_ctr = gen.counter;
        match &body[i - 1] {
            ast::Expr::Decl(d) => {
                proof {
                    assert(**d == body@[i - 1]->Decl_0);
                    assert(*body@[i - 1]@->Decl_0 == ast::decl_view(**d));
                }
                match &**d {
                    ast::Decl::Def(name, de) => {
                        proof {
                            assert((**d)@->Def_1 == ast::expr_view((**d)->Def_1));
                            assert((**d)->Def_1 == *de);
                        }
                        let tmp = lambdas;
                        lambdas = Vec::new();
                        anf = flush_lambdas(anf, tmp);
                        proof {
                            assert(letrec_view(lambdas@) =~= Seq::<(Seq<char>, AExprV)>::empty());
                            assert(anf@ == save_lambdas(inv_anf, inv_lv));
                            assert(decreases_to!(*body => (**d)->Def_1));
                        }
                        let ev = convert_expr(de, gen);
                        anf = Expr::Let(name.clone(), Box::new(ev), Box::new(anf));
                        proof {
                            assert(spec_block_fold(bv.take(i as int), inv_anf, inv_lv, inv_ctr)
                                == spec_block_fold(
                                bv.take(i - 1),
                                anf@,
                                letrec_view(lambdas@),
                                gen.counter,
                            ));
                        }
                    },
                    ast::Decl::Defn(name, params, dbody, dtail) => {
                        proof {
                            assert(decreases_to!(*body => (**d)->Defn_3));
                            assert(decreases_to!(*body => (**d)->Defn_2));
                            assert((**d)@->Defn_3 == Box::new(ast::expr_view(*dtail)));
                            assert((**d)@->Defn_2 == ast::exprs_view(dbody@));
                            assert((**d)@->Defn_1 == params.deep_view());
                        }
                        let tv = convert_expr(dtail, gen);
                        let bvv = fold_block(dbody, tv, gen);
                        let lam = AExpr::Lambda(None, clone_strings(params), Box::new(bvv));
                        lambdas.push((name.clone(), lam));
                        proof {
                            assert(lambdas@.drop_last() =~= pre_lambdas);
                            assert(letrec_view(lambdas@).drop_last() =~= letrec_view(
                                pre_lambdas,
                            ));
                            assert(letrec_view(lambdas@) =~= letrec_view(pre_lambdas).push(
                                (name@, aexpr_view(lambdas@.last().1)),
                            ));
                            assert(aexpr_view(lambdas@.last().1) == AExprV::Lambda(
                                None,
                                params.deep_view(),
                                Box::new(bvv@),
                            ));
                            assert(spec_block_fold(bv.take(i as int), inv_anf, inv_lv, inv_ctr)
                                == spec_block_fold(
                                bv.take(i - 1),
                                anf@,
                                letrec_view(lambdas@),
                                gen.counter,
                            ));
                        }
                    },
                }
            },
            stmt => {
                let tmp = lambdas;
                lambdas = Vec::new();
                anf = flush_lambdas(anf, tmp);
                proof {
                    assert(letrec_view(lambdas@) =~= Seq::<(Seq<char>, AExprV)>::empty());
                    assert(anf@ == save_lambdas(inv_anf, inv_lv));
                }
                let ev = convert_expr(stmt, gen);
                anf = Expr::Sequence(Box::new(ev), Box::new(anf));
                proof {
                    assert(spec_block_fold(bv.take(i as int), inv_anf, inv_lv, inv_ctr)
                        == spec_block_fold(
                        bv.take(i - 1),
                        anf@,
                        letrec_view(lambdas@),
                        gen.counter,
                    ));
                }
            },
        }
        i = i - 1;
    }
    proof {
        assert(bv.take(0) =~= Seq::<ast::ExprV>::empty());
    }
    let ghost end_anf = anf@;
    let ghost end_lv = letrec_view(lambdas@);
    let anf = flush_lambdas(anf, lambdas);
    proof {
        assert(anf@ == save_lambdas(end_anf, end_lv));
    }
    anf
}

/// Lowers an AST expression into A-Normal Form.
pub fn convert_expr(e: &ast::Expr, gen: &mut Gensym) -> (r: Expr)
    ensures
        (r@, final(gen).counter) == spec_convert_expr(e@, old(gen).counter),
    decreases e, 3int,
{
    proof {
        reveal_with_fuel(expr_view, 3);
        reveal_with_fuel(cexpr_view, 3);
        reveal_with_fuel(aexpr_view, 3);
    }
    match e {
        ast::Expr::Call(f, args) => {
            proof {
                assert(decreases_to!(*e => e->Call_0));
                assert(decreases_to!(*e => e->Call_1));
                assert(*e@->Call_0 == ast::expr_view(**f));
                assert(e@->Call_1 == ast::exprs_view(args@));
            }
            let mut ctx: Vec<(String, Expr)> = Vec::new();
            proof {
                assert(ctx_view(ctx@) =~= Seq::<(Seq<char>, ExprV)>::empty());
            }
            let fa = into_aexpr(f, &mut ctx, gen);
            let argsa = convert_args(args, &mut ctx, gen);
            apply_context(Expr::CExpr(CExpr::Call(fa, argsa)), ctx)
        },
        ast::Expr::Decl(d) => {
            proof {
                assert(**d == e->Decl_0);
                assert(*e@->Decl_0 == ast::decl_view(**d));
            }
            match &**d {
                ast::Decl::Def(_, de) => {
                    proof {
                        assert(decreases_to!(*e => (**d)->Def_1));
                    }
                    let ev = convert_expr(de, gen);
                    Expr::Sequence(
                        Box::new(ev),
                        Box::new(Expr::AExpr(AExpr::Literal(Literal::Nil))),
                    )
                },
                ast::Decl::Defn(_, _, _, _) => Expr::AExpr(AExpr::Literal(Literal::Nil)),
            }
        },
        ast::Expr::If(c, t, e2) => {
            proof {
                assert(*e@->If_0 == ast::expr_view(**c));
                assert(*e@->If_1 == ast::expr_view(**t));
                assert(*e@->If_2 == ast::expr_view(**e2));
            }
            let mut ctx: Vec<(String, Expr)> = Vec::new();
            proof {
                assert(ctx_view(ctx@) =~= Seq::<(Seq<char>, ExprV)>::empty());
            }
            let ca = into_aexpr(c, &mut ctx, gen);
            let tv = convert_expr(t, gen);
            let ev = convert_expr(e2, gen);
            apply_context(
                Expr::CExpr(CExpr::If(ca, Box::new(tv), Box::new(ev))),
                ctx,
            )
        },
        ast::Expr::Lambda(name, params, body, tail) => {
            proof {
                assert(decreases_to!(*e => e->Lambda_3));
                assert(decreases_to!(*e => e->Lambda_2));
                assert(*e@->Lambda_3 == ast::expr_view(**tail));
                assert(e@->Lambda_2 == ast::exprs_view(body@));
                assert(e@->Lambda_1 == params.deep_view());
            }
            let tv = convert_expr(tail, gen);
            let bv = fold_block(body, tv, gen);
            let n2 = match name {
                Some(n) => Some(n.clone()),
                None => None,
            };
            Expr::AExpr(AExpr::Lambda(n2, clone_strings(params), Box::new(bv)))
        },
        ast::Expr::Literal(l) => {
            proof {
                assert(e@->Literal_0 == crate::literal::lit_view(*l));
            }
            Expr::AExpr(AExpr::Literal(l.duplicate()))
        },
        ast::Expr::Progn(body, tail) => {
            proof {
                assert(decreases_to!(*e => e->Progn_1));
                assert(decreases_to!(*e => e->Progn_0));
                assert(*e@->Progn_1 == ast::expr_view(**tail));
                assert(e@->Progn_0 == ast::exprs_view(body@));
            }
            let tv = convert_expr(tail, gen);
            fold_block(body, tv, gen)
        },
        ast::Expr::Var(n) => Expr::AExpr(AExpr::Var(n.clone())),
        ast::Expr::Vector(es) => {
            proof {
                assert(decreases_to!(*e => e->Vector_0));
                assert(e@->Vector_0 == ast::exprs_view(es@));
            }
            let mut ctx: Vec<(String, Expr)> = Vec::new();
            proof {
                assert(ctx_view(ctx@) =~= Seq::<(Seq<char>, ExprV)>::empty());
            }
            let esa = convert_args(es, &mut ctx, gen);
            apply_context(Expr::AExpr(AExpr::Vector(esa)), ctx)
        },
    }
}

impl Decl {
    /// Lowers an AST declaration.
    pub fn convert(d: &ast::Decl, gen: &mut Gensym) -> (r: Decl)
        ensures
            (r@, final(gen).counter) == spec_convert_decl(d@, old(gen).counter),
    {
        match d {
            ast::Decl::Def(name, e) => {
                let ev = convert_expr(e, gen);
                Decl::Def(name.clone(), ev)
            },
            ast::Decl::Defn(name, params, body, tail) => {
                let tv = convert_expr(tail, gen);
                let bv = fold_block(body, tv, gen);
                Decl::Defn(name.clone(), clone_strings(params), bv)
            },
        }
    }
}

impl Module {
    /// Lowers an AST module into A-Normal Form.
    pub fn convert(m: ast::Module, gen: &mut Gensym) -> (r: Module)
        ensures
            (r@, final(gen).counter) == spec_convert_module(m@, old(gen).counter),
    {
        broadcast use ast::lemma_decls_view_index;
        broadcast use lemma_anf_decls_view_index;

        let ghost dv = ast::decls_view(m.body@);
        let ghost tgt = spec_convert_decls(dv, old(gen).counter);
        let mut body: Vec<Decl> = Vec::new();
        let mut i: usize = 0;
        proof {
            assert(dv.skip(0) =~= dv);
            assert(decls_view(body@) + tgt.0 =~= tgt.0);
        }
        #[verifier::loop_isolation(false)]
        while i < m.body.len()
            invariant
                i <= m.body@.len(),
                ({
                    let (rest, cf) = spec_convert_decls(dv.skip(i as int), gen.counter);
                    &&& decls_view(body@) + rest == tgt.0
                    &&& cf == tgt.1
                }),
            decreases m.body@.len() - i,
        {
            proof {
                assert(dv.skip(i as int)[0] == dv[i as int]);
                assert(dv[i as int] == m.body@[i as int]@);
                assert(dv.skip(i as int).drop_first() =~= dv.skip(i + 1));
            }
            let ghost pre = body@;
            let d = Decl::convert(&m.body[i], gen);
            body.push(d);
            proof {
                assert(decls_view(body@).drop_last() =~= decls_view(pre));
                let (rest, cf) = spec_convert_decls(dv.skip(i + 1), gen.counter);
                assert(decls_view(body@) + rest =~= decls_view(pre) + (seq![d@] + rest));
            }
            i = i + 1;
        }
        proof {
            assert(dv.skip(m.body@.len() as int) =~= Seq::<ast::DeclV>::empty());
            assert(decls_view(body@) + Seq::<DeclV>::empty() =~= decls_view(body@));
        }
        let r = Module {
            name: m.name,
            exports: m.exports,
            imports: m.imports,
            body: body,
            attrs: m.attrs,
        };
        proof {
            assert(r@.imports =~= spec_convert_module(m@, old(gen).counter).0.imports);
            assert(r@ =~= spec_convert_module(m@, old(gen).counter).0);
        }
        r
    }
}

} // verus!
