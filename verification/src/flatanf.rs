//! A "flattened" version of the A-Normal Form AST. Uses de Bruijn indices
//! instead of local variable names, and explicitly includes a fully-qualified
//! path to all global variables.

pub mod convert;
pub mod deserialize;
pub mod global_vars;
pub mod serialize;
pub mod util;

use vstd::prelude::*;

use crate::literal::{lit_view, LitV, Literal};

verus! {

/// A complete program: the required intrinsics and the declarations, in an
/// order that respects references between them.
#[derive(Debug, PartialEq)]
pub struct Program {
    pub intrinsics: Vec<String>,
    pub decls: Vec<(String, Expr)>,
}

/// The root expression type.
#[derive(Debug, PartialEq)]
pub enum Expr {
    /// An atomic expression.
    AExpr(AExpr),
    /// A complex expression.
    CExpr(CExpr),
    /// A let-binding: evaluate the left expression, push it onto the
    /// environment, then evaluate the right expression.
    Let(Box<Expr>, Box<Expr>),
    /// A sequencing: evaluate the left expression for effect, then the right.
    Sequence(Box<Expr>, Box<Expr>),
}

/// A "complex" expression, which may replace the current continuation but
/// never net-grows the continuation stack.
#[derive(Debug, PartialEq)]
pub enum CExpr {
    /// A function call.
    Call(AExpr, Vec<AExpr>),
    /// A conditional; only nil is falsy.
    If(AExpr, Box<Expr>, Box<Expr>),
    /// A letrec, which only binds (mutually) recursive functions; each
    /// binding records its name, parameter count, and body.
    LetRec(Vec<(String, usize, Expr)>, Box<Expr>),
}

/// An atomic expression, which evaluates to a value in one step.
#[derive(Debug, PartialEq)]
pub enum AExpr {
    /// A reference to a global value by fully-qualified name.
    Global(String),
    /// A function abstraction: optional name, parameter count, body.
    Lambda(Option<String>, usize, Box<Expr>),
    /// A literal value.
    Literal(Literal),
    /// A reference to a value in the environment, by de Bruijn index.
    Local(usize),
    /// A vector creation.
    Vector(Vec<AExpr>),
}

/// The mathematical model of a program.
#[verifier::ext_equal]
pub struct ProgramV {
    pub intrinsics: Seq<Seq<char>>,
    pub decls: Seq<(Seq<char>, ExprV)>,
}

/// The mathematical model of an expression.
#[verifier::ext_equal]
pub enum ExprV {
    AExpr(AExprV),
    CExpr(CExprV),
    Let(Box<ExprV>, Box<ExprV>),
    Sequence(Box<ExprV>, Box<ExprV>),
}

/// The mathematical model of a complex expression.
#[verifier::ext_equal]
pub enum CExprV {
    Call(AExprV, Seq<AExprV>),
    If(AExprV, Box<ExprV>, Box<ExprV>),
    LetRec(Seq<(Seq<char>, nat, ExprV)>, Box<ExprV>),
}

/// The mathematical model of an atomic expression.
#[verifier::ext_equal]
pub enum AExprV {
    Global(Seq<char>),
    Lambda(Option<Seq<char>>, nat, Box<ExprV>),
    Literal(LitV),
    Local(usize),
    Vector(Seq<AExprV>),
}

/// The model of an expression.
pub open spec fn expr_view(e: Expr) -> ExprV
    decreases e, 3int,
{
    match e {
        Expr::AExpr(a) => ExprV::AExpr(aexpr_view(a)),
        Expr::CExpr(c) => ExprV::CExpr(cexpr_view(c)),
        Expr::Let(a, b) => ExprV::Let(Box::new(expr_view(*a)), Box::new(expr_view(*b))),
        Expr::Sequence(a, b) => ExprV::Sequence(Box::new(expr_view(*a)), Box::new(expr_view(*b))),
    }
}

/// The model of a complex expression.
pub open spec fn cexpr_view(c: CExpr) -> CExprV
    decreases c, 3int,
{
    match c {
        CExpr::Call(f, args) => CExprV::Call(aexpr_view(f), aexprs_view(args@)),
        CExpr::If(cond, t, e) => CExprV::If(
            aexpr_view(cond),
            Box::new(expr_view(*t)),
            Box::new(expr_view(*e)),
        ),
        CExpr::LetRec(lambdas, body) => CExprV::LetRec(
            letrec_view(lambdas@),
            Box::new(expr_view(*body)),
        ),
    }
}

/// The model of an atomic expression.
pub open spec fn aexpr_view(a: AExpr) -> AExprV
    decreases a, 3int,
{
    match a {
        AExpr::Global(s) => AExprV::Global(s@),
        AExpr::Lambda(name, argn, body) => AExprV::Lambda(
            match name {
                Some(n) => Some(n@),
                None => None,
            },
            argn as nat,
            Box::new(expr_view(*body)),
        ),
        AExpr::Literal(l) => AExprV::Literal(lit_view(l)),
        AExpr::Local(n) => AExprV::Local(n),
        AExpr::Vector(es) => AExprV::Vector(aexprs_view(es@)),
    }
}

/// The models of a sequence of atomic expressions.
pub open spec fn aexprs_view(s: Seq<AExpr>) -> Seq<AExprV>
    decreases s, 0int,
{
    if s.len() == 0 {
        Seq::empty()
    } else {
        aexprs_view(s.drop_last()).push(aexpr_view(s.last()))
    }
}

/// The models of a sequence of letrec bindings.
pub open spec fn letrec_view(s: Seq<(String, usize, Expr)>) -> Seq<(Seq<char>, nat, ExprV)>
    decreases s, 0int,
{
    if s.len() == 0 {
        Seq::empty()
    } else {
        letrec_view(s.drop_last()).push(
            (s.last().0@, s.last().1 as nat, expr_view(s.last().2)),
        )
    }
}

/// The models of a declaration list.
pub open spec fn decls_view(s: Seq<(String, Expr)>) -> Seq<(Seq<char>, ExprV)> {
    Seq::new(s.len(), |i: int| (s[i].0@, expr_view(s[i].1)))
}

impl View for Expr {
    type V = ExprV;

    open spec fn view(&self) -> ExprV {
        expr_view(*self)
    }
}

impl View for CExpr {
    type V = CExprV;

    open spec fn view(&self) -> CExprV {
        cexpr_view(*self)
    }
}

impl View for AExpr {
    type V = AExprV;

    open spec fn view(&self) -> AExprV {
        aexpr_view(*self)
    }
}

impl View for Program {
    type V = ProgramV;

    open spec fn view(&self) -> ProgramV {
        ProgramV { intrinsics: self.intrinsics.deep_view(), decls: decls_view(self.decls@) }
    }
}

/// The atomic-expression model sequence indexes to the models of the
/// elements.
pub broadcast proof fn lemma_aexprs_view_index(s: Seq<AExpr>)
    ensures
        (#[trigger] aexprs_view(s)).len() == s.len(),
        forall|i: int| 0 <= i < s.len() ==> aexprs_view(s)[i] == aexpr_view(s[i]),
    decreases s.len(),
{
    if s.len() > 0 {
        lemma_aexprs_view_index(s.drop_last());
    }
}

/// The letrec-binding model sequence indexes to the models of the elements.
pub broadcast proof fn lemma_letrec_view_index(s: Seq<(String, usize, Expr)>)
    ensures
        (#[trigger] letrec_view(s)).len() == s.len(),
        forall|i: int|
            0 <= i < s.len() ==> letrec_view(s)[i] == (s[i].0@, s[i].1 as nat, expr_view(s[i].2)),
    decreases s.len(),
{
    if s.len() > 0 {
        lemma_letrec_view_index(s.drop_last());
    }
}


impl Expr {
    /// Structurally copies this expression.
    pub fn duplicate(&self) -> (r: Expr)
        ensures
            r@ == self@,
        decreases self, 3int,
    {
        proof {
            reveal_with_fuel(expr_view, 3);
            reveal_with_fuel(cexpr_view, 3);
            reveal_with_fuel(aexpr_view, 3);
        }
        match self {
            Expr::AExpr(a) => {
                proof {
                    assert(self@->AExpr_0 == aexpr_view(*a));
                }
                Expr::AExpr(a.duplicate())
            },
            Expr::CExpr(c) => {
                proof {
                    assert(self@->CExpr_0 == cexpr_view(*c));
                }
                Expr::CExpr(c.duplicate())
            },
            Expr::Let(a, b) => {
                proof {
                    assert(*self@->Let_0 == expr_view(**a));
                    assert(*self@->Let_1 == expr_view(**b));
                }
                Expr::Let(Box::new(a.duplicate()), Box::new(b.duplicate()))
            },
            Expr::Sequence(a, b) => {
                proof {
                    assert(*self@->Sequence_0 == expr_view(**a));
                    assert(*self@->Sequence_1 == expr_view(**b));
                }
                Expr::Sequence(Box::new(a.duplicate()), Box::new(b.duplicate()))
            },
        }
    }
}

impl CExpr {
    /// Structurally copies this complex expression.
    pub fn duplicate(&self) -> (r: CExpr)
        ensures
            r@ == self@,
        decreases self, 2int,
    {
        broadcast use lemma_aexprs_view_index;
        broadcast use lemma_letrec_view_index;

        proof {
            reveal_with_fuel(expr_view, 3);
            reveal_with_fuel(cexpr_view, 3);
            reveal_with_fuel(aexpr_view, 3);
        }
        match self {
            CExpr::Call(f, args) => {
                proof {
                    assert(self@->Call_0 == aexpr_view(*f));
                    assert(self@->Call_1 == aexprs_view(args@));
                }
                let f2 = f.duplicate();
                let mut out: Vec<AExpr> = Vec::new();
                let mut i: usize = 0;
                proof {
                    assert(aexprs_view(out@) =~= aexprs_view(args@).take(0));
                }
                #[verifier::loop_isolation(false)]
                while i < args.len()
                    invariant
                        i <= args@.len(),
                        out@.len() == i,
                        aexprs_view(out@) == aexprs_view(args@).take(i as int),
                    decreases args@.len() - i,
                {
                    proof {
                        assert(decreases_to!(*self => self->Call_1));
                        assert(decreases_to!(self->Call_1 => self->Call_1@[i as int]));
                        assert(self->Call_1@[i as int] == args@[i as int]);
                    }
                    let ghost pre = out@;
                    let e = args[i].duplicate();
                    out.push(e);
                    proof {
                        assert(out@.drop_last() =~= pre);
                        assert(aexprs_view(out@).drop_last() =~= aexprs_view(pre));
                        assert(aexprs_view(args@).take(i + 1).drop_last() =~= aexprs_view(
                            args@,
                        ).take(i as int));
                        assert(aexprs_view(out@) =~= aexprs_view(args@).take(i + 1));
                    }
                    i = i + 1;
                }
                proof {
                    assert(aexprs_view(args@).take(args@.len() as int) =~= aexprs_view(args@));
                }
                CExpr::Call(f2, out)
            },
            CExpr::If(c, t, e) => {
                proof {
                    assert(self@->If_0 == aexpr_view(*c));
                    assert(*self@->If_1 == expr_view(**t));
                    assert(*self@->If_2 == expr_view(**e));
                }
                CExpr::If(c.duplicate(), Box::new(t.duplicate()), Box::new(e.duplicate()))
            },
            CExpr::LetRec(bound, body) => {
                proof {
                    assert(self@->LetRec_0 == letrec_view(bound@));
                    assert(*self@->LetRec_1 == expr_view(**body));
                }
                let mut out: Vec<(String, usize, Expr)> = Vec::new();
                let mut i: usize = 0;
                proof {
                    assert(letrec_view(out@) =~= letrec_view(bound@).take(0));
                }
                #[verifier::loop_isolation(false)]
                while i < bound.len()
                    invariant
                        i <= bound@.len(),
                        out@.len() == i,
                        letrec_view(out@) == letrec_view(bound@).take(i as int),
                    decreases bound@.len() - i,
                {
                    proof {
                        assert(decreases_to!(*self => self->LetRec_0));
                        assert(decreases_to!(self->LetRec_0 => self->LetRec_0@[i as int]));
                        assert(self->LetRec_0@[i as int] == bound@[i as int]);
                        assert(decreases_to!(bound@[i as int] => bound@[i as int].2));
                    }
                    let ghost pre = out@;
                    let e = bound[i].2.duplicate();
                    out.push((bound[i].0.clone(), bound[i].1, e));
                    proof {
                        assert(out@.drop_last() =~= pre);
                        assert(letrec_view(out@).drop_last() =~= letrec_view(pre));
                        assert(letrec_view(bound@).take(i + 1).drop_last() =~= letrec_view(
                            bound@,
                        ).take(i as int));
                        assert(letrec_view(bound@).take(i + 1).last() == (
                            bound@[i as int].0@,
                            bound@[i as int].1 as nat,
                            expr_view(bound@[i as int].2),
                        ));
                        assert(letrec_view(out@) =~= letrec_view(bound@).take(i + 1));
                    }
                    i = i + 1;
                }
                proof {
                    assert(letrec_view(bound@).take(bound@.len() as int) =~= letrec_view(bound@));
                }
                CExpr::LetRec(out, Box::new(body.duplicate()))
            },
        }
    }
}

impl AExpr {
    /// Structurally copies this atomic expression.
    pub fn duplicate(&self) -> (r: AExpr)
        ensures
            r@ == self@,
        decreases self, 1int,
    {
        broadcast use lemma_aexprs_view_index;

        proof {
            reveal_with_fuel(expr_view, 3);
            reveal_with_fuel(aexpr_view, 3);
        }
        match self {
            AExpr::Global(s) => AExpr::Global(s.clone()),
            AExpr::Lambda(name, argn, body) => {
                proof {
                    assert(*self@->Lambda_2 == expr_view(**body));
                }
                let n2 = match name {
                    Some(n) => Some(n.clone()),
                    None => None,
                };
                AExpr::Lambda(n2, *argn, Box::new(body.duplicate()))
            },
            AExpr::Literal(l) => {
                proof {
                    assert(self@->Literal_0 == crate::literal::lit_view(*l));
                }
                AExpr::Literal(l.duplicate())
            },
            AExpr::Local(n) => AExpr::Local(*n),
            AExpr::Vector(es) => {
                proof {
                    assert(self@->Vector_0 == aexprs_view(es@));
                }
                let mut out: Vec<AExpr> = Vec::new();
                let mut i: usize = 0;
                proof {
                    assert(aexprs_view(out@) =~= aexprs_view(es@).take(0));
                }
                #[verifier::loop_isolation(false)]
                while i < es.len()
                    invariant
                        i <= es@.len(),
                        out@.len() == i,
                        aexprs_view(out@) == aexprs_view(es@).take(i as int),
                    decreases es@.len() - i,
                {
                    proof {
                        assert(decreases_to!(*self => self->Vector_0@[i as int]));
                        assert(self->Vector_0@[i as int] == es@[i as int]);
                    }
                    let ghost pre = out@;
                    let e = es[i].duplicate();
                    out.push(e);
                    proof {
                        assert(out@.drop_last() =~= pre);
                        assert(aexprs_view(out@).drop_last() =~= aexprs_view(pre));
                        assert(aexprs_view(es@).take(i + 1).drop_last() =~= aexprs_view(
                            es@,
                        ).take(i as int));
                        assert(aexprs_view(out@) =~= aexprs_view(es@).take(i + 1));
                    }
                    i = i + 1;
                }
                proof {
                    assert(aexprs_view(es@).take(es@.len() as int) =~= aexprs_view(es@));
                }
                AExpr::Vector(out)
            },
        }
    }
}

} // verus!
