//! The types for the initial AST, built from literals.

use vstd::prelude::*;

use crate::error::ErrorKind;
use crate::literal::{
    all_symbols, is_proper_list, list_elems, lit_view, lits_view, symbol_texts, LitV, Literal,
};

verus! {

/// An attribute on a module.
#[derive(Debug, PartialEq)]
pub enum Attr {
    /// The prelude will not be injected.
    NoPrelude,
}

/// A module: its name, exports, imports, attributes, and body declarations.
#[derive(Debug, PartialEq)]
pub struct Module {
    pub name: String,
    pub exports: Vec<String>,
    pub imports: Vec<(String, String)>,
    pub attrs: Vec<Attr>,
    pub body: Vec<Decl>,
}

/// A declaration.
#[derive(Debug, PartialEq)]
pub enum Decl {
    Def(String, Expr),
    Defn(String, Vec<String>, Vec<Expr>, Expr),
}

/// The basic expression type.
#[derive(Debug, PartialEq)]
pub enum Expr {
    Call(Box<Expr>, Vec<Expr>),
    Decl(Box<Decl>),
    If(Box<Expr>, Box<Expr>, Box<Expr>),
    Lambda(Option<String>, Vec<String>, Vec<Expr>, Box<Expr>),
    Literal(Literal),
    Progn(Vec<Expr>, Box<Expr>),
    Var(String),
    Vector(Vec<Expr>),
}

/// The mathematical model of a [`Decl`].
#[verifier::ext_equal]
pub enum DeclV {
    Def(Seq<char>, ExprV),
    Defn(Seq<char>, Seq<Seq<char>>, Seq<ExprV>, Box<ExprV>),
}

/// The mathematical model of an [`Expr`].
#[verifier::ext_equal]
pub enum ExprV {
    Call(Box<ExprV>, Seq<ExprV>),
    Decl(Box<DeclV>),
    If(Box<ExprV>, Box<ExprV>, Box<ExprV>),
    Lambda(Option<Seq<char>>, Seq<Seq<char>>, Seq<ExprV>, Box<ExprV>),
    Literal(LitV),
    Progn(Seq<ExprV>, Box<ExprV>),
    Var(Seq<char>),
    Vector(Seq<ExprV>),
}

/// The mathematical model of a [`Module`].
#[verifier::ext_equal]
pub struct ModuleV {
    pub name: Seq<char>,
    pub exports: Seq<Seq<char>>,
    pub imports: Seq<(Seq<char>, Seq<char>)>,
    pub attrs: Seq<Attr>,
    pub body: Seq<DeclV>,
}

/// The model of an expression.
pub open spec fn expr_view(e: Expr) -> ExprV
    decreases e, 1int,
{
    match e {
        Expr::Call(f, args) => ExprV::Call(Box::new(expr_view(*f)), exprs_view(args@)),
        Expr::Decl(d) => ExprV::Decl(Box::new(decl_view(*d))),
        Expr::If(c, t, e2) => ExprV::If(
            Box::new(expr_view(*c)),
            Box::new(expr_view(*t)),
            Box::new(expr_view(*e2)),
        ),
        Expr::Lambda(name, params, body, tail) => ExprV::Lambda(
            match name {
                Some(n) => Some(n@),
                None => None,
            },
            params.deep_view(),
            exprs_view(body@),
            Box::new(expr_view(*tail)),
        ),
        Expr::Literal(l) => ExprV::Literal(lit_view(l)),
        Expr::Progn(body, tail) => ExprV::Progn(exprs_view(body@), Box::new(expr_view(*tail))),
        Expr::Var(s) => ExprV::Var(s@),
        Expr::Vector(es) => ExprV::Vector(exprs_view(es@)),
    }
}

/// The models of a sequence of expressions.
pub open spec fn exprs_view(s: Seq<Expr>) -> Seq<ExprV>
    decreases s, 0int,
{
    if s.len() == 0 {
        Seq::empty()
    } else {
        exprs_view(s.drop_last()).push(expr_view(s.last()))
    }
}

/// The model of a declaration.
pub open spec fn decl_view(d: Decl) -> DeclV
    decreases d, 2int,
{
    match d {
        Decl::Def(name, e) => DeclV::Def(name@, expr_view(e)),
        Decl::Defn(name, params, body, tail) => DeclV::Defn(
            name@,
            params.deep_view(),
            exprs_view(body@),
            Box::new(expr_view(tail)),
        ),
    }
}

/// The models of a sequence of declarations.
pub open spec fn decls_view(s: Seq<Decl>) -> Seq<DeclV>
    decreases s,
{
    if s.len() == 0 {
        Seq::empty()
    } else {
        decls_view(s.drop_last()).push(decl_view(s.last()))
    }
}

impl View for Expr {
    type V = ExprV;

    open spec fn view(&self) -> ExprV {
        expr_view(*self)
    }
}

impl View for Decl {
    type V = DeclV;

    open spec fn view(&self) -> DeclV {
        decl_view(*self)
    }
}

impl View for Module {
    type V = ModuleV;

    open spec fn view(&self) -> ModuleV {
        ModuleV {
            name: self.name@,
            exports: self.exports.deep_view(),
            imports: Seq::new(self.imports@.len(), |i: int| (self.imports@[i].0@, self.imports@[i].1@)),
            attrs: self.attrs@,
            body: decls_view(self.body@),
        }
    }
}

/// The expression model sequence indexes to the models of the elements.
pub broadcast proof fn lemma_exprs_view_index(s: Seq<Expr>)
    ensures
        (#[trigger] exprs_view(s)).len() == s.len(),
        forall|i: int| 0 <= i < s.len() ==> exprs_view(s)[i] == expr_view(s[i]),
    decreases s.len(),
{
    if s.len() > 0 {
        lemma_exprs_view_index(s.drop_last());
    }
}

/// The declaration model sequence indexes to the models of the elements.
pub broadcast proof fn lemma_decls_view_index(s: Seq<Decl>)
    ensures
        (#[trigger] decls_view(s)).len() == s.len(),
        forall|i: int| 0 <= i < s.len() ==> decls_view(s)[i] == decl_view(s[i]),
    decreases s.len(),
{
    if s.len() > 0 {
        lemma_decls_view_index(s.drop_last());
    }
}


/// Whether `l` is a proper list headed by the symbol `s`.
pub open spec fn is_shl_sym(l: LitV, s: Seq<char>) -> bool {
    l matches LitV::Cons(h, t) && *h == LitV::Symbol(s) && is_proper_list(*t)
}

/// Whether all elements of a sequence of texts are distinct.
pub open spec fn all_distinct(s: Seq<Seq<char>>) -> bool {
    forall|i: int, j: int| 0 <= i < j < s.len() ==> s[i] != s[j]
}

/// The name of a declaration model.
pub open spec fn decl_name_view(d: DeclV) -> Seq<char> {
    match d {
        DeclV::Def(name, _) => name,
        DeclV::Defn(name, _, _, _) => name,
    }
}

/// The declaration that a literal model describes, if any: either
/// `(intrinsics:def NAME EXPR)` or `(intrinsics:defn NAME (PARAM...) BODY... TAIL)`
/// with distinct parameters.
pub open spec fn spec_decl_from(l: LitV) -> Option<DeclV>
    decreases l, 0int,
{
    if is_shl_sym(l, "intrinsics:def"@) {
        let t = l->Cons_1;
        if *t matches LitV::Cons(_, _) && (*t->Cons_1 matches LitV::Cons(_, _)
            && *t->Cons_1->Cons_1 is Nil) && *t->Cons_0 is Symbol {
            match spec_expr_from(*t->Cons_1->Cons_0) {
                Some(e) => Some(DeclV::Def(t->Cons_0->Symbol_0, e)),
                None => None,
            }
        } else {
            None
        }
    } else if is_shl_sym(l, "intrinsics:defn"@) {
        let t = l->Cons_1;
        if *t matches LitV::Cons(_, _) && *t->Cons_1 matches LitV::Cons(_, _) {
            let name = t->Cons_0;
            let params = t->Cons_1->Cons_0;
            let rest = t->Cons_1->Cons_1;
            if *name is Symbol && is_proper_list(*params) && all_symbols(list_elems(*params))
                && all_distinct(symbol_texts(list_elems(*params))) {
                match spec_exprs_chain(*rest) {
                    Some(es) => if es.len() >= 1 {
                        Some(
                            DeclV::Defn(
                                name->Symbol_0,
                                symbol_texts(list_elems(*params)),
                                es.drop_last(),
                                Box::new(es.last()),
                            ),
                        )
                    } else {
                        None
                    },
                    None => None,
                }
            } else {
                None
            }
        } else {
            None
        }
    } else {
        None
    }
}

/// The expression that a literal model describes, if any, by syntactic case
/// analysis on the head symbol.
pub open spec fn spec_expr_from(l: LitV) -> Option<ExprV>
    decreases l, 1int,
{
    match l {
        LitV::Cons(h, t) => {
            if !is_proper_list(*t) {
                None
            } else if *h == LitV::Symbol("intrinsics:def"@) || *h == LitV::Symbol(
                "intrinsics:defn"@,
            ) {
                match spec_decl_from(l) {
                    Some(d) => Some(ExprV::Decl(Box::new(d))),
                    None => None,
                }
            } else if *h == LitV::Symbol("intrinsics:fn"@) {
                if *t matches LitV::Cons(_, _) {
                    let params = t->Cons_0;
                    let rest = t->Cons_1;
                    if is_proper_list(*params) && all_symbols(list_elems(*params)) {
                        match spec_exprs_chain(*rest) {
                            Some(es) => if es.len() >= 1 {
                                Some(
                                    ExprV::Lambda(
                                        None,
                                        symbol_texts(list_elems(*params)),
                                        es.drop_last(),
                                        Box::new(es.last()),
                                    ),
                                )
                            } else {
                                None
                            },
                            None => None,
                        }
                    } else {
                        None
                    }
                } else {
                    None
                }
            } else if *h == LitV::Symbol("intrinsics:named-fn"@) {
                if *t matches LitV::Cons(_, _) && *t->Cons_1 matches LitV::Cons(_, _) {
                    let name = t->Cons_0;
                    let params = t->Cons_1->Cons_0;
                    let rest = t->Cons_1->Cons_1;
                    if *name is Symbol && is_proper_list(*params) && all_symbols(
                        list_elems(*params),
                    ) {
                        match spec_exprs_chain(*rest) {
                            Some(es) => if es.len() >= 1 {
                                Some(
                                    ExprV::Lambda(
                                        Some(name->Symbol_0),
                                        symbol_texts(list_elems(*params)),
                                        es.drop_last(),
                                        Box::new(es.last()),
                                    ),
                                )
                            } else {
                                None
                            },
                            None => None,
                        }
                    } else {
                        None
                    }
                } else {
                    None
                }
            } else if *h == LitV::Symbol("if"@) {
                if *t matches LitV::Cons(_, _) && *t->Cons_1 matches LitV::Cons(_, _) {
                    let c = t->Cons_0;
                    let th = t->Cons_1->Cons_0;
                    let rest = t->Cons_1->Cons_1;
                    if *rest is Nil {
                        match (spec_expr_from(*c), spec_expr_from(*th)) {
                            (Some(cv), Some(tv)) => Some(
                                ExprV::If(
                                    Box::new(cv),
                                    Box::new(tv),
                                    Box::new(ExprV::Literal(LitV::Nil)),
                                ),
                            ),
                            _ => None,
                        }
                    } else if *rest matches LitV::Cons(_, _) && *rest->Cons_1 is Nil {
                        match (
                            spec_expr_from(*c),
                            spec_expr_from(*th),
                            spec_expr_from(*rest->Cons_0),
                        ) {
                            (Some(cv), Some(tv), Some(ev)) => Some(
                                ExprV::If(Box::new(cv), Box::new(tv), Box::new(ev)),
                            ),
                            _ => None,
                        }
                    } else {
                        None
                    }
                } else {
                    None
                }
            } else if *h == LitV::Symbol("quote"@) {
                if *t matches LitV::Cons(_, _) && *t->Cons_1 is Nil {
                    Some(ExprV::Literal(*t->Cons_0))
                } else {
                    None
                }
            } else if *h == LitV::Symbol("progn"@) {
                match spec_exprs_chain(*t) {
                    Some(es) => if es.len() == 0 {
                        Some(ExprV::Progn(Seq::empty(), Box::new(ExprV::Literal(LitV::Nil))))
                    } else {
                        Some(ExprV::Progn(es.drop_last(), Box::new(es.last())))
                    },
                    None => None,
                }
            } else {
                match (spec_expr_from(*h), spec_exprs_chain(*t)) {
                    (Some(f), Some(args)) => Some(ExprV::Call(Box::new(f), args)),
                    _ => None,
                }
            }
        },
        LitV::Nil => None,
        LitV::Symbol(s) => Some(ExprV::Var(s)),
        LitV::Vector(vs) => match spec_exprs_from_seq(vs) {
            Some(es) => Some(ExprV::Vector(es)),
            None => None,
        },
        other => Some(ExprV::Literal(other)),
    }
}

/// The expressions that the elements of a proper cons chain describe, if the
/// chain is proper and every element describes one.
pub open spec fn spec_exprs_chain(l: LitV) -> Option<Seq<ExprV>>
    decreases l, 0int,
{
    match l {
        LitV::Nil => Some(Seq::empty()),
        LitV::Cons(h, rest) => match (spec_expr_from(*h), spec_exprs_chain(*rest)) {
            (Some(e), Some(es)) => Some(seq![e] + es),
            _ => None,
        },
        _ => None,
    }
}

/// The expressions that the elements of a sequence of literal models
/// describe, if every element describes one.
pub open spec fn spec_exprs_from_seq(vs: Seq<LitV>) -> Option<Seq<ExprV>>
    decreases vs, 0int,
{
    if vs.len() == 0 {
        Some(Seq::empty())
    } else {
        match (spec_exprs_from_seq(vs.drop_last()), spec_expr_from(vs.last())) {
            (Some(es), Some(e)) => Some(es.push(e)),
            _ => None,
        }
    }
}


/// The error that reading a declaration or expression reports: which kind
/// of form was being read, and the literal at the point of failure.
pub ghost enum AstErrV {
    BadExpr(LitV),
    BadDecl(LitV),
}

/// Whether an error value carries exactly the kind and literal of an
/// abstract syntax reading failure.
pub open spec fn matches_ast_err(k: ErrorKind, e: AstErrV) -> bool {
    match e {
        AstErrV::BadExpr(lv) => k matches ErrorKind::InvalidExpr(l) && l@ == lv,
        AstErrV::BadDecl(lv) => k matches ErrorKind::InvalidDecl(l) && l@ == lv,
    }
}

/// The error that reading `l` as a declaration reports, when it fails:
/// a structural fault is `InvalidDecl` carrying `l` itself, while a fault
/// inside a nested expression bubbles up unchanged.
pub open spec fn spec_decl_err(l: LitV) -> AstErrV
    recommends
        spec_decl_from(l) is None,
    decreases l, 0int,
{
    if is_shl_sym(l, "intrinsics:def"@) {
        let t = l->Cons_1;
        if *t matches LitV::Cons(_, _) && *t->Cons_1 matches LitV::Cons(_, _) {
            if *t->Cons_0 is Symbol && *t->Cons_1->Cons_1 is Nil {
                spec_expr_err(*t->Cons_1->Cons_0)
            } else {
                AstErrV::BadDecl(l)
            }
        } else {
            AstErrV::BadDecl(l)
        }
    } else if is_shl_sym(l, "intrinsics:defn"@) {
        let t = l->Cons_1;
        if *t matches LitV::Cons(_, _) && *t->Cons_1 matches LitV::Cons(_, _) {
            let params = t->Cons_1->Cons_0;
            let rest = t->Cons_1->Cons_1;
            if *t->Cons_0 is Symbol && is_proper_list(*params) && all_symbols(list_elems(*params))
                && all_distinct(symbol_texts(list_elems(*params))) && spec_exprs_chain(*rest)
                is None {
                spec_chain_err(*rest)
            } else {
                AstErrV::BadDecl(l)
            }
        } else {
            AstErrV::BadDecl(l)
        }
    } else {
        AstErrV::BadDecl(l)
    }
}

/// The error that reading `l` as an expression reports, when it fails,
/// by the same case analysis as `spec_expr_from`: a malformed special form
/// is `InvalidExpr` carrying `l` itself, a malformed declaration form is
/// `InvalidDecl`, and a fault in a subexpression bubbles up unchanged.
pub open spec fn spec_expr_err(l: LitV) -> AstErrV
    recommends
        spec_expr_from(l) is None,
    decreases l, 1int,
{
    match l {
        LitV::Cons(h, t) => {
            if !is_proper_list(*t) {
                AstErrV::BadExpr(l)
            } else if *h == LitV::Symbol("intrinsics:def"@) || *h == LitV::Symbol(
                "intrinsics:defn"@,
            ) {
                spec_decl_err(l)
            } else if *h == LitV::Symbol("intrinsics:fn"@) {
                if *t matches LitV::Cons(_, _) {
                    let params = t->Cons_0;
                    let rest = t->Cons_1;
                    if is_proper_list(*params) && all_symbols(list_elems(*params))
                        && spec_exprs_chain(*rest) is None {
                        spec_chain_err(*rest)
                    } else {
                        AstErrV::BadExpr(l)
                    }
                } else {
                    AstErrV::BadExpr(l)
                }
            } else if *h == LitV::Symbol("intrinsics:named-fn"@) {
                if *t matches LitV::Cons(_, _) && *t->Cons_1 matches LitV::Cons(_, _) {
                    let params = t->Cons_1->Cons_0;
                    let rest = t->Cons_1->Cons_1;
                    if *t->Cons_0 is Symbol && is_proper_list(*params) && all_symbols(
                        list_elems(*params),
                    ) && spec_exprs_chain(*rest) is None {
                        spec_chain_err(*rest)
                    } else {
                        AstErrV::BadExpr(l)
                    }
                } else {
                    AstErrV::BadExpr(l)
                }
            } else if *h == LitV::Symbol("if"@) {
                if *t matches LitV::Cons(_, _) && *t->Cons_1 matches LitV::Cons(_, _) {
                    let c = t->Cons_0;
                    let th = t->Cons_1->Cons_0;
                    let rest = t->Cons_1->Cons_1;
                    if *rest is Nil {
                        if spec_expr_from(*c) is None {
                            spec_expr_err(*c)
                        } else {
                            spec_expr_err(*th)
                        }
                    } else if *rest matches LitV::Cons(_, _) && *rest->Cons_1 is Nil {
                        if spec_expr_from(*c) is None {
                            spec_expr_err(*c)
                        } else if spec_expr_from(*th) is None {
                            spec_expr_err(*th)
                        } else {
                            spec_expr_err(*rest->Cons_0)
                        }
                    } else {
                        AstErrV::BadExpr(l)
                    }
                } else {
                    AstErrV::BadExpr(l)
                }
            } else if *h == LitV::Symbol("quote"@) {
                AstErrV::BadExpr(l)
            } else if *h == LitV::Symbol("progn"@) {
                spec_chain_err(*t)
            } else {
                if spec_expr_from(*h) is None {
                    spec_expr_err(*h)
                } else {
                    spec_chain_err(*t)
                }
            }
        },
        LitV::Nil => AstErrV::BadExpr(LitV::Nil),
        LitV::Vector(vs) => spec_seq_err(vs),
        _ => AstErrV::BadExpr(l),
    }
}

/// The error that reading a cons chain of expressions reports, when it
/// fails: the first failing element's error, or `InvalidExpr` carrying the
/// improper tail.
pub open spec fn spec_chain_err(l: LitV) -> AstErrV
    recommends
        spec_exprs_chain(l) is None,
    decreases l, 0int,
{
    match l {
        LitV::Cons(h, rest) => if spec_expr_from(*h) is None {
            spec_expr_err(*h)
        } else {
            spec_chain_err(*rest)
        },
        other => AstErrV::BadExpr(other),
    }
}

/// The error that reading a sequence of expressions reports, when it
/// fails: the first failing element's error.
pub open spec fn spec_seq_err(vs: Seq<LitV>) -> AstErrV
    recommends
        spec_exprs_from_seq(vs) is None,
    decreases vs, 0int,
{
    if vs.len() == 0 {
        AstErrV::BadExpr(LitV::Nil)
    } else if spec_exprs_from_seq(vs.drop_last()) is None {
        spec_seq_err(vs.drop_last())
    } else {
        spec_expr_err(vs.last())
    }
}

impl Attr {
    /// Creates an attribute from a symbol or a symbol-value pair.
    pub fn from_values(name: &str, value: Option<&Literal>) -> (r: Option<Attr>)
        ensures
            r is Some <==> (name@ == "no-prelude"@ && value is None),
            r matches Some(a) ==> a == Attr::NoPrelude,
    {
        if value.is_none() && crate::literal::str_eq(name, "no-prelude") {
            Some(Attr::NoPrelude)
        } else {
            None
        }
    }
}

impl Decl {
    /// Creates a declaration from a literal.
    pub fn from_value(lit: Literal) -> (r: Result<Decl, ErrorKind>)
        ensures
            r is Ok <==> spec_decl_from(lit@) is Some,
            r matches Ok(d) ==> Some(d@) == spec_decl_from(lit@),
            r matches Err(k) ==> matches_ast_err(k, spec_decl_err(lit@)),
    {
        Decl::from_value_ref(&lit)
    }

    /// Creates a declaration from a borrowed literal.
    pub fn from_value_ref(lit: &Literal) -> (r: Result<Decl, ErrorKind>)
        ensures
            r is Ok <==> spec_decl_from(lit@) is Some,
            r matches Ok(d) ==> Some(d@) == spec_decl_from(lit@),
            r matches Err(k) ==> matches_ast_err(k, spec_decl_err(lit@)),
        decreases lit, 0int,
    {
        if lit.is_shl("intrinsics:def") {
            match lit {
                Literal::Cons(_, t) => {
                    proof {
                        assert(**t == lit->Cons_1);
                        assert(*lit@->Cons_1 == crate::literal::lit_view(**t));
                    }
                    match &**t {
                        Literal::Cons(name, t2) => {
                            proof {
                                assert(**name == (**t)->Cons_0);
                                assert(**t2 == (**t)->Cons_1);
                                assert(*(**t)@->Cons_0 == crate::literal::lit_view(**name));
                                assert(*(**t)@->Cons_1 == crate::literal::lit_view(**t2));
                            }
                            match &**t2 {
                                Literal::Cons(e, t3) => {
                                    proof {
                                        assert(**e == (**t2)->Cons_0);
                                        assert(**t3 == (**t2)->Cons_1);
                                        assert(*(**t2)@->Cons_0 == crate::literal::lit_view(**e));
                                        assert(*(**t2)@->Cons_1 == crate::literal::lit_view(**t3));
                                    }
                                    let t3_is_nil = match &**t3 {
                                        Literal::Nil => true,
                                        _ => false,
                                    };
                                    match &**name {
                                        Literal::Symbol(n) => {
                                            if t3_is_nil {
                                                let ev = Expr::from_value_ref(e)?;
                                                Ok(Decl::Def(n.clone(), ev))
                                            } else {
                                                Err(ErrorKind::InvalidDecl(lit.duplicate()))
                                            }
                                        },
                                        _ => Err(ErrorKind::InvalidDecl(lit.duplicate())),
                                    }
                                },
                                _ => Err(ErrorKind::InvalidDecl(lit.duplicate())),
                            }
                        },
                        _ => Err(ErrorKind::InvalidDecl(lit.duplicate())),
                    }
                },
                _ => Err(ErrorKind::InvalidDecl(lit.duplicate())),
            }
        } else if lit.is_shl("intrinsics:defn") {
            match lit {
                Literal::Cons(_, t) => {
                    proof {
                        assert(**t == lit->Cons_1);
                        assert(*lit@->Cons_1 == crate::literal::lit_view(**t));
                    }
                    match &**t {
                        Literal::Cons(name, t2) => {
                            proof {
                                assert(**name == (**t)->Cons_0);
                                assert(**t2 == (**t)->Cons_1);
                                assert(*(**t)@->Cons_0 == crate::literal::lit_view(**name));
                                assert(*(**t)@->Cons_1 == crate::literal::lit_view(**t2));
                            }
                            match &**t2 {
                                Literal::Cons(params, rest) => {
                                    proof {
                                        assert(**params == (**t2)->Cons_0);
                                        assert(**rest == (**t2)->Cons_1);
                                        assert(*(**t2)@->Cons_0 == crate::literal::lit_view(
                                            **params,
                                        ));
                                        assert(*(**t2)@->Cons_1 == crate::literal::lit_view(
                                            **rest,
                                        ));
                                    }
                                    match &**name {
                                        Literal::Symbol(n) => {
                                            match params.as_symbol_list() {
                                                Some(ps) => {
                                                    if has_duplicate(&ps) {
                                                        return Err(
                                                            ErrorKind::InvalidDecl(
                                                                lit.duplicate(),
                                                            ),
                                                        );
                                                    }
                                                    let mut es = exprs_from_chain(rest)?;
                                                    if es.len() == 0 {
                                                        return Err(
                                                            ErrorKind::InvalidDecl(
                                                                lit.duplicate(),
                                                            ),
                                                        );
                                                    }
                                                    let ghost pre = es@;
                                                    let tail = es.pop().unwrap();
                                                    proof {
                                                        assert(es@ == pre.drop_last());
                                                        assert(tail == pre.last());
                                                        crate::ast::lemma_exprs_view_index(pre);
                                                        crate::ast::lemma_exprs_view_index(es@);
                                                        assert(exprs_view(es@) =~= exprs_view(
                                                            pre,
                                                        ).drop_last());
                                                    }
                                                    Ok(
                                                        Decl::Defn(
                                                            n.clone(),
                                                            ps,
                                                            es,
                                                            tail,
                                                        ),
                                                    )
                                                },
                                                None => Err(
                                                    ErrorKind::InvalidDecl(lit.duplicate()),
                                                ),
                                            }
                                        },
                                        _ => Err(ErrorKind::InvalidDecl(lit.duplicate())),
                                    }
                                },
                                _ => Err(ErrorKind::InvalidDecl(lit.duplicate())),
                            }
                        },
                        _ => Err(ErrorKind::InvalidDecl(lit.duplicate())),
                    }
                },
                _ => Err(ErrorKind::InvalidDecl(lit.duplicate())),
            }
        } else {
            Err(ErrorKind::InvalidDecl(lit.duplicate()))
        }
    }

    /// Returns the name of the decl.
    pub fn name(&self) -> (r: String)
        ensures
            r@ == decl_name_view(self@),
    {
        match self {
            Decl::Def(name, _) => name.clone(),
            Decl::Defn(name, _, _, _) => name.clone(),
        }
    }
}

/// Whether a vector of strings holds the same text twice.
pub fn has_duplicate(v: &Vec<String>) -> (r: bool)
    ensures
        r == !all_distinct(v.deep_view()),
{
    let ghost dv = v.deep_view();
    let mut i: usize = 0;
    while i < v.len()
        invariant
            dv == v.deep_view(),
            dv.len() == v@.len(),
            forall|k: int| 0 <= k < dv.len() ==> dv[k] == v@[k]@,
            i <= v@.len(),
            forall|a: int, b: int| 0 <= a < b < v@.len() && a < i ==> dv[a] != dv[b],
        decreases v@.len() - i,
    {
        let mut j: usize = i + 1;
        while j < v.len()
            invariant
                dv == v.deep_view(),
                dv.len() == v@.len(),
                forall|k: int| 0 <= k < dv.len() ==> dv[k] == v@[k]@,
                i < j || i + 1 == j,
                i < v@.len(),
                i + 1 <= j <= v@.len(),
                forall|b: int| i < b < j ==> dv[i as int] != dv[b],
            decreases v@.len() - j,
        {
            if crate::literal::str_eq(v[i].as_str(), v[j].as_str()) {
                proof {
                    assert(dv[i as int] == dv[j as int]);
                }
                return true;
            }
            j = j + 1;
        }
        i = i + 1;
    }
    false
}

impl Expr {
    /// Creates an expression representing the nil literal.
    pub fn nil() -> (r: Expr)
        ensures
            r@ == ExprV::Literal(LitV::Nil),
    {
        Expr::Literal(Literal::Nil)
    }

    /// Creates an expression from a literal.
    pub fn from_value(lit: Literal) -> (r: Result<Expr, ErrorKind>)
        ensures
            r is Ok <==> spec_expr_from(lit@) is Some,
            r matches Ok(e) ==> Some(e@) == spec_expr_from(lit@),
            r matches Err(k) ==> matches_ast_err(k, spec_expr_err(lit@)),
    {
        Expr::from_value_ref(&lit)
    }

    /// Creates an expression from a borrowed literal.
    pub fn from_value_ref(lit: &Literal) -> (r: Result<Expr, ErrorKind>)
        ensures
            r is Ok <==> spec_expr_from(lit@) is Some,
            r matches Ok(e) ==> Some(e@) == spec_expr_from(lit@),
            r matches Err(k) ==> matches_ast_err(k, spec_expr_err(lit@)),
        decreases lit, 1int,
    {
        broadcast use crate::literal::lemma_lits_view_index;
        broadcast use lemma_exprs_view_index;

        match lit {
            Literal::Cons(h, t) => {
                proof {
                    assert(**h == lit->Cons_0);
                    assert(**t == lit->Cons_1);
                    assert(*lit@->Cons_0 == crate::literal::lit_view(**h));
                    assert(*lit@->Cons_1 == crate::literal::lit_view(**t));
                }
                if !t.is_list() {
                    return Err(ErrorKind::InvalidExpr(lit.duplicate()));
                }
                let kw_def = match &**h {
                    Literal::Symbol(s) => crate::literal::str_eq(s.as_str(), "intrinsics:def"),
                    _ => false,
                };
                let kw_defn = match &**h {
                    Literal::Symbol(s) => crate::literal::str_eq(s.as_str(), "intrinsics:defn"),
                    _ => false,
                };
                let kw_fn = match &**h {
                    Literal::Symbol(s) => crate::literal::str_eq(s.as_str(), "intrinsics:fn"),
                    _ => false,
                };
                let kw_named_fn = match &**h {
                    Literal::Symbol(s) => crate::literal::str_eq(
                        s.as_str(),
                        "intrinsics:named-fn",
                    ),
                    _ => false,
                };
                let kw_if = match &**h {
                    Literal::Symbol(s) => crate::literal::str_eq(s.as_str(), "if"),
                    _ => false,
                };
                let kw_quote = match &**h {
                    Literal::Symbol(s) => crate::literal::str_eq(s.as_str(), "quote"),
                    _ => false,
                };
                let kw_progn = match &**h {
                    Literal::Symbol(s) => crate::literal::str_eq(s.as_str(), "progn"),
                    _ => false,
                };
                if kw_def || kw_defn {
                    match Decl::from_value_ref(lit) {
                        Ok(d) => Ok(Expr::Decl(Box::new(d))),
                        Err(k) => Err(k),
                    }
                } else if kw_fn {
                    match &**t {
                        Literal::Cons(params, rest) => {
                            proof {
                                assert(**params == (**t)->Cons_0);
                                assert(**rest == (**t)->Cons_1);
                                assert(*(**t)@->Cons_0 == crate::literal::lit_view(**params));
                                assert(*(**t)@->Cons_1 == crate::literal::lit_view(**rest));
                            }
                            match params.as_symbol_list() {
                                Some(ps) => {
                                    let mut es = exprs_from_chain(rest)?;
                                    if es.len() == 0 {
                                        return Err(ErrorKind::InvalidExpr(lit.duplicate()));
                                    }
                                    let ghost pre = es@;
                                    let tail = es.pop().unwrap();
                                    proof {
                                        lemma_exprs_view_index(pre);
                                        lemma_exprs_view_index(es@);
                                        assert(exprs_view(es@) =~= exprs_view(pre).drop_last());
                                    }
                                    Ok(Expr::Lambda(None, ps, es, Box::new(tail)))
                                },
                                None => Err(ErrorKind::InvalidExpr(lit.duplicate())),
                            }
                        },
                        _ => Err(ErrorKind::InvalidExpr(lit.duplicate())),
                    }
                } else if kw_named_fn {
                    match &**t {
                        Literal::Cons(name, t2) => {
                            proof {
                                assert(**name == (**t)->Cons_0);
                                assert(**t2 == (**t)->Cons_1);
                                assert(*(**t)@->Cons_0 == crate::literal::lit_view(**name));
                                assert(*(**t)@->Cons_1 == crate::literal::lit_view(**t2));
                            }
                            match &**t2 {
                                Literal::Cons(params, rest) => {
                                    proof {
                                        assert(**params == (**t2)->Cons_0);
                                        assert(**rest == (**t2)->Cons_1);
                                        assert(*(**t2)@->Cons_0 == crate::literal::lit_view(
                                            **params,
                                        ));
                                        assert(*(**t2)@->Cons_1 == crate::literal::lit_view(
                                            **rest,
                                        ));
                                    }
                                    match &**name {
                                        Literal::Symbol(n) => {
                                            match params.as_symbol_list() {
                                                Some(ps) => {
                                                    let mut es = exprs_from_chain(rest)?;
                                                    if es.len() == 0 {
                                                        return Err(
                                                            ErrorKind::InvalidExpr(
                                                                lit.duplicate(),
                                                            ),
                                                        );
                                                    }
                                                    let ghost pre = es@;
                                                    let tail = es.pop().unwrap();
                                                    proof {
                                                        lemma_exprs_view_index(pre);
                                                        lemma_exprs_view_index(es@);
                                                        assert(exprs_view(es@) =~= exprs_view(
                                                            pre,
                                                        ).drop_last());
                                                    }
                                                    Ok(
                                                        Expr::Lambda(
                                                            Some(n.clone()),
                                                            ps,
                                                            es,
                                                            Box::new(tail),
                                                        ),
                                                    )
                                                },
                                                None => Err(
                                                    ErrorKind::InvalidExpr(lit.duplicate()),
                                                ),
                                            }
                                        },
                                        _ => Err(ErrorKind::InvalidExpr(lit.duplicate())),
                                    }
                                },
                                _ => Err(ErrorKind::InvalidExpr(lit.duplicate())),
                            }
                        },
                        _ => Err(ErrorKind::InvalidExpr(lit.duplicate())),
                    }
                } else if kw_if {
                    match &**t {
                        Literal::Cons(c, t2) => {
                            proof {
                                assert(**c == (**t)->Cons_0);
                                assert(**t2 == (**t)->Cons_1);
                                assert(*(**t)@->Cons_0 == crate::literal::lit_view(**c));
                                assert(*(**t)@->Cons_1 == crate::literal::lit_view(**t2));
                            }
                            match &**t2 {
                                Literal::Cons(th, t3) => {
                                    proof {
                                        assert(**th == (**t2)->Cons_0);
                                        assert(**t3 == (**t2)->Cons_1);
                                        assert(*(**t2)@->Cons_0 == crate::literal::lit_view(
                                            **th,
                                        ));
                                        assert(*(**t2)@->Cons_1 == crate::literal::lit_view(
                                            **t3,
                                        ));
                                    }
                                    match &**t3 {
                                        Literal::Nil => {
                                            let cv = Expr::from_value_ref(c)?;
                                            let tv = Expr::from_value_ref(th)?;
                                            Ok(
                                                Expr::If(
                                                    Box::new(cv),
                                                    Box::new(tv),
                                                    Box::new(Expr::nil()),
                                                ),
                                            )
                                        },
                                        Literal::Cons(e, t4) => {
                                            proof {
                                                assert(**e == (**t3)->Cons_0);
                                                assert(**t4 == (**t3)->Cons_1);
                                                assert(*(**t3)@->Cons_0
                                                    == crate::literal::lit_view(**e));
                                                assert(*(**t3)@->Cons_1
                                                    == crate::literal::lit_view(**t4));
                                            }
                                            match &**t4 {
                                                Literal::Nil => {
                                                    let cv = Expr::from_value_ref(c)?;
                                                    let tv = Expr::from_value_ref(th)?;
                                                    let ev = Expr::from_value_ref(e)?;
                                                    Ok(
                                                        Expr::If(
                                                            Box::new(cv),
                                                            Box::new(tv),
                                                            Box::new(ev),
                                                        ),
                                                    )
                                                },
                                                _ => Err(
                                                    ErrorKind::InvalidExpr(lit.duplicate()),
                                                ),
                                            }
                                        },
                                        _ => Err(ErrorKind::InvalidExpr(lit.duplicate())),
                                    }
                                },
                                _ => Err(ErrorKind::InvalidExpr(lit.duplicate())),
                            }
                        },
                        _ => Err(ErrorKind::InvalidExpr(lit.duplicate())),
                    }
                } else if kw_quote {
                    match &**t {
                        Literal::Cons(x, t2) => {
                            proof {
                                assert(**x == (**t)->Cons_0);
                                assert(**t2 == (**t)->Cons_1);
                                assert(*(**t)@->Cons_0 == crate::literal::lit_view(**x));
                                assert(*(**t)@->Cons_1 == crate::literal::lit_view(**t2));
                            }
                            match &**t2 {
                                Literal::Nil => Ok(Expr::Literal(x.duplicate())),
                                _ => Err(ErrorKind::InvalidExpr(lit.duplicate())),
                            }
                        },
                        _ => Err(ErrorKind::InvalidExpr(lit.duplicate())),
                    }
                } else if kw_progn {
                    let mut es = exprs_from_chain(t)?;
                    if es.len() == 0 {
                        let body: Vec<Expr> = Vec::new();
                        proof {
                            assert(exprs_view(body@) =~= Seq::<ExprV>::empty());
                        }
                        Ok(Expr::Progn(body, Box::new(Expr::nil())))
                    } else {
                        let ghost pre = es@;
                        let tail = es.pop().unwrap();
                        proof {
                            lemma_exprs_view_index(pre);
                            lemma_exprs_view_index(es@);
                            assert(exprs_view(es@) =~= exprs_view(pre).drop_last());
                        }
                        Ok(Expr::Progn(es, Box::new(tail)))
                    }
                } else {
                    let f = Expr::from_value_ref(h)?;
                    let args = exprs_from_chain(t)?;
                    Ok(Expr::Call(Box::new(f), args))
                }
            },
            Literal::Nil => Err(ErrorKind::InvalidExpr(Literal::Nil)),
            Literal::Symbol(s) => Ok(Expr::Var(s.clone())),
            Literal::Vector(vs) => {
                proof {
                    assert(*vs == lit->Vector_0);
                }
                let mut out: Vec<Expr> = Vec::new();
                let mut i: usize = 0;
                while i < vs.len()
                    invariant
                        *lit is Vector,
                        *vs == lit->Vector_0,
                        i <= vs@.len(),
                        spec_exprs_from_seq(lits_view(vs@).take(i as int)) == Some(
                            exprs_view(out@),
                        ),
                        out@.len() == i,
                    decreases vs@.len() - i,
                {
                    broadcast use crate::literal::lemma_lits_view_index;
                    broadcast use lemma_exprs_view_index;

                    proof {
                        assert(decreases_to!(*lit => lit->Vector_0@[i as int]));
                        assert(lit->Vector_0@[i as int] == vs@[i as int]);
                    }
                    let e = match Expr::from_value_ref(&vs[i]) {
                        Ok(e) => e,
                        Err(k) => {
                            proof {
                                let lv = lits_view(vs@);
                                assert(lv.take(vs@.len() as int) =~= lv);
                                lemma_exprs_seq_prefix_none(lv, i as int);
                                lemma_seq_err_at(lv, i as int);
                            }
                            return Err(k);
                        },
                    };
                    out.push(e);
                    proof {
                        let lv = lits_view(vs@);
                        assert(lv.take(i + 1).drop_last() =~= lv.take(i as int));
                        assert(lv.take(i + 1).last() == crate::literal::lit_view(
                            vs@[i as int],
                        ));
                        assert(exprs_view(out@).drop_last() =~= exprs_view(out@.drop_last()));
                    }
                    i = i + 1;
                }
                proof {
                    assert(lits_view(vs@).take(vs@.len() as int) =~= lits_view(vs@));
                }
                Ok(Expr::Vector(out))
            },
            Literal::Byte(n) => Ok(Expr::Literal(Literal::Byte(*n))),
            Literal::Bytes(_) => Ok(Expr::Literal(lit.duplicate())),
            Literal::Fixnum(n) => Ok(Expr::Literal(Literal::Fixnum(*n))),
            Literal::String(_) => Ok(Expr::Literal(lit.duplicate())),
        }
    }
}

/// A failing element makes the whole sequence conversion fail, whatever
/// follows it.
proof fn lemma_exprs_seq_prefix_none(vs: Seq<LitV>, i: int)
    requires
        0 <= i < vs.len(),
        spec_expr_from(vs[i]) is None,
    ensures
        spec_exprs_from_seq(vs) is None,
    decreases vs.len(),
{
    if vs.len() > 0 {
        if i < vs.len() - 1 {
            assert(vs.drop_last()[i] == vs[i]);
            lemma_exprs_seq_prefix_none(vs.drop_last(), i);
        }
    }
}

/// The sequence error is the first failing element's error.
proof fn lemma_seq_err_at(vs: Seq<LitV>, i: int)
    requires
        0 <= i < vs.len(),
        spec_exprs_from_seq(vs.take(i)) is Some,
        spec_expr_from(vs[i]) is None,
    ensures
        spec_seq_err(vs) == spec_expr_err(vs[i]),
    decreases vs.len(),
{
    if i < vs.len() - 1 {
        assert(vs.drop_last().take(i) =~= vs.take(i));
        assert(vs.drop_last()[i] == vs[i]);
        lemma_exprs_seq_prefix_none(vs.drop_last(), i);
        lemma_seq_err_at(vs.drop_last(), i);
    } else {
        assert(vs.drop_last() =~= vs.take(i));
        assert(vs.last() == vs[i]);
    }
}

/// Converts every element of a proper cons chain to an expression.
pub fn exprs_from_chain(lit: &Literal) -> (r: Result<Vec<Expr>, ErrorKind>)
    ensures
        r is Ok <==> spec_exprs_chain(lit@) is Some,
        r matches Ok(v) ==> Some(exprs_view(v@)) == spec_exprs_chain(lit@),
        r matches Err(k) ==> matches_ast_err(k, spec_chain_err(lit@)),
    decreases lit, 0int,
{
    match lit {
        Literal::Nil => {
            let out: Vec<Expr> = Vec::new();
            proof {
                assert(exprs_view(out@) =~= Seq::<ExprV>::empty());
            }
            Ok(out)
        },
        Literal::Cons(h, rest) => {
            proof {
                assert(**h == lit->Cons_0);
                assert(**rest == lit->Cons_1);
                assert(*lit@->Cons_0 == crate::literal::lit_view(**h));
                assert(*lit@->Cons_1 == crate::literal::lit_view(**rest));
            }
            let e = Expr::from_value_ref(h)?;
            let mut v = exprs_from_chain(rest)?;
            let ghost pre = v@;
            v.insert(0, e);
            proof {
                broadcast use lemma_exprs_view_index;

                assert(v@ =~= seq![e] + pre);
                assert(exprs_view(v@) =~= seq![e@] + exprs_view(pre));
            }
            Ok(v)
        },
        _ => Err(ErrorKind::InvalidExpr(lit.duplicate())),
    }
}


/// The attribute pair a literal model describes: a bare symbol, or a
/// symbol-headed cons whose tail is the attribute's value.
pub open spec fn spec_attr_pair(a: LitV) -> Option<(Seq<char>, Option<LitV>)> {
    match a {
        LitV::Symbol(s) => Some((s, None)),
        LitV::Cons(h, t) => match *h {
            LitV::Symbol(s) => Some((s, Some(*t))),
            _ => None,
        },
        _ => None,
    }
}

/// The attribute pairs a sequence of literal models describes.
pub open spec fn spec_attr_pairs(ats: Seq<LitV>) -> Option<Seq<(Seq<char>, Option<LitV>)>>
    decreases ats.len(),
{
    if ats.len() == 0 {
        Some(Seq::empty())
    } else {
        match (spec_attr_pairs(ats.drop_last()), spec_attr_pair(ats.last())) {
            (Some(ps), Some(p)) => Some(ps.push(p)),
            _ => None,
        }
    }
}

/// The parts of a `(HEAD NAME [EXPORT...] ATTR...)` form: its head and
/// name, its export texts, and its attribute pairs.
pub open spec fn spec_modulish_form(l: LitV) -> Option<
    (Seq<char>, Seq<char>, Seq<Seq<char>>, Seq<(Seq<char>, Option<LitV>)>),
> {
    if l matches LitV::Cons(h, t) && *h is Symbol && is_proper_list(*t) {
        let elems = list_elems(*l->Cons_1);
        if elems.len() >= 2 && elems[0] is Symbol && elems[1] is Vector && all_symbols(
            elems[1]->Vector_0,
        ) {
            match spec_attr_pairs(elems.skip(2)) {
                Some(ats) => Some(
                    (l->Cons_0->Symbol_0, elems[0]->Symbol_0, symbol_texts(elems[1]->Vector_0), ats),
                ),
                None => None,
            }
        } else {
            None
        }
    } else {
        None
    }
}

/// The parts of a `(module NAME [EXPORT...] ATTR...)` form: its name, its
/// export texts, and its attribute pairs.
pub open spec fn spec_module_form(l: LitV) -> Option<
    (Seq<char>, Seq<Seq<char>>, Seq<(Seq<char>, Option<LitV>)>),
> {
    match spec_modulish_form(l) {
        Some((hd, name, exports, ats)) => if hd == "module"@ {
            Some((name, exports, ats))
        } else {
            None
        },
        None => None,
    }
}

/// The models of a sequence of attribute pairs held in executable form.
pub open spec fn attr_pairs_view(s: Seq<(String, Option<Literal>)>) -> Seq<
    (Seq<char>, Option<LitV>),
> {
    Seq::new(
        s.len(),
        |i: int|
            (
                s[i].0@,
                match s[i].1 {
                    Some(l) => Some(lit_view(l)),
                    None => None,
                },
            ),
    )
}

/// Membership survives removing later duplicates, and what is left is
/// duplicate-free.
pub proof fn lemma_dedup_first_props<A>(s: Seq<A>)
    ensures
        forall|x: A| #[trigger] dedup_first(s).contains(x) <==> s.contains(x),
        all_distinct_gen(dedup_first(s)),
    decreases s.len(),
{
    if s.len() > 0 {
        lemma_dedup_first_props(s.drop_last());
        let dprev = dedup_first(s.drop_last());
        let d = dedup_first(s);
        assert forall|x: A| s.contains(x) implies (s.drop_last().contains(x) || x == s.last()) by {
            let i = choose|i: int| 0 <= i < s.len() && s[i] == x;
            if i < s.len() - 1 {
                assert(s.drop_last()[i] == x);
            }
        }
        assert forall|x: A| s.drop_last().contains(x) implies s.contains(x) by {
            let i = choose|i: int| 0 <= i < s.drop_last().len() && s.drop_last()[i] == x;
            assert(s[i] == x);
        }
        assert(s.contains(s.last())) by {
            assert(s[s.len() - 1] == s.last());
        }
        if s.drop_last().contains(s.last()) {
            assert(d == dprev);
        } else {
            assert(d == dprev.push(s.last()));
            assert forall|x: A| d.contains(x) implies (dprev.contains(x) || x == s.last()) by {
                let i = choose|i: int| 0 <= i < d.len() && d[i] == x;
                if i < d.len() - 1 {
                    assert(dprev[i] == x);
                }
            }
            assert forall|x: A| dprev.contains(x) implies d.contains(x) by {
                let i = choose|i: int| 0 <= i < dprev.len() && dprev[i] == x;
                assert(d[i] == x);
            }
            assert(d.contains(s.last())) by {
                assert(d[d.len() - 1] == s.last());
            }
            assert(!dprev.contains(s.last()));
            assert forall|i: int, j: int| 0 <= i < j < d.len() implies d[i] != d[j] by {
                if j < d.len() - 1 {
                    assert(dprev[i] == d[i] && dprev[j] == d[j]);
                } else {
                    assert(d[j] == s.last());
                    assert(dprev.contains(d[i])) by {
                        assert(dprev[i] == d[i]);
                    }
                }
            }
        }
    }
}

/// Whether all elements of a sequence are distinct.
pub open spec fn all_distinct_gen<A>(s: Seq<A>) -> bool {
    forall|i: int, j: int| 0 <= i < j < s.len() ==> s[i] != s[j]
}

/// The parts of an `(import MODULE NAME...)`-shaped form with the given head
/// symbol: the module name and the imported names.
pub open spec fn spec_moduleish(head: Seq<char>, l: LitV) -> Option<(Seq<char>, Seq<Seq<char>>)> {
    if is_proper_list(l) && all_symbols(list_elems(l)) && list_elems(l).len() >= 2 && list_elems(
        l,
    )[0] == LitV::Symbol(head) {
        Some((list_elems(l)[1]->Symbol_0, symbol_texts(list_elems(l).skip(2))))
    } else {
        None
    }
}

/// The import pairs of an import form: the module name paired with each
/// imported name.
pub open spec fn spec_import_pairs(l: LitV) -> Option<Seq<(Seq<char>, Seq<char>)>> {
    match spec_moduleish("import"@, l) {
        Some((m, names)) => Some(Seq::new(names.len(), |i: int| (m, names[i]))),
        None => None,
    }
}

/// The index of the first literal at or after `i` that is not an import
/// form.
pub open spec fn first_non_import(ls: Seq<LitV>, i: int) -> int
    decreases ls.len() - i,
{
    if i < 0 || i >= ls.len() {
        i
    } else if spec_import_pairs(ls[i]) is Some {
        first_non_import(ls, i + 1)
    } else {
        i
    }
}

/// The concatenated import pairs of the import forms `ls[from..to]`.
pub open spec fn spec_imports_flat(ls: Seq<LitV>, from: int, to: int) -> Seq<
    (Seq<char>, Seq<char>),
>
    decreases to - from,
{
    if from >= to {
        Seq::empty()
    } else {
        spec_imports_flat(ls, from, to - 1) + match spec_import_pairs(ls[to - 1]) {
            Some(ps) => ps,
            None => Seq::empty(),
        }
    }
}

/// The declarations described by `ls[from..]`, if each one is valid.
pub open spec fn spec_decls_from(ls: Seq<LitV>, from: int) -> Option<Seq<DeclV>>
    decreases ls.len() - from,
{
    if from >= ls.len() {
        Some(Seq::empty())
    } else {
        match (spec_decl_from(ls[from]), spec_decls_from(ls, from + 1)) {
            (Some(d), Some(ds)) => Some(seq![d] + ds),
            _ => None,
        }
    }
}

/// The attributes described by a sequence of attribute pairs, if each one is
/// a known attribute.
pub open spec fn spec_attrs(ats: Seq<(Seq<char>, Option<LitV>)>) -> Option<Seq<Attr>>
    decreases ats.len(),
{
    if ats.len() == 0 {
        Some(Seq::empty())
    } else {
        let last = ats.last();
        if last.0 == "no-prelude"@ && last.1 is None {
            match spec_attrs(ats.drop_last()) {
                Some(s) => Some(s.push(Attr::NoPrelude)),
                None => None,
            }
        } else {
            None
        }
    }
}

/// A sequence with the first occurrence of each element of `s`, in order.
pub open spec fn dedup_first<A>(s: Seq<A>) -> Seq<A>
    decreases s.len(),
{
    if s.len() == 0 {
        Seq::empty()
    } else if s.drop_last().contains(s.last()) {
        dedup_first(s.drop_last())
    } else {
        dedup_first(s.drop_last()).push(s.last())
    }
}


/// Tries to read a statement of the form `(HEAD NAME SYM...)`, returning the
/// name and the following symbols.
pub fn convert_moduleish(head: &str, lit: &Literal) -> (r: Option<(String, Vec<String>)>)
    ensures
        r is Some <==> spec_moduleish(head@, lit@) is Some,
        r matches Some((name, rest)) ==> spec_moduleish(head@, lit@) == Some(
            (name@, rest.deep_view()),
        ),
{
    match lit.as_symbol_list() {
        Some(syms) => {
            proof {
                let elems = list_elems(lit@);
                let texts = symbol_texts(elems);
                assert(syms.deep_view() == texts);
                assert(syms.deep_view().len() == syms@.len());
                assert(texts.len() == elems.len());
                if elems.len() >= 1 {
                    assert(elems[0] is Symbol);
                    assert(elems[0] == LitV::Symbol(texts[0]));
                    assert(syms.deep_view()[0] == syms@[0]@);
                }
                if elems.len() >= 2 {
                    assert(elems[1] is Symbol);
                    assert(elems[1] == LitV::Symbol(texts[1]));
                    assert(syms.deep_view()[1] == syms@[1]@);
                    assert(symbol_texts(elems.skip(2)) =~= texts.skip(2));
                }
            }
            if syms.len() >= 2 && crate::literal::str_eq(syms[0].as_str(), head) {
                let name = syms[1].clone();
                let mut rest: Vec<String> = Vec::new();
                let mut i: usize = 2;
                while i < syms.len()
                    invariant
                        2 <= i <= syms@.len(),
                        rest@.len() == i - 2,
                        forall|j: int| 0 <= j < i - 2 ==> #[trigger] rest@[j]@ == syms@[j + 2]@,
                    decreases syms@.len() - i,
                {
                    let e = syms[i].clone();
                    rest.push(e);
                    i = i + 1;
                }
                proof {
                    assert(rest.deep_view() =~= syms.deep_view().skip(2));
                }
                Some((name, rest))
            } else {
                None
            }
        },
        None => None,
    }
}

/// Checks if a literal is a statement similar to a `module` or `import`
/// statement.
pub fn is_moduleish(head: &str, lit: &Literal) -> (r: bool)
    ensures
        r == (spec_moduleish(head@, lit@) is Some),
{
    convert_moduleish(head, lit).is_some()
}

/// Tries to read an `(import MODULE NAME...)` statement.
pub fn convert_import(lit: &Literal) -> (r: Option<(String, Vec<String>)>)
    ensures
        r is Some <==> spec_import_pairs(lit@) is Some,
        r matches Some((m, names)) ==> spec_import_pairs(lit@) == Some(
            Seq::new(names.deep_view().len(), |i: int| (m@, names.deep_view()[i])),
        ),
{
    let r = convert_moduleish("import", lit);
    proof {
        if spec_moduleish("import"@, lit@) is Some {
            let (m, names) = spec_moduleish("import"@, lit@)->0;
            if r is Some {
                let (rm, rn) = r->0;
                assert(Seq::new(rn.deep_view().len(), |i: int| (rm@, rn.deep_view()[i])) =~= Seq::new(
                    names.len(),
                    |i: int| (m, names[i]),
                )) by {
                    assert(rm@ == m);
                    assert(rn.deep_view() == names);
                }
            }
        }
    }
    r
}

/// Checks if a literal is an `import` statement.
pub fn is_import(lit: &Literal) -> (r: bool)
    ensures
        r == (spec_import_pairs(lit@) is Some),
{
    convert_import(lit).is_some()
}


/// Tries to read a `module`-like statement: its head and name, its exports
/// vector, and its attribute pairs.
#[verifier::loop_isolation(false)]
pub fn convert_modulish(lit: &Literal) -> (r: Option<
    (String, String, Vec<String>, Vec<(String, Option<Literal>)>),
>)
    ensures
        r is Some <==> spec_modulish_form(lit@) is Some,
        r matches Some((hd, name, exports, attrs)) ==> spec_modulish_form(lit@) == Some(
            (hd@, name@, exports.deep_view(), attr_pairs_view(attrs@)),
        ),
{
    let (hd, items) = match lit.as_shl() {
        Some(p) => p,
        None => {
            return None;
        },
    };
    let ghost elems = list_elems(*lit@->Cons_1);
    proof {
        assert(lits_view(items@) == elems);
        broadcast use crate::literal::lemma_lits_view_index;

        assert(elems.len() == items@.len());
    }
    if items.len() < 2 {
        return None;
    }
    proof {
        broadcast use crate::literal::lemma_lits_view_index;

        assert(items@[0]@ == elems[0]);
        assert(items@[1]@ == elems[1]);
    }
    let name = match &items[0] {
        Literal::Symbol(s) => s.clone(),
        _ => {
            proof {
                assert(!(elems[0] is Symbol));
            }
            return None;
        },
    };
    let exports: Vec<String> = match &items[1] {
        Literal::Vector(vs) => {
            proof {
                assert(*vs == items@[1 as int]->Vector_0);
                assert(lits_view(vs@) == elems[1]->Vector_0);
            }
            let mut out: Vec<String> = Vec::new();
            let mut i: usize = 0;
            while i < vs.len()
                invariant
                    lits_view(vs@) == elems[1]->Vector_0,
                    i <= vs@.len(),
                    out@.len() == i,
                    forall|j: int| 0 <= j < i ==> lits_view(vs@)[j] is Symbol,
                    forall|j: int|
                        0 <= j < i ==> #[trigger] out@[j]@ == lits_view(vs@)[j]->Symbol_0,
                decreases vs@.len() - i,
            {
                broadcast use crate::literal::lemma_lits_view_index;

                match &vs[i] {
                    Literal::Symbol(s) => {
                        out.push(s.clone());
                    },
                    _ => {
                        proof {
                            assert(lits_view(vs@)[i as int] == vs@[i as int]@);
                            assert(!(elems[1]->Vector_0[i as int] is Symbol));
                            assert(!all_symbols(elems[1]->Vector_0));
                        }
                        return None;
                    },
                }
                i = i + 1;
            }
            proof {
                broadcast use crate::literal::lemma_lits_view_index;

                assert(all_symbols(elems[1]->Vector_0));
                assert(out.deep_view() =~= symbol_texts(elems[1]->Vector_0));
            }
            out
        },
        _ => {
            proof {
                assert(!(elems[1] is Vector));
            }
            return None;
        },
    };
    let mut attrs: Vec<(String, Option<Literal>)> = Vec::new();
    let mut i: usize = 2;
    proof {
        assert(spec_attr_pairs(elems.skip(2).take(0)) =~= Some(
            attr_pairs_view(attrs@),
        )) by {
            assert(elems.skip(2).take(0) =~= Seq::<LitV>::empty());
            assert(attr_pairs_view(attrs@) =~= Seq::<(Seq<char>, Option<LitV>)>::empty());
        }
    }
    while i < items.len()
        invariant
            lits_view(items@) == elems,
            2 <= i <= items@.len(),
            attrs@.len() == i - 2,
            spec_attr_pairs(elems.skip(2).take(i - 2)) == Some(attr_pairs_view(attrs@)),
        decreases items@.len() - i,
    {
        broadcast use crate::literal::lemma_lits_view_index;

        let ghost preattrs = attrs@;
        match &items[i] {
            Literal::Symbol(s) => {
                attrs.push((s.clone(), None));
            },
            Literal::Cons(h, t) => {
                proof {
                    assert(**h == items@[i as int]->Cons_0);
                    assert(**t == items@[i as int]->Cons_1);
                    assert(*items@[i as int]@->Cons_0 == crate::literal::lit_view(**h));
                    assert(*items@[i as int]@->Cons_1 == crate::literal::lit_view(**t));
                }
                match &**h {
                    Literal::Symbol(s) => {
                        attrs.push((s.clone(), Some(t.duplicate())));
                    },
                    _ => {
                        proof {
                            assert(elems.skip(2)[i - 2] == elems[i as int]);
                            assert(spec_attr_pair(elems[i as int]) is None);
                            lemma_attr_pairs_prefix_none(elems.skip(2), i - 2);
                        }
                        return None;
                    },
                }
            },
            _ => {
                proof {
                    assert(elems.skip(2)[i - 2] == elems[i as int]);
                    assert(spec_attr_pair(elems[i as int]) is None);
                    lemma_attr_pairs_prefix_none(elems.skip(2), i - 2);
                }
                return None;
            },
        }
        proof {
            let ats = elems.skip(2);
            assert(ats.take(i - 1).drop_last() =~= ats.take(i - 2));
            assert(ats.take(i - 1).last() == elems[i as int]);
            assert(attr_pairs_view(attrs@).drop_last() =~= attr_pairs_view(preattrs));
            assert(attr_pairs_view(attrs@).last() == spec_attr_pair(elems[i as int])->0);
        }
        i = i + 1;
    }
    proof {
        assert(elems.skip(2).take(items@.len() - 2) =~= elems.skip(2));
    }
    Some((hd, name, exports, attrs))
}

/// A bad element makes the whole attribute-pair conversion fail.
proof fn lemma_attr_pairs_prefix_none(ats: Seq<LitV>, i: int)
    requires
        0 <= i < ats.len(),
        spec_attr_pair(ats[i]) is None,
    ensures
        spec_attr_pairs(ats) is None,
    decreases ats.len(),
{
    if ats.len() > 0 {
        if i < ats.len() - 1 {
            assert(ats.drop_last()[i] == ats[i]);
            lemma_attr_pairs_prefix_none(ats.drop_last(), i);
        }
    }
}

/// Tries to read a `(module NAME [EXPORT...] ATTR...)` statement.
pub fn convert_module(lit: &Literal) -> (r: Option<
    (String, Vec<String>, Vec<(String, Option<Literal>)>),
>)
    ensures
        r is Some <==> spec_module_form(lit@) is Some,
        r matches Some((name, exports, attrs)) ==> spec_module_form(lit@) == Some(
            (name@, exports.deep_view(), attr_pairs_view(attrs@)),
        ),
{
    match convert_modulish(lit) {
        Some((hd, name, exports, attrs)) => {
            if crate::literal::str_eq(hd.as_str(), "module") {
                Some((name, exports, attrs))
            } else {
                None
            }
        },
        None => None,
    }
}


/// Whether a sequence of literal models forms a valid module source file:
/// a module form first, recognized attributes, and valid declarations after
/// the import run.
pub open spec fn from_values_ok(ls: Seq<LitV>) -> bool {
    &&& ls.len() > 0
    &&& spec_module_form(ls[0]) is Some
    &&& spec_attrs((spec_module_form(ls[0])->0).2) is Some
    &&& spec_decls_from(ls, first_non_import(ls, 1)) is Some
}

impl Module {
    /// Creates a module from the literals of one source file: the `module`
    /// form, then a contiguous run of `import` forms, then declarations.
    #[verifier::loop_isolation(false)]
    pub fn from_values(path: &str, l: Vec<Literal>) -> (r: Result<Module, ErrorKind>)
        ensures
            ({
                let ls = lits_view(l@);
                let fni = first_non_import(ls, 1);
                &&& r is Ok <==> from_values_ok(ls)
                &&& r matches Ok(m) ==> {
                    let (name, exports, ats) = spec_module_form(ls[0])->0;
                    &&& m@.name == name
                    &&& m@.exports == dedup_first(exports)
                    &&& m@.imports == dedup_first(spec_imports_flat(ls, 1, fni))
                    &&& m@.attrs == spec_attrs(ats)->0
                    &&& m@.body == spec_decls_from(ls, fni)->0
                }
                &&& (ls.len() == 0 || spec_module_form(ls[0]) is None) ==> (
                r matches Err(k) && k matches ErrorKind::NoModuleForm(p) && p@ == path@)
                &&& r matches Err(k) ==> (k is NoModuleForm || k is UnknownAttr || k is InvalidDecl
                    || k is InvalidExpr)
            }),
    {
        broadcast use crate::literal::lemma_lits_view_index;
        broadcast use lemma_decls_view_index;

        let ghost ls = lits_view(l@);
        if l.len() == 0 {
            return Err(ErrorKind::NoModuleForm(path.to_owned()));
        }
        let (name, raw_exports, raw_attrs) = match convert_module(&l[0]) {
            Some(parts) => parts,
            None => {
                return Err(ErrorKind::NoModuleForm(path.to_owned()));
            },
        };
        let ghost spec_ats = (spec_module_form(ls[0])->0).2;

        // Recognize the attributes.
        let mut attrs: Vec<Attr> = Vec::new();
        let mut i: usize = 0;
        proof {
            assert(attr_pairs_view(raw_attrs@) == spec_ats);
            assert(spec_attrs(spec_ats.take(0)) =~= Some(attrs@)) by {
                assert(spec_ats.take(0) =~= Seq::<(Seq<char>, Option<LitV>)>::empty());
                assert(attrs@ =~= Seq::<Attr>::empty());
            }
        }
        while i < raw_attrs.len()
            invariant
                i <= raw_attrs@.len(),
                spec_attrs(spec_ats.take(i as int)) == Some(attrs@),
            decreases raw_attrs@.len() - i,
        {
            let (n, v) = &raw_attrs[i];
            proof {
                assert(spec_ats[i as int] == attr_pairs_view(raw_attrs@)[i as int]);
                assert(spec_ats.take(i + 1).drop_last() =~= spec_ats.take(i as int));
                assert(spec_ats.take(i + 1).last() == spec_ats[i as int]);
            }
            match Attr::from_values(n.as_str(), v.as_ref()) {
                Some(a) => {
                    attrs.push(a);
                },
                None => {
                    proof {
                        lemma_attrs_prefix_none(spec_ats, i as int);
                    }
                    let value = match v {
                        Some(lit) => lit.duplicate(),
                        None => Literal::Nil,
                    };
                    return Err(
                        ErrorKind::UnknownAttr(
                            name.clone(),
                            Literal::Cons(
                                Box::new(Literal::Symbol(n.clone())),
                                Box::new(value),
                            ),
                        ),
                    );
                },
            }
            i = i + 1;
        }
        proof {
            assert(spec_ats.take(spec_ats.len() as int) =~= spec_ats);
        }

        // Consume the contiguous run of import forms.
        let mut imports: Vec<(String, String)> = Vec::new();
        let mut i: usize = 1;
        proof {
            assert(dedup_first(spec_imports_flat(ls, 1, 1)) =~= imports@.map_values(
                |p: (String, String)| (p.0@, p.1@),
            ));
        }
        let mut done = false;
        while !done
            invariant
                1 <= i <= l@.len(),
                forall|j: int| 1 <= j < i ==> spec_import_pairs(ls[j]) is Some,
                imports@.map_values(|p: (String, String)| (p.0@, p.1@)) == dedup_first(
                    spec_imports_flat(ls, 1, i as int),
                ),
                done ==> (i == l@.len() || spec_import_pairs(ls[i as int]) is None),
            decreases l@.len() - i + (if done {
                0int
            } else {
                1int
            }),
        {
            if i >= l.len() {
                done = true;
                continue ;
            }
            if !is_import(&l[i]) {
                done = true;
                continue ;
            }
            let (m, names) = convert_import(&l[i]).unwrap();
            let ghost flat_pre = spec_imports_flat(ls, 1, i as int);
            let ghost pairs = spec_import_pairs(ls[i as int])->0;
            let mut k: usize = 0;
            while k < names.len()
                invariant
                    k <= names@.len(),
                    imports@.map_values(|p: (String, String)| (p.0@, p.1@)) == dedup_first(
                        flat_pre + pairs.take(k as int),
                    ),
                decreases names@.len() - k,
            {
                proof {
                    assert(pairs[k as int] == (m@, names.deep_view()[k as int]));
                    assert(names.deep_view()[k as int] == names@[k as int]@);
                    assert((flat_pre + pairs.take(k + 1)).drop_last() =~= flat_pre + pairs.take(
                        k as int,
                    ));
                    assert((flat_pre + pairs.take(k + 1)).last() == pairs[k as int]);
                }
                let pair_new = (m.clone(), names[k].clone());
                let mut found = false;
                let mut q: usize = 0;
                let ghost iview = imports@.map_values(|p: (String, String)| (p.0@, p.1@));
                while q < imports.len()
                    invariant
                        q <= imports@.len(),
                        iview == imports@.map_values(|p: (String, String)| (p.0@, p.1@)),
                        found ==> iview.contains((m@, names@[k as int]@)),
                        !found ==> forall|b: int|
                            0 <= b < q ==> iview[b] != (m@, names@[k as int]@),
                    decreases imports@.len() - q,
                {
                    if !found && crate::literal::str_eq(imports[q].0.as_str(), pair_new.0.as_str())
                        && crate::literal::str_eq(imports[q].1.as_str(), pair_new.1.as_str()) {
                        found = true;
                        proof {
                            assert(iview[q as int] == (m@, names@[k as int]@));
                        }
                    }
                    q = q + 1;
                }
                proof {
                    if !found {
                        assert(forall|b: int|
                            0 <= b < iview.len() ==> iview[b] != (m@, names@[k as int]@));
                        assert(!iview.contains((m@, names@[k as int]@)));
                    }
                    assert(iview.contains((m@, names@[k as int]@)) <==> (flat_pre + pairs.take(
                        k as int,
                    )).contains((m@, names@[k as int]@))) by {
                        lemma_dedup_first_props(flat_pre + pairs.take(k as int));
                    }
                }
                if !found {
                    imports.push(pair_new);
                    proof {
                        assert(imports@.map_values(|p: (String, String)| (p.0@, p.1@)) =~= iview.push(
                            (m@, names@[k as int]@),
                        ));
                    }
                } else {
                    proof {
                        assert(imports@.map_values(|p: (String, String)| (p.0@, p.1@)) =~= iview);
                    }
                }
                k = k + 1;
            }
            proof {
                assert(pairs.take(names@.len() as int) =~= pairs);
                assert(spec_imports_flat(ls, 1, i + 1) =~= flat_pre + pairs);
            }
            i = i + 1;
        }
        proof {
            assert(i as int == first_non_import(ls, 1)) by {
                lemma_first_non_import(ls, 1, i as int);
            }
        }
        let ghost fni = i as int;

        // Parse the remaining literals as declarations.
        let mut body: Vec<Decl> = Vec::new();
        let mut j: usize = i;
        while j < l.len()
            invariant
                fni <= j <= l@.len(),
                spec_decls_from(ls, fni) matches Some(ds) ==> (ds.len() >= j - fni && decls_view(
                    body@,
                ) == ds.take(j - fni)),
                spec_decls_from(ls, j as int) is Some ==> spec_decls_from(ls, fni) is Some,
                body@.len() == j - fni,
            decreases l@.len() - j,
        {
            let d = match Decl::from_value_ref(&l[j]) {
                Ok(d) => d,
                Err(k) => {
                    proof {
                        lemma_decls_from_none(ls, fni, j as int);
                    }
                    return Err(k);
                },
            };
            let ghost preb = body@;
            body.push(d);
            proof {
                match spec_decls_from(ls, fni) {
                    Some(ds) => {
                        lemma_decls_from_some(ls, fni, j as int);
                        lemma_decls_from_len(ls, fni);
                        lemma_decls_from_index(ls, fni, j as int);
                        assert(body@.drop_last() =~= preb);
                        assert(decls_view(body@).drop_last() =~= decls_view(preb));
                        assert(ds.take(j - fni + 1).drop_last() =~= ds.take(j - fni));
                        assert(ds.take(j - fni + 1).last() == ds[j - fni]);
                        assert(decls_view(body@) =~= ds.take(j - fni + 1));
                    },
                    None => {},
                }
            }
            j = j + 1;
        }
        proof {
            match spec_decls_from(ls, fni) {
                Some(ds) => {
                    assert(ds.len() == l@.len() - fni) by {
                        lemma_decls_from_len(ls, fni);
                    }
                    assert(ds.take(ds.len() as int) =~= ds);
                },
                None => {},
            }
        }

        // Deduplicate the exports, keeping first occurrences.
        let mut exports: Vec<String> = Vec::new();
        let mut e: usize = 0;
        let ghost spec_exports = (spec_module_form(ls[0])->0).1;
        proof {
            assert(raw_exports.deep_view() == spec_exports);
            assert(exports.deep_view() =~= dedup_first(spec_exports.take(0))) by {
                assert(spec_exports.take(0) =~= Seq::<Seq<char>>::empty());
            }
        }
        while e < raw_exports.len()
            invariant
                e <= raw_exports@.len(),
                exports.deep_view() == dedup_first(spec_exports.take(e as int)),
            decreases raw_exports@.len() - e,
        {
            let ghost eview = exports.deep_view();
            let mut found = false;
            let mut q: usize = 0;
            while q < exports.len()
                invariant
                    q <= exports@.len(),
                    eview == exports.deep_view(),
                    found ==> eview.contains(raw_exports@[e as int]@),
                    !found ==> forall|b: int| 0 <= b < q ==> eview[b] != raw_exports@[e as int]@,
                decreases exports@.len() - q,
            {
                if !found && crate::literal::str_eq(
                    exports[q].as_str(),
                    raw_exports[e].as_str(),
                ) {
                    found = true;
                    proof {
                        assert(eview[q as int] == raw_exports@[e as int]@);
                    }
                }
                q = q + 1;
            }
            proof {
                assert(raw_exports@[e as int]@ == spec_exports[e as int]);
                assert(spec_exports.take(e + 1).drop_last() =~= spec_exports.take(e as int));
                assert(spec_exports.take(e + 1).last() == spec_exports[e as int]);
                if !found {
                    assert(!eview.contains(spec_exports[e as int]));
                }
                assert(eview.contains(spec_exports[e as int]) <==> spec_exports.take(
                    e as int,
                ).contains(spec_exports[e as int])) by {
                    lemma_dedup_first_props(spec_exports.take(e as int));
                }
            }
            if !found {
                let x = raw_exports[e].clone();
                exports.push(x);
                proof {
                    assert(exports.deep_view() =~= eview.push(spec_exports[e as int]));
                }
            }
            e = e + 1;
        }
        proof {
            assert(spec_exports.take(spec_exports.len() as int) =~= spec_exports);
        }

        let m = Module { name, exports, imports, attrs, body };
        proof {
            assert(m@.imports =~= imports@.map_values(|p: (String, String)| (p.0@, p.1@)));
        }
        Ok(m)
    }
}

/// An unknown attribute makes the whole attribute conversion fail.
proof fn lemma_attrs_prefix_none(ats: Seq<(Seq<char>, Option<LitV>)>, i: int)
    requires
        0 <= i < ats.len(),
        !(ats[i].0 == "no-prelude"@ && ats[i].1 is None),
    ensures
        spec_attrs(ats) is None,
    decreases ats.len(),
{
    if ats.len() > 0 {
        if i < ats.len() - 1 {
            assert(ats.drop_last()[i] == ats[i]);
            lemma_attrs_prefix_none(ats.drop_last(), i);
        }
    }
}

/// A run of import forms followed by a non-import pins down the first
/// non-import index.
proof fn lemma_first_non_import(ls: Seq<LitV>, from: int, i: int)
    requires
        0 <= from <= i <= ls.len(),
        forall|j: int| from <= j < i ==> spec_import_pairs(ls[j]) is Some,
        i == ls.len() || spec_import_pairs(ls[i]) is None,
    ensures
        first_non_import(ls, from) == i,
    decreases i - from,
{
    if from < i {
        lemma_first_non_import(ls, from + 1, i);
    }
}

/// A bad declaration literal makes the declaration conversion fail.
proof fn lemma_decls_from_none(ls: Seq<LitV>, from: int, j: int)
    requires
        0 <= from <= j < ls.len(),
        spec_decl_from(ls[j]) is None,
    ensures
        spec_decls_from(ls, from) is None,
    decreases j - from,
{
    if from < j {
        lemma_decls_from_none(ls, from + 1, j);
    }
}

/// If the whole conversion succeeds, each element's conversion succeeds.
proof fn lemma_decls_from_some(ls: Seq<LitV>, from: int, j: int)
    requires
        0 <= from <= j < ls.len(),
        spec_decls_from(ls, from) is Some,
    ensures
        spec_decl_from(ls[j]) is Some,
        spec_decls_from(ls, j) is Some,
    decreases j - from,
{
    if from < j {
        lemma_decls_from_some(ls, from + 1, j);
    }
}

/// The elements of a successful declaration conversion.
proof fn lemma_decls_from_index(ls: Seq<LitV>, from: int, j: int)
    requires
        0 <= from <= j < ls.len(),
        spec_decls_from(ls, from) is Some,
    ensures
        spec_decls_from(ls, from)->0.len() == ls.len() - from,
        spec_decls_from(ls, from)->0[j - from] == spec_decl_from(ls[j])->0,
    decreases j - from,
{
    lemma_decls_from_len(ls, from);
    if from < j {
        lemma_decls_from_index(ls, from + 1, j);
        assert(spec_decls_from(ls, from)->0 == seq![spec_decl_from(ls[from])->0]
            + spec_decls_from(ls, from + 1)->0);
    }
}

/// The length of a successful declaration conversion.
proof fn lemma_decls_from_len(ls: Seq<LitV>, from: int)
    requires
        0 <= from <= ls.len(),
        spec_decls_from(ls, from) is Some,
    ensures
        spec_decls_from(ls, from)->0.len() == ls.len() - from,
    decreases ls.len() - from,
{
    if from < ls.len() {
        lemma_decls_from_len(ls, from + 1);
    }
}

} // verus!
