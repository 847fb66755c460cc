//! The deterministic little-endian bytecode encoding of a linked program.
//!
//! Fixnums are encoded as their 64-bit two's-complement image; all counts
//! and lengths are 64-bit little-endian; strings are length-prefixed UTF-8.

use vstd::prelude::*;

use crate::flatanf::{
    aexpr_view, aexprs_view, cexpr_view, expr_view, lemma_aexprs_view_index,
    lemma_letrec_view_index, letrec_view, AExpr, AExprV, CExpr, CExprV, Expr, ExprV, Program,
    ProgramV,
};
use crate::literal::{lit_view, lits_view, LitV, Literal};
use vstd::utf8::encode_utf8;

verus! {

/// The eight little-endian bytes of a 64-bit value.
pub open spec fn u64_le(n: u64) -> Seq<u8> {
    Seq::new(8, |i: int| ((n >> (8 * i)) & 0xff) as u8)
}

/// A length-prefixed UTF-8 string: the byte length, then the bytes.
pub open spec fn ser_str(s: Seq<char>) -> Seq<u8> {
    u64_le(encode_utf8(s).len() as u64) + encode_utf8(s)
}

/// The encoding of a literal.
pub open spec fn ser_lit(l: LitV) -> Seq<u8>
    decreases l, 0int,
{
    match l {
        LitV::Byte(n) => seq![0x00u8, n],
        LitV::Bytes(bs) => seq![0x01u8] + u64_le(bs.len() as u64) + bs,
        LitV::Cons(h, t) => seq![0x02u8] + ser_lit(*h) + ser_lit(*t),
        LitV::Fixnum(n) => seq![0x03u8] + u64_le(n as u64),
        LitV::Nil => seq![0x04u8],
        LitV::Str(s) => seq![0x05u8] + ser_str(s),
        LitV::Symbol(s) => seq![0x06u8] + ser_str(s),
        LitV::Vector(vs) => seq![0x07u8] + u64_le(vs.len() as u64) + ser_lits(vs),
    }
}

/// The encodings of a sequence of literals, concatenated.
pub open spec fn ser_lits(vs: Seq<LitV>) -> Seq<u8>
    decreases vs, 1int,
{
    if vs.len() == 0 {
        Seq::empty()
    } else {
        ser_lits(vs.drop_last()) + ser_lit(vs.last())
    }
}

/// The encoding of an atomic expression.
pub open spec fn ser_aexpr(a: AExprV) -> Seq<u8>
    decreases a, 0int,
{
    match a {
        AExprV::Global(name) => seq![0x05u8] + ser_str(name),
        AExprV::Lambda(name, argn, body) => seq![0x06u8] + ser_str(
            match name {
                Some(n) => n,
                None => Seq::empty(),
            },
        ) + u64_le(argn as u64) + ser_expr(*body),
        AExprV::Literal(l) => seq![0x07u8] + ser_lit(l),
        AExprV::Local(n) => seq![0x08u8] + u64_le(n as u64),
        AExprV::Vector(es) => seq![0x09u8] + u64_le(es.len() as u64) + ser_aexprs(es),
    }
}

/// The encodings of a sequence of atomic expressions, concatenated.
pub open spec fn ser_aexprs(es: Seq<AExprV>) -> Seq<u8>
    decreases es, 1int,
{
    if es.len() == 0 {
        Seq::empty()
    } else {
        ser_aexprs(es.drop_last()) + ser_aexpr(es.last())
    }
}

/// The encoding of a complex expression.
pub open spec fn ser_cexpr(c: CExprV) -> Seq<u8>
    decreases c, 2int,
{
    match c {
        CExprV::Call(f, args) => seq![0x02u8] + ser_aexpr(f) + u64_le(args.len() as u64)
            + ser_aexprs(args),
        CExprV::If(cond, t, e) => seq![0x03u8] + ser_aexpr(cond) + ser_expr(*t) + ser_expr(*e),
        CExprV::LetRec(bound, body) => seq![0x04u8] + u64_le(bound.len() as u64) + ser_letrec(
            bound,
        ) + ser_expr(*body),
    }
}

/// The encodings of a sequence of letrec bindings, concatenated.
pub open spec fn ser_letrec(bound: Seq<(Seq<char>, nat, ExprV)>) -> Seq<u8>
    decreases bound, 1int,
{
    if bound.len() == 0 {
        Seq::empty()
    } else {
        ser_letrec(bound.drop_last()) + (ser_str(bound.last().0) + u64_le(
            bound.last().1 as u64,
        ) + ser_expr(bound.last().2))
    }
}

/// The encoding of an expression.
pub open spec fn ser_expr(e: ExprV) -> Seq<u8>
    decreases e, 3int,
{
    match e {
        ExprV::AExpr(a) => ser_aexpr(a),
        ExprV::CExpr(c) => ser_cexpr(c),
        ExprV::Let(a, b) => seq![0x00u8] + ser_expr(*a) + ser_expr(*b),
        ExprV::Sequence(a, b) => seq![0x01u8] + ser_expr(*a) + ser_expr(*b),
    }
}

/// The four magic bytes `ofta` that begin every bytecode file.
pub open spec fn magic() -> Seq<u8> {
    seq![0x6fu8, 0x66u8, 0x74u8, 0x61u8]
}

/// The encodings of the declarations: each name, then its expression.
pub open spec fn ser_decls(ds: Seq<(Seq<char>, ExprV)>) -> Seq<u8>
    decreases ds.len(),
{
    if ds.len() == 0 {
        Seq::empty()
    } else {
        ser_decls(ds.drop_last()) + (ser_str(ds.last().0) + ser_expr(ds.last().1))
    }
}

/// The encodings of the intrinsic names, concatenated.
pub open spec fn ser_names(ns: Seq<Seq<char>>) -> Seq<u8>
    decreases ns.len(),
{
    if ns.len() == 0 {
        Seq::empty()
    } else {
        ser_names(ns.drop_last()) + ser_str(ns.last())
    }
}

/// The encoding of a whole program: magic, intrinsics, declarations.
pub open spec fn ser_program(p: ProgramV) -> Seq<u8> {
    magic() + u64_le(p.intrinsics.len() as u64) + ser_names(p.intrinsics) + u64_le(
        p.decls.len() as u64,
    ) + ser_decls(p.decls)
}

/// Appends the little-endian bytes of `n`.
pub fn push_u64_le(out: &mut Vec<u8>, n: u64)
    ensures
        final(out)@ == old(out)@ + u64_le(n),
{
    let mut i: usize = 0;
    #[verifier::loop_isolation(false)]
    while i < 8
        invariant
            i <= 8,
            out@ == old(out)@ + u64_le(n).take(i as int),
        decreases 8 - i,
    {
        let b = ((n >> ((8 * i) as u64)) & 0xff) as u8;
        out.push(b);
        proof {
            assert(u64_le(n).take(i + 1) =~= u64_le(n).take(i as int).push(u64_le(n)[i as int]));
            assert(out@ =~= old(out)@ + u64_le(n).take(i + 1));
        }
        i = i + 1;
    }
    proof {
        assert(u64_le(n).take(8) =~= u64_le(n));
    }
}

/// Appends the bytes of a slice.
pub fn push_bytes(out: &mut Vec<u8>, bs: &[u8])
    ensures
        final(out)@ == old(out)@ + bs@,
{
    let mut i: usize = 0;
    #[verifier::loop_isolation(false)]
    while i < bs.len()
        invariant
            i <= bs@.len(),
            out@ == old(out)@ + bs@.take(i as int),
        decreases bs@.len() - i,
    {
        out.push(bs[i]);
        proof {
            assert(bs@.take(i + 1) =~= bs@.take(i as int).push(bs@[i as int]));
            assert(out@ =~= old(out)@ + bs@.take(i + 1));
        }
        i = i + 1;
    }
    proof {
        assert(bs@.take(bs@.len() as int) =~= bs@);
    }
}

/// Appends a length-prefixed UTF-8 string.
pub fn serialize_str(out: &mut Vec<u8>, s: &str)
    ensures
        final(out)@ == old(out)@ + ser_str(s@),
{
    let bs = s.as_bytes();
    push_u64_le(out, bs.len() as u64);
    push_bytes(out, bs);
    proof {
        assert(out@ =~= old(out)@ + ser_str(s@));
    }
}

/// Appends the encoding of a literal.
pub fn serialize_lit(out: &mut Vec<u8>, l: &Literal)
    ensures
        final(out)@ == old(out)@ + ser_lit(l@),
    decreases l, 0int,
{
    broadcast use crate::literal::lemma_lits_view_index;

    match l {
        Literal::Byte(n) => {
            out.push(0x00);
            out.push(*n);
            proof {
                assert(out@ =~= old(out)@ + ser_lit(l@));
            }
        },
        Literal::Bytes(bs) => {
            proof {
                assert(l@->Bytes_0 == bs@);
            }
            out.push(0x01);
            push_u64_le(out, bs.len() as u64);
            push_bytes(out, bs.as_slice());
            proof {
                assert(out@ =~= old(out)@ + ser_lit(l@));
            }
        },
        Literal::Cons(h, t) => {
            proof {
                assert(*l@->Cons_0 == lit_view(**h));
                assert(*l@->Cons_1 == lit_view(**t));
            }
            out.push(0x02);
            serialize_lit(out, h);
            serialize_lit(out, t);
            proof {
                assert(out@ =~= old(out)@ + ser_lit(l@));
            }
        },
        Literal::Fixnum(n) => {
            out.push(0x03);
            push_u64_le(out, *n as u64);
            proof {
                assert(out@ =~= old(out)@ + ser_lit(l@));
            }
        },
        Literal::Nil => {
            out.push(0x04);
            proof {
                assert(out@ =~= old(out)@ + ser_lit(l@));
            }
        },
        Literal::String(s) => {
            proof {
                assert(l@->Str_0 == s@);
            }
            out.push(0x05);
            serialize_str(out, s.as_str());
            proof {
                assert(out@ =~= old(out)@ + ser_lit(l@));
            }
        },
        Literal::Symbol(s) => {
            proof {
                assert(l@->Symbol_0 == s@);
            }
            out.push(0x06);
            serialize_str(out, s.as_str());
            proof {
                assert(out@ =~= old(out)@ + ser_lit(l@));
            }
        },
        Literal::Vector(vs) => {
            proof {
                assert(l@->Vector_0 == lits_view(vs@));
            }
            out.push(0x07);
            push_u64_le(out, vs.len() as u64);
            let ghost lv = lits_view(vs@);
            let ghost base = out@;
            let mut i: usize = 0;
            proof {
                assert(out@ =~= base + ser_lits(lv.take(0)));
            }
            #[verifier::loop_isolation(false)]
            while i < vs.len()
                invariant
                    i <= vs@.len(),
                    out@ == base + ser_lits(lv.take(i as int)),
                decreases vs@.len() - i,
            {
                proof {
                    assert(decreases_to!(*l => l->Vector_0@[i as int]));
                    assert(l->Vector_0@[i as int] == vs@[i as int]);
                    assert(lv.take(i + 1).drop_last() =~= lv.take(i as int));
                    assert(lv.take(i + 1).last() == lit_view(vs@[i as int]));
                }
                serialize_lit(out, &vs[i]);
                proof {
                    assert(out@ =~= base + ser_lits(lv.take(i + 1)));
                }
                i = i + 1;
            }
            proof {
                assert(lv.take(vs@.len() as int) =~= lv);
                assert(out@ =~= old(out)@ + ser_lit(l@));
            }
        },
    }
}

/// Appends the encoding of an atomic expression.
pub fn serialize_aexpr(out: &mut Vec<u8>, a: &AExpr)
    ensures
        final(out)@ == old(out)@ + ser_aexpr(a@),
    decreases a, 0int,
{
    broadcast use lemma_aexprs_view_index;

    match a {
        AExpr::Global(name) => {
            proof {
                assert(a@->Global_0 == name@);
            }
            out.push(0x05);
            serialize_str(out, name.as_str());
            proof {
                assert(out@ =~= old(out)@ + ser_aexpr(a@));
            }
        },
        AExpr::Lambda(name, argn, body) => {
            proof {
                assert(*a@->Lambda_2 == expr_view(**body));
            }
            out.push(0x06);
            match name {
                Some(n) => {
                    serialize_str(out, n.as_str());
                },
                None => {
                    serialize_str(out, "");
                    proof {
                        reveal_strlit("");
                        assert(""@ =~= Seq::<char>::empty());
                    }
                },
            }
            push_u64_le(out, *argn as u64);
            serialize_expr(out, body);
            proof {
                assert(out@ =~= old(out)@ + ser_aexpr(a@));
            }
        },
        AExpr::Literal(l) => {
            proof {
                assert(a@->Literal_0 == lit_view(*l));
            }
            out.push(0x07);
            serialize_lit(out, l);
            proof {
                assert(out@ =~= old(out)@ + ser_aexpr(a@));
            }
        },
        AExpr::Local(n) => {
            out.push(0x08);
            push_u64_le(out, *n as u64);
            proof {
                assert(out@ =~= old(out)@ + ser_aexpr(a@));
            }
        },
        AExpr::Vector(es) => {
            proof {
                assert(a@->Vector_0 == aexprs_view(es@));
            }
            out.push(0x09);
            push_u64_le(out, es.len() as u64);
            let ghost ev = aexprs_view(es@);
            let ghost base = out@;
            let mut i: usize = 0;
            proof {
                assert(out@ =~= base + ser_aexprs(ev.take(0)));
            }
            #[verifier::loop_isolation(false)]
            while i < es.len()
                invariant
                    i <= es@.len(),
                    out@ == base + ser_aexprs(ev.take(i as int)),
                decreases es@.len() - i,
            {
                proof {
                    assert(decreases_to!(*a => a->Vector_0@[i as int]));
                    assert(a->Vector_0@[i as int] == es@[i as int]);
                    assert(ev.take(i + 1).drop_last() =~= ev.take(i as int));
                    assert(ev.take(i + 1).last() == aexpr_view(es@[i as int]));
                }
                serialize_aexpr(out, &es[i]);
                proof {
                    assert(out@ =~= base + ser_aexprs(ev.take(i + 1)));
                }
                i = i + 1;
            }
            proof {
                assert(ev.take(es@.len() as int) =~= ev);
                assert(out@ =~= old(out)@ + ser_aexpr(a@));
            }
        },
    }
}

/// Appends the encoding of a complex expression.
pub fn serialize_cexpr(out: &mut Vec<u8>, c: &CExpr)
    ensures
        final(out)@ == old(out)@ + ser_cexpr(c@),
    decreases c, 2int,
{
    broadcast use lemma_aexprs_view_index;
    broadcast use lemma_letrec_view_index;

    match c {
        CExpr::Call(f, args) => {
            proof {
                assert(c@->Call_0 == aexpr_view(*f));
                assert(c@->Call_1 == aexprs_view(args@));
            }
            out.push(0x02);
            serialize_aexpr(out, f);
            push_u64_le(out, args.len() as u64);
            let ghost av = aexprs_view(args@);
            let ghost base = out@;
            let mut i: usize = 0;
            proof {
                assert(out@ =~= base + ser_aexprs(av.take(0)));
            }
            #[verifier::loop_isolation(false)]
            while i < args.len()
                invariant
                    i <= args@.len(),
                    out@ == base + ser_aexprs(av.take(i as int)),
                decreases args@.len() - i,
            {
                proof {
                    assert(decreases_to!(*c => c->Call_1));
                    assert(decreases_to!(c->Call_1 => c->Call_1@[i as int]));
                    assert(c->Call_1@[i as int] == args@[i as int]);
                    assert(av.take(i + 1).drop_last() =~= av.take(i as int));
                    assert(av.take(i + 1).last() == aexpr_view(args@[i as int]));
                }
                serialize_aexpr(out, &args[i]);
                proof {
                    assert(out@ =~= base + ser_aexprs(av.take(i + 1)));
                }
                i = i + 1;
            }
            proof {
                assert(av.take(args@.len() as int) =~= av);
                assert(out@ =~= old(out)@ + ser_cexpr(c@));
            }
        },
        CExpr::If(cond, t, e) => {
            proof {
                assert(c@->If_0 == aexpr_view(*cond));
                assert(*c@->If_1 == expr_view(**t));
                assert(*c@->If_2 == expr_view(**e));
            }
            out.push(0x03);
            serialize_aexpr(out, cond);
            serialize_expr(out, t);
            serialize_expr(out, e);
            proof {
                assert(out@ =~= old(out)@ + ser_cexpr(c@));
            }
        },
        CExpr::LetRec(bound, body) => {
            proof {
                assert(c@->LetRec_0 == letrec_view(bound@));
                assert(*c@->LetRec_1 == expr_view(**body));
            }
            out.push(0x04);
            push_u64_le(out, bound.len() as u64);
            let ghost bv = letrec_view(bound@);
            let ghost base = out@;
            let mut i: usize = 0;
            proof {
                assert(out@ =~= base + ser_letrec(bv.take(0)));
            }
            #[verifier::loop_isolation(false)]
            while i < bound.len()
                invariant
                    i <= bound@.len(),
                    out@ == base + ser_letrec(bv.take(i as int)),
                decreases bound@.len() - i,
            {
                proof {
                    assert(decreases_to!(*c => c->LetRec_0));
                    assert(decreases_to!(c->LetRec_0 => c->LetRec_0@[i as int]));
                    assert(c->LetRec_0@[i as int] == bound@[i as int]);
                    assert(decreases_to!(bound@[i as int] => bound@[i as int].2));
                    assert(bv.take(i + 1).drop_last() =~= bv.take(i as int));
                    assert(bv.take(i + 1).last() == (
                        bound@[i as int].0@,
                        bound@[i as int].1 as nat,
                        expr_view(bound@[i as int].2),
                    ));
                }
                serialize_str(out, bound[i].0.as_str());
                push_u64_le(out, bound[i].1 as u64);
                serialize_expr(out, &bound[i].2);
                proof {
                    assert(out@ =~= base + ser_letrec(bv.take(i + 1)));
                }
                i = i + 1;
            }
            proof {
                assert(bv.take(bound@.len() as int) =~= bv);
            }
            serialize_expr(out, body);
            proof {
                assert(out@ =~= old(out)@ + ser_cexpr(c@));
            }
        },
    }
}

/// Appends the encoding of an expression.
pub fn serialize_expr(out: &mut Vec<u8>, e: &Expr)
    ensures
        final(out)@ == old(out)@ + ser_expr(e@),
    decreases e, 3int,
{
    match e {
        Expr::AExpr(a) => {
            proof {
                assert(e@->AExpr_0 == aexpr_view(*a));
            }
            serialize_aexpr(out, a);
        },
        Expr::CExpr(c) => {
            proof {
                assert(e@->CExpr_0 == cexpr_view(*c));
            }
            serialize_cexpr(out, c);
        },
        Expr::Let(a, b) => {
            proof {
                assert(*e@->Let_0 == expr_view(**a));
                assert(*e@->Let_1 == expr_view(**b));
            }
            out.push(0x00);
            serialize_expr(out, a);
            serialize_expr(out, b);
            proof {
                assert(out@ =~= old(out)@ + ser_expr(e@));
            }
        },
        Expr::Sequence(a, b) => {
            proof {
                assert(*e@->Sequence_0 == expr_view(**a));
                assert(*e@->Sequence_1 == expr_view(**b));
            }
            out.push(0x01);
            serialize_expr(out, a);
            serialize_expr(out, b);
            proof {
                assert(out@ =~= old(out)@ + ser_expr(e@));
            }
        },
    }
}

impl Program {
    /// Writes the program's bytecode encoding onto the end of a byte vector.
    pub fn serialize_to(&self, out: &mut Vec<u8>)
        ensures
            final(out)@ == old(out)@ + ser_program(self@),
    {
        out.push(0x6f);
        out.push(0x66);
        out.push(0x74);
        out.push(0x61);
        proof {
            assert(out@ =~= old(out)@ + magic());
        }
        push_u64_le(out, self.intrinsics.len() as u64);
        let ghost iv = self@.intrinsics;
        let ghost base = out@;
        let mut i: usize = 0;
        proof {
            assert(out@ =~= base + ser_names(iv.take(0)));
        }
        #[verifier::loop_isolation(false)]
        while i < self.intrinsics.len()
            invariant
                i <= self.intrinsics@.len(),
                iv.len() == self.intrinsics@.len(),
                out@ == base + ser_names(iv.take(i as int)),
            decreases self.intrinsics@.len() - i,
        {
            proof {
                assert(iv[i as int] == self.intrinsics@[i as int]@);
                assert(iv.take(i + 1).drop_last() =~= iv.take(i as int));
                assert(iv.take(i + 1).last() == iv[i as int]);
            }
            serialize_str(out, self.intrinsics[i].as_str());
            proof {
                assert(out@ =~= base + ser_names(iv.take(i + 1)));
            }
            i = i + 1;
        }
        proof {
            assert(iv.take(self.intrinsics@.len() as int) =~= iv);
        }
        push_u64_le(out, self.decls.len() as u64);
        let ghost dv = self@.decls;
        let ghost base2 = out@;
        let mut i: usize = 0;
        proof {
            assert(out@ =~= base2 + ser_decls(dv.take(0)));
        }
        #[verifier::loop_isolation(false)]
        while i < self.decls.len()
            invariant
                i <= self.decls@.len(),
                dv.len() == self.decls@.len(),
                out@ == base2 + ser_decls(dv.take(i as int)),
            decreases self.decls@.len() - i,
        {
            proof {
                assert(dv[i as int] == (self.decls@[i as int].0@, expr_view(self.decls@[i as int].1)));
                assert(dv.take(i + 1).drop_last() =~= dv.take(i as int));
                assert(dv.take(i + 1).last() == dv[i as int]);
            }
            serialize_str(out, self.decls[i].0.as_str());
            serialize_expr(out, &self.decls[i].1);
            proof {
                assert(out@ =~= base2 + ser_decls(dv.take(i + 1)));
            }
            i = i + 1;
        }
        proof {
            assert(dv.take(self.decls@.len() as int) =~= dv);
            assert(out@ =~= old(out)@ + ser_program(self@));
        }
    }
}

} // verus!
