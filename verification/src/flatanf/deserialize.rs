//! The bytecode decoder. Each reader succeeds exactly when a well-formed
//! encoding begins at its position, every successfully decoded value
//! re-encodes to exactly the bytes that were consumed, and reading back
//! an encoder's output returns the encoded value.

use vstd::prelude::*;

use crate::error::ErrorKind;
use crate::flatanf::serialize::{
    magic, ser_aexpr, ser_aexprs, ser_cexpr, ser_decls, ser_expr, ser_letrec, ser_lit, ser_lits,
    ser_names, ser_program, ser_str, u64_le,
};
use crate::flatanf::{
    aexpr_view, aexprs_view, cexpr_view, expr_view, lemma_aexprs_view_index,
    lemma_letrec_view_index, letrec_view, AExpr, AExprV, CExpr, CExprV, Expr, ExprV, Program,
    ProgramV,
};
use crate::literal::{lit_view, lits_view, LitV, Literal};
use vstd::utf8::{decode_utf8, encode_utf8, valid_utf8};

verus! {

/// Relies on `String::from_utf8`: succeeds exactly on valid UTF-8, and the
/// characters decode from the given bytes.
#[verifier::external_body]
pub fn string_from_utf8(v: Vec<u8>) -> (r: Option<String>)
    ensures
        r is Some <==> valid_utf8(v@),
        r matches Some(s) ==> s@ == decode_utf8(v@),
{
    std::string::String::from_utf8(v).ok()
}

/// A decode failure, as a parse error naming what went wrong.
fn decode_err() -> (r: ErrorKind)
    ensures
        r is Parse,
{
    ErrorKind::Parse("invalid bytecode".to_owned())
}

/// Reads one byte; it succeeds exactly when one is available.
fn read_u8(b: &[u8], pos: usize) -> (r: Result<(u8, usize), ErrorKind>)
    ensures
        r is Ok <==> pos < b@.len(),
        r matches Ok((v, end)) ==> (pos < end <= b@.len() && end == pos + 1 && b@[pos as int]
            == v),
        r is Err ==> r->Err_0 is Parse,
{
    if pos < b.len() {
        Ok((b[pos], pos + 1))
    } else {
        Err(decode_err())
    }
}

/// Reads a little-endian 64-bit value; it succeeds exactly when eight
/// bytes are available.
fn read_u64(b: &[u8], pos: usize) -> (r: Result<(u64, usize), ErrorKind>)
    ensures
        r is Ok <==> pos + 8 <= b@.len(),
        r matches Ok((v, end)) ==> (pos < end <= b@.len() && end == pos + 8 && u64_le(v)
            == b@.subrange(pos as int, pos + 8)),
        r is Err ==> r->Err_0 is Parse,
{
    if pos <= b.len() && b.len() - pos >= 8 {
        let b0 = b[pos] as u64;
        let b1 = b[pos + 1] as u64;
        let b2 = b[pos + 2] as u64;
        let b3 = b[pos + 3] as u64;
        let b4 = b[pos + 4] as u64;
        let b5 = b[pos + 5] as u64;
        let b6 = b[pos + 6] as u64;
        let b7 = b[pos + 7] as u64;
        let v = b0 | (b1 << 8u64) | (b2 << 16u64) | (b3 << 24u64) | (b4 << 32u64) | (b5
            << 40u64) | (b6 << 48u64) | (b7 << 56u64);
        proof {
            let x0 = b@[pos as int] as u64;
            let x1 = b@[pos + 1] as u64;
            let x2 = b@[pos + 2] as u64;
            let x3 = b@[pos + 3] as u64;
            let x4 = b@[pos + 4] as u64;
            let x5 = b@[pos + 5] as u64;
            let x6 = b@[pos + 6] as u64;
            let x7 = b@[pos + 7] as u64;
            let y = x0 | (x1 << 8u64) | (x2 << 16u64) | (x3 << 24u64) | (x4 << 32u64) | (x5
                << 40u64) | (x6 << 48u64) | (x7 << 56u64);
            assert(x0 <= 0xff && x1 <= 0xff && x2 <= 0xff && x3 <= 0xff && x4 <= 0xff && x5
                <= 0xff && x6 <= 0xff && x7 <= 0xff);
            assert(((y >> (8 * 0)) & 0xff) == x0 && ((y >> (8 * 1)) & 0xff) == x1 && ((y >> (8
                * 2)) & 0xff) == x2 && ((y >> (8 * 3)) & 0xff) == x3 && ((y >> (8 * 4)) & 0xff)
                == x4 && ((y >> (8 * 5)) & 0xff) == x5 && ((y >> (8 * 6)) & 0xff) == x6 && ((y
                >> (8 * 7)) & 0xff) == x7) by (bit_vector)
                requires
                    x0 <= 0xff && x1 <= 0xff && x2 <= 0xff && x3 <= 0xff && x4 <= 0xff && x5
                        <= 0xff && x6 <= 0xff && x7 <= 0xff && y == x0 | (x1 << 8u64) | (x2
                        << 16u64) | (x3 << 24u64) | (x4 << 32u64) | (x5 << 40u64) | (x6
                        << 48u64) | (x7 << 56u64),
            ;
            assert forall|i: int| 0 <= i < 8 implies u64_le(y)[i] == b@.subrange(
                pos as int,
                pos + 8,
            )[i] by {
                if i == 0 {
                    assert(((y >> (8 * 0)) & 0xff) == x0);
                    assert((8 * i) == 8 * 0);
                } else if i == 1 {
                    assert((8 * i) == 8 * 1);
                } else if i == 2 {
                    assert((8 * i) == 8 * 2);
                } else if i == 3 {
                    assert((8 * i) == 8 * 3);
                } else if i == 4 {
                    assert((8 * i) == 8 * 4);
                } else if i == 5 {
                    assert((8 * i) == 8 * 5);
                } else if i == 6 {
                    assert((8 * i) == 8 * 6);
                } else {
                    assert((8 * i) == 8 * 7);
                }
            }
            assert(u64_le(y) =~= b@.subrange(pos as int, pos + 8));
        }
        Ok((v, pos + 8))
    } else {
        Err(decode_err())
    }
}

/// Reads `n` raw bytes; it succeeds exactly when that many are available.
fn read_bytes(b: &[u8], pos: usize, n: usize) -> (r: Result<(Vec<u8>, usize), ErrorKind>)
    ensures
        r is Ok <==> pos + n <= b@.len(),
        r matches Ok((v, end)) ==> (pos <= end <= b@.len() && end == pos + n && v@
            == b@.subrange(pos as int, pos + n)),
        r is Err ==> r->Err_0 is Parse,
{
    if pos <= b.len() && b.len() - pos >= n {
        let mut v: Vec<u8> = Vec::new();
        let mut i: usize = 0;
        #[verifier::loop_isolation(false)]
        while i < n
            invariant
                i <= n,
                v@ == b@.subrange(pos as int, pos + i),
            decreases n - i,
        {
            v.push(b[pos + i]);
            proof {
                assert(v@ =~= b@.subrange(pos as int, pos + i + 1));
            }
            i = i + 1;
        }
        Ok((v, pos + n))
    } else {
        Err(decode_err())
    }
}

/// The 64-bit value held little-endian in the eight bytes at `pos`.
pub open spec fn le_u64_at(b: Seq<u8>, pos: int) -> u64 {
    (b[pos] as u64) | ((b[pos + 1] as u64) << 8u64) | ((b[pos + 2] as u64) << 16u64) | ((b[pos
        + 3] as u64) << 24u64) | ((b[pos + 4] as u64) << 32u64) | ((b[pos + 5] as u64)
        << 40u64) | ((b[pos + 6] as u64) << 48u64) | ((b[pos + 7] as u64) << 56u64)
}

/// The little-endian bytes of a value read back as that value.
proof fn lemma_le_u64_at(b: Seq<u8>, pos: int, v: u64)
    requires
        0 <= pos,
        pos + 8 <= b.len(),
        u64_le(v) == b.subrange(pos, pos + 8),
    ensures
        le_u64_at(b, pos) == v,
{
    assert forall|i: int| 0 <= i < 8 implies #[trigger] b[pos + i] == ((v >> (8 * i))
        & 0xff) as u8 by {
        assert(b.subrange(pos, pos + 8)[i] == b[pos + i]);
        assert(u64_le(v)[i] == ((v >> (8 * i)) & 0xff) as u8);
    }
    let x0 = ((v >> (8 * 0)) & 0xff) as u8;
    let x1 = ((v >> (8 * 1)) & 0xff) as u8;
    let x2 = ((v >> (8 * 2)) & 0xff) as u8;
    let x3 = ((v >> (8 * 3)) & 0xff) as u8;
    let x4 = ((v >> (8 * 4)) & 0xff) as u8;
    let x5 = ((v >> (8 * 5)) & 0xff) as u8;
    let x6 = ((v >> (8 * 6)) & 0xff) as u8;
    let x7 = ((v >> (8 * 7)) & 0xff) as u8;
    assert((x0 as u64) | ((x1 as u64) << 8u64) | ((x2 as u64) << 16u64) | ((x3 as u64)
        << 24u64) | ((x4 as u64) << 32u64) | ((x5 as u64) << 40u64) | ((x6 as u64) << 48u64) | (
    (x7 as u64) << 56u64) == v) by (bit_vector)
        requires
            x0 == ((v >> (8 * 0)) & 0xff) as u8 && x1 == ((v >> (8 * 1)) & 0xff) as u8 && x2
                == ((v >> (8 * 2)) & 0xff) as u8 && x3 == ((v >> (8 * 3)) & 0xff) as u8 && x4
                == ((v >> (8 * 4)) & 0xff) as u8 && x5 == ((v >> (8 * 5)) & 0xff) as u8 && x6
                == ((v >> (8 * 6)) & 0xff) as u8 && x7 == ((v >> (8 * 7)) & 0xff) as u8,
    ;
    assert(b[pos + 0] == x0 && b[pos + 1] == x1 && b[pos + 2] == x2 && b[pos + 3] == x3 && b[pos
        + 4] == x4 && b[pos + 5] == x5 && b[pos + 6] == x6 && b[pos + 7] == x7);
}

/// The string (and end position) decoded at `pos`, if the length header
/// and that many bytes are available, the length fits the machine, and
/// the bytes are valid UTF-8.
pub open spec fn spec_de_str(b: Seq<u8>, pos: int) -> Option<(Seq<char>, int)> {
    if pos + 8 <= b.len() {
        let len = le_u64_at(b, pos) as int;
        if le_u64_at(b, pos) <= usize::MAX as u64 && pos + 8 + len <= b.len() && valid_utf8(
            b.subrange(pos + 8, pos + 8 + len),
        ) {
            Some((decode_utf8(b.subrange(pos + 8, pos + 8 + len)), pos + 8 + len))
        } else {
            None
        }
    } else {
        None
    }
}

/// Prefixes already-decoded elements onto the rest of a sequence decode.
pub open spec fn prepend_decoded<T>(acc: Seq<T>, r: Option<(Seq<T>, int)>) -> Option<
    (Seq<T>, int),
> {
    match r {
        Some((vs, end)) => Some((acc + vs, end)),
        None => None,
    }
}

/// The literal (and end position) decoded at `pos`, if the bytes there
/// begin with a well-formed encoding, by the tag byte's case analysis.
pub open spec fn spec_de_lit(b: Seq<u8>, pos: int) -> Option<(LitV, int)>
    decreases b.len() - pos, 0int,
{
    if !(0 <= pos < b.len()) {
        None
    } else {
        let d = b[pos];
        let p1 = pos + 1;
        if d == 0x00 {
            if p1 < b.len() {
                Some((LitV::Byte(b[p1]), p1 + 1))
            } else {
                None
            }
        } else if d == 0x01 {
            if p1 + 8 <= b.len() {
                let len = le_u64_at(b, p1) as int;
                if le_u64_at(b, p1) <= usize::MAX as u64 && p1 + 8 + len <= b.len() {
                    Some((LitV::Bytes(b.subrange(p1 + 8, p1 + 8 + len)), p1 + 8 + len))
                } else {
                    None
                }
            } else {
                None
            }
        } else if d == 0x02 {
            match spec_de_lit(b, p1) {
                Some((h, p2)) => if p1 < p2 <= b.len() {
                    match spec_de_lit(b, p2) {
                        Some((t, p3)) => Some((LitV::Cons(Box::new(h), Box::new(t)), p3)),
                        None => None,
                    }
                } else {
                    None
                },
                None => None,
            }
        } else if d == 0x03 {
            if p1 + 8 <= b.len() {
                Some((LitV::Fixnum(le_u64_at(b, p1) as i64), p1 + 8))
            } else {
                None
            }
        } else if d == 0x04 {
            Some((LitV::Nil, p1))
        } else if d == 0x05 {
            match spec_de_str(b, p1) {
                Some((s, p2)) => Some((LitV::Str(s), p2)),
                None => None,
            }
        } else if d == 0x06 {
            match spec_de_str(b, p1) {
                Some((s, p2)) => Some((LitV::Symbol(s), p2)),
                None => None,
            }
        } else if d == 0x07 {
            if p1 + 8 <= b.len() && le_u64_at(b, p1) <= usize::MAX as u64 {
                match spec_de_lits(b, p1 + 8, le_u64_at(b, p1) as nat) {
                    Some((vs, p3)) => Some((LitV::Vector(vs), p3)),
                    None => None,
                }
            } else {
                None
            }
        } else {
            None
        }
    }
}

/// `n` consecutive literals decoded starting at `pos`, if all decode.
pub open spec fn spec_de_lits(b: Seq<u8>, pos: int, n: nat) -> Option<(Seq<LitV>, int)>
    decreases b.len() - pos, n as int,
{
    if n == 0 {
        Some((Seq::empty(), pos))
    } else {
        match spec_de_lit(b, pos) {
            Some((v, p2)) => if pos < p2 <= b.len() {
                prepend_decoded(seq![v], spec_de_lits(b, p2, (n - 1) as nat))
            } else {
                None
            },
            None => None,
        }
    }
}

/// Reads a length-prefixed UTF-8 string; it succeeds exactly when the
/// length header and that many bytes are available, the length fits the
/// machine, and the bytes are valid UTF-8.
pub fn deserialize_string(b: &[u8], pos: usize) -> (r: Result<(String, usize), ErrorKind>)
    ensures
        r is Ok <==> (pos + 8 <= b@.len() && le_u64_at(b@, pos as int) <= usize::MAX as u64
            && pos + 8 + le_u64_at(b@, pos as int) <= b@.len() && valid_utf8(
            b@.subrange(pos + 8, pos + 8 + le_u64_at(b@, pos as int)),
        )),
        r is Ok <==> spec_de_str(b@, pos as int) is Some,
        r matches Ok((s, end)) ==> Some((s@, end as int)) == spec_de_str(b@, pos as int),
        r matches Ok((s, end)) ==> (pos < end <= b@.len() && ser_str(s@) == b@.subrange(
            pos as int,
            end as int,
        )),
        r is Err ==> r->Err_0 is Parse,
{
    broadcast use vstd::utf8::decode_utf8_encode_utf8;

    let (len, p1) = read_u64(b, pos)?;
    proof {
        lemma_le_u64_at(b@, pos as int, len);
    }
    if len > usize::MAX as u64 {
        return Err(decode_err());
    }
    let (bytes, p2) = read_bytes(b, p1, len as usize)?;
    let ghost bytesv = bytes@;
    match string_from_utf8(bytes) {
        Some(s) => {
            proof {
                assert(encode_utf8(s@) == bytesv);
                assert(ser_str(s@) =~= b@.subrange(pos as int, p2 as int));
            }
            Ok((s, p2))
        },
        None => Err(decode_err()),
    }
}

/// Reads a literal; it succeeds exactly when a well-formed encoding
/// begins at `pos`, and returns what that encoding denotes.
#[verifier::rlimit(80)]
pub fn deserialize_lit(b: &[u8], pos: usize) -> (r: Result<(Literal, usize), ErrorKind>)
    ensures
        r is Ok <==> spec_de_lit(b@, pos as int) is Some,
        r matches Ok((v, end)) ==> Some((v@, end as int)) == spec_de_lit(b@, pos as int),
        r matches Ok((v, end)) ==> (pos < end <= b@.len() && ser_lit(v@) == b@.subrange(
            pos as int,
            end as int,
        )),
        r is Err ==> r->Err_0 is Parse,
    decreases b@.len() - pos, 0int,
{
    broadcast use crate::literal::lemma_lits_view_index;

    let (d, p1) = read_u8(b, pos)?;
    if d == 0x00 {
        let (n, p2) = read_u8(b, p1)?;
        let lit = Literal::Byte(n);
        proof {
            assert(ser_lit(lit@) =~= b@.subrange(pos as int, p2 as int));
        }
        Ok((lit, p2))
    } else if d == 0x01 {
        let (len, p2) = read_u64(b, p1)?;
        proof {
            lemma_le_u64_at(b@, p1 as int, len);
        }
        if len > usize::MAX as u64 {
            return Err(decode_err());
        }
        let (bytes, p3) = read_bytes(b, p2, len as usize)?;
        let lit = Literal::Bytes(bytes);
        proof {
            assert(ser_lit(lit@) =~= b@.subrange(pos as int, p3 as int));
        }
        Ok((lit, p3))
    } else if d == 0x02 {
        let (h, p2) = deserialize_lit(b, p1)?;
        let (t, p3) = deserialize_lit(b, p2)?;
        let lit = Literal::Cons(Box::new(h), Box::new(t));
        proof {
            assert(ser_lit(lit@) =~= b@.subrange(pos as int, p3 as int));
        }
        Ok((lit, p3))
    } else if d == 0x03 {
        let (n, p2) = read_u64(b, p1)?;
        let lit = Literal::Fixnum(n as i64);
        proof {
            assert(n as i64 as u64 == n) by (bit_vector);
            lemma_le_u64_at(b@, p1 as int, n);
            assert(ser_lit(lit@) =~= b@.subrange(pos as int, p2 as int));
        }
        Ok((lit, p2))
    } else if d == 0x04 {
        let lit = Literal::Nil;
        proof {
            assert(ser_lit(lit@) =~= b@.subrange(pos as int, p1 as int));
        }
        Ok((lit, p1))
    } else if d == 0x05 {
        let (s, p2) = deserialize_string(b, p1)?;
        let lit = Literal::String(s);
        proof {
            assert(ser_lit(lit@) =~= b@.subrange(pos as int, p2 as int));
        }
        Ok((lit, p2))
    } else if d == 0x06 {
        let (s, p2) = deserialize_string(b, p1)?;
        let lit = Literal::Symbol(s);
        proof {
            assert(ser_lit(lit@) =~= b@.subrange(pos as int, p2 as int));
        }
        Ok((lit, p2))
    } else if d == 0x07 {
        let (len, p2) = read_u64(b, p1)?;
        proof {
            lemma_le_u64_at(b@, p1 as int, len);
        }
        if len > usize::MAX as u64 {
            return Err(decode_err());
        }
        let n = len as usize;
        let mut vs: Vec<Literal> = Vec::new();
        let mut p = p2;
        let mut i: usize = 0;
        proof {
            assert(ser_lits(lits_view(vs@)) =~= b@.subrange(p2 as int, p as int));
            assert(lits_view(vs@) + spec_de_lits(b@, p as int, n as nat)->Some_0.0
                =~= spec_de_lits(b@, p as int, n as nat)->Some_0.0);
        }
        #[verifier::loop_isolation(false)]
        while i < n
            invariant
                i <= n,
                vs@.len() == i,
                p2 <= p <= b@.len(),
                i > 0 ==> p2 < p,
                ser_lits(lits_view(vs@)) == b@.subrange(p2 as int, p as int),
                spec_de_lits(b@, p2 as int, n as nat) == prepend_decoded(
                    lits_view(vs@),
                    spec_de_lits(b@, p as int, (n - i) as nat),
                ),
            decreases n - i,
        {
            let ghost accv = lits_view(vs@);
            let ghost rem = (n - i) as nat;
            let v: Literal;
            let p3: usize;
            match deserialize_lit(b, p) {
                Ok(x) => {
                    v = x.0;
                    p3 = x.1;
                },
                Err(k) => {
                    proof {
                        assert(spec_de_lits(b@, p as int, rem) is None);
                        assert(spec_de_lits(b@, p2 as int, n as nat) is None);
                        assert(spec_de_lit(b@, pos as int) is None);
                    }
                    return Err(k);
                },
            }
            let ghost prev = lits_view(vs@);
            vs.push(v);
            proof {
                assert(vs@.drop_last() =~= vs@.subrange(0, vs@.len() - 1));
                assert(lits_view(vs@).drop_last() =~= prev);
                assert(lits_view(vs@) =~= prev.push(lit_view(v)));
                assert(ser_lits(lits_view(vs@)) =~= b@.subrange(p2 as int, p3 as int));
                assert(spec_de_lits(b@, p as int, rem) == prepend_decoded(
                    seq![lit_view(v)],
                    spec_de_lits(b@, p3 as int, (rem - 1) as nat),
                ));
                let r2 = spec_de_lits(b@, p3 as int, (rem - 1) as nat);
                if r2 is Some {
                    assert(accv + (seq![lit_view(v)] + r2->Some_0.0) =~= lits_view(vs@)
                        + r2->Some_0.0);
                }
            }
            p = p3;
            i = i + 1;
        }
        let lit = Literal::Vector(vs);
        proof {
            assert(lit@->Vector_0 == lits_view(vs@));
            assert(lits_view(vs@).len() == n);
            assert(n as u64 == len);
            assert(ser_lit(lit@) =~= b@.subrange(pos as int, p as int));
            assert(spec_de_lits(b@, p as int, 0) == Some::<(Seq<LitV>, int)>(
                (Seq::empty(), p as int),
            ));
            assert(lits_view(vs@) + Seq::<LitV>::empty() =~= lits_view(vs@));
        }
        Ok((lit, p))
    } else {
        Err(decode_err())
    }
}

/// Every literal's encoding begins with its tag byte and is nonempty.
proof fn lemma_ser_lit_len_pos(v: LitV)
    ensures
        ser_lit(v).len() >= 1,
{
    match v {
        LitV::Byte(_) => {},
        LitV::Bytes(_) => {},
        LitV::Cons(_, _) => {},
        LitV::Fixnum(_) => {},
        LitV::Nil => {},
        LitV::Str(_) => {},
        LitV::Symbol(_) => {},
        LitV::Vector(_) => {},
    }
}

/// Concatenated encodings split at the front.
proof fn lemma_ser_lits_cons(x: LitV, rest: Seq<LitV>)
    ensures
        ser_lits(seq![x] + rest) == ser_lit(x) + ser_lits(rest),
    decreases rest,
{
    if rest.len() == 0 {
        assert(seq![x] + rest =~= seq![x]);
        assert((seq![x]).drop_last() =~= Seq::<LitV>::empty());
        assert((seq![x]).last() == x);
        assert(ser_lits(Seq::<LitV>::empty()) =~= Seq::<u8>::empty());
        assert(ser_lits(seq![x] + rest) =~= ser_lit(x) + ser_lits(rest));
    } else {
        assert((seq![x] + rest).drop_last() =~= seq![x] + rest.drop_last());
        lemma_ser_lits_cons(x, rest.drop_last());
        assert((seq![x] + rest).last() == rest.last());
        assert(ser_lits(seq![x] + rest) =~= ser_lit(x) + ser_lits(rest));
    }
}

/// A sequence's concatenated encoding is at least one byte per element.
proof fn lemma_ser_lits_len_ge(vs: Seq<LitV>)
    ensures
        ser_lits(vs).len() >= vs.len(),
    decreases vs,
{
    if vs.len() > 0 {
        lemma_ser_lits_len_ge(vs.drop_last());
        lemma_ser_lit_len_pos(vs.last());
    }
}

/// String decoding is complete: at the front of any byte range that holds
/// a string's encoding, the decoder succeeds and returns that string.
pub proof fn lemma_str_decode_of_encode(b: Seq<u8>, pos: int, s: Seq<char>)
    requires
        0 <= pos,
        pos + ser_str(s).len() <= b.len(),
        b.len() <= usize::MAX as int,
        b.subrange(pos, pos + ser_str(s).len()) == ser_str(s),
    ensures
        spec_de_str(b, pos) == Some((s, pos + ser_str(s).len())),
{
    broadcast use vstd::utf8::encode_utf8_valid_utf8;
    broadcast use vstd::utf8::encode_utf8_decode_utf8;

    let bs = encode_utf8(s);
    let n = bs.len() as int;
    assert(ser_str(s).len() == 8 + n);
    b.lemma_slice_of_slice(pos, pos + 8 + n, 0, 8);
    assert(ser_str(s).subrange(0, 8) =~= u64_le(bs.len() as u64));
    lemma_le_u64_at(b, pos, bs.len() as u64);
    b.lemma_slice_of_slice(pos, pos + 8 + n, 8, 8 + n);
    assert(ser_str(s).subrange(8, 8 + n) =~= bs);
    assert(valid_utf8(bs) && decode_utf8(bs) == s);
}

/// Literal decoding is complete: at the front of any byte range that
/// holds a literal's encoding, the decoder succeeds and returns it.
pub proof fn lemma_lit_decode_of_encode(b: Seq<u8>, pos: int, v: LitV)
    requires
        0 <= pos,
        pos + ser_lit(v).len() <= b.len(),
        b.len() <= usize::MAX as int,
        b.subrange(pos, pos + ser_lit(v).len()) == ser_lit(v),
    ensures
        spec_de_lit(b, pos) == Some((v, pos + ser_lit(v).len())),
    decreases v, 0int,
{
    let n = ser_lit(v).len() as int;
    lemma_ser_lit_len_pos(v);
    assert(b[pos] == b.subrange(pos, pos + n)[0]);
    match v {
        LitV::Byte(x) => {
            assert(b[pos] == 0x00);
            assert(b[pos + 1] == b.subrange(pos, pos + n)[1]);
            assert(b[pos + 1] == x);
        },
        LitV::Bytes(bs) => {
            assert(b[pos] == 0x01);
            b.lemma_slice_of_slice(pos, pos + n, 1, 9);
            assert(ser_lit(v).subrange(1, 9) =~= u64_le(bs.len() as u64));
            lemma_le_u64_at(b, pos + 1, bs.len() as u64);
            b.lemma_slice_of_slice(pos, pos + n, 9, n);
            assert(ser_lit(v).subrange(9, n) =~= bs);
        },
        LitV::Cons(h, t) => {
            assert(b[pos] == 0x02);
            let hn = ser_lit(*h).len() as int;
            let tn = ser_lit(*t).len() as int;
            b.lemma_slice_of_slice(pos, pos + n, 1, 1 + hn);
            assert(ser_lit(v).subrange(1, 1 + hn) =~= ser_lit(*h));
            lemma_lit_decode_of_encode(b, pos + 1, *h);
            lemma_ser_lit_len_pos(*h);
            b.lemma_slice_of_slice(pos, pos + n, 1 + hn, n);
            assert(ser_lit(v).subrange(1 + hn, n) =~= ser_lit(*t));
            lemma_lit_decode_of_encode(b, pos + 1 + hn, *t);
        },
        LitV::Fixnum(x) => {
            assert(b[pos] == 0x03);
            b.lemma_slice_of_slice(pos, pos + n, 1, 9);
            assert(ser_lit(v).subrange(1, 9) =~= u64_le(x as u64));
            lemma_le_u64_at(b, pos + 1, x as u64);
            assert((x as u64) as i64 == x) by (bit_vector);
        },
        LitV::Nil => {
            assert(b[pos] == 0x04);
        },
        LitV::Str(s) => {
            assert(b[pos] == 0x05);
            b.lemma_slice_of_slice(pos, pos + n, 1, n);
            assert(ser_lit(v).subrange(1, n) =~= ser_str(s));
            lemma_str_decode_of_encode(b, pos + 1, s);
        },
        LitV::Symbol(s) => {
            assert(b[pos] == 0x06);
            b.lemma_slice_of_slice(pos, pos + n, 1, n);
            assert(ser_lit(v).subrange(1, n) =~= ser_str(s));
            lemma_str_decode_of_encode(b, pos + 1, s);
        },
        LitV::Vector(vs) => {
            assert(b[pos] == 0x07);
            lemma_ser_lits_len_ge(vs);
            b.lemma_slice_of_slice(pos, pos + n, 1, 9);
            assert(ser_lit(v).subrange(1, 9) =~= u64_le(vs.len() as u64));
            lemma_le_u64_at(b, pos + 1, vs.len() as u64);
            b.lemma_slice_of_slice(pos, pos + n, 9, n);
            assert(ser_lit(v).subrange(9, n) =~= ser_lits(vs));
            assert(vs.skip(0) =~= vs);
            lemma_lits_decode_of_encode(b, pos + 9, vs, 0);
        },
    }
}

/// Sequence decoding is complete from element `i` on: the remaining
/// elements' concatenated encoding decodes back to exactly them.
proof fn lemma_lits_decode_of_encode(b: Seq<u8>, pos: int, vs: Seq<LitV>, i: int)
    requires
        0 <= pos,
        0 <= i <= vs.len(),
        pos + ser_lits(vs.skip(i)).len() <= b.len(),
        b.len() <= usize::MAX as int,
        b.subrange(pos, pos + ser_lits(vs.skip(i)).len()) == ser_lits(vs.skip(i)),
    ensures
        spec_de_lits(b, pos, (vs.len() - i) as nat) == Some(
            (vs.skip(i), pos + ser_lits(vs.skip(i)).len()),
        ),
    decreases vs, vs.len() - i,
{
    if i == vs.len() {
        assert(vs.skip(i) =~= Seq::<LitV>::empty());
        assert(ser_lits(vs.skip(i)) =~= Seq::<u8>::empty());
    } else {
        assert(vs.skip(i) =~= seq![vs[i]] + vs.skip(i + 1));
        lemma_ser_lits_cons(vs[i], vs.skip(i + 1));
        let n = ser_lits(vs.skip(i)).len() as int;
        let hn = ser_lit(vs[i]).len() as int;
        let tn = ser_lits(vs.skip(i + 1)).len() as int;
        assert(n == hn + tn);
        b.lemma_slice_of_slice(pos, pos + n, 0, hn);
        assert(ser_lits(vs.skip(i)).subrange(0, hn) =~= ser_lit(vs[i]));
        lemma_lit_decode_of_encode(b, pos, vs[i]);
        lemma_ser_lit_len_pos(vs[i]);
        b.lemma_slice_of_slice(pos, pos + n, hn, n);
        assert(ser_lits(vs.skip(i)).subrange(hn, n) =~= ser_lits(vs.skip(i + 1)));
        lemma_lits_decode_of_encode(b, pos + hn, vs, i + 1);
        assert(seq![vs[i]] + vs.skip(i + 1) =~= vs.skip(i));
    }
}

/// The atomic expression decoded at `pos`, if the bytes there begin with
/// a well-formed encoding, by the tag byte's case analysis.
pub open spec fn spec_de_aexpr(b: Seq<u8>, pos: int) -> Option<(AExprV, int)>
    decreases b.len() - pos, 0int, 2int,
{
    if 0 <= pos < b.len() && 0x05 <= b[pos] <= 0x09 {
        spec_de_aexpr_tail(b, pos)
    } else {
        None
    }
}

/// The rest of an atomic expression whose tag stands at `pos`.
pub open spec fn spec_de_aexpr_tail(b: Seq<u8>, pos: int) -> Option<(AExprV, int)>
    decreases b.len() - pos, 0int, 1int,
{
    if !(0 <= pos < b.len()) {
        None
    } else {
        let d = b[pos];
        let p1 = pos + 1;
        if d == 0x05 {
            match spec_de_str(b, p1) {
                Some((s, p2)) => Some((AExprV::Global(s), p2)),
                None => None,
            }
        } else if d == 0x06 {
            match spec_de_str(b, p1) {
                Some((s, p2)) => if p1 < p2 <= b.len() && p2 + 8 <= b.len() && le_u64_at(b, p2)
                    <= usize::MAX as u64 {
                    match spec_de_expr(b, p2 + 8) {
                        Some((body, p4)) => Some(
                            (
                                AExprV::Lambda(
                                    if s.len() == 0 {
                                        None
                                    } else {
                                        Some(s)
                                    },
                                    le_u64_at(b, p2) as nat,
                                    Box::new(body),
                                ),
                                p4,
                            ),
                        ),
                        None => None,
                    }
                } else {
                    None
                },
                None => None,
            }
        } else if d == 0x07 {
            match spec_de_lit(b, p1) {
                Some((l, p2)) => Some((AExprV::Literal(l), p2)),
                None => None,
            }
        } else if d == 0x08 {
            if p1 + 8 <= b.len() && le_u64_at(b, p1) <= usize::MAX as u64 {
                Some((AExprV::Local(le_u64_at(b, p1) as usize), p1 + 8))
            } else {
                None
            }
        } else if d == 0x09 {
            if p1 + 8 <= b.len() && le_u64_at(b, p1) <= usize::MAX as u64 {
                match spec_de_aexprs(b, p1 + 8, le_u64_at(b, p1) as nat) {
                    Some((es, p3)) => Some((AExprV::Vector(es), p3)),
                    None => None,
                }
            } else {
                None
            }
        } else {
            None
        }
    }
}

/// `n` consecutive atomic expressions decoded starting at `pos`.
pub open spec fn spec_de_aexprs(b: Seq<u8>, pos: int, n: nat) -> Option<(Seq<AExprV>, int)>
    decreases b.len() - pos, n as int, 0int,
{
    if n == 0 {
        Some((Seq::empty(), pos))
    } else {
        match spec_de_aexpr(b, pos) {
            Some((v, p2)) => if pos < p2 <= b.len() {
                prepend_decoded(seq![v], spec_de_aexprs(b, p2, (n - 1) as nat))
            } else {
                None
            },
            None => None,
        }
    }
}

/// The rest of a complex expression whose tag stands at `pos`.
pub open spec fn spec_de_cexpr_tail(b: Seq<u8>, pos: int) -> Option<(CExprV, int)>
    decreases b.len() - pos, 0int, 2int,
{
    if !(0 <= pos < b.len()) {
        None
    } else {
        let d = b[pos];
        let p1 = pos + 1;
        if d == 0x02 {
            match spec_de_aexpr(b, p1) {
                Some((f, p2)) => if p1 < p2 <= b.len() && p2 + 8 <= b.len() && le_u64_at(b, p2)
                    <= usize::MAX as u64 {
                    match spec_de_aexprs(b, p2 + 8, le_u64_at(b, p2) as nat) {
                        Some((args, p3)) => Some((CExprV::Call(f, args), p3)),
                        None => None,
                    }
                } else {
                    None
                },
                None => None,
            }
        } else if d == 0x03 {
            match spec_de_aexpr(b, p1) {
                Some((cond, p2)) => if p1 < p2 <= b.len() {
                    match spec_de_expr(b, p2) {
                        Some((t, p3)) => if p2 < p3 <= b.len() {
                            match spec_de_expr(b, p3) {
                                Some((e, p4)) => Some(
                                    (CExprV::If(cond, Box::new(t), Box::new(e)), p4),
                                ),
                                None => None,
                            }
                        } else {
                            None
                        },
                        None => None,
                    }
                } else {
                    None
                },
                None => None,
            }
        } else if d == 0x04 {
            if p1 + 8 <= b.len() && le_u64_at(b, p1) <= usize::MAX as u64 {
                match spec_de_letrec(b, p1 + 8, le_u64_at(b, p1) as nat) {
                    Some((bound, p2)) => if p1 + 8 <= p2 <= b.len() {
                        match spec_de_expr(b, p2) {
                            Some((body, p3)) => Some(
                                (CExprV::LetRec(bound, Box::new(body)), p3),
                            ),
                            None => None,
                        }
                    } else {
                        None
                    },
                    None => None,
                }
            } else {
                None
            }
        } else {
            None
        }
    }
}

/// `n` consecutive letrec bindings decoded starting at `pos`: each a
/// name, an argument count, and a lambda body expression.
pub open spec fn spec_de_letrec(b: Seq<u8>, pos: int, n: nat) -> Option<
    (Seq<(Seq<char>, nat, ExprV)>, int),
>
    decreases b.len() - pos, n as int, 0int,
{
    if n == 0 {
        Some((Seq::empty(), pos))
    } else {
        match spec_de_str(b, pos) {
            Some((nm, p3)) => if pos < p3 <= b.len() && p3 + 8 <= b.len() && le_u64_at(b, p3)
                <= usize::MAX as u64 {
                match spec_de_expr(b, p3 + 8) {
                    Some((body, p5)) => if p3 + 8 < p5 <= b.len() {
                        prepend_decoded(
                            seq![(nm, le_u64_at(b, p3) as nat, body)],
                            spec_de_letrec(b, p5, (n - 1) as nat),
                        )
                    } else {
                        None
                    },
                    None => None,
                }
            } else {
                None
            },
            None => None,
        }
    }
}

/// The expression decoded at `pos`, if the bytes there begin with a
/// well-formed encoding, by the tag byte's case analysis.
pub open spec fn spec_de_expr(b: Seq<u8>, pos: int) -> Option<(ExprV, int)>
    decreases b.len() - pos, 0int, 3int,
{
    if !(0 <= pos < b.len()) {
        None
    } else {
        let d = b[pos];
        let p1 = pos + 1;
        if d == 0x00 {
            match spec_de_expr(b, p1) {
                Some((a, p2)) => if p1 < p2 <= b.len() {
                    match spec_de_expr(b, p2) {
                        Some((bb, p3)) => Some(
                            (ExprV::Let(Box::new(a), Box::new(bb)), p3),
                        ),
                        None => None,
                    }
                } else {
                    None
                },
                None => None,
            }
        } else if d == 0x01 {
            match spec_de_expr(b, p1) {
                Some((a, p2)) => if p1 < p2 <= b.len() {
                    match spec_de_expr(b, p2) {
                        Some((bb, p3)) => Some(
                            (ExprV::Sequence(Box::new(a), Box::new(bb)), p3),
                        ),
                        None => None,
                    }
                } else {
                    None
                },
                None => None,
            }
        } else if 0x02 <= d && d <= 0x04 {
            match spec_de_cexpr_tail(b, pos) {
                Some((c, p2)) => Some((ExprV::CExpr(c), p2)),
                None => None,
            }
        } else if 0x05 <= d && d <= 0x09 {
            match spec_de_aexpr_tail(b, pos) {
                Some((a, p2)) => Some((ExprV::AExpr(a), p2)),
                None => None,
            }
        } else {
            None
        }
    }
}

/// Reads an atomic expression, including its discriminant.
pub fn deserialize_aexpr(b: &[u8], pos: usize) -> (r: Result<(AExpr, usize), ErrorKind>)
    ensures
        r is Ok <==> spec_de_aexpr(b@, pos as int) is Some,
        r matches Ok((v, end)) ==> Some((v@, end as int)) == spec_de_aexpr(b@, pos as int),
        r matches Ok((v, end)) ==> (pos < end <= b@.len() && ser_aexpr(v@) == b@.subrange(
            pos as int,
            end as int,
        )),
        r is Err ==> r->Err_0 is Parse,
    decreases b@.len() - pos, 2int,
{
    let (d, p1) = read_u8(b, pos)?;
    if 0x05 <= d && d <= 0x09 {
        deserialize_aexpr_tail(b, pos, d, p1)
    } else {
        Err(decode_err())
    }
}

/// Reads the rest of an atomic expression whose discriminant was already
/// read at `pos`.
#[verifier::rlimit(100)]
#[verifier::spinoff_prover]
fn deserialize_aexpr_tail(b: &[u8], pos: usize, d: u8, p1: usize) -> (r: Result<
    (AExpr, usize),
    ErrorKind,
>)
    requires
        0x05 <= d <= 0x09,
        p1 == pos + 1,
        pos < b@.len(),
        b@[pos as int] == d,
    ensures
        r is Ok <==> spec_de_aexpr_tail(b@, pos as int) is Some,
        r matches Ok((v, end)) ==> Some((v@, end as int)) == spec_de_aexpr_tail(b@, pos as int),
        r matches Ok((v, end)) ==> (pos < end <= b@.len() && ser_aexpr(v@) == b@.subrange(
            pos as int,
            end as int,
        )),
        r is Err ==> r->Err_0 is Parse,
    decreases b@.len() - pos, 1int,
{
    broadcast use lemma_aexprs_view_index;

    if d == 0x05 {
        let (s, p2) = deserialize_string(b, p1)?;
        let a = AExpr::Global(s);
        proof {
            assert(ser_aexpr(a@) =~= b@.subrange(pos as int, p2 as int));
        }
        Ok((a, p2))
    } else if d == 0x06 {
        let (s, p2) = deserialize_string(b, p1)?;
        let (argn, p3) = read_u64(b, p2)?;
        proof {
            lemma_le_u64_at(b@, p2 as int, argn);
        }
        if argn > usize::MAX as u64 {
            return Err(decode_err());
        }
        let (body, p4) = deserialize_expr(b, p3)?;
        let name = if s.as_str().unicode_len() == 0 {
            None
        } else {
            Some(s)
        };
        let a = AExpr::Lambda(name, argn as usize, Box::new(body));
        proof {
            assert(ser_aexpr(a@) =~= b@.subrange(pos as int, p4 as int));
        }
        Ok((a, p4))
    } else if d == 0x07 {
        let (l, p2) = deserialize_lit(b, p1)?;
        let a = AExpr::Literal(l);
        proof {
            assert(ser_aexpr(a@) =~= b@.subrange(pos as int, p2 as int));
        }
        Ok((a, p2))
    } else if d == 0x08 {
        let (n, p2) = read_u64(b, p1)?;
        proof {
            lemma_le_u64_at(b@, p1 as int, n);
        }
        if n > usize::MAX as u64 {
            return Err(decode_err());
        }
        let a = AExpr::Local(n as usize);
        proof {
            assert(ser_aexpr(a@) =~= b@.subrange(pos as int, p2 as int));
        }
        Ok((a, p2))
    } else {
        let (len, p2) = read_u64(b, p1)?;
        proof {
            lemma_le_u64_at(b@, p1 as int, len);
        }
        if len > usize::MAX as u64 {
            return Err(decode_err());
        }
        let n = len as usize;
        let mut es: Vec<AExpr> = Vec::new();
        let mut p = p2;
        let mut i: usize = 0;
        proof {
            assert(ser_aexprs(aexprs_view(es@)) =~= b@.subrange(p2 as int, p as int));
            assert(aexprs_view(es@) + spec_de_aexprs(b@, p as int, n as nat)->Some_0.0
                =~= spec_de_aexprs(b@, p as int, n as nat)->Some_0.0);
        }
        #[verifier::loop_isolation(false)]
        while i < n
            invariant
                i <= n,
                es@.len() == i,
                p2 <= p <= b@.len(),
                ser_aexprs(aexprs_view(es@)) == b@.subrange(p2 as int, p as int),
                spec_de_aexprs(b@, p2 as int, n as nat) == prepend_decoded(
                    aexprs_view(es@),
                    spec_de_aexprs(b@, p as int, (n - i) as nat),
                ),
            decreases n - i,
        {
            let ghost accv = aexprs_view(es@);
            let ghost rem = (n - i) as nat;
            let v: AExpr;
            let p3: usize;
            match deserialize_aexpr(b, p) {
                Ok(x) => {
                    v = x.0;
                    p3 = x.1;
                },
                Err(k) => {
                    proof {
                        assert(spec_de_aexprs(b@, p as int, rem) is None);
                        assert(spec_de_aexprs(b@, p2 as int, n as nat) is None);
                        assert(spec_de_aexpr_tail(b@, pos as int) is None);
                    }
                    return Err(k);
                },
            }
            let ghost prev = aexprs_view(es@);
            es.push(v);
            proof {
                assert(es@.drop_last() =~= es@.subrange(0, es@.len() - 1));
                assert(aexprs_view(es@).drop_last() =~= prev);
                assert(aexprs_view(es@) =~= prev.push(aexpr_view(v)));
                assert(ser_aexprs(aexprs_view(es@)) =~= b@.subrange(p2 as int, p3 as int));
                assert(spec_de_aexprs(b@, p as int, rem) == prepend_decoded(
                    seq![aexpr_view(v)],
                    spec_de_aexprs(b@, p3 as int, (rem - 1) as nat),
                ));
                let r2 = spec_de_aexprs(b@, p3 as int, (rem - 1) as nat);
                if r2 is Some {
                    assert(accv + (seq![aexpr_view(v)] + r2->Some_0.0) =~= aexprs_view(es@)
                        + r2->Some_0.0);
                }
            }
            p = p3;
            i = i + 1;
        }
        let a = AExpr::Vector(es);
        proof {
            assert(a@->Vector_0 == aexprs_view(es@));
            assert(aexprs_view(es@).len() == n);
            assert(n as u64 == len);
            assert(ser_aexpr(a@) =~= b@.subrange(pos as int, p as int));
            assert(spec_de_aexprs(b@, p as int, 0) == Some::<(Seq<AExprV>, int)>(
                (Seq::empty(), p as int),
            ));
            assert(aexprs_view(es@) + Seq::<AExprV>::empty() =~= aexprs_view(es@));
        }
        Ok((a, p))
    }
}

/// Reads the rest of a complex expression whose discriminant was already
/// read at `pos`.
fn deserialize_cexpr_tail(b: &[u8], pos: usize, d: u8, p1: usize) -> (r: Result<
    (CExpr, usize),
    ErrorKind,
>)
    requires
        0x02 <= d <= 0x04,
        p1 == pos + 1,
        pos < b@.len(),
        b@[pos as int] == d,
    ensures
        r is Ok <==> spec_de_cexpr_tail(b@, pos as int) is Some,
        r matches Ok((v, end)) ==> Some((v@, end as int)) == spec_de_cexpr_tail(b@, pos as int),
        r matches Ok((v, end)) ==> (pos < end <= b@.len() && ser_cexpr(v@) == b@.subrange(
            pos as int,
            end as int,
        )),
        r is Err ==> r->Err_0 is Parse,
    decreases b@.len() - pos, 2int,
{
    if d == 0x02 {
        deserialize_call_tail(b, pos, p1)
    } else if d == 0x03 {
        deserialize_if_tail(b, pos, p1)
    } else {
        deserialize_letrec_tail(b, pos, p1)
    }
}

/// Reads the rest of a call whose tag stands at `pos`.
#[verifier::rlimit(100)]
#[verifier::spinoff_prover]
fn deserialize_call_tail(b: &[u8], pos: usize, p1: usize) -> (r: Result<
    (CExpr, usize),
    ErrorKind,
>)
    requires
        p1 == pos + 1,
        pos < b@.len(),
        b@[pos as int] == 0x02,
    ensures
        r is Ok <==> spec_de_cexpr_tail(b@, pos as int) is Some,
        r matches Ok((v, end)) ==> Some((v@, end as int)) == spec_de_cexpr_tail(b@, pos as int),
        r matches Ok((v, end)) ==> (pos < end <= b@.len() && ser_cexpr(v@) == b@.subrange(
            pos as int,
            end as int,
        )),
        r is Err ==> r->Err_0 is Parse,
    decreases b@.len() - pos, 1int,
{
    broadcast use lemma_aexprs_view_index;

        let (f, p2) = deserialize_aexpr(b, p1)?;
        let (argn, p3) = read_u64(b, p2)?;
        proof {
            lemma_le_u64_at(b@, p2 as int, argn);
        }
        if argn > usize::MAX as u64 {
            return Err(decode_err());
        }
        let n = argn as usize;
        let mut args: Vec<AExpr> = Vec::new();
        let mut p = p3;
        let mut i: usize = 0;
        proof {
            assert(ser_aexprs(aexprs_view(args@)) =~= b@.subrange(p3 as int, p as int));
            assert(aexprs_view(args@) + spec_de_aexprs(b@, p as int, n as nat)->Some_0.0
                =~= spec_de_aexprs(b@, p as int, n as nat)->Some_0.0);
        }
        #[verifier::loop_isolation(false)]
        while i < n
            invariant
                i <= n,
                args@.len() == i,
                p3 <= p <= b@.len(),
                ser_aexprs(aexprs_view(args@)) == b@.subrange(p3 as int, p as int),
                spec_de_aexprs(b@, p3 as int, n as nat) == prepend_decoded(
                    aexprs_view(args@),
                    spec_de_aexprs(b@, p as int, (n - i) as nat),
                ),
            decreases n - i,
        {
            let ghost accv = aexprs_view(args@);
            let ghost rem = (n - i) as nat;
            let v: AExpr;
            let p4: usize;
            match deserialize_aexpr(b, p) {
                Ok(x) => {
                    v = x.0;
                    p4 = x.1;
                },
                Err(k) => {
                    proof {
                        assert(spec_de_aexprs(b@, p as int, rem) is None);
                        assert(spec_de_aexprs(b@, p3 as int, n as nat) is None);
                        assert(spec_de_cexpr_tail(b@, pos as int) is None);
                    }
                    return Err(k);
                },
            }
            let ghost prev = aexprs_view(args@);
            args.push(v);
            proof {
                assert(args@.drop_last() =~= args@.subrange(0, args@.len() - 1));
                assert(aexprs_view(args@).drop_last() =~= prev);
                assert(aexprs_view(args@) =~= prev.push(aexpr_view(v)));
                assert(ser_aexprs(aexprs_view(args@)) =~= b@.subrange(p3 as int, p4 as int));
                assert(spec_de_aexprs(b@, p as int, rem) == prepend_decoded(
                    seq![aexpr_view(v)],
                    spec_de_aexprs(b@, p4 as int, (rem - 1) as nat),
                ));
                let r2 = spec_de_aexprs(b@, p4 as int, (rem - 1) as nat);
                if r2 is Some {
                    assert(accv + (seq![aexpr_view(v)] + r2->Some_0.0) =~= aexprs_view(args@)
                        + r2->Some_0.0);
                }
            }
            p = p4;
            i = i + 1;
        }
        let c = CExpr::Call(f, args);
        proof {
            assert(c@->Call_1 == aexprs_view(args@));
            assert(aexprs_view(args@).len() == n);
            assert(n as u64 == argn);
            assert(ser_cexpr(c@) =~= b@.subrange(pos as int, p as int));
            assert(spec_de_aexprs(b@, p as int, 0) == Some::<(Seq<AExprV>, int)>(
                (Seq::empty(), p as int),
            ));
            assert(aexprs_view(args@) + Seq::<AExprV>::empty() =~= aexprs_view(args@));
        }
        Ok((c, p))
}

/// Reads the rest of a conditional whose tag stands at `pos`.
#[verifier::rlimit(100)]
#[verifier::spinoff_prover]
fn deserialize_if_tail(b: &[u8], pos: usize, p1: usize) -> (r: Result<
    (CExpr, usize),
    ErrorKind,
>)
    requires
        p1 == pos + 1,
        pos < b@.len(),
        b@[pos as int] == 0x03,
    ensures
        r is Ok <==> spec_de_cexpr_tail(b@, pos as int) is Some,
        r matches Ok((v, end)) ==> Some((v@, end as int)) == spec_de_cexpr_tail(b@, pos as int),
        r matches Ok((v, end)) ==> (pos < end <= b@.len() && ser_cexpr(v@) == b@.subrange(
            pos as int,
            end as int,
        )),
        r is Err ==> r->Err_0 is Parse,
    decreases b@.len() - pos, 1int,
{
        let (cond, p2) = deserialize_aexpr(b, p1)?;
        let (t, p3) = deserialize_expr(b, p2)?;
        let (e, p4) = deserialize_expr(b, p3)?;
        let c = CExpr::If(cond, Box::new(t), Box::new(e));
        proof {
            assert(ser_cexpr(c@) =~= b@.subrange(pos as int, p4 as int));
        }
        Ok((c, p4))
}

/// Reads `n` letrec bindings, each a name, an argument count, and a
/// body expression.
#[verifier::rlimit(100)]
#[verifier::spinoff_prover]
fn deserialize_letrec_binds(b: &[u8], p2: usize, n: usize) -> (r: Result<
    (Vec<(String, usize, Expr)>, usize),
    ErrorKind,
>)
    requires
        p2 <= b@.len(),
    ensures
        r is Ok <==> spec_de_letrec(b@, p2 as int, n as nat) is Some,
        r matches Ok((bound, end)) ==> Some((letrec_view(bound@), end as int)) == spec_de_letrec(
            b@,
            p2 as int,
            n as nat,
        ),
        r matches Ok((bound, end)) ==> (p2 <= end <= b@.len() && bound@.len() == n
            && ser_letrec(letrec_view(bound@)) == b@.subrange(p2 as int, end as int)),
        r is Err ==> r->Err_0 is Parse,
    decreases b@.len() - p2, 0int,
{
    broadcast use lemma_letrec_view_index;

    let mut bound: Vec<(String, usize, Expr)> = Vec::new();
    let mut p = p2;
    let mut i: usize = 0;
    proof {
        assert(ser_letrec(letrec_view(bound@)) =~= b@.subrange(p2 as int, p as int));
        assert(letrec_view(bound@) + spec_de_letrec(b@, p as int, n as nat)->Some_0.0
            =~= spec_de_letrec(b@, p as int, n as nat)->Some_0.0);
    }
    #[verifier::loop_isolation(false)]
    while i < n
        invariant
            i <= n,
            bound@.len() == i,
            p2 <= p <= b@.len(),
            ser_letrec(letrec_view(bound@)) == b@.subrange(p2 as int, p as int),
            spec_de_letrec(b@, p2 as int, n as nat) == prepend_decoded(
                letrec_view(bound@),
                spec_de_letrec(b@, p as int, (n - i) as nat),
            ),
        decreases n - i,
    {
        let ghost accv = letrec_view(bound@);
        let ghost rem = (n - i) as nat;
        let nm: String;
        let p3: usize;
        match deserialize_string(b, p) {
            Ok(x) => {
                nm = x.0;
                p3 = x.1;
            },
            Err(k) => {
                proof {
                    assert(spec_de_letrec(b@, p as int, rem) is None);
                    assert(spec_de_letrec(b@, p2 as int, n as nat) is None);
                }
                return Err(k);
            },
        }
        let argn: u64;
        let p4: usize;
        match read_u64(b, p3) {
            Ok(x) => {
                argn = x.0;
                p4 = x.1;
            },
            Err(k) => {
                proof {
                    assert(spec_de_letrec(b@, p as int, rem) is None);
                    assert(spec_de_letrec(b@, p2 as int, n as nat) is None);
                }
                return Err(k);
            },
        }
        proof {
            lemma_le_u64_at(b@, p3 as int, argn);
        }
        if argn > usize::MAX as u64 {
            proof {
                assert(spec_de_letrec(b@, p as int, rem) is None);
                assert(spec_de_letrec(b@, p2 as int, n as nat) is None);
            }
            return Err(decode_err());
        }
        let body: Expr;
        let p5: usize;
        match deserialize_expr(b, p4) {
            Ok(x) => {
                body = x.0;
                p5 = x.1;
            },
            Err(k) => {
                proof {
                    assert(spec_de_letrec(b@, p as int, rem) is None);
                    assert(spec_de_letrec(b@, p2 as int, n as nat) is None);
                }
                return Err(k);
            },
        }
        let ghost prev = letrec_view(bound@);
        bound.push((nm, argn as usize, body));
        proof {
            assert(bound@.drop_last() =~= bound@.subrange(0, bound@.len() - 1));
            assert(letrec_view(bound@).drop_last() =~= prev);
            assert(letrec_view(bound@) =~= prev.push(
                (bound@.last().0@, bound@.last().1 as nat, expr_view(bound@.last().2)),
            ));
            assert(ser_letrec(letrec_view(bound@)) =~= b@.subrange(p2 as int, p5 as int));
            assert(spec_de_letrec(b@, p as int, rem) == prepend_decoded(
                seq![(nm@, argn as nat, expr_view(body))],
                spec_de_letrec(b@, p5 as int, (rem - 1) as nat),
            ));
            let r2 = spec_de_letrec(b@, p5 as int, (rem - 1) as nat);
            if r2 is Some {
                assert(accv + (seq![(nm@, argn as nat, expr_view(body))] + r2->Some_0.0)
                    =~= letrec_view(bound@) + r2->Some_0.0);
            }
        }
        p = p5;
        i = i + 1;
    }
    proof {
        assert(spec_de_letrec(b@, p as int, 0) == Some::<(Seq<(Seq<char>, nat, ExprV)>, int)>(
            (Seq::empty(), p as int),
        ));
        assert(letrec_view(bound@) + Seq::<(Seq<char>, nat, ExprV)>::empty() =~= letrec_view(
            bound@,
        ));
    }
    Ok((bound, p))
}

/// Reads the rest of a letrec whose tag stands at `pos`.
#[verifier::rlimit(100)]
#[verifier::spinoff_prover]
fn deserialize_letrec_tail(b: &[u8], pos: usize, p1: usize) -> (r: Result<
    (CExpr, usize),
    ErrorKind,
>)
    requires
        p1 == pos + 1,
        pos < b@.len(),
        b@[pos as int] == 0x04,
    ensures
        r is Ok <==> spec_de_cexpr_tail(b@, pos as int) is Some,
        r matches Ok((v, end)) ==> Some((v@, end as int)) == spec_de_cexpr_tail(b@, pos as int),
        r matches Ok((v, end)) ==> (pos < end <= b@.len() && ser_cexpr(v@) == b@.subrange(
            pos as int,
            end as int,
        )),
        r is Err ==> r->Err_0 is Parse,
    decreases b@.len() - pos, 1int,
{
    let (cnt, p2) = read_u64(b, p1)?;
    proof {
        lemma_le_u64_at(b@, p1 as int, cnt);
    }
    if cnt > usize::MAX as u64 {
        return Err(decode_err());
    }
    let n = cnt as usize;
    let (bound, p) = deserialize_letrec_binds(b, p2, n)?;
    let (body, p6) = deserialize_expr(b, p)?;
    let c = CExpr::LetRec(bound, Box::new(body));
    proof {
        broadcast use lemma_letrec_view_index;

        assert(c@->LetRec_0 == letrec_view(bound@));
        assert(letrec_view(bound@).len() == n);
        assert(n as u64 == cnt);
        assert(ser_cexpr(c@) =~= b@.subrange(pos as int, p6 as int));
    }
    Ok((c, p6))
}

/// Reads an expression.
pub fn deserialize_expr(b: &[u8], pos: usize) -> (r: Result<(Expr, usize), ErrorKind>)
    ensures
        r is Ok <==> spec_de_expr(b@, pos as int) is Some,
        r matches Ok((v, end)) ==> Some((v@, end as int)) == spec_de_expr(b@, pos as int),
        r matches Ok((v, end)) ==> (pos < end <= b@.len() && ser_expr(v@) == b@.subrange(
            pos as int,
            end as int,
        )),
        r is Err ==> r->Err_0 is Parse,
    decreases b@.len() - pos, 3int,
{
    let (d, p1) = read_u8(b, pos)?;
    if d == 0x00 {
        let (a, p2) = deserialize_expr(b, p1)?;
        let (bb, p3) = deserialize_expr(b, p2)?;
        let e = Expr::Let(Box::new(a), Box::new(bb));
        proof {
            assert(ser_expr(e@) =~= b@.subrange(pos as int, p3 as int));
        }
        Ok((e, p3))
    } else if d == 0x01 {
        let (a, p2) = deserialize_expr(b, p1)?;
        let (bb, p3) = deserialize_expr(b, p2)?;
        let e = Expr::Sequence(Box::new(a), Box::new(bb));
        proof {
            assert(ser_expr(e@) =~= b@.subrange(pos as int, p3 as int));
        }
        Ok((e, p3))
    } else if 0x02 <= d && d <= 0x04 {
        let (c, p2) = deserialize_cexpr_tail(b, pos, d, p1)?;
        let e = Expr::CExpr(c);
        proof {
            assert(ser_expr(e@) =~= b@.subrange(pos as int, p2 as int));
        }
        Ok((e, p2))
    } else if 0x05 <= d && d <= 0x09 {
        let (a, p2) = deserialize_aexpr_tail(b, pos, d, p1)?;
        let e = Expr::AExpr(a);
        proof {
            assert(ser_expr(e@) =~= b@.subrange(pos as int, p2 as int));
        }
        Ok((e, p2))
    } else {
        Err(decode_err())
    }
}

/// `n` consecutive length-prefixed strings decoded starting at `pos`.
pub open spec fn spec_de_names(b: Seq<u8>, pos: int, n: nat) -> Option<(Seq<Seq<char>>, int)>
    decreases n,
{
    if n == 0 {
        Some((Seq::empty(), pos))
    } else {
        match spec_de_str(b, pos) {
            Some((s, p2)) => if pos < p2 <= b.len() {
                prepend_decoded(seq![s], spec_de_names(b, p2, (n - 1) as nat))
            } else {
                None
            },
            None => None,
        }
    }
}

/// `n` consecutive declarations decoded starting at `pos`: each a name
/// and an expression.
pub open spec fn spec_de_decls(b: Seq<u8>, pos: int, n: nat) -> Option<
    (Seq<(Seq<char>, ExprV)>, int),
>
    decreases n,
{
    if n == 0 {
        Some((Seq::empty(), pos))
    } else {
        match spec_de_str(b, pos) {
            Some((s, p2)) => if pos < p2 <= b.len() {
                match spec_de_expr(b, p2) {
                    Some((e, p3)) => if p2 < p3 <= b.len() {
                        prepend_decoded(seq![(s, e)], spec_de_decls(b, p3, (n - 1) as nat))
                    } else {
                        None
                    },
                    None => None,
                }
            } else {
                None
            },
            None => None,
        }
    }
}

/// The program decoded at the front of a byte string, if it begins with
/// the magic bytes, an intrinsics table, and a declarations table.
pub open spec fn spec_de_program(b: Seq<u8>) -> Option<(ProgramV, int)> {
    if b.len() >= 4 && b[0] == 0x6f && b[1] == 0x66 && b[2] == 0x74 && b[3] == 0x61 && 12
        <= b.len() && le_u64_at(b, 4) <= usize::MAX as u64 {
        match spec_de_names(b, 12, le_u64_at(b, 4) as nat) {
            Some((ns, p)) => if 12 <= p <= b.len() && p + 8 <= b.len() && le_u64_at(b, p)
                <= usize::MAX as u64 {
                match spec_de_decls(b, p + 8, le_u64_at(b, p) as nat) {
                    Some((ds, q)) => Some((ProgramV { intrinsics: ns, decls: ds }, q)),
                    None => None,
                }
            } else {
                None
            },
            None => None,
        }
    } else {
        None
    }
}

/// Whether an atomic expression survives the codec round trip: lambda
/// names are nonempty and argument counts fit the machine.
pub open spec fn codec_ok_aexpr(a: AExprV) -> bool
    decreases a, 0int,
{
    match a {
        AExprV::Global(_) => true,
        AExprV::Lambda(name, argn, body) => (name matches Some(n) ==> n.len() > 0) && argn
            <= usize::MAX && codec_ok_expr(*body),
        AExprV::Literal(_) => true,
        AExprV::Local(_) => true,
        AExprV::Vector(es) => forall|i: int|
            0 <= i < es.len() ==> codec_ok_aexpr(#[trigger] es[i]),
    }
}

/// Whether a complex expression survives the codec round trip.
pub open spec fn codec_ok_cexpr(c: CExprV) -> bool
    decreases c, 2int,
{
    match c {
        CExprV::Call(f, args) => codec_ok_aexpr(f) && (forall|i: int|
            0 <= i < args.len() ==> codec_ok_aexpr(#[trigger] args[i])),
        CExprV::If(cond, t, e) => codec_ok_aexpr(cond) && codec_ok_expr(*t) && codec_ok_expr(*e),
        CExprV::LetRec(bound, body) => (forall|i: int|
            0 <= i < bound.len() ==> (#[trigger] bound[i]).1 <= usize::MAX && codec_ok_expr(
                bound[i].2,
            )) && codec_ok_expr(*body),
    }
}

/// Whether an expression survives the codec round trip.
pub open spec fn codec_ok_expr(e: ExprV) -> bool
    decreases e, 3int,
{
    match e {
        ExprV::AExpr(a) => codec_ok_aexpr(a),
        ExprV::CExpr(c) => codec_ok_cexpr(c),
        ExprV::Let(a, b) => codec_ok_expr(*a) && codec_ok_expr(*b),
        ExprV::Sequence(a, b) => codec_ok_expr(*a) && codec_ok_expr(*b),
    }
}

/// An atomic expression's encoding begins with its tag, between 5 and 9.
proof fn lemma_ser_aexpr_len_pos(a: AExprV)
    ensures
        ser_aexpr(a).len() >= 1,
        0x05 <= ser_aexpr(a)[0] <= 0x09,
{
    match a {
        AExprV::Global(_) => {},
        AExprV::Lambda(_, _, _) => {},
        AExprV::Literal(_) => {},
        AExprV::Local(_) => {},
        AExprV::Vector(_) => {},
    }
}

/// A complex expression's encoding begins with its tag, between 2 and 4.
proof fn lemma_ser_cexpr_len_pos(c: CExprV)
    ensures
        ser_cexpr(c).len() >= 1,
        0x02 <= ser_cexpr(c)[0] <= 0x04,
{
    match c {
        CExprV::Call(_, _) => {},
        CExprV::If(_, _, _) => {},
        CExprV::LetRec(_, _) => {},
    }
}

/// An expression's encoding is nonempty and begins with a tag below 10.
proof fn lemma_ser_expr_len_pos(e: ExprV)
    ensures
        ser_expr(e).len() >= 1,
        ser_expr(e)[0] <= 0x09,
{
    match e {
        ExprV::AExpr(a) => {
            lemma_ser_aexpr_len_pos(a);
        },
        ExprV::CExpr(c) => {
            lemma_ser_cexpr_len_pos(c);
        },
        ExprV::Let(_, _) => {},
        ExprV::Sequence(_, _) => {},
    }
}

/// Concatenated atomic-expression encodings split at the front.
proof fn lemma_ser_aexprs_cons(x: AExprV, rest: Seq<AExprV>)
    ensures
        ser_aexprs(seq![x] + rest) == ser_aexpr(x) + ser_aexprs(rest),
    decreases rest,
{
    if rest.len() == 0 {
        assert(seq![x] + rest =~= seq![x]);
        assert((seq![x]).drop_last() =~= Seq::<AExprV>::empty());
        assert((seq![x]).last() == x);
        assert(ser_aexprs(Seq::<AExprV>::empty()) =~= Seq::<u8>::empty());
        assert(ser_aexprs(seq![x] + rest) =~= ser_aexpr(x) + ser_aexprs(rest));
    } else {
        assert((seq![x] + rest).drop_last() =~= seq![x] + rest.drop_last());
        lemma_ser_aexprs_cons(x, rest.drop_last());
        assert((seq![x] + rest).last() == rest.last());
        assert(ser_aexprs(seq![x] + rest) =~= ser_aexpr(x) + ser_aexprs(rest));
    }
}

/// A sequence's concatenated encoding is at least one byte per element.
proof fn lemma_ser_aexprs_len_ge(es: Seq<AExprV>)
    ensures
        ser_aexprs(es).len() >= es.len(),
    decreases es,
{
    if es.len() > 0 {
        lemma_ser_aexprs_len_ge(es.drop_last());
        lemma_ser_aexpr_len_pos(es.last());
    }
}

/// Concatenated letrec-binding encodings split at the front.
proof fn lemma_ser_letrec_cons(x: (Seq<char>, nat, ExprV), rest: Seq<(Seq<char>, nat, ExprV)>)
    ensures
        ser_letrec(seq![x] + rest) == (ser_str(x.0) + u64_le(x.1 as u64) + ser_expr(x.2))
            + ser_letrec(rest),
    decreases rest,
{
    if rest.len() == 0 {
        assert(seq![x] + rest =~= seq![x]);
        assert((seq![x]).drop_last() =~= Seq::<(Seq<char>, nat, ExprV)>::empty());
        assert((seq![x]).last() == x);
        assert(ser_letrec(Seq::<(Seq<char>, nat, ExprV)>::empty()) =~= Seq::<u8>::empty());
        assert(ser_letrec(seq![x] + rest) =~= (ser_str(x.0) + u64_le(x.1 as u64) + ser_expr(
            x.2,
        )) + ser_letrec(rest));
    } else {
        assert((seq![x] + rest).drop_last() =~= seq![x] + rest.drop_last());
        lemma_ser_letrec_cons(x, rest.drop_last());
        assert((seq![x] + rest).last() == rest.last());
        assert(ser_letrec(seq![x] + rest) =~= (ser_str(x.0) + u64_le(x.1 as u64) + ser_expr(
            x.2,
        )) + ser_letrec(rest));
    }
}

/// A letrec table's encoding is at least one byte per binding.
proof fn lemma_ser_letrec_len_ge(bs: Seq<(Seq<char>, nat, ExprV)>)
    ensures
        ser_letrec(bs).len() >= bs.len(),
    decreases bs,
{
    if bs.len() > 0 {
        lemma_ser_letrec_len_ge(bs.drop_last());
    }
}

/// Atomic-expression decoding is complete: at the front of any byte
/// range that holds such an encoding, the decoder succeeds and returns it.
pub proof fn lemma_aexpr_decode_of_encode(b: Seq<u8>, pos: int, a: AExprV)
    requires
        0 <= pos,
        pos + ser_aexpr(a).len() <= b.len(),
        b.len() <= usize::MAX as int,
        b.subrange(pos, pos + ser_aexpr(a).len()) == ser_aexpr(a),
        codec_ok_aexpr(a),
    ensures
        spec_de_aexpr_tail(b, pos) == Some((a, pos + ser_aexpr(a).len())),
        spec_de_aexpr(b, pos) == Some((a, pos + ser_aexpr(a).len())),
    decreases a, 0int,
{
    let n = ser_aexpr(a).len() as int;
    lemma_ser_aexpr_len_pos(a);
    assert(b[pos] == b.subrange(pos, pos + n)[0]);
    match a {
        AExprV::Global(s) => {
            assert(b[pos] == 0x05);
            b.lemma_slice_of_slice(pos, pos + n, 1, n);
            assert(ser_aexpr(a).subrange(1, n) =~= ser_str(s));
            lemma_str_decode_of_encode(b, pos + 1, s);
        },
        AExprV::Lambda(name, argn, body) => {
            assert(b[pos] == 0x06);
            let nm = match name {
                Some(x) => x,
                None => Seq::empty(),
            };
            let sl = ser_str(nm).len() as int;
            let bl = ser_expr(*body).len() as int;
            assert(n == 1 + sl + 8 + bl);
            b.lemma_slice_of_slice(pos, pos + n, 1, 1 + sl);
            assert(ser_aexpr(a).subrange(1, 1 + sl) =~= ser_str(nm));
            lemma_str_decode_of_encode(b, pos + 1, nm);
            let p2 = pos + 1 + sl;
            b.lemma_slice_of_slice(pos, pos + n, 1 + sl, 1 + sl + 8);
            assert(ser_aexpr(a).subrange(1 + sl, 1 + sl + 8) =~= u64_le(argn as u64));
            lemma_le_u64_at(b, p2, argn as u64);
            b.lemma_slice_of_slice(pos, pos + n, 1 + sl + 8, n);
            assert(ser_aexpr(a).subrange(1 + sl + 8, n) =~= ser_expr(*body));
            lemma_expr_decode_of_encode(b, p2 + 8, *body);
            if name is Some {
                assert(nm.len() > 0);
            }
        },
        AExprV::Literal(l) => {
            assert(b[pos] == 0x07);
            b.lemma_slice_of_slice(pos, pos + n, 1, n);
            assert(ser_aexpr(a).subrange(1, n) =~= ser_lit(l));
            lemma_lit_decode_of_encode(b, pos + 1, l);
        },
        AExprV::Local(x) => {
            assert(b[pos] == 0x08);
            b.lemma_slice_of_slice(pos, pos + n, 1, 9);
            assert(ser_aexpr(a).subrange(1, 9) =~= u64_le(x as u64));
            lemma_le_u64_at(b, pos + 1, x as u64);
        },
        AExprV::Vector(es) => {
            assert(b[pos] == 0x09);
            lemma_ser_aexprs_len_ge(es);
            b.lemma_slice_of_slice(pos, pos + n, 1, 9);
            assert(ser_aexpr(a).subrange(1, 9) =~= u64_le(es.len() as u64));
            lemma_le_u64_at(b, pos + 1, es.len() as u64);
            b.lemma_slice_of_slice(pos, pos + n, 9, n);
            assert(ser_aexpr(a).subrange(9, n) =~= ser_aexprs(es));
            assert(es.skip(0) =~= es);
            lemma_aexprs_decode_of_encode(b, pos + 9, es, 0);
        },
    }
}

/// Sequence decoding of atomic expressions is complete from element `i`.
proof fn lemma_aexprs_decode_of_encode(b: Seq<u8>, pos: int, es: Seq<AExprV>, i: int)
    requires
        0 <= pos,
        0 <= i <= es.len(),
        pos + ser_aexprs(es.skip(i)).len() <= b.len(),
        b.len() <= usize::MAX as int,
        b.subrange(pos, pos + ser_aexprs(es.skip(i)).len()) == ser_aexprs(es.skip(i)),
        forall|j: int| 0 <= j < es.len() ==> codec_ok_aexpr(#[trigger] es[j]),
    ensures
        spec_de_aexprs(b, pos, (es.len() - i) as nat) == Some(
            (es.skip(i), pos + ser_aexprs(es.skip(i)).len()),
        ),
    decreases es, es.len() - i,
{
    if i == es.len() {
        assert(es.skip(i) =~= Seq::<AExprV>::empty());
        assert(ser_aexprs(es.skip(i)) =~= Seq::<u8>::empty());
    } else {
        assert(es.skip(i) =~= seq![es[i]] + es.skip(i + 1));
        lemma_ser_aexprs_cons(es[i], es.skip(i + 1));
        let n = ser_aexprs(es.skip(i)).len() as int;
        let hn = ser_aexpr(es[i]).len() as int;
        let tn = ser_aexprs(es.skip(i + 1)).len() as int;
        assert(n == hn + tn);
        b.lemma_slice_of_slice(pos, pos + n, 0, hn);
        assert(ser_aexprs(es.skip(i)).subrange(0, hn) =~= ser_aexpr(es[i]));
        lemma_aexpr_decode_of_encode(b, pos, es[i]);
        lemma_ser_aexpr_len_pos(es[i]);
        b.lemma_slice_of_slice(pos, pos + n, hn, n);
        assert(ser_aexprs(es.skip(i)).subrange(hn, n) =~= ser_aexprs(es.skip(i + 1)));
        lemma_aexprs_decode_of_encode(b, pos + hn, es, i + 1);
        assert(seq![es[i]] + es.skip(i + 1) =~= es.skip(i));
    }
}

/// Complex-expression decoding is complete: at the front of any byte
/// range that holds such an encoding, the decoder succeeds and returns it.
#[verifier::rlimit(100)]
#[verifier::spinoff_prover]
pub proof fn lemma_cexpr_decode_of_encode(b: Seq<u8>, pos: int, c: CExprV)
    requires
        0 <= pos,
        pos + ser_cexpr(c).len() <= b.len(),
        b.len() <= usize::MAX as int,
        b.subrange(pos, pos + ser_cexpr(c).len()) == ser_cexpr(c),
        codec_ok_cexpr(c),
    ensures
        spec_de_cexpr_tail(b, pos) == Some((c, pos + ser_cexpr(c).len())),
    decreases c, 2int,
{
    let n = ser_cexpr(c).len() as int;
    lemma_ser_cexpr_len_pos(c);
    assert(b[pos] == b.subrange(pos, pos + n)[0]);
    match c {
        CExprV::Call(f, args) => {
            assert(b[pos] == 0x02);
            let fl = ser_aexpr(f).len() as int;
            let al = ser_aexprs(args).len() as int;
            assert(n == 1 + fl + 8 + al);
            b.lemma_slice_of_slice(pos, pos + n, 1, 1 + fl);
            assert(ser_cexpr(c).subrange(1, 1 + fl) =~= ser_aexpr(f));
            lemma_aexpr_decode_of_encode(b, pos + 1, f);
            lemma_ser_aexpr_len_pos(f);
            let p2 = pos + 1 + fl;
            lemma_ser_aexprs_len_ge(args);
            b.lemma_slice_of_slice(pos, pos + n, 1 + fl, 1 + fl + 8);
            assert(ser_cexpr(c).subrange(1 + fl, 1 + fl + 8) =~= u64_le(args.len() as u64));
            lemma_le_u64_at(b, p2, args.len() as u64);
            b.lemma_slice_of_slice(pos, pos + n, 1 + fl + 8, n);
            assert(ser_cexpr(c).subrange(1 + fl + 8, n) =~= ser_aexprs(args));
            assert(args.skip(0) =~= args);
            lemma_aexprs_decode_of_encode(b, p2 + 8, args, 0);
        },
        CExprV::If(cond, t, e) => {
            assert(b[pos] == 0x03);
            let cl = ser_aexpr(cond).len() as int;
            let tl = ser_expr(*t).len() as int;
            let el = ser_expr(*e).len() as int;
            assert(n == 1 + cl + tl + el);
            b.lemma_slice_of_slice(pos, pos + n, 1, 1 + cl);
            assert(ser_cexpr(c).subrange(1, 1 + cl) =~= ser_aexpr(cond));
            lemma_aexpr_decode_of_encode(b, pos + 1, cond);
            lemma_ser_aexpr_len_pos(cond);
            b.lemma_slice_of_slice(pos, pos + n, 1 + cl, 1 + cl + tl);
            assert(ser_cexpr(c).subrange(1 + cl, 1 + cl + tl) =~= ser_expr(*t));
            lemma_expr_decode_of_encode(b, pos + 1 + cl, *t);
            lemma_ser_expr_len_pos(*t);
            b.lemma_slice_of_slice(pos, pos + n, 1 + cl + tl, n);
            assert(ser_cexpr(c).subrange(1 + cl + tl, n) =~= ser_expr(*e));
            lemma_expr_decode_of_encode(b, pos + 1 + cl + tl, *e);
        },
        CExprV::LetRec(bound, body) => {
            assert(b[pos] == 0x04);
            let ll = ser_letrec(bound).len() as int;
            let bl = ser_expr(*body).len() as int;
            assert(n == 1 + 8 + ll + bl);
            lemma_ser_letrec_len_ge(bound);
            b.lemma_slice_of_slice(pos, pos + n, 1, 9);
            assert(ser_cexpr(c).subrange(1, 9) =~= u64_le(bound.len() as u64));
            lemma_le_u64_at(b, pos + 1, bound.len() as u64);
            b.lemma_slice_of_slice(pos, pos + n, 9, 9 + ll);
            assert(ser_cexpr(c).subrange(9, 9 + ll) =~= ser_letrec(bound));
            assert(bound.skip(0) =~= bound);
            lemma_letrec_decode_of_encode(b, pos + 9, bound, 0);
            b.lemma_slice_of_slice(pos, pos + n, 9 + ll, n);
            assert(ser_cexpr(c).subrange(9 + ll, n) =~= ser_expr(*body));
            lemma_expr_decode_of_encode(b, pos + 9 + ll, *body);
        },
    }
}

/// Letrec-table decoding is complete from binding `i`.
proof fn lemma_letrec_decode_of_encode(
    b: Seq<u8>,
    pos: int,
    bs: Seq<(Seq<char>, nat, ExprV)>,
    i: int,
)
    requires
        0 <= pos,
        0 <= i <= bs.len(),
        pos + ser_letrec(bs.skip(i)).len() <= b.len(),
        b.len() <= usize::MAX as int,
        b.subrange(pos, pos + ser_letrec(bs.skip(i)).len()) == ser_letrec(bs.skip(i)),
        forall|j: int|
            0 <= j < bs.len() ==> (#[trigger] bs[j]).1 <= usize::MAX && codec_ok_expr(bs[j].2),
    ensures
        spec_de_letrec(b, pos, (bs.len() - i) as nat) == Some(
            (bs.skip(i), pos + ser_letrec(bs.skip(i)).len()),
        ),
    decreases bs, bs.len() - i,
{
    if i == bs.len() {
        assert(bs.skip(i) =~= Seq::<(Seq<char>, nat, ExprV)>::empty());
        assert(ser_letrec(bs.skip(i)) =~= Seq::<u8>::empty());
    } else {
        assert(bs.skip(i) =~= seq![bs[i]] + bs.skip(i + 1));
        lemma_ser_letrec_cons(bs[i], bs.skip(i + 1));
        let piece = ser_str(bs[i].0) + u64_le(bs[i].1 as u64) + ser_expr(bs[i].2);
        let n = ser_letrec(bs.skip(i)).len() as int;
        let sl = ser_str(bs[i].0).len() as int;
        let el = ser_expr(bs[i].2).len() as int;
        let hn = piece.len() as int;
        let tn = ser_letrec(bs.skip(i + 1)).len() as int;
        assert(n == hn + tn);
        assert(hn == sl + 8 + el);
        b.lemma_slice_of_slice(pos, pos + n, 0, sl);
        assert(ser_letrec(bs.skip(i)).subrange(0, sl) =~= ser_str(bs[i].0));
        lemma_str_decode_of_encode(b, pos, bs[i].0);
        b.lemma_slice_of_slice(pos, pos + n, sl, sl + 8);
        assert(ser_letrec(bs.skip(i)).subrange(sl, sl + 8) =~= u64_le(bs[i].1 as u64));
        lemma_le_u64_at(b, pos + sl, bs[i].1 as u64);
        b.lemma_slice_of_slice(pos, pos + n, sl + 8, hn);
        assert(ser_letrec(bs.skip(i)).subrange(sl + 8, hn) =~= ser_expr(bs[i].2));
        assert(decreases_to!(bs => bs[i]));
        lemma_expr_decode_of_encode(b, pos + sl + 8, bs[i].2);
        lemma_ser_expr_len_pos(bs[i].2);
        b.lemma_slice_of_slice(pos, pos + n, hn, n);
        assert(ser_letrec(bs.skip(i)).subrange(hn, n) =~= ser_letrec(bs.skip(i + 1)));
        lemma_letrec_decode_of_encode(b, pos + hn, bs, i + 1);
        assert(seq![bs[i]] + bs.skip(i + 1) =~= bs.skip(i));
    }
}

/// Expression decoding is complete: at the front of any byte range that
/// holds an expression's encoding, the decoder succeeds and returns it.
pub proof fn lemma_expr_decode_of_encode(b: Seq<u8>, pos: int, e: ExprV)
    requires
        0 <= pos,
        pos + ser_expr(e).len() <= b.len(),
        b.len() <= usize::MAX as int,
        b.subrange(pos, pos + ser_expr(e).len()) == ser_expr(e),
        codec_ok_expr(e),
    ensures
        spec_de_expr(b, pos) == Some((e, pos + ser_expr(e).len())),
    decreases e, 3int,
{
    let n = ser_expr(e).len() as int;
    lemma_ser_expr_len_pos(e);
    assert(b[pos] == b.subrange(pos, pos + n)[0]);
    match e {
        ExprV::AExpr(a) => {
            lemma_ser_aexpr_len_pos(a);
            assert(b.subrange(pos, pos + n) == ser_aexpr(a));
            lemma_aexpr_decode_of_encode(b, pos, a);
        },
        ExprV::CExpr(c) => {
            lemma_ser_cexpr_len_pos(c);
            assert(b.subrange(pos, pos + n) == ser_cexpr(c));
            lemma_cexpr_decode_of_encode(b, pos, c);
        },
        ExprV::Let(a, bb) => {
            assert(b[pos] == 0x00);
            let al = ser_expr(*a).len() as int;
            b.lemma_slice_of_slice(pos, pos + n, 1, 1 + al);
            assert(ser_expr(e).subrange(1, 1 + al) =~= ser_expr(*a));
            lemma_expr_decode_of_encode(b, pos + 1, *a);
            lemma_ser_expr_len_pos(*a);
            b.lemma_slice_of_slice(pos, pos + n, 1 + al, n);
            assert(ser_expr(e).subrange(1 + al, n) =~= ser_expr(*bb));
            lemma_expr_decode_of_encode(b, pos + 1 + al, *bb);
        },
        ExprV::Sequence(a, bb) => {
            assert(b[pos] == 0x01);
            let al = ser_expr(*a).len() as int;
            b.lemma_slice_of_slice(pos, pos + n, 1, 1 + al);
            assert(ser_expr(e).subrange(1, 1 + al) =~= ser_expr(*a));
            lemma_expr_decode_of_encode(b, pos + 1, *a);
            lemma_ser_expr_len_pos(*a);
            b.lemma_slice_of_slice(pos, pos + n, 1 + al, n);
            assert(ser_expr(e).subrange(1 + al, n) =~= ser_expr(*bb));
            lemma_expr_decode_of_encode(b, pos + 1 + al, *bb);
        },
    }
}

/// Concatenated name encodings split at the front.
proof fn lemma_ser_names_cons(x: Seq<char>, rest: Seq<Seq<char>>)
    ensures
        ser_names(seq![x] + rest) == ser_str(x) + ser_names(rest),
    decreases rest,
{
    if rest.len() == 0 {
        assert(seq![x] + rest =~= seq![x]);
        assert((seq![x]).drop_last() =~= Seq::<Seq<char>>::empty());
        assert((seq![x]).last() == x);
        assert(ser_names(Seq::<Seq<char>>::empty()) =~= Seq::<u8>::empty());
        assert(ser_names(seq![x] + rest) =~= ser_str(x) + ser_names(rest));
    } else {
        assert((seq![x] + rest).drop_last() =~= seq![x] + rest.drop_last());
        lemma_ser_names_cons(x, rest.drop_last());
        assert((seq![x] + rest).last() == rest.last());
        assert(ser_names(seq![x] + rest) =~= ser_str(x) + ser_names(rest));
    }
}

/// A name table's encoding is at least one byte per name.
proof fn lemma_ser_names_len_ge(ns: Seq<Seq<char>>)
    ensures
        ser_names(ns).len() >= ns.len(),
    decreases ns,
{
    if ns.len() > 0 {
        lemma_ser_names_len_ge(ns.drop_last());
    }
}

/// Concatenated declaration encodings split at the front.
proof fn lemma_ser_decls_cons(x: (Seq<char>, ExprV), rest: Seq<(Seq<char>, ExprV)>)
    ensures
        ser_decls(seq![x] + rest) == (ser_str(x.0) + ser_expr(x.1)) + ser_decls(rest),
    decreases rest,
{
    if rest.len() == 0 {
        assert(seq![x] + rest =~= seq![x]);
        assert((seq![x]).drop_last() =~= Seq::<(Seq<char>, ExprV)>::empty());
        assert((seq![x]).last() == x);
        assert(ser_decls(Seq::<(Seq<char>, ExprV)>::empty()) =~= Seq::<u8>::empty());
        assert(ser_decls(seq![x] + rest) =~= (ser_str(x.0) + ser_expr(x.1)) + ser_decls(rest));
    } else {
        assert((seq![x] + rest).drop_last() =~= seq![x] + rest.drop_last());
        lemma_ser_decls_cons(x, rest.drop_last());
        assert((seq![x] + rest).last() == rest.last());
        assert(ser_decls(seq![x] + rest) =~= (ser_str(x.0) + ser_expr(x.1)) + ser_decls(rest));
    }
}

/// A declaration table's encoding is at least one byte per declaration.
proof fn lemma_ser_decls_len_ge(ds: Seq<(Seq<char>, ExprV)>)
    ensures
        ser_decls(ds).len() >= ds.len(),
    decreases ds,
{
    if ds.len() > 0 {
        lemma_ser_decls_len_ge(ds.drop_last());
    }
}

/// Name-table decoding is complete from name `i`.
proof fn lemma_names_decode_of_encode(b: Seq<u8>, pos: int, ns: Seq<Seq<char>>, i: int)
    requires
        0 <= pos,
        0 <= i <= ns.len(),
        pos + ser_names(ns.skip(i)).len() <= b.len(),
        b.len() <= usize::MAX as int,
        b.subrange(pos, pos + ser_names(ns.skip(i)).len()) == ser_names(ns.skip(i)),
    ensures
        spec_de_names(b, pos, (ns.len() - i) as nat) == Some(
            (ns.skip(i), pos + ser_names(ns.skip(i)).len()),
        ),
    decreases ns.len() - i,
{
    if i == ns.len() {
        assert(ns.skip(i) =~= Seq::<Seq<char>>::empty());
        assert(ser_names(ns.skip(i)) =~= Seq::<u8>::empty());
    } else {
        assert(ns.skip(i) =~= seq![ns[i]] + ns.skip(i + 1));
        lemma_ser_names_cons(ns[i], ns.skip(i + 1));
        let n = ser_names(ns.skip(i)).len() as int;
        let hn = ser_str(ns[i]).len() as int;
        let tn = ser_names(ns.skip(i + 1)).len() as int;
        assert(n == hn + tn);
        b.lemma_slice_of_slice(pos, pos + n, 0, hn);
        assert(ser_names(ns.skip(i)).subrange(0, hn) =~= ser_str(ns[i]));
        lemma_str_decode_of_encode(b, pos, ns[i]);
        b.lemma_slice_of_slice(pos, pos + n, hn, n);
        assert(ser_names(ns.skip(i)).subrange(hn, n) =~= ser_names(ns.skip(i + 1)));
        lemma_names_decode_of_encode(b, pos + hn, ns, i + 1);
        assert(seq![ns[i]] + ns.skip(i + 1) =~= ns.skip(i));
    }
}

/// Declaration-table decoding is complete from declaration `i`.
proof fn lemma_decls_decode_of_encode(b: Seq<u8>, pos: int, ds: Seq<(Seq<char>, ExprV)>, i: int)
    requires
        0 <= pos,
        0 <= i <= ds.len(),
        pos + ser_decls(ds.skip(i)).len() <= b.len(),
        b.len() <= usize::MAX as int,
        b.subrange(pos, pos + ser_decls(ds.skip(i)).len()) == ser_decls(ds.skip(i)),
        forall|j: int| 0 <= j < ds.len() ==> codec_ok_expr((#[trigger] ds[j]).1),
    ensures
        spec_de_decls(b, pos, (ds.len() - i) as nat) == Some(
            (ds.skip(i), pos + ser_decls(ds.skip(i)).len()),
        ),
    decreases ds.len() - i,
{
    if i == ds.len() {
        assert(ds.skip(i) =~= Seq::<(Seq<char>, ExprV)>::empty());
        assert(ser_decls(ds.skip(i)) =~= Seq::<u8>::empty());
    } else {
        assert(ds.skip(i) =~= seq![ds[i]] + ds.skip(i + 1));
        lemma_ser_decls_cons(ds[i], ds.skip(i + 1));
        let n = ser_decls(ds.skip(i)).len() as int;
        let sl = ser_str(ds[i].0).len() as int;
        let el = ser_expr(ds[i].1).len() as int;
        let hn = sl + el;
        let tn = ser_decls(ds.skip(i + 1)).len() as int;
        assert(n == hn + tn);
        b.lemma_slice_of_slice(pos, pos + n, 0, sl);
        assert(ser_decls(ds.skip(i)).subrange(0, sl) =~= ser_str(ds[i].0));
        lemma_str_decode_of_encode(b, pos, ds[i].0);
        b.lemma_slice_of_slice(pos, pos + n, sl, hn);
        assert(ser_decls(ds.skip(i)).subrange(sl, hn) =~= ser_expr(ds[i].1));
        lemma_expr_decode_of_encode(b, pos + sl, ds[i].1);
        lemma_ser_expr_len_pos(ds[i].1);
        b.lemma_slice_of_slice(pos, pos + n, hn, n);
        assert(ser_decls(ds.skip(i)).subrange(hn, n) =~= ser_decls(ds.skip(i + 1)));
        lemma_decls_decode_of_encode(b, pos + hn, ds, i + 1);
        assert(seq![ds[i]] + ds.skip(i + 1) =~= ds.skip(i));
    }
}

/// Program decoding is complete: reading back a program's own encoding
/// succeeds and returns an equal program, consuming exactly its bytes.
/// With the decoder's contract this closes the codec round trip.
pub proof fn lemma_program_decode_of_encode(b: Seq<u8>, p: ProgramV)
    requires
        ser_program(p).len() <= b.len(),
        b.len() <= usize::MAX as int,
        b.subrange(0, ser_program(p).len() as int) == ser_program(p),
        forall|j: int| 0 <= j < p.decls.len() ==> codec_ok_expr((#[trigger] p.decls[j]).1),
    ensures
        spec_de_program(b) == Some((p, ser_program(p).len() as int)),
{
    let n = ser_program(p).len() as int;
    let il = ser_names(p.intrinsics).len() as int;
    let dl = ser_decls(p.decls).len() as int;
    assert(n == 4 + 8 + il + 8 + dl);
    assert forall|k: int| 0 <= k < 4 implies #[trigger] b[k] == magic()[k] by {
        assert(b.subrange(0, n)[k] == ser_program(p)[k]);
    }
    assert(b[0] == 0x6f && b[1] == 0x66 && b[2] == 0x74 && b[3] == 0x61);
    lemma_ser_names_len_ge(p.intrinsics);
    lemma_ser_decls_len_ge(p.decls);
    b.lemma_slice_of_slice(0, n, 4, 12);
    assert(ser_program(p).subrange(4, 12) =~= u64_le(p.intrinsics.len() as u64));
    lemma_le_u64_at(b, 4, p.intrinsics.len() as u64);
    b.lemma_slice_of_slice(0, n, 12, 12 + il);
    assert(ser_program(p).subrange(12, 12 + il) =~= ser_names(p.intrinsics));
    assert(p.intrinsics.skip(0) =~= p.intrinsics);
    lemma_names_decode_of_encode(b, 12, p.intrinsics, 0);
    let q = 12 + il;
    b.lemma_slice_of_slice(0, n, q, q + 8);
    assert(ser_program(p).subrange(q, q + 8) =~= u64_le(p.decls.len() as u64));
    lemma_le_u64_at(b, q, p.decls.len() as u64);
    b.lemma_slice_of_slice(0, n, q + 8, n);
    assert(ser_program(p).subrange(q + 8, n) =~= ser_decls(p.decls));
    assert(p.decls.skip(0) =~= p.decls);
    lemma_decls_decode_of_encode(b, q + 8, p.decls, 0);
}

impl Program {
    /// Reads a program from the front of a byte string. On success, the
    /// program's own encoding is exactly the consumed prefix.
    #[verifier::rlimit(100)]
    #[verifier::spinoff_prover]
    pub fn deserialize_from(b: &[u8]) -> (r: Result<(Program, usize), ErrorKind>)
        ensures
            r is Ok <==> spec_de_program(b@) is Some,
            r matches Ok((p, end)) ==> Some((p@, end as int)) == spec_de_program(b@),
            r matches Ok((p, end)) ==> (end <= b@.len() && ser_program(p@) == b@.subrange(
                0,
                end as int,
            )),
            r is Err ==> r->Err_0 is Parse,
    {
        broadcast use crate::literal::lemma_lits_view_index;

        if b.len() < 4 {
            return Err(decode_err());
        }
        if !(b[0] == 0x6f && b[1] == 0x66 && b[2] == 0x74 && b[3] == 0x61) {
            return Err(decode_err());
        }
        proof {
            assert(magic() =~= b@.subrange(0, 4));
        }
        let (icnt, p1) = read_u64(b, 4)?;
        proof {
            lemma_le_u64_at(b@, 4, icnt);
        }
        if icnt > usize::MAX as u64 {
            return Err(decode_err());
        }
        let ni = icnt as usize;
        let mut intrinsics: Vec<String> = Vec::new();
        let mut p = p1;
        let mut i: usize = 0;
        proof {
            assert(intrinsics.deep_view() =~= Seq::<Seq<char>>::empty());
            assert(ser_names(intrinsics.deep_view()) =~= b@.subrange(p1 as int, p as int));
            assert(intrinsics.deep_view() + spec_de_names(b@, p as int, ni as nat)->Some_0.0
                =~= spec_de_names(b@, p as int, ni as nat)->Some_0.0);
        }
        #[verifier::loop_isolation(false)]
        while i < ni
            invariant
                i <= ni,
                intrinsics@.len() == i,
                p1 <= p <= b@.len(),
                ser_names(intrinsics.deep_view()) == b@.subrange(p1 as int, p as int),
                spec_de_names(b@, p1 as int, ni as nat) == prepend_decoded(
                    intrinsics.deep_view(),
                    spec_de_names(b@, p as int, (ni - i) as nat),
                ),
            decreases ni - i,
        {
            let ghost accv = intrinsics.deep_view();
            let ghost rem = (ni - i) as nat;
            let s: String;
            let p2: usize;
            match deserialize_string(b, p) {
                Ok(x) => {
                    s = x.0;
                    p2 = x.1;
                },
                Err(k) => {
                    proof {
                        assert(spec_de_names(b@, p as int, rem) is None);
                        assert(spec_de_names(b@, p1 as int, ni as nat) is None);
                        assert(spec_de_program(b@) is None);
                    }
                    return Err(k);
                },
            }
            let ghost prev = intrinsics.deep_view();
            intrinsics.push(s);
            proof {
                assert(intrinsics.deep_view().drop_last() =~= prev);
                assert(intrinsics.deep_view() =~= prev.push(intrinsics@.last()@));
                assert(ser_names(intrinsics.deep_view()) =~= b@.subrange(p1 as int, p2 as int));
                assert(spec_de_names(b@, p as int, rem) == prepend_decoded(
                    seq![s@],
                    spec_de_names(b@, p2 as int, (rem - 1) as nat),
                ));
                let r2 = spec_de_names(b@, p2 as int, (rem - 1) as nat);
                if r2 is Some {
                    assert(accv + (seq![s@] + r2->Some_0.0) =~= intrinsics.deep_view()
                        + r2->Some_0.0);
                }
            }
            p = p2;
            i = i + 1;
        }
        proof {
            assert(spec_de_names(b@, p as int, 0) == Some::<(Seq<Seq<char>>, int)>(
                (Seq::empty(), p as int),
            ));
            assert(intrinsics.deep_view() + Seq::<Seq<char>>::empty() =~= intrinsics.deep_view());
        }
        let (dcnt, p3) = read_u64(b, p)?;
        proof {
            lemma_le_u64_at(b@, p as int, dcnt);
        }
        if dcnt > usize::MAX as u64 {
            return Err(decode_err());
        }
        let nd = dcnt as usize;
        let mut decls: Vec<(String, Expr)> = Vec::new();
        let mut q = p3;
        let mut i: usize = 0;
        proof {
            assert(crate::flatanf::decls_view(decls@) =~= Seq::<(Seq<char>, ExprV)>::empty());
            assert(ser_decls(crate::flatanf::decls_view(decls@)) =~= b@.subrange(
                p3 as int,
                q as int,
            ));
            assert(crate::flatanf::decls_view(decls@) + spec_de_decls(
                b@,
                q as int,
                nd as nat,
            )->Some_0.0 =~= spec_de_decls(b@, q as int, nd as nat)->Some_0.0);
        }
        #[verifier::loop_isolation(false)]
        while i < nd
            invariant
                i <= nd,
                decls@.len() == i,
                p3 <= q <= b@.len(),
                ser_decls(crate::flatanf::decls_view(decls@)) == b@.subrange(p3 as int, q as int),
                spec_de_decls(b@, p3 as int, nd as nat) == prepend_decoded(
                    crate::flatanf::decls_view(decls@),
                    spec_de_decls(b@, q as int, (nd - i) as nat),
                ),
            decreases nd - i,
        {
            let ghost accv = crate::flatanf::decls_view(decls@);
            let ghost rem = (nd - i) as nat;
            let nm: String;
            let q1: usize;
            match deserialize_string(b, q) {
                Ok(x) => {
                    nm = x.0;
                    q1 = x.1;
                },
                Err(k) => {
                    proof {
                        assert(spec_de_decls(b@, q as int, rem) is None);
                        assert(spec_de_decls(b@, p3 as int, nd as nat) is None);
                        assert(spec_de_program(b@) is None);
                    }
                    return Err(k);
                },
            }
            let e: Expr;
            let q2: usize;
            match deserialize_expr(b, q1) {
                Ok(x) => {
                    e = x.0;
                    q2 = x.1;
                },
                Err(k) => {
                    proof {
                        assert(spec_de_decls(b@, q as int, rem) is None);
                        assert(spec_de_decls(b@, p3 as int, nd as nat) is None);
                        assert(spec_de_program(b@) is None);
                    }
                    return Err(k);
                },
            }
            let ghost prev = crate::flatanf::decls_view(decls@);
            decls.push((nm, e));
            proof {
                assert(crate::flatanf::decls_view(decls@).drop_last() =~= prev);
                assert(crate::flatanf::decls_view(decls@) =~= prev.push(
                    (decls@.last().0@, expr_view(decls@.last().1)),
                ));
                assert(ser_decls(crate::flatanf::decls_view(decls@)) =~= b@.subrange(
                    p3 as int,
                    q2 as int,
                ));
                assert(spec_de_decls(b@, q as int, rem) == prepend_decoded(
                    seq![(nm@, expr_view(e))],
                    spec_de_decls(b@, q2 as int, (rem - 1) as nat),
                ));
                let r2 = spec_de_decls(b@, q2 as int, (rem - 1) as nat);
                if r2 is Some {
                    assert(accv + (seq![(nm@, expr_view(e))] + r2->Some_0.0)
                        =~= crate::flatanf::decls_view(decls@) + r2->Some_0.0);
                }
            }
            q = q2;
            i = i + 1;
        }
        let prog = Program { intrinsics, decls };
        proof {
            assert(spec_de_decls(b@, q as int, 0) == Some::<(Seq<(Seq<char>, ExprV)>, int)>(
                (Seq::empty(), q as int),
            ));
            assert(crate::flatanf::decls_view(decls@) + Seq::<(Seq<char>, ExprV)>::empty()
                =~= crate::flatanf::decls_view(decls@));
            assert(prog@.intrinsics.len() == ni);
            assert(ni as u64 == icnt);
            assert(prog@.decls.len() == nd);
            assert(nd as u64 == dcnt);
            assert(ser_program(prog@) =~= b@.subrange(0, q as int));
        }
        Ok((prog, q))
    }
}

} // verus!
