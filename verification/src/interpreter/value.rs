//! Interpreter values: small handles whose large contents live in the
//! store.

use vstd::prelude::*;

use crate::interpreter::store::{Bytes, Closure, Vector};
use crate::util::{bytes_display, dec_digits, int_display, str_display};

verus! {

/// The address of a value of kind `To` in the store.
#[derive(Debug, PartialEq)]
pub struct Addr<To> {
    pub idx: usize,
    pub of: core::marker::PhantomData<To>,
}

impl<To> Addr<To> {
    /// Creates an address from a raw index.
    pub fn at(idx: usize) -> (r: Addr<To>)
        ensures
            r.idx == idx,
    {
        Addr { idx, of: core::marker::PhantomData }
    }

    /// Copies the address.
    pub fn dup(&self) -> (r: Addr<To>)
        ensures
            r.idx == self.idx,
    {
        Addr { idx: self.idx, of: core::marker::PhantomData }
    }
}

/// An intrinsic function value, referred to by its fully-qualified name;
/// the host supplies its behaviour.
#[derive(Debug, PartialEq)]
pub struct Intrinsic(pub String);

/// A value stored in the store or the environment.
#[derive(Debug, PartialEq)]
pub enum Value {
    Byte(u8),
    Bytes(Addr<Bytes>, usize),
    Closure(Addr<Closure>),
    Cons(Addr<Value>, Addr<Value>),
    Fixnum(i64),
    Intrinsic(Intrinsic),
    Nil,
    String(Addr<String>, usize),
    Symbol(String),
    Vector(Addr<Vector>, usize),
}

/// The mathematical model of a value; addresses and lengths are plain
/// naturals.
#[verifier::ext_equal]
pub enum ValueV {
    Byte(u8),
    Bytes(nat, nat),
    Closure(nat),
    Cons(nat, nat),
    Fixnum(i64),
    Intrinsic(Seq<char>),
    Nil,
    Str(nat, nat),
    Symbol(Seq<char>),
    Vector(nat, nat),
}

/// The model of a value.
pub open spec fn value_view(v: Value) -> ValueV {
    match v {
        Value::Byte(n) => ValueV::Byte(n),
        Value::Bytes(a, l) => ValueV::Bytes(a.idx as nat, l as nat),
        Value::Closure(a) => ValueV::Closure(a.idx as nat),
        Value::Cons(h, t) => ValueV::Cons(h.idx as nat, t.idx as nat),
        Value::Fixnum(n) => ValueV::Fixnum(n),
        Value::Intrinsic(i) => ValueV::Intrinsic(i.0@),
        Value::Nil => ValueV::Nil,
        Value::String(a, l) => ValueV::Str(a.idx as nat, l as nat),
        Value::Symbol(s) => ValueV::Symbol(s@),
        Value::Vector(a, l) => ValueV::Vector(a.idx as nat, l as nat),
    }
}

impl View for Value {
    type V = ValueV;

    open spec fn view(&self) -> ValueV {
        value_view(*self)
    }
}

/// The models of a sequence of values.
pub open spec fn values_view(s: Seq<Value>) -> Seq<ValueV> {
    Seq::new(s.len(), |i: int| value_view(s[i]))
}

impl Value {
    /// Copies this value; values are small handles.
    pub fn duplicate(&self) -> (r: Value)
        ensures
            value_view(r) == value_view(*self),
    {
        match self {
            Value::Byte(n) => Value::Byte(*n),
            Value::Bytes(a, l) => Value::Bytes(a.dup(), *l),
            Value::Closure(a) => Value::Closure(a.dup()),
            Value::Cons(h, t) => Value::Cons(h.dup(), t.dup()),
            Value::Fixnum(n) => Value::Fixnum(*n),
            Value::Intrinsic(i) => Value::Intrinsic(Intrinsic(i.0.clone())),
            Value::Nil => Value::Nil,
            Value::String(a, l) => Value::String(a.dup(), *l),
            Value::Symbol(s) => Value::Symbol(s.clone()),
            Value::Vector(a, l) => Value::Vector(a.dup(), *l),
        }
    }

    /// Copies a vector of values.
    pub fn duplicate_all(vs: &Vec<Value>) -> (r: Vec<Value>)
        ensures
            values_view(r@) == values_view(vs@),
    {
        let mut out: Vec<Value> = Vec::new();
        let mut i: usize = 0;
        #[verifier::loop_isolation(false)]
        while i < vs.len()
            invariant
                i <= vs@.len(),
                out@.len() == i,
                forall|j: int| 0 <= j < i ==> value_view(#[trigger] out@[j]) == value_view(
                    vs@[j],
                ),
            decreases vs@.len() - i,
        {
            let v = vs[i].duplicate();
            out.push(v);
            i = i + 1;
        }
        proof {
            assert(values_view(out@) =~= values_view(vs@));
        }
        out
    }
}


/// Whether two values are structurally ("deeply") equal, following heap
/// handles; `fuel` bounds the recursion, since closure environments can
/// make the heap cyclic, and `None` reports exhaustion or a dangling
/// handle.
pub open spec fn spec_equals(
    a: ValueV,
    b: ValueV,
    st: crate::interpreter::store::StoreV,
    fuel: nat,
) -> Option<bool>
    decreases fuel, 0int,
{
    if fuel == 0 {
        None
    } else {
        match (a, b) {
            (ValueV::Byte(x), ValueV::Byte(y)) => Some(x == y),
            (ValueV::Bytes(xa, xl), ValueV::Bytes(ya, yl)) => if xa + xl <= st.bytes.len() && ya
                + yl <= st.bytes.len() {
                Some(
                    st.bytes.subrange(xa as int, (xa + xl) as int) == st.bytes.subrange(
                        ya as int,
                        (ya + yl) as int,
                    ),
                )
            } else {
                None
            },
            (ValueV::Closure(x), ValueV::Closure(y)) => Some(x == y),
            (ValueV::Cons(xh, xt), ValueV::Cons(yh, yt)) => if xh < st.vals.len() && xt
                < st.vals.len() && yh < st.vals.len() && yt < st.vals.len() {
                match spec_equals(st.vals[xh as int], st.vals[yh as int], st, (fuel - 1) as nat) {
                    Some(true) => spec_equals(
                        st.vals[xt as int],
                        st.vals[yt as int],
                        st,
                        (fuel - 1) as nat,
                    ),
                    r => r,
                }
            } else {
                None
            },
            (ValueV::Fixnum(x), ValueV::Fixnum(y)) => Some(x == y),
            (ValueV::Intrinsic(x), ValueV::Intrinsic(y)) => Some(x == y),
            (ValueV::Nil, ValueV::Nil) => Some(true),
            (ValueV::Str(xa, xl), ValueV::Str(ya, yl)) => if xa + xl <= st.strs.len() && ya + yl
                <= st.strs.len() {
                Some(
                    st.strs.subrange(xa as int, (xa + xl) as int) == st.strs.subrange(
                        ya as int,
                        (ya + yl) as int,
                    ),
                )
            } else {
                None
            },
            (ValueV::Symbol(x), ValueV::Symbol(y)) => Some(x == y),
            (ValueV::Vector(xa, xl), ValueV::Vector(ya, yl)) => if xl != yl {
                Some(false)
            } else if xa + xl <= st.vecs.len() && ya + yl <= st.vecs.len() {
                spec_equals_cells(xa, ya, xl, st, (fuel - 1) as nat)
            } else {
                None
            },
            _ => Some(false),
        }
    }
}

/// Elementwise deep equality of two vector segments of equal length.
pub open spec fn spec_equals_cells(
    xa: nat,
    ya: nat,
    len: nat,
    st: crate::interpreter::store::StoreV,
    fuel: nat,
) -> Option<bool>
    decreases fuel, len,
{
    if len == 0 {
        Some(true)
    } else if xa < st.vecs.len() && ya < st.vecs.len() && st.vecs[xa as int] < st.vals.len()
        && st.vecs[ya as int] < st.vals.len() {
        match spec_equals(
            st.vals[st.vecs[xa as int] as int],
            st.vals[st.vecs[ya as int] as int],
            st,
            fuel,
        ) {
            Some(true) => spec_equals_cells(xa + 1, ya + 1, (len - 1) as nat, st, fuel),
            r => r,
        }
    } else {
        None
    }
}

impl Value {
    /// Determines if two values are "deeply" equal, following handles into
    /// the store. The fuel bounds the traversal; cyclic structures built
    /// through closures would otherwise not terminate.
    pub fn equals(&self, other: &Value, store: &crate::interpreter::store::Store, fuel: u64) -> (r:
        Option<bool>)
        ensures
            r == spec_equals(value_view(*self), value_view(*other), store@, fuel as nat),
        decreases fuel, 0int,
    {
        if fuel == 0 {
            return None;
        }
        let f2 = fuel - 1;
        match (self, other) {
            (Value::Byte(x), Value::Byte(y)) => Some(x == y),
            (Value::Bytes(xa, xl), Value::Bytes(ya, yl)) => {
                let blen = store.bytes.len();
                proof {
                    assert(blen == store@.bytes.len());
                }
                if xa.idx <= blen && blen - xa.idx >= *xl && ya.idx <= blen && blen - ya.idx
                    >= *yl {
                    let bx = store.get_bytes(xa, *xl);
                    let by = store.get_bytes(ya, *yl);
                    Some(eq_bytes(&bx, &by))
                } else {
                    None
                }
            },
            (Value::Closure(x), Value::Closure(y)) => Some(x.idx == y.idx),
            (Value::Cons(xh, xt), Value::Cons(yh, yt)) => {
                let vlen = store.vals.len();
                proof {
                    assert(vlen == store@.vals.len());
                }
                if xh.idx < vlen && xt.idx < vlen && yh.idx < vlen && yt.idx < vlen {
                    let hx = store.get(xh);
                    let hy = store.get(yh);
                    match hx.equals(&hy, store, f2) {
                        Some(true) => {
                            let tx = store.get(xt);
                            let ty = store.get(yt);
                            tx.equals(&ty, store, f2)
                        },
                        r => r,
                    }
                } else {
                    None
                }
            },
            (Value::Fixnum(x), Value::Fixnum(y)) => Some(x == y),
            (Value::Intrinsic(x), Value::Intrinsic(y)) => Some(
                crate::literal::str_eq(x.0.as_str(), y.0.as_str()),
            ),
            (Value::Nil, Value::Nil) => Some(true),
            (Value::String(xa, xl), Value::String(ya, yl)) => {
                let slen = store.strs.len();
                proof {
                    assert(slen == store@.strs.len());
                }
                if xa.idx <= slen && slen - xa.idx >= *xl && ya.idx <= slen && slen - ya.idx
                    >= *yl {
                    let sx = store.get_str(xa, *xl);
                    let sy = store.get_str(ya, *yl);
                    Some(crate::literal::str_eq(sx.as_str(), sy.as_str()))
                } else {
                    None
                }
            },
            (Value::Symbol(x), Value::Symbol(y)) => Some(
                crate::literal::str_eq(x.as_str(), y.as_str()),
            ),
            (Value::Vector(xa, xl), Value::Vector(ya, yl)) => {
                if *xl != *yl {
                    return Some(false);
                }
                let vlen = store.vecs.len();
                proof {
                    assert(vlen == store@.vecs.len());
                }
                if xa.idx <= vlen && vlen - xa.idx >= *xl && ya.idx <= vlen && vlen - ya.idx
                    >= *yl {
                    equals_cells(xa.idx, ya.idx, *xl, store, f2)
                } else {
                    None
                }
            },
            _ => {
                proof {
                    assert(spec_equals(
                        value_view(*self),
                        value_view(*other),
                        store@,
                        fuel as nat,
                    ) == Some(false));
                }
                Some(false)
            },
        }
    }
}

/// Elementwise deep equality of two vector segments.
pub fn equals_cells(
    xa: usize,
    ya: usize,
    len: usize,
    store: &crate::interpreter::store::Store,
    fuel: u64,
) -> (r: Option<bool>)
    ensures
        r == spec_equals_cells(xa as nat, ya as nat, len as nat, store@, fuel as nat),
    decreases fuel, len,
{
    if len == 0 {
        Some(true)
    } else {
        let veclen = store.vecs.len();
        let vallen = store.vals.len();
        proof {
            assert(veclen == store@.vecs.len());
            assert(vallen == store@.vals.len());
        }
        if xa < veclen && ya < veclen && store.vecs[xa] < vallen && store.vecs[ya] < vallen {
            let ax: Addr<Value> = Addr::at(store.vecs[xa]);
            let ay: Addr<Value> = Addr::at(store.vecs[ya]);
            proof {
                assert(store@.vecs[xa as int] == store.vecs@[xa as int] as nat);
                assert(store@.vecs[ya as int] == store.vecs@[ya as int] as nat);
            }
            let vx = store.get(&ax);
            let vy = store.get(&ay);
            match vx.equals(&vy, store, fuel) {
                Some(true) => equals_cells(xa + 1, ya + 1, len - 1, store, fuel),
                r => r,
            }
        } else {
            None
        }
    }
}

/// Whether two byte vectors hold the same bytes.
pub fn eq_bytes(a: &Vec<u8>, b: &Vec<u8>) -> (r: bool)
    ensures
        r == (a@ == b@),
{
    if a.len() != b.len() {
        proof {
            assert(a@.len() != b@.len());
        }
        return false;
    }
    let mut i: usize = 0;
    #[verifier::loop_isolation(false)]
    while i < a.len()
        invariant
            i <= a@.len(),
            a@.len() == b@.len(),
            forall|j: int| 0 <= j < i ==> a@[j] == b@[j],
        decreases a@.len() - i,
    {
        if a[i] != b[i] {
            return false;
        }
        i = i + 1;
    }
    proof {
        assert(a@ =~= b@);
    }
    true
}


/// The result of the total order on values.
#[derive(Debug, PartialEq, Eq, Structural, Clone, Copy)]
pub enum ValOrder {
    Lt,
    Eq,
    Gt,
}

/// The rank of a value's kind in the fixed kind order:
/// Byte < Bytes < Closure < Cons < Fixnum < Intrinsic < Nil < String <
/// Symbol < Vector.
pub open spec fn kind_rank(v: ValueV) -> int {
    match v {
        ValueV::Byte(_) => 0,
        ValueV::Bytes(_, _) => 1,
        ValueV::Closure(_) => 2,
        ValueV::Cons(_, _) => 3,
        ValueV::Fixnum(_) => 4,
        ValueV::Intrinsic(_) => 5,
        ValueV::Nil => 6,
        ValueV::Str(_, _) => 7,
        ValueV::Symbol(_) => 8,
        ValueV::Vector(_, _) => 9,
    }
}

/// The order of two integers.
pub open spec fn int_order(a: int, b: int) -> ValOrder {
    if a < b {
        ValOrder::Lt
    } else if a > b {
        ValOrder::Gt
    } else {
        ValOrder::Eq
    }
}

/// Lexicographic order on byte strings.
pub open spec fn lex_bytes(a: Seq<u8>, b: Seq<u8>) -> ValOrder
    decreases a.len(),
{
    if a.len() == 0 && b.len() == 0 {
        ValOrder::Eq
    } else if a.len() == 0 {
        ValOrder::Lt
    } else if b.len() == 0 {
        ValOrder::Gt
    } else if a[0] != b[0] {
        int_order(a[0] as int, b[0] as int)
    } else {
        lex_bytes(a.drop_first(), b.drop_first())
    }
}

/// Lexicographic order on character strings.
pub open spec fn lex_chars(a: Seq<char>, b: Seq<char>) -> ValOrder
    decreases a.len(),
{
    if a.len() == 0 && b.len() == 0 {
        ValOrder::Eq
    } else if a.len() == 0 {
        ValOrder::Lt
    } else if b.len() == 0 {
        ValOrder::Gt
    } else if a[0] != b[0] {
        int_order(a[0] as int, b[0] as int)
    } else {
        lex_chars(a.drop_first(), b.drop_first())
    }
}

/// The total order on values: first by kind, then by content; cons pairs
/// compare head then tail, vectors elementwise with length as tiebreaker.
/// The fuel bounds the traversal.
pub open spec fn spec_compare(
    a: ValueV,
    b: ValueV,
    st: crate::interpreter::store::StoreV,
    fuel: nat,
) -> Option<ValOrder>
    decreases fuel, 0int,
{
    if fuel == 0 {
        None
    } else if kind_rank(a) != kind_rank(b) {
        Some(int_order(kind_rank(a), kind_rank(b)))
    } else {
        match (a, b) {
            (ValueV::Byte(x), ValueV::Byte(y)) => Some(int_order(x as int, y as int)),
            (ValueV::Bytes(xa, xl), ValueV::Bytes(ya, yl)) => if xa + xl <= st.bytes.len() && ya
                + yl <= st.bytes.len() {
                Some(
                    lex_bytes(
                        st.bytes.subrange(xa as int, (xa + xl) as int),
                        st.bytes.subrange(ya as int, (ya + yl) as int),
                    ),
                )
            } else {
                None
            },
            (ValueV::Closure(x), ValueV::Closure(y)) => Some(int_order(x as int, y as int)),
            (ValueV::Cons(xh, xt), ValueV::Cons(yh, yt)) => if xh < st.vals.len() && xt
                < st.vals.len() && yh < st.vals.len() && yt < st.vals.len() {
                match spec_compare(st.vals[xh as int], st.vals[yh as int], st, (fuel - 1) as nat) {
                    Some(ValOrder::Eq) => spec_compare(
                        st.vals[xt as int],
                        st.vals[yt as int],
                        st,
                        (fuel - 1) as nat,
                    ),
                    r => r,
                }
            } else {
                None
            },
            (ValueV::Fixnum(x), ValueV::Fixnum(y)) => Some(int_order(x as int, y as int)),
            (ValueV::Intrinsic(x), ValueV::Intrinsic(y)) => Some(lex_chars(x, y)),
            (ValueV::Nil, ValueV::Nil) => Some(ValOrder::Eq),
            (ValueV::Str(xa, xl), ValueV::Str(ya, yl)) => if xa + xl <= st.strs.len() && ya + yl
                <= st.strs.len() {
                Some(
                    lex_chars(
                        st.strs.subrange(xa as int, (xa + xl) as int),
                        st.strs.subrange(ya as int, (ya + yl) as int),
                    ),
                )
            } else {
                None
            },
            (ValueV::Symbol(x), ValueV::Symbol(y)) => Some(lex_chars(x, y)),
            (ValueV::Vector(xa, xl), ValueV::Vector(ya, yl)) => if xa + xl <= st.vecs.len() && ya
                + yl <= st.vecs.len() {
                match spec_compare_cells(
                    xa,
                    ya,
                    (if xl <= yl {
                        xl
                    } else {
                        yl
                    }),
                    st,
                    (fuel - 1) as nat,
                ) {
                    Some(ValOrder::Eq) => Some(int_order(xl as int, yl as int)),
                    r => r,
                }
            } else {
                None
            },
            _ => None,
        }
    }
}

/// Elementwise order of two vector segments of the given common length.
pub open spec fn spec_compare_cells(
    xa: nat,
    ya: nat,
    len: nat,
    st: crate::interpreter::store::StoreV,
    fuel: nat,
) -> Option<ValOrder>
    decreases fuel, len,
{
    if len == 0 {
        Some(ValOrder::Eq)
    } else if xa < st.vecs.len() && ya < st.vecs.len() && st.vecs[xa as int] < st.vals.len()
        && st.vecs[ya as int] < st.vals.len() {
        match spec_compare(
            st.vals[st.vecs[xa as int] as int],
            st.vals[st.vecs[ya as int] as int],
            st,
            fuel,
        ) {
            Some(ValOrder::Eq) => spec_compare_cells(xa + 1, ya + 1, (len - 1) as nat, st, fuel),
            r => r,
        }
    } else {
        None
    }
}

/// Lexicographic order on byte vectors, executably.
pub fn lex_bytes_exec(a: &Vec<u8>, b: &Vec<u8>) -> (r: ValOrder)
    ensures
        r == lex_bytes(a@, b@),
{
    let n = if a.len() <= b.len() {
        a.len()
    } else {
        b.len()
    };
    let mut i: usize = 0;
    proof {
        assert(a@.skip(0) =~= a@);
        assert(b@.skip(0) =~= b@);
    }
    #[verifier::loop_isolation(false)]
    while i < n
        invariant
            i <= n,
            n == (if a@.len() <= b@.len() { a@.len() } else { b@.len() }),
            lex_bytes(a@.skip(i as int), b@.skip(i as int)) == lex_bytes(a@, b@),
            forall|j: int| 0 <= j < i ==> a@[j] == b@[j],
        decreases n - i,
    {
        proof {
            assert(a@.skip(i as int)[0] == a@[i as int]);
            assert(b@.skip(i as int)[0] == b@[i as int]);
            assert(a@.skip(i as int).drop_first() =~= a@.skip(i + 1));
            assert(b@.skip(i as int).drop_first() =~= b@.skip(i + 1));
        }
        if a[i] != b[i] {
            if a[i] < b[i] {
                return ValOrder::Lt;
            } else {
                return ValOrder::Gt;
            }
        }
        i = i + 1;
    }
    proof {
        assert(a@.skip(n as int).len() == a@.len() - n);
        assert(b@.skip(n as int).len() == b@.len() - n);
    }
    if a.len() == b.len() {
        ValOrder::Eq
    } else if a.len() < b.len() {
        ValOrder::Lt
    } else {
        ValOrder::Gt
    }
}

/// Lexicographic order on strings, executably.
pub fn lex_chars_exec(a: &str, b: &str) -> (r: ValOrder)
    ensures
        r == lex_chars(a@, b@),
{
    let alen = a.unicode_len();
    let blen = b.unicode_len();
    let n = if alen <= blen {
        alen
    } else {
        blen
    };
    let mut i: usize = 0;
    proof {
        assert(a@.skip(0) =~= a@);
        assert(b@.skip(0) =~= b@);
    }
    #[verifier::loop_isolation(false)]
    while i < n
        invariant
            i <= n,
            alen == a@.len(),
            blen == b@.len(),
            n == (if a@.len() <= b@.len() { a@.len() } else { b@.len() }),
            lex_chars(a@.skip(i as int), b@.skip(i as int)) == lex_chars(a@, b@),
            forall|j: int| 0 <= j < i ==> a@[j] == b@[j],
        decreases n - i,
    {
        proof {
            assert(a@.skip(i as int)[0] == a@[i as int]);
            assert(b@.skip(i as int)[0] == b@[i as int]);
            assert(a@.skip(i as int).drop_first() =~= a@.skip(i + 1));
            assert(b@.skip(i as int).drop_first() =~= b@.skip(i + 1));
        }
        let ca = a.get_char(i);
        let cb = b.get_char(i);
        if ca != cb {
            if (ca as u32) < (cb as u32) {
                return ValOrder::Lt;
            } else {
                return ValOrder::Gt;
            }
        }
        i = i + 1;
    }
    proof {
        assert(a@.skip(n as int).len() == a@.len() - n);
        assert(b@.skip(n as int).len() == b@.len() - n);
    }
    if alen == blen {
        ValOrder::Eq
    } else if alen < blen {
        ValOrder::Lt
    } else {
        ValOrder::Gt
    }
}

impl Value {
    /// Compares two values "deeply": first by kind, then by content. The
    /// fuel bounds the traversal.
    pub fn compare(&self, other: &Value, store: &crate::interpreter::store::Store, fuel: u64) -> (r:
        Option<ValOrder>)
        ensures
            r == spec_compare(value_view(*self), value_view(*other), store@, fuel as nat),
        decreases fuel, 0int,
    {
        if fuel == 0 {
            return None;
        }
        let ra = self.rank();
        let rb = other.rank();
        if ra != rb {
            return Some(
                if ra < rb {
                    ValOrder::Lt
                } else {
                    ValOrder::Gt
                },
            );
        }
        let f2 = fuel - 1;
        match (self, other) {
            (Value::Byte(x), Value::Byte(y)) => Some(order_u8(*x, *y)),
            (Value::Bytes(xa, xl), Value::Bytes(ya, yl)) => {
                let blen = store.bytes.len();
                proof {
                    assert(blen == store@.bytes.len());
                }
                if xa.idx <= blen && blen - xa.idx >= *xl && ya.idx <= blen && blen - ya.idx
                    >= *yl {
                    let bx = store.get_bytes(xa, *xl);
                    let by = store.get_bytes(ya, *yl);
                    Some(lex_bytes_exec(&bx, &by))
                } else {
                    None
                }
            },
            (Value::Closure(x), Value::Closure(y)) => Some(order_usize(x.idx, y.idx)),
            (Value::Cons(xh, xt), Value::Cons(yh, yt)) => {
                let vlen = store.vals.len();
                proof {
                    assert(vlen == store@.vals.len());
                }
                if xh.idx < vlen && xt.idx < vlen && yh.idx < vlen && yt.idx < vlen {
                    let hx = store.get(xh);
                    let hy = store.get(yh);
                    match hx.compare(&hy, store, f2) {
                        Some(ValOrder::Eq) => {
                            let tx = store.get(xt);
                            let ty = store.get(yt);
                            tx.compare(&ty, store, f2)
                        },
                        r => r,
                    }
                } else {
                    None
                }
            },
            (Value::Fixnum(x), Value::Fixnum(y)) => Some(order_i64(*x, *y)),
            (Value::Intrinsic(x), Value::Intrinsic(y)) => Some(
                lex_chars_exec(x.0.as_str(), y.0.as_str()),
            ),
            (Value::Nil, Value::Nil) => Some(ValOrder::Eq),
            (Value::String(xa, xl), Value::String(ya, yl)) => {
                let slen = store.strs.len();
                proof {
                    assert(slen == store@.strs.len());
                }
                if xa.idx <= slen && slen - xa.idx >= *xl && ya.idx <= slen && slen - ya.idx
                    >= *yl {
                    let sx = store.get_str(xa, *xl);
                    let sy = store.get_str(ya, *yl);
                    Some(lex_chars_exec(sx.as_str(), sy.as_str()))
                } else {
                    None
                }
            },
            (Value::Symbol(x), Value::Symbol(y)) => Some(
                lex_chars_exec(x.as_str(), y.as_str()),
            ),
            (Value::Vector(xa, xl), Value::Vector(ya, yl)) => {
                let vlen = store.vecs.len();
                proof {
                    assert(vlen == store@.vecs.len());
                }
                if xa.idx <= vlen && vlen - xa.idx >= *xl && ya.idx <= vlen && vlen - ya.idx
                    >= *yl {
                    let common = if *xl <= *yl {
                        *xl
                    } else {
                        *yl
                    };
                    match compare_cells(xa.idx, ya.idx, common, store, f2) {
                        Some(ValOrder::Eq) => Some(order_usize(*xl, *yl)),
                        r => r,
                    }
                } else {
                    None
                }
            },
            _ => {
                proof {
                    assert(false);
                }
                None
            },
        }
    }

    /// The rank of this value's kind in the fixed kind order.
    pub fn rank(&self) -> (r: u8)
        ensures
            r as int == kind_rank(value_view(*self)),
    {
        match self {
            Value::Byte(_) => 0,
            Value::Bytes(_, _) => 1,
            Value::Closure(_) => 2,
            Value::Cons(_, _) => 3,
            Value::Fixnum(_) => 4,
            Value::Intrinsic(_) => 5,
            Value::Nil => 6,
            Value::String(_, _) => 7,
            Value::Symbol(_) => 8,
            Value::Vector(_, _) => 9,
        }
    }
}

/// The order of two bytes.
fn order_u8(a: u8, b: u8) -> (r: ValOrder)
    ensures
        r == int_order(a as int, b as int),
{
    if a < b {
        ValOrder::Lt
    } else if a > b {
        ValOrder::Gt
    } else {
        ValOrder::Eq
    }
}

/// The order of two machine integers.
fn order_i64(a: i64, b: i64) -> (r: ValOrder)
    ensures
        r == int_order(a as int, b as int),
{
    if a < b {
        ValOrder::Lt
    } else if a > b {
        ValOrder::Gt
    } else {
        ValOrder::Eq
    }
}

/// The order of two sizes.
fn order_usize(a: usize, b: usize) -> (r: ValOrder)
    ensures
        r == int_order(a as int, b as int),
{
    if a < b {
        ValOrder::Lt
    } else if a > b {
        ValOrder::Gt
    } else {
        ValOrder::Eq
    }
}

/// Elementwise order of two vector segments.
pub fn compare_cells(
    xa: usize,
    ya: usize,
    len: usize,
    store: &crate::interpreter::store::Store,
    fuel: u64,
) -> (r: Option<ValOrder>)
    ensures
        r == spec_compare_cells(xa as nat, ya as nat, len as nat, store@, fuel as nat),
    decreases fuel, len,
{
    if len == 0 {
        Some(ValOrder::Eq)
    } else {
        let veclen = store.vecs.len();
        let vallen = store.vals.len();
        proof {
            assert(veclen == store@.vecs.len());
            assert(vallen == store@.vals.len());
        }
        if xa < veclen && ya < veclen && store.vecs[xa] < vallen && store.vecs[ya] < vallen {
            let ax: Addr<Value> = Addr::at(store.vecs[xa]);
            let ay: Addr<Value> = Addr::at(store.vecs[ya]);
            proof {
                assert(store@.vecs[xa as int] == store.vecs@[xa as int] as nat);
                assert(store@.vecs[ya as int] == store.vecs@[ya as int] as nat);
            }
            let vx = store.get(&ax);
            let vy = store.get(&ay);
            match vx.compare(&vy, store, fuel) {
                Some(ValOrder::Eq) => compare_cells(xa + 1, ya + 1, len - 1, store, fuel),
                r => r,
            }
        } else {
            None
        }
    }
}

/// The rendered form of a value: escapes applied in "write" mode, raw
/// strings in "print" mode; cons chains render as lists; closures render
/// as `<<function NAME>>` or `<<function>>`. The fuel bounds the
/// traversal, and a dangling handle yields nothing.
pub open spec fn spec_display(
    v: ValueV,
    st: crate::interpreter::store::StoreV,
    printlike: bool,
    fuel: nat,
) -> Option<Seq<char>>
    decreases fuel, 0int,
{
    if fuel == 0 {
        None
    } else {
        match v {
            ValueV::Byte(n) => Some(dec_digits(n as nat)),
            ValueV::Bytes(a, l) => if a + l <= st.bytes.len() {
                Some(bytes_display(st.bytes.subrange(a as int, (a + l) as int)))
            } else {
                None
            },
            ValueV::Closure(a) => if a < st.clos.len() {
                match st.clos[a as int].name {
                    Some(n) => Some(fn_open() + n + fn_close()),
                    None => Some(seq!['<', '<'] + "function"@ + seq!['>', '>']),
                }
            } else {
                None
            },
            ValueV::Cons(h, t) => if h < st.vals.len() && t < st.vals.len() {
                match spec_display(st.vals[h as int], st, false, (fuel - 1) as nat) {
                    Some(hd) => match spec_display_tail(st.vals[t as int], st, (fuel - 1) as nat) {
                        Some(tl) => Some(seq!['('] + hd + tl),
                        None => None,
                    },
                    None => None,
                }
            } else {
                None
            },
            ValueV::Fixnum(n) => Some(int_display(n as int)),
            ValueV::Intrinsic(name) => Some(fn_open() + name + fn_close()),
            ValueV::Nil => Some(seq!['(', ')']),
            ValueV::Str(a, l) => if a + l <= st.strs.len() {
                if printlike {
                    Some(st.strs.subrange(a as int, (a + l) as int))
                } else {
                    Some(str_display(st.strs.subrange(a as int, (a + l) as int)))
                }
            } else {
                None
            },
            ValueV::Symbol(s) => Some(s),
            ValueV::Vector(a, l) => if a + l <= st.vecs.len() {
                match spec_display_cells(a, l, st, false, (fuel - 1) as nat) {
                    Some(body) => Some(seq!['['] + body + seq![']']),
                    None => None,
                }
            } else {
                None
            },
        }
    }
}

/// The opening of a function's rendering.
pub open spec fn fn_open() -> Seq<char> {
    seq!['<', '<'] + "function"@ + seq![' ']
}

/// The closing of a function's rendering.
pub open spec fn fn_close() -> Seq<char> {
    seq!['>', '>']
}

/// The rendering of everything after the head of a cons chain, including
/// the closing parenthesis; an improper tail is set off by `|`.
pub open spec fn spec_display_tail(
    v: ValueV,
    st: crate::interpreter::store::StoreV,
    fuel: nat,
) -> Option<Seq<char>>
    decreases fuel, 1int,
{
    if fuel == 0 {
        None
    } else {
        match v {
            ValueV::Cons(h, t) => if h < st.vals.len() && t < st.vals.len() {
                match spec_display(st.vals[h as int], st, false, (fuel - 1) as nat) {
                    Some(hd) => match spec_display_tail(st.vals[t as int], st, (fuel - 1) as nat) {
                        Some(tl) => Some(seq![' '] + hd + tl),
                        None => None,
                    },
                    None => None,
                }
            } else {
                None
            },
            ValueV::Nil => Some(seq![')']),
            other => match spec_display(other, st, false, (fuel - 1) as nat) {
                Some(d) => Some(seq![' ', '|', ' '] + d + seq![')']),
                None => None,
            },
        }
    }
}

/// The renderings of a vector segment's cells, space-separated.
pub open spec fn spec_display_cells(
    a: nat,
    len: nat,
    st: crate::interpreter::store::StoreV,
    lead: bool,
    fuel: nat,
) -> Option<Seq<char>>
    decreases fuel, len,
{
    if len == 0 {
        Some(Seq::empty())
    } else if a < st.vecs.len() && st.vecs[a as int] < st.vals.len() {
        match spec_display(st.vals[st.vecs[a as int] as int], st, false, fuel) {
            Some(d) => match spec_display_cells(a + 1, (len - 1) as nat, st, true, fuel) {
                Some(rest) => Some(
                    (if lead {
                        seq![' '] + d
                    } else {
                        d
                    }) + rest,
                ),
                None => None,
            },
            None => None,
        }
    } else {
        None
    }
}

impl Value {
    /// Renders this value. If `printlike` is true, strings are not
    /// escaped. The fuel bounds the traversal; cyclic structures built
    /// through closures would otherwise not terminate.
    pub fn display(
        &self,
        store: &crate::interpreter::store::Store,
        printlike: bool,
        fuel: u64,
    ) -> (r: Option<String>)
        ensures
            r is Some <==> spec_display(value_view(*self), store@, printlike, fuel as nat)
                is Some,
            r matches Some(s) ==> Some(s@) == spec_display(
                value_view(*self),
                store@,
                printlike,
                fuel as nat,
            ),
    {
        let mut out: Vec<char> = Vec::new();
        if self.push_display(store, printlike, fuel, &mut out) {
            proof {
                assert(out@ =~= Seq::<char>::empty() + spec_display(
                    value_view(*self),
                    store@,
                    printlike,
                    fuel as nat,
                )->0);
            }
            Some(crate::util::chars_to_string(out))
        } else {
            None
        }
    }

    /// Appends this value's rendering to `out`; reports failure on fuel
    /// exhaustion or a dangling handle.
    pub fn push_display(
        &self,
        store: &crate::interpreter::store::Store,
        printlike: bool,
        fuel: u64,
        out: &mut Vec<char>,
    ) -> (r: bool)
        ensures
            r <==> spec_display(value_view(*self), store@, printlike, fuel as nat) is Some,
            r ==> final(out)@ == old(out)@ + spec_display(
                value_view(*self),
                store@,
                printlike,
                fuel as nat,
            )->0,
        decreases fuel, 0int,
    {
        if fuel == 0 {
            return false;
        }
        let f2 = fuel - 1;
        match self {
            Value::Byte(n) => {
                crate::util::push_u64_dec(out, *n as u64);
                true
            },
            Value::Bytes(a, l) => {
                let blen = store.bytes.len();
                proof {
                    assert(blen == store@.bytes.len());
                }
                if a.idx <= blen && blen - a.idx >= *l {
                    let bs = store.get_bytes(a, *l);
                    out.push('b');
                    out.push('"');
                    crate::util::push_escaped_bytes(out, bs.as_slice());
                    out.push('"');
                    proof {
                        assert(out@ =~= old(out)@ + bytes_display(
                            store@.bytes.subrange(a.idx as int, a.idx + *l),
                        ));
                    }
                    true
                } else {
                    false
                }
            },
            Value::Closure(a) => {
                let clen = store.clos.len();
                proof {
                    assert(clen == store@.clos.len());
                }
                if a.idx < clen {
                    let c = store.get_closure(a);
                    proof {
                        reveal_strlit("function");
                    }
                    out.push('<');
                    out.push('<');
                    crate::literal::push_str_chars(out, "function");
                    match &c.name {
                        Some(n) => {
                            out.push(' ');
                            crate::literal::push_str_chars(out, n.as_str());
                            out.push('>');
                            out.push('>');
                            proof {
                                assert(out@ =~= old(out)@ + (fn_open() + n@ + fn_close()));
                            }
                        },
                        None => {
                            out.push('>');
                            out.push('>');
                            proof {
                                assert(out@ =~= old(out)@ + (seq!['<', '<'] + "function"@
                                    + seq!['>', '>']));
                            }
                        },
                    }
                    true
                } else {
                    false
                }
            },
            Value::Cons(h, t) => {
                let vlen = store.vals.len();
                proof {
                    assert(vlen == store@.vals.len());
                }
                if h.idx < vlen && t.idx < vlen {
                    out.push('(');
                    let hv = store.get(h);
                    if !hv.push_display(store, false, f2, out) {
                        return false;
                    }
                    let tv = store.get(t);
                    let ok = tv.push_display_tail(store, f2, out);
                    proof {
                        if ok {
                            assert(out@ =~= old(out)@ + spec_display(
                                value_view(*self),
                                store@,
                                printlike,
                                fuel as nat,
                            )->0);
                        }
                    }
                    ok
                } else {
                    false
                }
            },
            Value::Fixnum(n) => {
                crate::util::push_i64_dec(out, *n);
                true
            },
            Value::Intrinsic(i) => {
                proof {
                    reveal_strlit("function");
                }
                out.push('<');
                out.push('<');
                crate::literal::push_str_chars(out, "function");
                out.push(' ');
                crate::literal::push_str_chars(out, i.0.as_str());
                out.push('>');
                out.push('>');
                proof {
                    assert(out@ =~= old(out)@ + (fn_open() + i.0@ + fn_close()));
                }
                true
            },
            Value::Nil => {
                out.push('(');
                out.push(')');
                proof {
                    assert(out@ =~= old(out)@ + seq!['(', ')']);
                }
                true
            },
            Value::String(a, l) => {
                let slen = store.strs.len();
                proof {
                    assert(slen == store@.strs.len());
                }
                if a.idx <= slen && slen - a.idx >= *l {
                    let s = store.get_str(a, *l);
                    if printlike {
                        crate::literal::push_str_chars(out, s.as_str());
                    } else {
                        out.push('"');
                        crate::util::push_escaped_chars(out, s.as_str());
                        out.push('"');
                        proof {
                            assert(out@ =~= old(out)@ + str_display(
                                store@.strs.subrange(a.idx as int, a.idx + *l),
                            ));
                        }
                    }
                    true
                } else {
                    false
                }
            },
            Value::Symbol(s) => {
                crate::literal::push_str_chars(out, s.as_str());
                true
            },
            Value::Vector(a, l) => {
                let vlen = store.vecs.len();
                proof {
                    assert(vlen == store@.vecs.len());
                }
                if a.idx <= vlen && vlen - a.idx >= *l {
                    out.push('[');
                    if !push_display_cells(a.idx, *l, store, false, f2, out) {
                        return false;
                    }
                    out.push(']');
                    proof {
                        assert(out@ =~= old(out)@ + spec_display(
                            value_view(*self),
                            store@,
                            printlike,
                            fuel as nat,
                        )->0);
                    }
                    true
                } else {
                    false
                }
            },
        }
    }

    /// Appends the rendering of a cons tail to `out`.
    pub fn push_display_tail(
        &self,
        store: &crate::interpreter::store::Store,
        fuel: u64,
        out: &mut Vec<char>,
    ) -> (r: bool)
        ensures
            r <==> spec_display_tail(value_view(*self), store@, fuel as nat) is Some,
            r ==> final(out)@ == old(out)@ + spec_display_tail(
                value_view(*self),
                store@,
                fuel as nat,
            )->0,
        decreases fuel, 1int,
    {
        if fuel == 0 {
            return false;
        }
        let f2 = fuel - 1;
        match self {
            Value::Cons(h, t) => {
                let vlen = store.vals.len();
                proof {
                    assert(vlen == store@.vals.len());
                }
                if h.idx < vlen && t.idx < vlen {
                    out.push(' ');
                    let hv = store.get(h);
                    if !hv.push_display(store, false, f2, out) {
                        return false;
                    }
                    let tv = store.get(t);
                    let ok = tv.push_display_tail(store, f2, out);
                    proof {
                        if ok {
                            assert(out@ =~= old(out)@ + spec_display_tail(
                                value_view(*self),
                                store@,
                                fuel as nat,
                            )->0);
                        }
                    }
                    ok
                } else {
                    false
                }
            },
            Value::Nil => {
                out.push(')');
                proof {
                    assert(out@ =~= old(out)@ + seq![')']);
                }
                true
            },
            _ => {
                out.push(' ');
                out.push('|');
                out.push(' ');
                if !self.push_display(store, false, f2, out) {
                    return false;
                }
                out.push(')');
                proof {
                    assert(out@ =~= old(out)@ + spec_display_tail(
                        value_view(*self),
                        store@,
                        fuel as nat,
                    )->0);
                }
                true
            },
        }
    }
}

/// Appends the renderings of a vector segment's cells, space-separated.
pub fn push_display_cells(
    a: usize,
    len: usize,
    store: &crate::interpreter::store::Store,
    lead: bool,
    fuel: u64,
    out: &mut Vec<char>,
) -> (r: bool)
    ensures
        r <==> spec_display_cells(a as nat, len as nat, store@, lead, fuel as nat) is Some,
        r ==> final(out)@ == old(out)@ + spec_display_cells(
            a as nat,
            len as nat,
            store@,
            lead,
            fuel as nat,
        )->0,
    decreases fuel, len,
{
    if len == 0 {
        proof {
            assert(old(out)@ + Seq::<char>::empty() =~= old(out)@);
        }
        true
    } else {
        let veclen = store.vecs.len();
        let vallen = store.vals.len();
        proof {
            assert(veclen == store@.vecs.len());
            assert(vallen == store@.vals.len());
        }
        if a < veclen && store.vecs[a] < vallen {
            let cell: Addr<Value> = Addr::at(store.vecs[a]);
            proof {
                assert(store@.vecs[a as int] == store.vecs@[a as int] as nat);
            }
            if lead {
                out.push(' ');
            }
            let v = store.get(&cell);
            if !v.push_display(store, false, fuel, out) {
                return false;
            }
            let ok = push_display_cells(a + 1, len - 1, store, true, fuel, out);
            proof {
                if ok {
                    assert(out@ =~= old(out)@ + spec_display_cells(
                        a as nat,
                        len as nat,
                        store@,
                        lead,
                        fuel as nat,
                    )->0);
                }
            }
            ok
        } else {
            false
        }
    }
}

} // verus!
