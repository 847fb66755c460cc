//! The interpreter's heap, segregated by value kind. Every buffer is
//! append-only: handles are plain indices and are never freed.

use vstd::prelude::*;

use crate::flatanf::{expr_view, Expr, ExprV};
use crate::interpreter::env::Env;
use crate::interpreter::value::{value_view, values_view, Addr, Value, ValueV};
use crate::literal::{lit_view, lits_view, LitV, Literal};

verus! {

/// The kind marker for byte-buffer addresses.
#[derive(Debug, PartialEq)]
pub enum Bytes {
    Kind,
}

/// The kind marker for closure addresses.
#[derive(Debug, PartialEq)]
pub enum Closure {
    Kind,
}

/// The kind marker for vector-buffer addresses.
#[derive(Debug, PartialEq)]
pub enum Vector {
    Kind,
}

/// A closure: parameter count, body, optional name, captured environment.
#[derive(Debug)]
pub struct ClosureData {
    pub argn: usize,
    pub body: Expr,
    pub name: Option<String>,
    pub env: Env,
}

/// The mathematical model of a closure.
#[verifier::ext_equal]
pub struct ClosV {
    pub argn: nat,
    pub body: ExprV,
    pub name: Option<Seq<char>>,
    pub env: Seq<ValueV>,
}

/// The model of a closure.
pub open spec fn clos_view(c: ClosureData) -> ClosV {
    ClosV {
        argn: c.argn as nat,
        body: expr_view(c.body),
        name: match c.name {
            Some(n) => Some(n@),
            None => None,
        },
        env: c.env@,
    }
}

/// The mathematical model of the store.
#[verifier::ext_equal]
pub struct StoreV {
    pub bytes: Seq<u8>,
    pub clos: Seq<ClosV>,
    pub strs: Seq<char>,
    pub vecs: Seq<nat>,
    pub vals: Seq<ValueV>,
}

impl StoreV {
    /// A fresh store: empty but for the interned nil at value address 0.
    pub open spec fn initial() -> StoreV {
        StoreV {
            bytes: Seq::empty(),
            clos: Seq::empty(),
            strs: Seq::empty(),
            vecs: Seq::empty(),
            vals: seq![ValueV::Nil],
        }
    }
}

/// What storing one value yields: nil is interned at address 0 and the
/// heap does not grow; any other value is appended.
pub open spec fn store_val(st: StoreV, v: ValueV) -> (nat, StoreV) {
    if v is Nil {
        (0, st)
    } else {
        (st.vals.len(), StoreV { vals: st.vals.push(v), ..st })
    }
}

/// The type of the store.
#[derive(Debug)]
pub struct Store {
    pub bytes: Vec<u8>,
    pub clos: Vec<ClosureData>,
    pub strs: Vec<char>,
    pub vecs: Vec<usize>,
    pub vals: Vec<Value>,
}

impl View for Store {
    type V = StoreV;

    open spec fn view(&self) -> StoreV {
        StoreV {
            bytes: self.bytes@,
            clos: Seq::new(self.clos@.len(), |i: int| clos_view(self.clos@[i])),
            strs: self.strs@,
            vecs: Seq::new(self.vecs@.len(), |i: int| self.vecs@[i] as nat),
            vals: values_view(self.vals@),
        }
    }
}

impl Store {
    /// Creates a new store, empty but for the interned nil at address 0.
    pub fn new() -> (r: Store)
        ensures
            r@ == StoreV::initial(),
    {
        let mut vals: Vec<Value> = Vec::new();
        vals.push(Value::Nil);
        let r = Store {
            bytes: Vec::new(),
            clos: Vec::new(),
            strs: Vec::new(),
            vecs: Vec::new(),
            vals,
        };
        proof {
            assert(r@ =~= StoreV::initial());
        }
        r
    }

    /// Gets a value out of the value heap.
    pub fn get(&self, addr: &Addr<Value>) -> (r: Value)
        requires
            addr.idx < self@.vals.len(),
        ensures
            value_view(r) == self@.vals[addr.idx as int],
    {
        let v = self.vals[addr.idx].duplicate();
        proof {
            assert(self@.vals[addr.idx as int] == value_view(self.vals@[addr.idx as int]));
        }
        v
    }

    /// Gets a byte-string out of the bytes heap.
    pub fn get_bytes(&self, addr: &Addr<Bytes>, len: usize) -> (r: Vec<u8>)
        requires
            addr.idx + len <= self@.bytes.len(),
        ensures
            r@ == self@.bytes.subrange(addr.idx as int, addr.idx + len),
    {
        let blen = self.bytes.len();
        proof {
            assert(blen == self@.bytes.len());
        }
        let mut out: Vec<u8> = Vec::new();
        let mut i: usize = 0;
        #[verifier::loop_isolation(false)]
        while i < len
            invariant
                i <= len,
                out@ == self@.bytes.subrange(addr.idx as int, addr.idx + i),
            decreases len - i,
        {
            out.push(self.bytes[addr.idx + i]);
            proof {
                assert(out@ =~= self@.bytes.subrange(addr.idx as int, addr.idx + i + 1));
            }
            i = i + 1;
        }
        out
    }

    /// Gets a closure out of the closure heap.
    pub fn get_closure(&self, addr: &Addr<Closure>) -> (r: ClosureData)
        requires
            addr.idx < self@.clos.len(),
        ensures
            clos_view(r) == self@.clos[addr.idx as int],
    {
        let c = &self.clos[addr.idx];
        let name = match &c.name {
            Some(n) => Some(n.clone()),
            None => None,
        };
        let r = ClosureData {
            argn: c.argn,
            body: c.body.duplicate(),
            name,
            env: c.env.duplicate(),
        };
        proof {
            assert(clos_view(r) =~= self@.clos[addr.idx as int]);
        }
        r
    }

    /// Gets a string out of the string heap.
    pub fn get_str(&self, addr: &Addr<String>, len: usize) -> (r: String)
        requires
            addr.idx + len <= self@.strs.len(),
        ensures
            r@ == self@.strs.subrange(addr.idx as int, addr.idx + len),
    {
        let blen = self.strs.len();
        proof {
            assert(blen == self@.strs.len());
        }
        let mut out: Vec<char> = Vec::new();
        let mut i: usize = 0;
        #[verifier::loop_isolation(false)]
        while i < len
            invariant
                i <= len,
                out@ == self@.strs.subrange(addr.idx as int, addr.idx + i),
            decreases len - i,
        {
            out.push(self.strs[addr.idx + i]);
            proof {
                assert(out@ =~= self@.strs.subrange(addr.idx as int, addr.idx + i + 1));
            }
            i = i + 1;
        }
        crate::util::chars_to_string(out)
    }

    /// Gets the cell addresses of a vector out of the vector heap.
    pub fn get_vec(&self, addr: &Addr<Vector>, len: usize) -> (r: Vec<usize>)
        requires
            addr.idx + len <= self@.vecs.len(),
        ensures
            r@.len() == len,
            forall|i: int| 0 <= i < len ==> #[trigger] r@[i] as nat == self@.vecs[addr.idx + i],
    {
        let blen = self.vecs.len();
        proof {
            assert(blen == self@.vecs.len());
        }
        let mut out: Vec<usize> = Vec::new();
        let mut i: usize = 0;
        #[verifier::loop_isolation(false)]
        while i < len
            invariant
                i <= len,
                out@.len() == i,
                forall|j: int|
                    0 <= j < i ==> #[trigger] out@[j] as nat == self@.vecs[addr.idx + j],
            decreases len - i,
        {
            out.push(self.vecs[addr.idx + i]);
            i = i + 1;
        }
        out
    }

    /// Replaces the captured environment of the given closure; letrec uses
    /// this to tie recursive knots after all its closures are allocated.
    pub fn mutate_closure_env(&mut self, addr: &Addr<Closure>, env: Env)
        requires
            addr.idx < old(self)@.clos.len(),
        ensures
            final(self)@ == (StoreV {
                clos: old(self)@.clos.update(
                    addr.idx as int,
                    ClosV { env: env@, ..old(self)@.clos[addr.idx as int] },
                ),
                ..old(self)@
            }),
    {
        let c = &self.clos[addr.idx];
        let name = match &c.name {
            Some(n) => Some(n.clone()),
            None => None,
        };
        let newc = ClosureData {
            argn: c.argn,
            body: c.body.duplicate(),
            name,
            env,
        };
        self.clos.set(addr.idx, newc);
        proof {
            assert(final(self)@.clos =~= old(self)@.clos.update(
                addr.idx as int,
                ClosV { env: self.clos@[addr.idx as int].env@, ..old(self)@.clos[addr.idx as int] },
            ));
            assert(final(self)@ =~= StoreV {
                clos: old(self)@.clos.update(
                    addr.idx as int,
                    ClosV { env: self.clos@[addr.idx as int].env@, ..old(self)@.clos[addr.idx as int] },
                ),
                ..old(self)@
            });
        }
    }

    /// Stores a value into the value heap. Nil is interned: it is always
    /// address 0 and does not grow the heap.
    pub fn store(&mut self, value: Value) -> (r: Addr<Value>)
        ensures
            (r.idx as nat, final(self)@) == store_val(old(self)@, value_view(value)),
    {
        match value {
            Value::Nil => Addr::at(0),
            other => {
                let idx = self.vals.len();
                self.vals.push(other);
                proof {
                    assert(self@.vals =~= old(self)@.vals.push(value_view(self.vals@.last())));
                    assert(self@ =~= (StoreV { vals: self@.vals, ..old(self)@ }));
                }
                Addr::at(idx)
            },
        }
    }

    /// Stores a byte-string into the bytes heap.
    pub fn store_bytes(&mut self, bs: &[u8]) -> (r: (Addr<Bytes>, usize))
        ensures
            final(self)@ == (StoreV { bytes: old(self)@.bytes + bs@, ..old(self)@ }),
            r.0.idx == old(self)@.bytes.len(),
            r.1 == bs@.len(),
    {
        let idx = self.bytes.len();
        let n = bs.len();
        let mut i: usize = 0;
        #[verifier::loop_isolation(false)]
        while i < n
            invariant
                i <= n,
                self.bytes@ == old(self).bytes@ + bs@.take(i as int),
                self.clos == old(self).clos,
                self.strs == old(self).strs,
                self.vecs == old(self).vecs,
                self.vals == old(self).vals,
            decreases n - i,
        {
            self.bytes.push(bs[i]);
            proof {
                assert(bs@.take(i + 1) =~= bs@.take(i as int).push(bs@[i as int]));
                assert(self.bytes@ =~= old(self).bytes@ + bs@.take(i + 1));
            }
            i = i + 1;
        }
        proof {
            assert(bs@.take(n as int) =~= bs@);
            assert(self@ =~= StoreV { bytes: old(self)@.bytes + bs@, ..old(self)@ });
        }
        (Addr::at(idx), n)
    }

    /// Stores a closure into the closure heap.
    pub fn store_closure(&mut self, argn: usize, body: &Expr, name: Option<String>, env: Env) -> (r:
        Addr<Closure>)
        ensures
            final(self)@ == (StoreV {
                clos: old(self)@.clos.push(
                    ClosV {
                        argn: argn as nat,
                        body: body@,
                        name: match name {
                            Some(n) => Some(n@),
                            None => None,
                        },
                        env: env@,
                    },
                ),
                ..old(self)@
            }),
            r.idx == old(self)@.clos.len(),
    {
        let idx = self.clos.len();
        let c = ClosureData { argn, body: body.duplicate(), name, env };
        self.clos.push(c);
        proof {
            assert(self@.clos =~= old(self)@.clos.push(clos_view(self.clos@.last())));
            assert(self@ =~= StoreV { clos: self@.clos, ..old(self)@ });
        }
        Addr::at(idx)
    }

    /// Stores a string into the string heap; the handle counts characters.
    pub fn store_str(&mut self, s: &str) -> (r: (Addr<String>, usize))
        ensures
            final(self)@ == (StoreV { strs: old(self)@.strs + s@, ..old(self)@ }),
            r.0.idx == old(self)@.strs.len(),
            r.1 == s@.len(),
    {
        let idx = self.strs.len();
        let len = s.unicode_len();
        let mut i: usize = 0;
        #[verifier::loop_isolation(false)]
        while i < len
            invariant
                len == s@.len(),
                i <= len,
                self.strs@ == old(self).strs@ + s@.take(i as int),
                self.clos == old(self).clos,
                self.bytes == old(self).bytes,
                self.vecs == old(self).vecs,
                self.vals == old(self).vals,
            decreases len - i,
        {
            let c = s.get_char(i);
            self.strs.push(c);
            proof {
                assert(s@.take(i + 1) =~= s@.take(i as int).push(s@[i as int]));
                assert(self.strs@ =~= old(self).strs@ + s@.take(i + 1));
            }
            i = i + 1;
        }
        proof {
            assert(s@.take(len as int) =~= s@);
            assert(self@ =~= StoreV { strs: old(self)@.strs + s@, ..old(self)@ });
        }
        (Addr::at(idx), len)
    }

    /// Stores a run of cell addresses into the vector heap.
    pub fn store_vec(&mut self, addrs: &Vec<usize>) -> (r: (Addr<Vector>, usize))
        ensures
            final(self)@ == (StoreV {
                vecs: old(self)@.vecs + Seq::new(addrs@.len(), |i: int| addrs@[i] as nat),
                ..old(self)@
            }),
            r.0.idx == old(self)@.vecs.len(),
            r.1 == addrs@.len(),
    {
        let idx = self.vecs.len();
        let n = addrs.len();
        let ghost av = Seq::new(addrs@.len(), |i: int| addrs@[i] as nat);
        let mut i: usize = 0;
        #[verifier::loop_isolation(false)]
        while i < n
            invariant
                i <= n,
                self.vecs@ == old(self).vecs@ + addrs@.take(i as int),
                self.clos == old(self).clos,
                self.bytes == old(self).bytes,
                self.strs == old(self).strs,
                self.vals == old(self).vals,
            decreases n - i,
        {
            self.vecs.push(addrs[i]);
            proof {
                assert(addrs@.take(i + 1) =~= addrs@.take(i as int).push(addrs@[i as int]));
                assert(self.vecs@ =~= old(self).vecs@ + addrs@.take(i + 1));
            }
            i = i + 1;
        }
        proof {
            assert(addrs@.take(n as int) =~= addrs@);
            assert(self@.vecs =~= old(self)@.vecs + av);
            assert(self@ =~= StoreV { vecs: old(self)@.vecs + av, ..old(self)@ });
        }
        (Addr::at(idx), n)
    }
}

/// What storing a literal yields: the value, and the store grown by the
/// literal's heap contents.
pub open spec fn spec_store_literal(st: StoreV, l: LitV) -> (ValueV, StoreV)
    decreases l, 0int,
{
    match l {
        LitV::Byte(n) => (ValueV::Byte(n), st),
        LitV::Bytes(bs) => (
            ValueV::Bytes(st.bytes.len(), bs.len()),
            StoreV { bytes: st.bytes + bs, ..st },
        ),
        LitV::Cons(h, t) => {
            let (hv, st1) = spec_store_literal(st, *h);
            let (tv, st2) = spec_store_literal(st1, *t);
            let (ha, st3) = store_val(st2, hv);
            let (ta, st4) = store_val(st3, tv);
            (ValueV::Cons(ha, ta), st4)
        },
        LitV::Fixnum(n) => (ValueV::Fixnum(n), st),
        LitV::Nil => (ValueV::Nil, st),
        LitV::Str(s) => (
            ValueV::Str(st.strs.len(), s.len()),
            StoreV { strs: st.strs + s, ..st },
        ),
        LitV::Symbol(s) => (ValueV::Symbol(s), st),
        LitV::Vector(vs) => {
            let (addrs, st1) = spec_store_lits(st, vs);
            let off = st1.vecs.len();
            let st2 = StoreV { vecs: st1.vecs + addrs, ..st1 };
            (ValueV::Vector(off, vs.len()), st2)
        },
    }
}

/// Stores each literal of a sequence, then each resulting value, yielding
/// the cell addresses in order.
pub open spec fn spec_store_lits(st: StoreV, vs: Seq<LitV>) -> (Seq<nat>, StoreV)
    decreases vs, 1int,
{
    if vs.len() == 0 {
        (Seq::empty(), st)
    } else {
        let (v, st1) = spec_store_literal(st, vs[0]);
        let (a, st2) = store_val(st1, v);
        let (rest, st3) = spec_store_lits(st2, vs.drop_first());
        (seq![a] + rest, st3)
    }
}

impl Store {
    /// Builds a literal onto the heap, returning its value.
    pub fn store_literal(&mut self, lit: &Literal) -> (r: Value)
        ensures
            (value_view(r), final(self)@) == spec_store_literal(old(self)@, lit@),
        decreases lit, 2int,
    {
        broadcast use crate::literal::lemma_lits_view_index;

        match lit {
            Literal::Byte(n) => Value::Byte(*n),
            Literal::Bytes(bs) => {
                proof {
                    assert(lit@->Bytes_0 == bs@);
                }
                let (a, l) = self.store_bytes(bs.as_slice());
                Value::Bytes(a, l)
            },
            Literal::Cons(h, t) => {
                proof {
                    assert(*lit@->Cons_0 == crate::literal::lit_view(**h));
                    assert(*lit@->Cons_1 == crate::literal::lit_view(**t));
                }
                let hv = self.store_literal(h);
                let tv = self.store_literal(t);
                let ha = self.store(hv);
                let ta = self.store(tv);
                Value::Cons(ha, ta)
            },
            Literal::Fixnum(n) => Value::Fixnum(*n),
            Literal::Nil => Value::Nil,
            Literal::String(s) => {
                proof {
                    assert(lit@->Str_0 == s@);
                }
                let (a, l) = self.store_str(s.as_str());
                Value::String(a, l)
            },
            Literal::Symbol(s) => Value::Symbol(s.clone()),
            Literal::Vector(vs) => {
                proof {
                    assert(lit@->Vector_0 == lits_view(vs@));
                }
                let ghost lv = lits_view(vs@);
                let ghost tgt = spec_store_lits(old(self)@, lv);
                let mut addrs: Vec<usize> = Vec::new();
                let mut i: usize = 0;
                proof {
                    assert(lv.skip(0) =~= lv);
                }
                #[verifier::loop_isolation(false)]
                while i < vs.len()
                    invariant
                        i <= vs@.len(),
                        addrs@.len() == i,
                        ({
                            let (rest, stf) = spec_store_lits(self@, lv.skip(i as int));
                            &&& Seq::new(addrs@.len(), |j: int| addrs@[j] as nat) + rest == tgt.0
                            &&& stf == tgt.1
                        }),
                    decreases vs@.len() - i,
                {
                    proof {
                        assert(decreases_to!(*lit => lit->Vector_0@[i as int]));
                        assert(lit->Vector_0@[i as int] == vs@[i as int]);
                        assert(lv.skip(i as int)[0] == lv[i as int]);
                        assert(lv[i as int] == crate::literal::lit_view(vs@[i as int]));
                        assert(lv.skip(i as int).drop_first() =~= lv.skip(i + 1));
                    }
                    let ghost prea = addrs@;
                    let v = self.store_literal(&vs[i]);
                    let a = self.store(v);
                    addrs.push(a.idx);
                    proof {
                        let cur = Seq::new(addrs@.len(), |j: int| addrs@[j] as nat);
                        let (rest, stf) = spec_store_lits(self@, lv.skip(i + 1));
                        assert(cur + rest =~= (Seq::new(prea.len(), |j: int| prea[j] as nat)
                            + (seq![a.idx as nat] + rest)));
                    }
                    i = i + 1;
                }
                proof {
                    assert(lv.skip(vs@.len() as int) =~= Seq::<LitV>::empty());
                    let cur = Seq::new(addrs@.len(), |j: int| addrs@[j] as nat);
                    assert(cur + Seq::<nat>::empty() =~= cur);
                }
                let (a, l) = self.store_vec(&addrs);
                proof {
                    assert(lits_view(vs@).len() == vs@.len());
                }
                Value::Vector(a, l)
            },
        }
    }
}

} // verus!
