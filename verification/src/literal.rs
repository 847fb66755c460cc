//! The recursive S-expression value type that the textual front end yields
//! and that the constant table of the bytecode format stores.

use vstd::prelude::*;

use crate::util::{
    bytes_display, dec_digits, int_display, push_escaped_bytes, push_escaped_chars, push_i64_dec,
    push_u64_dec, str_display, chars_to_string,
};

verus! {

/// A literal value.
///
/// Fixnums are signed 64-bit machine integers; symbols and strings hold
/// their text directly.
#[derive(Debug, PartialEq)]
pub enum Literal {
    Byte(u8),
    Bytes(Vec<u8>),
    Cons(Box<Literal>, Box<Literal>),
    Fixnum(i64),
    Nil,
    String(String),
    Symbol(String),
    Vector(Vec<Literal>),
}

/// The mathematical model of a [`Literal`]: text as character sequences,
/// byte strings and vectors as sequences.
#[verifier::ext_equal]
pub enum LitV {
    Byte(u8),
    Bytes(Seq<u8>),
    Cons(Box<LitV>, Box<LitV>),
    Fixnum(i64),
    Nil,
    Str(Seq<char>),
    Symbol(Seq<char>),
    Vector(Seq<LitV>),
}

/// The model of a literal.
pub open spec fn lit_view(l: Literal) -> LitV
    decreases l,
{
    match l {
        Literal::Byte(n) => LitV::Byte(n),
        Literal::Bytes(bs) => LitV::Bytes(bs@),
        Literal::Cons(h, t) => LitV::Cons(Box::new(lit_view(*h)), Box::new(lit_view(*t))),
        Literal::Fixnum(n) => LitV::Fixnum(n),
        Literal::Nil => LitV::Nil,
        Literal::String(s) => LitV::Str(s@),
        Literal::Symbol(s) => LitV::Symbol(s@),
        Literal::Vector(vs) => LitV::Vector(lits_view(vs@)),
    }
}

impl View for Literal {
    type V = LitV;

    open spec fn view(&self) -> LitV {
        lit_view(*self)
    }
}

/// The models of a sequence of literals.
pub open spec fn lits_view(s: Seq<Literal>) -> Seq<LitV>
    decreases s,
{
    if s.len() == 0 {
        Seq::empty()
    } else {
        lits_view(s.drop_last()).push(lit_view(s.last()))
    }
}

/// The model sequence indexes to the models of the elements.
pub broadcast proof fn lemma_lits_view_index(s: Seq<Literal>)
    ensures
        (#[trigger] lits_view(s)).len() == s.len(),
        forall|i: int| 0 <= i < s.len() ==> lits_view(s)[i] == lit_view(s[i]),
    decreases s.len(),
{
    if s.len() > 0 {
        lemma_lits_view_index(s.drop_last());
    }
}

/// Whether a literal model is a proper list: right-nested conses ending in
/// nil.
pub open spec fn is_proper_list(l: LitV) -> bool
    decreases l,
{
    match l {
        LitV::Cons(_, t) => is_proper_list(*t),
        LitV::Nil => true,
        _ => false,
    }
}

/// The elements of a proper list model, in order.
pub open spec fn list_elems(l: LitV) -> Seq<LitV>
    recommends
        is_proper_list(l),
    decreases l,
{
    match l {
        LitV::Cons(h, t) => seq![*h] + list_elems(*t),
        _ => Seq::empty(),
    }
}

/// The right-nested cons chain holding the given elements, ending in nil.
pub open spec fn lit_list(elems: Seq<LitV>) -> LitV
    decreases elems.len(),
{
    if elems.len() == 0 {
        LitV::Nil
    } else {
        LitV::Cons(Box::new(elems[0]), Box::new(lit_list(elems.drop_first())))
    }
}

/// Whether every element of a sequence of literal models is a symbol.
pub open spec fn all_symbols(elems: Seq<LitV>) -> bool {
    forall|i: int| 0 <= i < elems.len() ==> elems[i] is Symbol
}

/// The texts of a sequence of symbol models.
pub open spec fn symbol_texts(elems: Seq<LitV>) -> Seq<Seq<char>> {
    Seq::new(elems.len(), |i: int| elems[i]->Symbol_0)
}

/// Building a list from elements and taking the elements back are inverse.
pub proof fn lemma_lit_list_elems(elems: Seq<LitV>)
    ensures
        is_proper_list(lit_list(elems)),
        list_elems(lit_list(elems)) == elems,
    decreases elems.len(),
{
    if elems.len() == 0 {
        assert(list_elems(lit_list(elems)) =~= elems);
    } else {
        lemma_lit_list_elems(elems.drop_first());
        assert(list_elems(lit_list(elems)) =~= elems);
    }
}

/// A proper list is the list of its elements.
pub proof fn lemma_elems_lit_list(l: LitV)
    requires
        is_proper_list(l),
    ensures
        lit_list(list_elems(l)) == l,
    decreases l,
{
    match l {
        LitV::Cons(h, t) => {
            lemma_elems_lit_list(*t);
            let elems = list_elems(l);
            assert(elems =~= seq![*h] + list_elems(*t));
            assert(elems.drop_first() =~= list_elems(*t));
        },
        _ => {},
    }
}

/// A cons cell's element list splits into its head and its tail's elements.
pub proof fn lemma_all_symbols_cons(h: LitV, rest: Seq<LitV>)
    ensures
        all_symbols(seq![h] + rest) <==> (h is Symbol && all_symbols(rest)),
        symbol_texts(seq![h] + rest) == seq![h->Symbol_0] + symbol_texts(rest),
{
    let s = seq![h] + rest;
    assert(s[0] == h);
    assert(forall|i: int| 0 <= i < rest.len() ==> s[i + 1] == rest[i]);
    if h is Symbol && all_symbols(rest) {
        assert forall|i: int| 0 <= i < s.len() implies s[i] is Symbol by {
            if i > 0 {
                assert(s[i] == rest[i - 1]);
            }
        }
    }
    assert(symbol_texts(s) =~= seq![h->Symbol_0] + symbol_texts(rest));
}

impl Literal {
    /// Structurally copies this literal.
    pub fn duplicate(&self) -> (r: Literal)
        ensures
            r@ == self@,
        decreases self,
    {
        broadcast use lemma_lits_view_index;

        match self {
            Literal::Byte(n) => Literal::Byte(*n),
            Literal::Bytes(bs) => {
                let mut out: Vec<u8> = Vec::new();
                let mut i: usize = 0;
                while i < bs.len()
                    invariant
                        i <= bs@.len(),
                        out@ == bs@.take(i as int),
                    decreases bs@.len() - i,
                {
                    out.push(bs[i]);
                    assert(out@ =~= bs@.take(i + 1));
                    i = i + 1;
                }
                assert(out@ =~= bs@);
                Literal::Bytes(out)
            },
            Literal::Cons(h, t) => {
                let h2 = h.duplicate();
                let t2 = t.duplicate();
                Literal::Cons(Box::new(h2), Box::new(t2))
            },
            Literal::Fixnum(n) => Literal::Fixnum(*n),
            Literal::Nil => Literal::Nil,
            Literal::String(s) => Literal::String(s.clone()),
            Literal::Symbol(s) => Literal::Symbol(s.clone()),
            Literal::Vector(vs) => {
                let mut out: Vec<Literal> = Vec::new();
                let mut i: usize = 0;
                proof {
                    assert(*vs == self->Vector_0);
                }
                while i < vs.len()
                    invariant
                        *self is Vector,
                        *vs == self->Vector_0,
                        i <= vs@.len(),
                        out@.len() == i,
                        forall|j: int| 0 <= j < i ==> out@[j]@ == lit_view(vs@[j]),
                    decreases vs@.len() - i,
                {
                    proof {
                        assert(decreases_to!(*self => self->Vector_0@[i as int]));
                        assert(self->Vector_0@[i as int] == vs@[i as int]);
                    }
                    let e = vs[i].duplicate();
                    out.push(e);
                    i = i + 1;
                }
                proof {
                    assert(lit_view(*self) == LitV::Vector(lits_view(self->Vector_0@)));
                    assert(lits_view(out@) =~= lits_view(vs@));
                    assert(lit_view(Literal::Vector(out)) == LitV::Vector(lits_view(out@)));
                }
                Literal::Vector(out)
            },
        }
    }

    /// Checks if a literal represents a proper list.
    pub fn is_list(&self) -> (r: bool)
        ensures
            r == is_proper_list(self@),
        decreases self,
    {
        match self {
            Literal::Cons(_, t) => {
                proof {
                    assert(**t == self->Cons_1);
                    assert(*self@->Cons_1 == lit_view(**t));
                }
                t.is_list()
            },
            Literal::Nil => true,
            _ => false,
        }
    }

    /// Returns the list this literal contains, or `None` if it does not
    /// contain one.
    pub fn as_list(&self) -> (r: Option<Vec<Literal>>)
        ensures
            r is Some <==> is_proper_list(self@),
            r matches Some(v) ==> lits_view(v@) == list_elems(self@),
        decreases self,
    {
        broadcast use lemma_lits_view_index;

        match self {
            Literal::Cons(h, t) => {
                proof {
                    assert(**h == self->Cons_0);
                    assert(**t == self->Cons_1);
                    assert(*self@->Cons_0 == lit_view(**h));
                    assert(*self@->Cons_1 == lit_view(**t));
                }
                match t.as_list() {
                    Some(rest) => {
                        let mut out: Vec<Literal> = Vec::new();
                        out.push(h.duplicate());
                        let mut i: usize = 0;
                        while i < rest.len()
                            invariant
                                i <= rest@.len(),
                                out@.len() == i + 1,
                                out@[0]@ == *self@->Cons_0,
                                forall|j: int|
                                    1 <= j <= i ==> #[trigger] out@[j]@ == rest@[j - 1]@,
                            decreases rest@.len() - i,
                        {
                            out.push(rest[i].duplicate());
                            i = i + 1;
                        }
                        proof {
                            let rhs = seq![*self@->Cons_0] + lits_view(rest@);
                            assert(lits_view(out@).len() == out@.len());
                            assert(rhs.len() == 1 + rest@.len());
                            assert forall|k: int| 0 <= k < out@.len() implies lits_view(out@)[k]
                                == rhs[k] by {
                                assert(lits_view(out@)[k] == lit_view(out@[k]));
                                if k == 0 {
                                    assert(out@[0]@ == *self@->Cons_0);
                                } else {
                                    assert(out@[k]@ == rest@[k - 1]@);
                                    assert(lits_view(rest@)[k - 1] == lit_view(rest@[k - 1]));
                                }
                            }
                            assert(lits_view(out@) =~= rhs);
                            assert(list_elems(self@) == seq![*self@->Cons_0] + list_elems(
                                *self@->Cons_1,
                            ));
                            assert(lits_view(out@) =~= list_elems(self@));
                        }
                        Some(out)
                    },
                    None => None,
                }
            },
            Literal::Nil => {
                proof {
                    assert(lits_view(Seq::<Literal>::empty()) =~= list_elems(self@));
                }
                Some(Vec::new())
            },
            _ => None,
        }
    }

    /// Returns the list this literal contains, excluding the symbol which
    /// must be its head.
    pub fn as_shl(&self) -> (r: Option<(String, Vec<Literal>)>)
        ensures
            r is Some <==> (self@ matches LitV::Cons(h, t) && *h is Symbol && is_proper_list(*t)),
            r matches Some((s, v)) ==> {
                &&& s@ == self@->Cons_0->Symbol_0
                &&& lits_view(v@) == list_elems(*self@->Cons_1)
            },
    {
        match self {
            Literal::Cons(h, t) => {
                proof {
                    assert(**h == self->Cons_0);
                    assert(**t == self->Cons_1);
                    assert(*self@->Cons_0 == lit_view(**h));
                    assert(*self@->Cons_1 == lit_view(**t));
                }
                match &**h {
                    Literal::Symbol(s) => {
                        match t.as_list() {
                            Some(l) => Some((s.clone(), l)),
                            None => None,
                        }
                    },
                    _ => None,
                }
            },
            _ => None,
        }
    }

    /// If this literal is of the form `(SYMBOL VAL)`, returns `(SYMBOL, VAL)`.
    pub fn as_shp(&self) -> (r: Option<(String, Literal)>)
        ensures
            r is Some <==> (self@ matches LitV::Cons(h, t) && *h is Symbol && (*t matches LitV::Cons(
                _,
                t2,
            ) && *t2 is Nil)),
            r matches Some((s, v)) ==> {
                &&& s@ == self@->Cons_0->Symbol_0
                &&& v@ == *self@->Cons_1->Cons_0
            },
    {
        match self {
            Literal::Cons(h, t) => {
                proof {
                    assert(**h == self->Cons_0);
                    assert(**t == self->Cons_1);
                    assert(*self@->Cons_0 == lit_view(**h));
                    assert(*self@->Cons_1 == lit_view(**t));
                }
                match &**h {
                    Literal::Symbol(s) => {
                        match &**t {
                            Literal::Cons(h2, t2) => {
                                proof {
                                    assert(**h2 == (**t)->Cons_0);
                                    assert(**t2 == (**t)->Cons_1);
                                    assert(*lit_view(**t)->Cons_0 == lit_view(**h2));
                                    assert(*lit_view(**t)->Cons_1 == lit_view(**t2));
                                }
                                match &**t2 {
                                    Literal::Nil => Some((s.clone(), h2.duplicate())),
                                    _ => None,
                                }
                            },
                            _ => None,
                        }
                    },
                    _ => None,
                }
            },
            _ => None,
        }
    }

    /// Converts a list of symbols to the vector of their texts.
    pub fn as_symbol_list(&self) -> (r: Option<Vec<String>>)
        ensures
            r is Some <==> (is_proper_list(self@) && all_symbols(list_elems(self@))),
            r matches Some(v) ==> v.deep_view() == symbol_texts(list_elems(self@)),
        decreases self,
    {
        match self {
            Literal::Cons(h, t) => {
                proof {
                    assert(**h == self->Cons_0);
                    assert(**t == self->Cons_1);
                    assert(*self@->Cons_0 == lit_view(**h));
                    assert(*self@->Cons_1 == lit_view(**t));
                }
                match &**h {
                    Literal::Symbol(s) => {
                        match t.as_symbol_list() {
                            Some(rest) => {
                                let mut out: Vec<String> = Vec::new();
                                out.push(s.clone());
                                let mut i: usize = 0;
                                while i < rest.len()
                                    invariant
                                        i <= rest@.len(),
                                        out@.len() == i + 1,
                                        out@[0]@ == s@,
                                        forall|j: int|
                                            1 <= j <= i ==> #[trigger] out@[j]@ == rest@[j - 1]@,
                                    decreases rest@.len() - i,
                                {
                                    let e = rest[i].clone();
                                    out.push(e);
                                    i = i + 1;
                                }
                                proof {
                                    lemma_all_symbols_cons(
                                        *self@->Cons_0,
                                        list_elems(*self@->Cons_1),
                                    );
                                    assert(list_elems(self@) == seq![*self@->Cons_0] + list_elems(
                                        *self@->Cons_1,
                                    ));
                                    assert(out.deep_view() =~= symbol_texts(list_elems(self@)));
                                }
                                Some(out)
                            },
                            None => {
                                proof {
                                    lemma_all_symbols_cons(
                                        *self@->Cons_0,
                                        list_elems(*self@->Cons_1),
                                    );
                                    assert(list_elems(self@) == seq![*self@->Cons_0] + list_elems(
                                        *self@->Cons_1,
                                    ));
                                }
                                None
                            },
                        }
                    },
                    _ => {
                        proof {
                            if is_proper_list(self@) {
                                lemma_all_symbols_cons(
                                    *self@->Cons_0,
                                    list_elems(*self@->Cons_1),
                                );
                                assert(list_elems(self@) == seq![*self@->Cons_0] + list_elems(
                                    *self@->Cons_1,
                                ));
                            }
                        }
                        None
                    },
                }
            },
            Literal::Nil => {
                let out: Vec<String> = Vec::new();
                proof {
                    assert(out.deep_view() =~= symbol_texts(list_elems(self@)));
                }
                Some(out)
            },
            _ => None,
        }
    }

    /// Checks if a literal represents a list whose head is the given symbol.
    pub fn is_shl(&self, sym: &str) -> (r: bool)
        ensures
            r == (self@ matches LitV::Cons(h, t) && *h == LitV::Symbol(sym@) && is_proper_list(
                *t,
            )),
    {
        match self {
            Literal::Cons(h, t) => {
                proof {
                    assert(**h == self->Cons_0);
                    assert(**t == self->Cons_1);
                    assert(*self@->Cons_0 == lit_view(**h));
                    assert(*self@->Cons_1 == lit_view(**t));
                }
                match &**h {
                    Literal::Symbol(s) => {
                        if str_eq(s.as_str(), sym) {
                            t.is_list()
                        } else {
                            false
                        }
                    },
                    _ => false,
                }
            },
            _ => false,
        }
    }

    /// Creates a list from a vector of literals.
    pub fn list(vec: Vec<Literal>) -> (r: Literal)
        ensures
            r@ == lit_list(lits_view(vec@)),
    {
        broadcast use lemma_lits_view_index;

        let mut head = Literal::Nil;
        let mut vec = vec;
        let ghost all = lits_view(vec@);
        proof {
            assert(vec@.take(vec@.len() as int) =~= vec@);
            assert(lits_view(vec@) =~= all.take(vec@.len() as int));
        }
        while vec.len() > 0
            invariant
                vec@.len() <= all.len(),
                lits_view(vec@) == all.take(vec@.len() as int),
                head@ == lit_list(all.skip(vec@.len() as int)),
            decreases vec@.len(),
        {
            broadcast use lemma_lits_view_index;

            let ghost pre = vec@;
            let lit = vec.pop().unwrap();
            proof {
                let n = vec@.len() as int;
                assert(vec@ == pre.drop_last());
                assert(lit == pre.last());
                assert(lit@ == lits_view(pre)[n]);
                assert(lits_view(pre) == all.take(pre.len() as int));
                assert(lit@ == all[n]);
                assert(lits_view(vec@) =~= all.take(n));
                assert(all.skip(n) =~= seq![all[n]] + all.skip(n + 1));
                assert(all.skip(n).drop_first() =~= all.skip(n + 1));
            }
            head = Literal::Cons(Box::new(lit), Box::new(head));
        }
        proof {
            assert(all.skip(0) =~= all);
        }
        head
    }
}

/// The display form of a literal model, bit-exact.
pub open spec fn lit_display(l: LitV) -> Seq<char>
    decreases l, 0int,
{
    match l {
        LitV::Byte(n) => dec_digits(n as nat),
        LitV::Bytes(bs) => bytes_display(bs),
        LitV::Cons(h, t) => seq!['('] + lit_display(*h) + cons_tail_display(*t),
        LitV::Fixnum(n) => int_display(n as int),
        LitV::Nil => seq!['(', ')'],
        LitV::Str(s) => str_display(s),
        LitV::Symbol(s) => s,
        LitV::Vector(vs) => seq!['['] + spaced_displays(vs) + seq![']'],
    }
}

/// The display form of everything after the head of a cons chain, up to and
/// including the closing parenthesis; an improper tail is set off by `|`.
pub open spec fn cons_tail_display(t: LitV) -> Seq<char>
    decreases t, 1int,
{
    match t {
        LitV::Cons(h, t2) => seq![' '] + lit_display(*h) + cons_tail_display(*t2),
        LitV::Nil => seq![')'],
        _ => seq![' ', '|', ' '] + lit_display(t) + seq![')'],
    }
}

/// The display forms of a sequence of literal models, separated by spaces.
pub open spec fn spaced_displays(vs: Seq<LitV>) -> Seq<char>
    decreases vs, 0int,
{
    if vs.len() == 0 {
        Seq::empty()
    } else if vs.len() == 1 {
        lit_display(vs[0])
    } else {
        spaced_displays(vs.drop_last()) + seq![' '] + lit_display(vs.last())
    }
}

impl Literal {
    /// Appends the display form of this literal to `out`.
    pub fn push_display(&self, out: &mut Vec<char>)
        ensures
            final(out)@ == old(out)@ + lit_display(self@),
        decreases self, 0int,
    {
        broadcast use lemma_lits_view_index;

        match self {
            Literal::Byte(n) => {
                push_u64_dec(out, *n as u64);
            },
            Literal::Bytes(bs) => {
                out.push('b');
                out.push('"');
                push_escaped_bytes(out, bs.as_slice());
                out.push('"');
                assert(out@ =~= old(out)@ + lit_display(self@));
            },
            Literal::Cons(h, t) => {
                proof {
                    assert(**h == self->Cons_0);
                    assert(**t == self->Cons_1);
                    assert(*self@->Cons_0 == lit_view(**h));
                    assert(*self@->Cons_1 == lit_view(**t));
                }
                out.push('(');
                h.push_display(out);
                t.push_tail_display(out);
                assert(out@ =~= old(out)@ + lit_display(self@));
            },
            Literal::Fixnum(n) => {
                push_i64_dec(out, *n);
            },
            Literal::Nil => {
                out.push('(');
                out.push(')');
                assert(out@ =~= old(out)@ + lit_display(self@));
            },
            Literal::String(s) => {
                out.push('"');
                push_escaped_chars(out, s.as_str());
                out.push('"');
                assert(out@ =~= old(out)@ + lit_display(self@));
            },
            Literal::Symbol(s) => {
                push_str_chars(out, s.as_str());
            },
            Literal::Vector(vs) => {
                proof {
                    assert(*vs == self->Vector_0);
                }
                out.push('[');
                let mut i: usize = 0;
                while i < vs.len()
                    invariant
                        *self is Vector,
                        *vs == self->Vector_0,
                        i <= vs@.len(),
                        out@ == old(out)@ + seq!['['] + spaced_displays(lits_view(vs@).take(i as int)),
                    decreases vs@.len() - i,
                {
                    broadcast use lemma_lits_view_index;

                    proof {
                        assert(decreases_to!(*self => self->Vector_0@[i as int]));
                        assert(self->Vector_0@[i as int] == vs@[i as int]);
                    }
                    if i > 0 {
                        out.push(' ');
                    }
                    let ghost pre = out@;
                    vs[i].push_display(out);
                    proof {
                        let lv = lits_view(vs@);
                        assert(lv.take(i + 1).drop_last() =~= lv.take(i as int));
                        assert(lv.take(i + 1).last() == lit_view(vs@[i as int]));
                        if i == 0 {
                            assert(spaced_displays(lv.take(1)) == lit_display(lv.take(1)[0]));
                            assert(out@ =~= old(out)@ + seq!['['] + spaced_displays(lv.take(1)));
                        } else {
                            assert(spaced_displays(lv.take(i + 1)) == spaced_displays(
                                lv.take(i as int),
                            ) + seq![' '] + lit_display(lv.take(i + 1).last()));
                            assert(out@ =~= old(out)@ + seq!['['] + spaced_displays(
                                lv.take(i + 1),
                            ));
                        }
                    }
                    i = i + 1;
                }
                out.push(']');
                proof {
                    assert(lits_view(vs@).take(vs@.len() as int) =~= lits_view(vs@));
                    assert(out@ =~= old(out)@ + lit_display(self@));
                }
            },
        }
    }

    /// Appends the display form of a cons tail to `out`.
    pub fn push_tail_display(&self, out: &mut Vec<char>)
        ensures
            final(out)@ == old(out)@ + cons_tail_display(self@),
        decreases self, 1int,
    {
        match self {
            Literal::Cons(h, t) => {
                proof {
                    assert(**h == self->Cons_0);
                    assert(**t == self->Cons_1);
                    assert(*self@->Cons_0 == lit_view(**h));
                    assert(*self@->Cons_1 == lit_view(**t));
                }
                out.push(' ');
                h.push_display(out);
                t.push_tail_display(out);
                assert(out@ =~= old(out)@ + cons_tail_display(self@));
            },
            Literal::Nil => {
                out.push(')');
                assert(out@ =~= old(out)@ + cons_tail_display(self@));
            },
            _ => {
                out.push(' ');
                out.push('|');
                out.push(' ');
                self.push_display(out);
                out.push(')');
                assert(out@ =~= old(out)@ + cons_tail_display(self@));
            },
        }
    }

    /// The display form of this literal, bit-exact.
    pub fn display(&self) -> (r: String)
        ensures
            r@ == lit_display(self@),
    {
        let mut out: Vec<char> = Vec::new();
        self.push_display(&mut out);
        proof {
            assert(out@ =~= lit_display(self@));
        }
        chars_to_string(out)
    }
}

/// Appends every character of `s` to `out`.
pub fn push_str_chars(out: &mut Vec<char>, s: &str)
    ensures
        final(out)@ == old(out)@ + s@,
{
    let len = s.unicode_len();
    let mut i: usize = 0;
    while i < len
        invariant
            len == s@.len(),
            i <= len,
            out@ == old(out)@ + s@.take(i as int),
        decreases len - i,
    {
        let c = s.get_char(i);
        out.push(c);
        proof {
            assert(s@.take(i + 1) =~= s@.take(i as int).push(s@[i as int]));
            assert(out@ =~= old(out)@ + s@.take(i + 1));
        }
        i = i + 1;
    }
    assert(s@.take(s@.len() as int) =~= s@);
}

/// Whether two string slices hold the same characters, compared one
/// character at a time.
pub fn str_eq(a: &str, b: &str) -> (r: bool)
    ensures
        r == (a@ == b@),
{
    let alen = a.unicode_len();
    let blen = b.unicode_len();
    if alen != blen {
        proof {
            assert(a@ != b@);
        }
        return false;
    }
    let mut i: usize = 0;
    while i < alen
        invariant
            alen == a@.len(),
            alen == b@.len(),
            i <= alen,
            forall|j: int| 0 <= j < i ==> a@[j] == b@[j],
        decreases alen - i,
    {
        if a.get_char(i) != b.get_char(i) {
            proof {
                assert(a@ != b@);
            }
            return false;
        }
        i = i + 1;
    }
    proof {
        assert(a@ =~= b@);
    }
    true
}

} // verus!
