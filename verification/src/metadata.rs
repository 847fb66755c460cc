//! The component metadata of a package, read from and written back to
//! literals. The filesystem layer that finds these literals is a
//! collaborator; the recognition logic lives here.

use vstd::prelude::*;

use crate::error::ErrorKind;
use crate::literal::{
    is_proper_list, list_elems, lit_list, lit_view, lits_view, LitV, Literal,
};

verus! {

/// The metadata of a library component; a library currently has no
/// metadata of its own.
#[derive(Debug, PartialEq)]
pub struct LibraryComponentMetadata;

impl LibraryComponentMetadata {
    /// Reads a library component from the items of its form, which must be
    /// empty.
    pub fn from_literals(lits: Vec<Literal>) -> (r: Result<
        LibraryComponentMetadata,
        ErrorKind,
    >)
        ensures
            r is Ok <==> lits@.len() == 0,
            r matches Err(k) ==> k is Unexpected,
    {
        if lits.len() == 0 {
            Ok(LibraryComponentMetadata)
        } else {
            Err(ErrorKind::Unexpected("a library component".to_owned(), lits[0].duplicate()))
        }
    }

    /// Converts to a literal: a library component has an empty body.
    pub fn to_literal(self) -> (r: Literal)
        ensures
            r@ == LitV::Nil,
    {
        Literal::Nil
    }
}

/// The metadata of one binary component: its name and the path of its main
/// file.
#[derive(Debug, PartialEq)]
pub struct BinaryComponentMetadata {
    pub name: String,
    pub path: String,
}

/// Whether the items of a binary form hold exactly a `(name "...")` and a
/// `(path "...")` pair, in any order, neither repeated.
pub open spec fn spec_binary_meta(items: Seq<LitV>) -> Option<(Seq<char>, Seq<char>)> {
    spec_binary_meta_rec(items, None, None)
}

/// Walks the items, remembering the name and path seen so far.
pub open spec fn spec_binary_meta_rec(
    items: Seq<LitV>,
    name: Option<Seq<char>>,
    path: Option<Seq<char>>,
) -> Option<(Seq<char>, Seq<char>)>
    decreases items.len(),
{
    if items.len() == 0 {
        match (name, path) {
            (Some(n), Some(p)) => Some((n, p)),
            _ => None,
        }
    } else {
        match items[0] {
            LitV::Cons(h, t) => match (*h, *t) {
                (LitV::Symbol(s), LitV::Cons(v, rest)) => if *rest is Nil {
                    if s == "name"@ {
                        match (*v, name) {
                            (LitV::Str(n), None) => spec_binary_meta_rec(
                                items.drop_first(),
                                Some(n),
                                path,
                            ),
                            _ => None,
                        }
                    } else if s == "path"@ {
                        match (*v, path) {
                            (LitV::Str(p), None) => spec_binary_meta_rec(
                                items.drop_first(),
                                name,
                                Some(p),
                            ),
                            _ => None,
                        }
                    } else {
                        None
                    }
                } else {
                    None
                },
                _ => None,
            },
            _ => None,
        }
    }
}

impl BinaryComponentMetadata {
    /// Reads a binary component from the items of its form.
    pub fn from_literals(lits: Vec<Literal>) -> (r: Result<BinaryComponentMetadata, ErrorKind>)
        ensures
            r is Ok <==> spec_binary_meta(lits_view(lits@)) is Some,
            r matches Ok(m) ==> Some((m.name@, m.path@)) == spec_binary_meta(lits_view(lits@)),
            r matches Err(k) ==> (k is Unexpected || k is DuplicateField || k is MissingField),
    {
        broadcast use crate::literal::lemma_lits_view_index;

        let ghost lv = lits_view(lits@);
        let mut name: Option<String> = None;
        let mut path: Option<String> = None;
        let mut i: usize = 0;
        proof {
            assert(lv.skip(0) =~= lv);
        }
        #[verifier::loop_isolation(false)]
        while i < lits.len()
            invariant
                i <= lits@.len(),
                spec_binary_meta_rec(
                    lv.skip(i as int),
                    match name {
                        Some(n) => Some(n@),
                        None => None,
                    },
                    match path {
                        Some(p) => Some(p@),
                        None => None,
                    },
                ) == spec_binary_meta(lv),
            decreases lits@.len() - i,
        {
            proof {
                assert(lv.skip(i as int)[0] == lv[i as int]);
                assert(lv[i as int] == lit_view(lits@[i as int]));
                assert(lv.skip(i as int).drop_first() =~= lv.skip(i + 1));
            }
            let (s, v) = match lits[i].as_shp() {
                Some(p) => p,
                None => {
                    return Err(
                        ErrorKind::Unexpected(
                            "a binary component metadata item".to_owned(),
                            lits[i].duplicate(),
                        ),
                    );
                },
            };
            if crate::literal::str_eq(s.as_str(), "name") {
                if name.is_some() {
                    return Err(ErrorKind::DuplicateField(s));
                }
                match v {
                    Literal::String(n) => {
                        name = Some(n);
                    },
                    other => {
                        return Err(ErrorKind::Unexpected("a binary name".to_owned(), other));
                    },
                }
            } else if crate::literal::str_eq(s.as_str(), "path") {
                if path.is_some() {
                    return Err(ErrorKind::DuplicateField(s));
                }
                match v {
                    Literal::String(p) => {
                        path = Some(p);
                    },
                    other => {
                        return Err(ErrorKind::Unexpected("a path".to_owned(), other));
                    },
                }
            } else {
                return Err(
                    ErrorKind::Unexpected(
                        "a binary component metadata item".to_owned(),
                        lits[i].duplicate(),
                    ),
                );
            }
            i = i + 1;
        }
        proof {
            assert(lv.skip(lits@.len() as int) =~= Seq::<LitV>::empty());
        }
        match (name, path) {
            (Some(name), Some(path)) => Ok(BinaryComponentMetadata { name, path }),
            (None, _) => Err(ErrorKind::MissingField("name".to_owned())),
            (_, None) => Err(ErrorKind::MissingField("path".to_owned())),
        }
    }

    /// Converts to a literal of the form `((name "...") (path "..."))`.
    pub fn to_literal(self) -> (r: Literal)
        ensures
            r@ == lit_list(
                seq![
                    lit_list(seq![LitV::Symbol("name"@), LitV::Str(self.name@)]),
                    lit_list(seq![LitV::Symbol("path"@), LitV::Str(self.path@)]),
                ],
            ),
    {
        broadcast use crate::literal::lemma_lits_view_index;

        let ghost nm = self.name@;
        let ghost pt = self.path@;
        let mut inner1: Vec<Literal> = Vec::new();
        inner1.push(Literal::Symbol("name".to_owned()));
        inner1.push(Literal::String(self.name));
        proof {
            assert(lits_view(inner1@) =~= seq![LitV::Symbol("name"@), LitV::Str(nm)]);
        }
        let first = Literal::list(inner1);
        let mut inner2: Vec<Literal> = Vec::new();
        inner2.push(Literal::Symbol("path".to_owned()));
        inner2.push(Literal::String(self.path));
        proof {
            assert(lits_view(inner2@) =~= seq![LitV::Symbol("path"@), LitV::Str(pt)]);
        }
        let second = Literal::list(inner2);
        let ghost fv = first@;
        let ghost sv = second@;
        let mut outer: Vec<Literal> = Vec::new();
        outer.push(first);
        outer.push(second);
        proof {
            assert(lits_view(outer@) =~= seq![fv, sv]);
        }
        Literal::list(outer)
    }
}

/// The metadata of the `components` form of a package: at most one
/// library, and any number of binaries.
#[derive(Debug, PartialEq)]
pub struct ComponentsMetadata {
    pub library: Option<LibraryComponentMetadata>,
    pub binaries: Vec<BinaryComponentMetadata>,
}

/// What the items of a `components` form describe, walked left to right:
/// whether a library was seen, and the binaries in order. A second
/// `library`, an invalid binary, or anything else fails.
pub open spec fn spec_components_rec(
    items: Seq<LitV>,
    lib: bool,
    bins: Seq<(Seq<char>, Seq<char>)>,
) -> Option<(bool, Seq<(Seq<char>, Seq<char>)>)>
    decreases items.len(),
{
    if items.len() == 0 {
        Some((lib, bins))
    } else {
        match items[0] {
            LitV::Cons(h, t) => match *h {
                LitV::Symbol(s) => if !is_proper_list(*t) {
                    None
                } else if s == "library"@ {
                    if lib || list_elems(*t).len() != 0 {
                        None
                    } else {
                        spec_components_rec(items.drop_first(), true, bins)
                    }
                } else if s == "binary"@ {
                    match crate::metadata::spec_binary_meta(list_elems(*t)) {
                        Some(np) => spec_components_rec(items.drop_first(), lib, bins.push(np)),
                        None => None,
                    }
                } else {
                    None
                },
                _ => None,
            },
            _ => None,
        }
    }
}

/// The literal form of one binary component.
pub open spec fn spec_binary_literal(np: (Seq<char>, Seq<char>)) -> LitV {
    lit_list(
        seq![
            lit_list(seq![LitV::Symbol("name"@), LitV::Str(np.0)]),
            lit_list(seq![LitV::Symbol("path"@), LitV::Str(np.1)]),
        ],
    )
}

/// The literal form of a `components` body: the library form if present,
/// then one binary form per binary.
pub open spec fn spec_components_literal(lib: bool, bins: Seq<(Seq<char>, Seq<char>)>) -> LitV {
    lit_list(
        (if lib {
            seq![LitV::Cons(Box::new(LitV::Symbol("library"@)), Box::new(LitV::Nil))]
        } else {
            Seq::empty()
        }) + Seq::new(
            bins.len(),
            |i: int|
                LitV::Cons(
                    Box::new(LitV::Symbol("binary"@)),
                    Box::new(spec_binary_literal(bins[i])),
                ),
        ),
    )
}

/// The (name, path) views of a vector of binary components.
pub open spec fn binaries_view(s: Seq<BinaryComponentMetadata>) -> Seq<(Seq<char>, Seq<char>)> {
    Seq::new(s.len(), |i: int| (s[i].name@, s[i].path@))
}

impl ComponentsMetadata {
    /// Reads the components from the items of the `components` form: each
    /// item is `(library ...)` or `(binary ...)`; a second library is
    /// rejected.
    pub fn from_literals(lits: Vec<Literal>) -> (r: Result<ComponentsMetadata, ErrorKind>)
        ensures
            r is Ok <==> spec_components_rec(lits_view(lits@), false, Seq::empty()) is Some,
            r matches Ok(m) ==> Some(((m.library is Some), binaries_view(m.binaries@)))
                == spec_components_rec(lits_view(lits@), false, Seq::empty()),
            r matches Err(k) ==> (k is Unexpected || k is DuplicateField || k is MissingField),
    {
        broadcast use crate::literal::lemma_lits_view_index;

        let ghost lv = lits_view(lits@);
        let mut library: Option<LibraryComponentMetadata> = None;
        let mut binaries: Vec<BinaryComponentMetadata> = Vec::new();
        let mut i: usize = 0;
        proof {
            assert(lv.skip(0) =~= lv);
            assert(binaries_view(binaries@) =~= Seq::<(Seq<char>, Seq<char>)>::empty());
        }
        #[verifier::loop_isolation(false)]
        while i < lits.len()
            invariant
                i <= lits@.len(),
                spec_components_rec(
                    lv.skip(i as int),
                    library is Some,
                    binaries_view(binaries@),
                ) == spec_components_rec(lv, false, Seq::empty()),
            decreases lits@.len() - i,
        {
            proof {
                assert(lv.skip(i as int)[0] == lv[i as int]);
                assert(lv[i as int] == lits@[i as int]@);
                assert(lv.skip(i as int).drop_first() =~= lv.skip(i + 1));
            }
            let (s, l) = match lits[i].as_shl() {
                Some(p) => p,
                None => {
                    return Err(
                        ErrorKind::Unexpected("a component".to_owned(), lits[i].duplicate()),
                    );
                },
            };
            if crate::literal::str_eq(s.as_str(), "library") {
                if library.is_some() {
                    return Err(ErrorKind::DuplicateField(s));
                }
                let lib = LibraryComponentMetadata::from_literals(l)?;
                library = Some(lib);
            } else if crate::literal::str_eq(s.as_str(), "binary") {
                let ghost pre = binaries_view(binaries@);
                let bin = BinaryComponentMetadata::from_literals(l)?;
                binaries.push(bin);
                proof {
                    assert(binaries_view(binaries@) =~= pre.push(
                        (binaries@.last().name@, binaries@.last().path@),
                    ));
                }
            } else {
                return Err(
                    ErrorKind::Unexpected("a component".to_owned(), lits[i].duplicate()),
                );
            }
            i = i + 1;
        }
        proof {
            assert(lv.skip(lits@.len() as int) =~= Seq::<LitV>::empty());
        }
        Ok(ComponentsMetadata { library, binaries })
    }

    /// Converts to a literal: the library form if present, then one binary
    /// form per binary.
    pub fn to_literal(self) -> (r: Literal)
        ensures
            r@ == spec_components_literal(
                self.library is Some,
                binaries_view(self.binaries@),
            ),
    {
        broadcast use crate::literal::lemma_lits_view_index;

        let ghost had_lib = self.library is Some;
        let ghost binsv = binaries_view(self.binaries@);
        let ghost libpart: Seq<LitV> = if had_lib {
            seq![LitV::Cons(Box::new(LitV::Symbol("library"@)), Box::new(LitV::Nil))]
        } else {
            Seq::empty()
        };
        let ghost binpart = Seq::new(
            binsv.len(),
            |i: int|
                LitV::Cons(
                    Box::new(LitV::Symbol("binary"@)),
                    Box::new(spec_binary_literal(binsv[i])),
                ),
        );
        let mut l: Vec<Literal> = Vec::new();
        match self.library {
            Some(library) => {
                l.push(
                    Literal::Cons(
                        Box::new(Literal::Symbol("library".to_owned())),
                        Box::new(library.to_literal()),
                    ),
                );
            },
            None => {},
        }
        proof {
            reveal_with_fuel(lit_view, 3);
            assert(lits_view(l@) =~= libpart);
        }
        let mut binaries = self.binaries;
        let mut i: usize = 0;
        #[verifier::loop_isolation(false)]
        while i < binaries.len()
            invariant
                i <= binaries@.len(),
                binaries_view(binaries@) == binsv,
                lits_view(l@) == libpart + binpart.take(i as int),
            decreases binaries@.len() - i,
        {
            let ghost pre = lits_view(l@);
            let b = BinaryComponentMetadata {
                name: binaries[i].name.clone(),
                path: binaries[i].path.clone(),
            };
            proof {
                assert((b.name@, b.path@) == binsv[i as int]);
            }
            l.push(
                Literal::Cons(
                    Box::new(Literal::Symbol("binary".to_owned())),
                    Box::new(b.to_literal()),
                ),
            );
            proof {
                reveal_with_fuel(lit_view, 3);
                assert(lits_view(l@) =~= pre.push(binpart[i as int]));
                assert(libpart + binpart.take(i + 1) =~= pre.push(binpart[i as int]));
            }
            i = i + 1;
        }
        proof {
            assert(binpart.take(binsv.len() as int) =~= binpart);
        }
        Literal::list(l)
    }
}

} // verus!
