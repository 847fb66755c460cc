//! The module-system logic that does not touch the filesystem: prelude
//! injection. Package discovery, metadata files and module loading are the
//! host layer's work; it hands the loaded modules to [`inject_prelude`]
//! and then to the linker.

use vstd::prelude::*;

use crate::anf;
use crate::ast::Attr;
use crate::flatanf::convert::qualified;
use crate::flatanf::global_vars::names_contain;
use crate::flatanf::util::pairs_view;

verus! {

/// The name of the prelude module.
pub open spec fn prelude_name() -> Seq<char> {
    "std/prelude"@
}

/// Whether a module should not receive the prelude: it is the prelude
/// itself, carries the `no-prelude` attribute, or already imports from the
/// prelude.
pub open spec fn skips_prelude(m: anf::ModuleV) -> bool {
    ||| m.name == prelude_name()
    ||| m.attrs.contains(Attr::NoPrelude)
    ||| exists|k: int| 0 <= k < m.imports.len() && (#[trigger] m.imports[k]).0 == prelude_name()
}

/// The imports of a module after prelude injection: one
/// `(std/prelude, name)` pair is appended per prelude export not already
/// present.
pub open spec fn inject_imports(
    imports: Seq<(Seq<char>, Seq<char>)>,
    exports: Seq<Seq<char>>,
) -> Seq<(Seq<char>, Seq<char>)>
    decreases exports.len(),
{
    if exports.len() == 0 {
        imports
    } else {
        let prev = inject_imports(imports, exports.drop_last());
        if prev.contains((prelude_name(), exports.last())) {
            prev
        } else {
            prev.push((prelude_name(), exports.last()))
        }
    }
}

/// Augments every module's imports with the prelude's exports, before
/// linking, except where the module opts out.
pub fn inject_prelude(mods: Vec<anf::Module>, prelude_exports: &Vec<String>) -> (r: Vec<
    anf::Module,
>)
    ensures
        r@.len() == mods@.len(),
        forall|i: int|
            0 <= i < mods@.len() ==> {
                let old_m = mods@[i]@;
                let new_m = (#[trigger] r@[i])@;
                &&& new_m.name == old_m.name
                &&& new_m.exports == old_m.exports
                &&& new_m.body == old_m.body
                &&& new_m.attrs == old_m.attrs
                &&& (skips_prelude(old_m) ==> new_m.imports == old_m.imports)
                &&& (!skips_prelude(old_m) ==> new_m.imports == inject_imports(
                    old_m.imports,
                    prelude_exports.deep_view(),
                ))
            },
{
    let mut out: Vec<anf::Module> = Vec::new();
    let n = mods.len();
    let mut mods = mods;
    let ghost origs = Seq::new(mods@.len(), |i: int| mods@[i]@);
    let mut i: usize = 0;
    #[verifier::loop_isolation(false)]
    while mods.len() > 0
        invariant
            origs.len() == n,
            i == out@.len(),
            i + mods@.len() == origs.len(),
            forall|j: int| 0 <= j < mods@.len() ==> (#[trigger] mods@[j])@ == origs[i + j],
            forall|j: int|
                0 <= j < i ==> {
                    let old_m = origs[j];
                    let new_m = (#[trigger] out@[j])@;
                    &&& new_m.name == old_m.name
                    &&& new_m.exports == old_m.exports
                    &&& new_m.body == old_m.body
                    &&& new_m.attrs == old_m.attrs
                    &&& (skips_prelude(old_m) ==> new_m.imports == old_m.imports)
                    &&& (!skips_prelude(old_m) ==> new_m.imports == inject_imports(
                        old_m.imports,
                        prelude_exports.deep_view(),
                    ))
                },
        decreases mods@.len(),
    {
        let ghost premods = mods@;
        let mut m = mods.remove(0);
        proof {
            assert(m@ == origs[i as int]);
            assert(forall|j: int|
                0 <= j < mods@.len() ==> (#[trigger] mods@[j])@ == origs[i + 1 + j]);
        }
        let skip = module_skips_prelude(&m);
        if !skip {
            let ghost oldimp = m@.imports;
            let mut e: usize = 0;
            proof {
                assert(prelude_exports.deep_view().take(0) =~= Seq::<Seq<char>>::empty());
                assert(m@.imports =~= inject_imports(
                    oldimp,
                    prelude_exports.deep_view().take(0),
                ));
            }
            while e < prelude_exports.len()
                invariant
                    e <= prelude_exports@.len(),
                    m@.name == origs[i as int].name,
                    m@.exports == origs[i as int].exports,
                    m@.body == origs[i as int].body,
                    m@.attrs == origs[i as int].attrs,
                    oldimp == origs[i as int].imports,
                    m@.imports == inject_imports(
                        oldimp,
                        prelude_exports.deep_view().take(e as int),
                    ),
                decreases prelude_exports@.len() - e,
            {
                proof {
                    assert(prelude_exports.deep_view().take(e + 1).drop_last()
                        =~= prelude_exports.deep_view().take(e as int));
                    assert(prelude_exports.deep_view().take(e + 1).last()
                        == prelude_exports.deep_view()[e as int]);
                    assert(prelude_exports.deep_view()[e as int] == prelude_exports@[e as int]@);
                }
                let name = &prelude_exports[e];
                if !imports_contain_prelude_pair(&m.imports, name.as_str()) {
                    let ghost preimp = m@.imports;
                    m.imports.push(("std/prelude".to_owned(), name.clone()));
                    proof {
                        assert(m@.imports =~= preimp.push((prelude_name(), name@)));
                        assert(m@.imports =~= inject_imports(
                            oldimp,
                            prelude_exports.deep_view().take(e + 1),
                        ));
                    }
                } else {
                    proof {
                        assert(m@.imports =~= inject_imports(
                            oldimp,
                            prelude_exports.deep_view().take(e + 1),
                        ));
                    }
                }
                e = e + 1;
            }
            proof {
                assert(prelude_exports.deep_view().take(prelude_exports@.len() as int)
                    =~= prelude_exports.deep_view());
            }
        }
        out.push(m);
        i = i + 1;
    }
    out
}

/// Whether the module opts out of prelude injection.
fn module_skips_prelude(m: &anf::Module) -> (r: bool)
    ensures
        r == skips_prelude(m@),
{
    if crate::literal::str_eq(m.name.as_str(), "std/prelude") {
        return true;
    }
    if m.attrs.len() > 0 {
        proof {
            match m.attrs@[0] {
                Attr::NoPrelude => {
                    assert(m@.attrs[0] == Attr::NoPrelude);
                    assert(m@.attrs.contains(Attr::NoPrelude));
                },
            }
        }
        return true;
    }
    proof {
        assert(!m@.attrs.contains(Attr::NoPrelude)) by {
            if m@.attrs.contains(Attr::NoPrelude) {
                let j = choose|j: int| 0 <= j < m@.attrs.len() && m@.attrs[j] == Attr::NoPrelude;
            }
        }
    }
    let mut k: usize = 0;
    #[verifier::loop_isolation(false)]
    while k < m.imports.len()
        invariant
            k <= m.imports@.len(),
            forall|j: int| 0 <= j < k ==> (#[trigger] m@.imports[j]).0 != prelude_name(),
        decreases m.imports@.len() - k,
    {
        proof {
            assert(m@.imports[k as int] == (m.imports@[k as int].0@, m.imports@[k as int].1@));
        }
        if crate::literal::str_eq(m.imports[k].0.as_str(), "std/prelude") {
            return true;
        }
        k = k + 1;
    }
    false
}

/// Whether the imports already hold the pair `(std/prelude, name)`.
fn imports_contain_prelude_pair(imports: &Vec<(String, String)>, name: &str) -> (r: bool)
    ensures
        r == Seq::new(imports@.len(), |i: int| (imports@[i].0@, imports@[i].1@)).contains(
            (prelude_name(), name@),
        ),
{
    let ghost iv = Seq::new(imports@.len(), |i: int| (imports@[i].0@, imports@[i].1@));
    let mut i: usize = 0;
    #[verifier::loop_isolation(false)]
    while i < imports.len()
        invariant
            i <= imports@.len(),
            forall|j: int| 0 <= j < i ==> #[trigger] iv[j] != (prelude_name(), name@),
        decreases imports@.len() - i,
    {
        if crate::literal::str_eq(imports[i].0.as_str(), "std/prelude") && crate::literal::str_eq(
            imports[i].1.as_str(),
            name,
        ) {
            proof {
                assert(iv[i as int] == (prelude_name(), name@));
            }
            return true;
        }
        i = i + 1;
    }
    proof {
        if iv.contains((prelude_name(), name@)) {
            let j = choose|j: int| 0 <= j < iv.len() && iv[j] == (prelude_name(), name@);
        }
    }
    false
}

} // verus!
