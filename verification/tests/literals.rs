//! Literal utilities, the display form, escapes, lowering, and metadata.

use oftb::anf;
use oftb::ast;
use oftb::metadata::{BinaryComponentMetadata, ComponentsMetadata, LibraryComponentMetadata};
use oftb::Literal;
use oftb::{convert_hex_digit, escape_bytes, escape_str};

fn sym(s: &str) -> Literal {
    Literal::Symbol(s.to_string())
}

fn list(items: Vec<Literal>) -> Literal {
    Literal::list(items)
}

#[test]
fn list_roundtrip() {
    let l = list(vec![sym("a"), Literal::Fixnum(1), Literal::Nil]);
    assert!(l.is_list());
    let back = l.as_list().expect("a proper list");
    assert_eq!(back, vec![sym("a"), Literal::Fixnum(1), Literal::Nil]);
}

#[test]
fn improper_list_is_not_a_list() {
    let l = Literal::Cons(Box::new(sym("a")), Box::new(sym("b")));
    assert!(!l.is_list());
    assert!(l.as_list().is_none());
    assert_eq!(l.display(), "(a | b)");
}

#[test]
fn shl_and_shp_accessors() {
    let l = list(vec![sym("head"), Literal::Fixnum(1), Literal::Fixnum(2)]);
    let (h, tail) = l.as_shl().expect("symbol-headed list");
    assert_eq!(h, "head");
    assert_eq!(tail, vec![Literal::Fixnum(1), Literal::Fixnum(2)]);
    assert!(l.is_shl("head"));
    assert!(!l.is_shl("tail"));

    let p = list(vec![sym("key"), Literal::String("v".to_string())]);
    let (k, v) = p.as_shp().expect("symbol-headed pair");
    assert_eq!(k, "key");
    assert_eq!(v, Literal::String("v".to_string()));

    let syms = list(vec![sym("a"), sym("b")]);
    assert_eq!(
        syms.as_symbol_list().expect("all symbols"),
        vec!["a".to_string(), "b".to_string()]
    );
    assert!(list(vec![sym("a"), Literal::Fixnum(1)]).as_symbol_list().is_none());
}

#[test]
fn display_is_bit_exact() {
    let l = list(vec![
        sym("f"),
        Literal::Fixnum(-42),
        Literal::String("a\nb\"".to_string()),
        Literal::Vector(vec![Literal::Byte(7), Literal::Nil]),
        Literal::Bytes(vec![0x01, 0xff]),
    ]);
    assert_eq!(
        l.display(),
        "(f -42 \"a\\nb\\\"\" [7 ()] b\"\\x01\\xff\")"
    );
}

#[test]
fn display_escapes_unicode() {
    let s = Literal::String("\u{7}\u{fb}\u{1234}\u{10348}".to_string());
    assert_eq!(s.display(), "\"\\x07\\xfb\\u1234\\U00010348\"");
}

#[test]
fn escape_helpers_match_the_display_form() {
    assert_eq!(escape_str("ab\tc"), "\"ab\\tc\"");
    assert_eq!(escape_bytes(&[0x00, 0x7f]), "b\"\\x00\\x7f\"");
    assert_eq!(convert_hex_digit("a"), 10);
    assert_eq!(convert_hex_digit("F"), 15);
    assert_eq!(convert_hex_digit("0"), 0);
}

#[test]
fn ast_rejects_nil_expression() {
    match ast::Expr::from_value(Literal::Nil) {
        Err(oftb::ErrorKind::InvalidExpr(Literal::Nil)) => {}
        other => panic!("expected InvalidExpr, got {:?}", other),
    }
}

#[test]
fn ast_quote_arity_error_carries_the_literal() {
    // A quote with two arguments fails as an invalid expression carrying
    // the whole quote form.
    let l = list(vec![sym("quote"), sym("a"), sym("b")]);
    match ast::Expr::from_value(l.duplicate()) {
        Err(oftb::ErrorKind::InvalidExpr(payload)) => assert_eq!(payload, l),
        other => panic!("expected InvalidExpr, got {:?}", other),
    }
}

#[test]
fn ast_nested_failure_bubbles_inner_literal() {
    // A failing subexpression (Nil in argument position) reports the
    // inner literal, not the enclosing call.
    let l = list(vec![sym("f"), Literal::Nil]);
    match ast::Expr::from_value(l) {
        Err(oftb::ErrorKind::InvalidExpr(Literal::Nil)) => {}
        other => panic!("expected InvalidExpr(Nil), got {:?}", other),
    }
}

#[test]
fn ast_bad_decl_error_carries_the_literal() {
    // A def with a non-symbol name fails as an invalid declaration
    // carrying the whole form.
    let l = list(vec![sym("intrinsics:def"), Literal::Fixnum(1), Literal::Fixnum(2)]);
    match ast::Decl::from_value(l.duplicate()) {
        Err(oftb::ErrorKind::InvalidDecl(payload)) => assert_eq!(payload, l),
        other => panic!("expected InvalidDecl, got {:?}", other),
    }
}

#[test]
fn ast_if_defaults_to_nil_else() {
    let l = list(vec![sym("if"), sym("c"), Literal::Fixnum(1)]);
    let e = ast::Expr::from_value(l).expect("a valid if");
    assert_eq!(
        e,
        ast::Expr::If(
            Box::new(ast::Expr::Var("c".to_string())),
            Box::new(ast::Expr::Literal(Literal::Fixnum(1))),
            Box::new(ast::Expr::Literal(Literal::Nil)),
        )
    );
}

#[test]
fn ast_empty_progn_is_nil() {
    let l = list(vec![sym("progn")]);
    let e = ast::Expr::from_value(l).expect("a valid progn");
    assert_eq!(
        e,
        ast::Expr::Progn(vec![], Box::new(ast::Expr::Literal(Literal::Nil)))
    );
}

#[test]
fn ast_rejects_duplicate_params() {
    let l = list(vec![
        sym("intrinsics:defn"),
        sym("f"),
        list(vec![sym("x"), sym("x")]),
        sym("x"),
    ]);
    assert!(ast::Decl::from_value(l).is_err());
}

#[test]
fn gensym_names_are_fresh_and_reserved() {
    let mut gen = anf::Gensym::new();
    assert_eq!(gen.gensym(), "gensym@0");
    assert_eq!(gen.gensym(), "gensym@1");
}

#[test]
fn lowering_names_call_operands() {
    // Lowering `(f (g x))` must bind the inner call to a fresh name.
    let mut gen = anf::Gensym::new();
    let l = list(vec![sym("f"), list(vec![sym("g"), sym("x")])]);
    let e = ast::Expr::from_value(l).expect("a call");
    let lowered = anf::convert_expr(&e, &mut gen);
    match lowered {
        anf::Expr::Let(name, bound, body) => {
            assert_eq!(name, "gensym@0");
            match *bound {
                anf::Expr::CExpr(anf::CExpr::Call(anf::AExpr::Var(g), args)) => {
                    assert_eq!(g, "g");
                    assert_eq!(args, vec![anf::AExpr::Var("x".to_string())]);
                }
                other => panic!("unexpected bound expression: {:?}", other),
            }
            match *body {
                anf::Expr::CExpr(anf::CExpr::Call(anf::AExpr::Var(f), args)) => {
                    assert_eq!(f, "f");
                    assert_eq!(args, vec![anf::AExpr::Var("gensym@0".to_string())]);
                }
                other => panic!("unexpected body expression: {:?}", other),
            }
        }
        other => panic!("expected a let, got {:?}", other),
    }
}

#[test]
fn module_recognizes_imports_and_attrs() {
    let lits = vec![
        list(vec![
            sym("module"),
            sym("m"),
            Literal::Vector(vec![sym("x")]),
            sym("no-prelude"),
        ]),
        list(vec![sym("import"), sym("lib"), sym("a"), sym("b")]),
        list(vec![sym("intrinsics:def"), sym("x"), Literal::Fixnum(1)]),
    ];
    let m = ast::Module::from_values("m", lits).expect("a module");
    assert_eq!(m.name, "m");
    assert_eq!(m.exports, vec!["x".to_string()]);
    assert_eq!(
        m.imports,
        vec![
            ("lib".to_string(), "a".to_string()),
            ("lib".to_string(), "b".to_string()),
        ]
    );
    assert_eq!(m.attrs, vec![ast::Attr::NoPrelude]);
    assert_eq!(m.body.len(), 1);
}

#[test]
fn module_without_module_form_is_rejected() {
    match ast::Module::from_values("p", vec![sym("nope")]) {
        Err(oftb::ErrorKind::NoModuleForm(p)) => assert_eq!(p, "p"),
        other => panic!("expected NoModuleForm, got {:?}", other),
    }
}

#[test]
fn unknown_attr_is_rejected() {
    let lits = vec![list(vec![
        sym("module"),
        sym("m"),
        Literal::Vector(vec![]),
        sym("mystery"),
    ])];
    match ast::Module::from_values("m", lits) {
        Err(oftb::ErrorKind::UnknownAttr(m, _)) => assert_eq!(m, "m"),
        other => panic!("expected UnknownAttr, got {:?}", other),
    }
}

#[test]
fn binary_metadata_roundtrips() {
    let items = vec![
        list(vec![sym("name"), Literal::String("foo".to_string())]),
        list(vec![sym("path"), Literal::String("src/main.oft".to_string())]),
    ];
    let m = BinaryComponentMetadata::from_literals(items).expect("valid metadata");
    assert_eq!(m.name, "foo");
    assert_eq!(m.path, "src/main.oft");
    let lit = BinaryComponentMetadata {
        name: "foo".to_string(),
        path: "src/main.oft".to_string(),
    }
    .to_literal();
    let again = BinaryComponentMetadata::from_literals(lit.as_list().unwrap())
        .expect("roundtripped metadata");
    assert_eq!(again.name, "foo");
    assert_eq!(again.path, "src/main.oft");
}

#[test]
fn components_metadata_rejects_duplicate_library() {
    let items = vec![
        list(vec![sym("library")]),
        list(vec![sym("library")]),
    ];
    match ComponentsMetadata::from_literals(items) {
        Err(oftb::ErrorKind::DuplicateField(f)) => assert_eq!(f, "library"),
        other => panic!("expected DuplicateField, got {:?}", other),
    }
    assert_eq!(LibraryComponentMetadata::from_literals(vec![]).unwrap(), LibraryComponentMetadata);
}

#[test]
fn prelude_injection_respects_opt_out() {
    let plain = anf::Module {
        name: "m".to_string(),
        exports: vec![],
        imports: vec![],
        body: vec![],
        attrs: vec![],
    };
    let optout = anf::Module {
        name: "n".to_string(),
        exports: vec![],
        imports: vec![],
        body: vec![],
        attrs: vec![ast::Attr::NoPrelude],
    };
    let exports = vec!["map".to_string(), "filter".to_string()];
    let out = oftb::modules::inject_prelude(vec![plain, optout], &exports);
    assert_eq!(
        out[0].imports,
        vec![
            ("std/prelude".to_string(), "map".to_string()),
            ("std/prelude".to_string(), "filter".to_string()),
        ]
    );
    assert!(out[1].imports.is_empty());
}

#[test]
fn exports_and_imports_deduplicate() {
    let lits = vec![
        list(vec![
            sym("module"),
            sym("m"),
            Literal::Vector(vec![sym("x"), sym("y"), sym("x")]),
        ]),
        list(vec![sym("import"), sym("lib"), sym("a"), sym("a"), sym("b")]),
        list(vec![sym("intrinsics:def"), sym("x"), Literal::Fixnum(1)]),
        list(vec![sym("intrinsics:def"), sym("y"), Literal::Fixnum(2)]),
    ];
    let m = ast::Module::from_values("m", lits).expect("a module");
    assert_eq!(m.exports, vec!["x".to_string(), "y".to_string()]);
    assert_eq!(
        m.imports,
        vec![
            ("lib".to_string(), "a".to_string()),
            ("lib".to_string(), "b".to_string()),
        ]
    );
}

#[test]
fn import_run_stops_at_first_declaration() {
    // Import forms are consumed contiguously from the front; a later
    // import-shaped literal is a declaration position and is rejected
    // there.
    let lits = vec![
        list(vec![sym("module"), sym("m"), Literal::Vector(vec![])]),
        list(vec![sym("intrinsics:def"), sym("x"), Literal::Fixnum(1)]),
        list(vec![sym("import"), sym("lib"), sym("a")]),
    ];
    assert!(ast::Module::from_values("m", lits).is_err());
}

#[test]
fn display_boundary_characters() {
    assert_eq!(escape_str("\u{1f}"), "\"\\x1f\"");
    assert_eq!(escape_str("\u{20}"), "\" \"");
    assert_eq!(escape_str("\u{7e}"), "\"~\"");
    assert_eq!(escape_str("\u{7f}"), "\"\\x7f\"");
    assert_eq!(Literal::Fixnum(i64::MIN).display(), "-9223372036854775808");
    assert_eq!(Literal::Fixnum(i64::MAX).display(), "9223372036854775807");
}
