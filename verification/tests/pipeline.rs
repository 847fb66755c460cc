//! End-to-end runs through the whole pipeline: literals to AST to ANF to a
//! linked program, executed by the machine with a tiny host registry.

use oftb::anf;
use oftb::ast;
use oftb::error::ErrorKind;
use oftb::flatanf::convert::from_modules;
use oftb::flatanf::{AExpr, CExpr, Expr, Program};
use oftb::interpreter::value::{Intrinsic, Value};
use oftb::interpreter::{Interpreter, State};

use oftb::Literal;

fn sym(s: &str) -> Literal {
    Literal::Symbol(s.to_string())
}

fn num(n: i64) -> Literal {
    Literal::Fixnum(n)
}

fn list(items: Vec<Literal>) -> Literal {
    Literal::list(items)
}

fn module_form(name: &str, exports: Vec<&str>) -> Literal {
    let mut items = vec![sym("module"), sym(name)];
    items.push(Literal::Vector(exports.into_iter().map(sym).collect()));
    list(items)
}

fn compile_modules(sources: Vec<Vec<Literal>>) -> Result<Program, ErrorKind> {
    let mut gen = anf::Gensym::new();
    let mut mods = Vec::new();
    for lits in sources {
        let m = ast::Module::from_values("test", lits).expect("module should parse");
        mods.push(anf::Module::convert(m, &mut gen));
    }
    let builtins = vec![(
        "intrinsics:math".to_string(),
        vec!["add".to_string(), "sub".to_string(), "eq".to_string()],
    )];
    from_modules(mods, &builtins)
}

fn run_program(program: &Program) -> Value {
    let mut interp = Interpreter::new();
    // Install the intrinsic values, then initialize the globals in
    // declaration order.
    for name in &program.intrinsics {
        interp.add_global(name.clone(), Value::Intrinsic(Intrinsic(name.clone())));
    }
    for i in 0..program.decls.len() {
        let name = program.decls[i].0.clone();
        let expr = program.decls[i].1.duplicate();
        let v = drive(&mut interp, &expr);
        interp.add_global(name, v);
    }
    let main_call = Expr::CExpr(CExpr::Call(
        AExpr::Global("main:main".to_string()),
        vec![AExpr::Literal(Literal::Nil)],
    ));
    drive(&mut interp, &main_call)
}

/// Runs an expression to completion, serving the arithmetic intrinsics.
fn drive(interp: &mut Interpreter, expr: &Expr) -> Value {
    interp.load_expr(expr);
    loop {
        interp.run(1_000_000);
        let (name, a, b) = match &interp.state {
            State::Halted(_) => {
                let v = match std::mem::replace(&mut interp.state, State::Halted(Value::Nil)) {
                    State::Halted(v) => v,
                    _ => unreachable!(),
                };
                return v;
            }
            State::Intrinsic(name, args, _) => {
                assert_eq!(args.len(), 2, "math intrinsics take two arguments");
                let a = match &args[0] {
                    Value::Fixnum(n) => *n,
                    other => panic!("not a fixnum: {:?}", other),
                };
                let b = match &args[1] {
                    Value::Fixnum(n) => *n,
                    other => panic!("not a fixnum: {:?}", other),
                };
                (name.clone(), a, b)
            }
            other => panic!("machine stopped unexpectedly: {:?}", other),
        };
        let result = match name.as_str() {
            "intrinsics:math:add" => Value::Fixnum(a + b),
            "intrinsics:math:sub" => Value::Fixnum(a - b),
            "intrinsics:math:eq" => {
                if a == b {
                    Value::Symbol("true".to_string())
                } else {
                    Value::Nil
                }
            }
            other => panic!("unknown intrinsic: {}", other),
        };
        interp.resume_with_value(result);
    }
}

#[test]
fn arithmetic_main_returns_five() {
    let main_mod = vec![
        module_form("main", vec!["main"]),
        list(vec![
            sym("intrinsics:defn"),
            sym("main"),
            list(vec![sym("args")]),
            list(vec![sym("intrinsics:math:add"), num(2), num(3)]),
        ]),
    ];
    let program = compile_modules(vec![main_mod]).expect("should link");
    let result = run_program(&program);
    assert_eq!(result, Value::Fixnum(5));
}

fn even_odd_main(arg: i64) -> Vec<Literal> {
    // A block with two contiguous defns referring to each other.
    vec![
        module_form("main", vec!["main"]),
        list(vec![
            sym("intrinsics:defn"),
            sym("main"),
            list(vec![sym("args")]),
            list(vec![
                sym("progn"),
                list(vec![
                    sym("intrinsics:defn"),
                    sym("even?"),
                    list(vec![sym("n")]),
                    list(vec![
                        sym("if"),
                        list(vec![sym("intrinsics:math:eq"), sym("n"), num(0)]),
                        list(vec![sym("quote"), sym("true")]),
                        list(vec![
                            sym("odd?"),
                            list(vec![sym("intrinsics:math:sub"), sym("n"), num(1)]),
                        ]),
                    ]),
                ]),
                list(vec![
                    sym("intrinsics:defn"),
                    sym("odd?"),
                    list(vec![sym("n")]),
                    list(vec![
                        sym("if"),
                        list(vec![sym("intrinsics:math:eq"), sym("n"), num(0)]),
                        list(vec![sym("quote"), Literal::Nil]),
                        list(vec![
                            sym("even?"),
                            list(vec![sym("intrinsics:math:sub"), sym("n"), num(1)]),
                        ]),
                    ]),
                ]),
                list(vec![sym("even?"), num(arg)]),
            ]),
        ]),
    ]
}

#[test]
fn mutual_recursion_even_ten() {
    let program = compile_modules(vec![even_odd_main(10)]).expect("should link");
    assert_eq!(run_program(&program), Value::Symbol("true".to_string()));
}

#[test]
fn mutual_recursion_even_seven() {
    let program = compile_modules(vec![even_odd_main(7)]).expect("should link");
    assert_eq!(run_program(&program), Value::Nil);
}

#[test]
fn closure_capture_survives_return() {
    let main_mod = vec![
        module_form("main", vec!["main"]),
        list(vec![
            sym("intrinsics:defn"),
            sym("make-adder"),
            list(vec![sym("n")]),
            list(vec![
                sym("intrinsics:fn"),
                list(vec![sym("x")]),
                list(vec![sym("intrinsics:math:add"), sym("x"), sym("n")]),
            ]),
        ]),
        list(vec![
            sym("intrinsics:defn"),
            sym("main"),
            list(vec![sym("args")]),
            list(vec![list(vec![sym("make-adder"), num(3)]), num(4)]),
        ]),
    ];
    let program = compile_modules(vec![main_mod]).expect("should link");
    assert_eq!(run_program(&program), Value::Fixnum(7));
}

#[test]
fn letrec_rejects_variable_alias() {
    // A letrec whose right-hand sides are bare variables aliasing each
    // other must be rejected by the linker.
    let body = anf::Expr::CExpr(anf::CExpr::LetRec(
        vec![
            ("x".to_string(), anf::AExpr::Var("y".to_string())),
            ("y".to_string(), anf::AExpr::Var("x".to_string())),
        ],
        Box::new(anf::Expr::AExpr(anf::AExpr::Literal(Literal::Nil))),
    ));
    let m = anf::Module {
        name: "main".to_string(),
        exports: vec!["main".to_string()],
        imports: vec![],
        body: vec![anf::Decl::Defn("main".to_string(), vec!["args".to_string()], body)],
        attrs: vec![],
    };
    let r = from_modules(vec![m], &vec![]);
    match r {
        Err(ErrorKind::VarInLetrec(binder, referent)) => {
            assert_eq!(binder, "x");
            assert_eq!(referent, "y");
        }
        other => panic!("expected VarInLetrec, got {:?}", other),
    }
}

#[test]
fn letrec_rejects_non_lambda_binding() {
    // A letrec whose right-hand side is neither a lambda nor a variable
    // (here a bare literal) is rejected with its own error kind.
    let body = anf::Expr::CExpr(anf::CExpr::LetRec(
        vec![("x".to_string(), anf::AExpr::Literal(Literal::Fixnum(1)))],
        Box::new(anf::Expr::AExpr(anf::AExpr::Literal(Literal::Nil))),
    ));
    let m = anf::Module {
        name: "main".to_string(),
        exports: vec!["main".to_string()],
        imports: vec![],
        body: vec![anf::Decl::Defn("main".to_string(), vec!["args".to_string()], body)],
        attrs: vec![],
    };
    let r = from_modules(vec![m], &vec![]);
    match r {
        Err(ErrorKind::NonLambdaInLetrec(binder)) => {
            assert_eq!(binder, "x");
        }
        other => panic!("expected NonLambdaInLetrec, got {:?}", other),
    }
}

#[test]
fn missing_export_is_rejected() {
    // A module exporting a name that is not defined yields MissingExport,
    // and the linker does not produce a program.
    let main_mod = vec![module_form("main", vec!["main"])];
    let r = compile_modules(vec![main_mod]);
    match r {
        Err(ErrorKind::MissingExport(module, name)) => {
            assert_eq!(module, "main");
            assert_eq!(name, "main:main");
        }
        other => panic!("expected MissingExport, got {:?}", other),
    }
}

#[test]
fn unknown_import_is_rejected() {
    let main_mod = vec![
        module_form("main", vec!["main"]),
        list(vec![sym("import"), sym("nowhere"), sym("thing")]),
        list(vec![
            sym("intrinsics:defn"),
            sym("main"),
            list(vec![sym("args")]),
            Literal::Fixnum(1),
        ]),
    ];
    let r = compile_modules(vec![main_mod]);
    match r {
        Err(ErrorKind::NonexistentModule(m)) => assert_eq!(m, "nowhere"),
        other => panic!("expected NonexistentModule, got {:?}", other),
    }
}

#[test]
fn unresolved_variable_is_rejected() {
    let main_mod = vec![
        module_form("main", vec!["main"]),
        list(vec![
            sym("intrinsics:defn"),
            sym("main"),
            list(vec![sym("args")]),
            sym("nonesuch"),
        ]),
    ];
    let r = compile_modules(vec![main_mod]);
    match r {
        Err(ErrorKind::NoSuchVar(v)) => assert_eq!(v, "nonesuch"),
        other => panic!("expected NoSuchVar, got {:?}", other),
    }
}

#[test]
fn sanity_checks_accept_linked_program() {
    let program = compile_modules(vec![even_odd_main(4)]).expect("should link");
    assert!(oftb::sanity::locals_valid(&program));
    assert!(oftb::sanity::check(&program).is_ok());
}

#[test]
fn main_exists_rejects_program_without_main() {
    let lib_mod = vec![
        module_form("lib", vec!["one"]),
        list(vec![sym("intrinsics:def"), sym("one"), num(1)]),
    ];
    let program = compile_modules(vec![lib_mod]).expect("should link");
    match oftb::sanity::main_exists(&program) {
        Err(ErrorKind::NoMainFunction) => {}
        other => panic!("expected NoMainFunction, got {:?}", other),
    }
}

#[test]
fn qualified_variables_bypass_scope() {
    // A variable whose textual form contains `:` is an already-qualified
    // global reference and skips local lookup entirely.
    let main_mod = vec![
        module_form("main", vec!["main"]),
        list(vec![
            sym("intrinsics:defn"),
            sym("helper"),
            list(vec![sym("x")]),
            sym("x"),
        ]),
        list(vec![
            sym("intrinsics:defn"),
            sym("main"),
            list(vec![sym("args")]),
            list(vec![sym("main:helper"), num(11)]),
        ]),
    ];
    let program = compile_modules(vec![main_mod]).expect("should link");
    assert_eq!(run_program(&program), Value::Fixnum(11));
}

#[test]
fn def_values_are_visible_to_later_decls() {
    let main_mod = vec![
        module_form("main", vec!["main"]),
        list(vec![sym("intrinsics:def"), sym("base"), num(40)]),
        list(vec![
            sym("intrinsics:defn"),
            sym("main"),
            list(vec![sym("args")]),
            list(vec![sym("intrinsics:math:add"), sym("base"), num(2)]),
        ]),
    ];
    let program = compile_modules(vec![main_mod]).expect("should link");
    assert_eq!(run_program(&program), Value::Fixnum(42));
}

#[test]
fn local_indices_of_linked_programs_are_in_scope() {
    // Every program the linker emits satisfies the de Bruijn validity
    // check, as its contract states.
    for arg in [0, 3] {
        let program = compile_modules(vec![even_odd_main(arg)]).expect("should link");
        assert!(oftb::sanity::locals_valid(&program));
    }
}

#[test]
fn duplicate_letrec_binders_are_rejected() {
    // Two defns of the same name in one block form a letrec with a
    // repeated binder, which the linker rejects.
    let main_mod = vec![
        module_form("main", vec!["main"]),
        list(vec![
            sym("intrinsics:defn"),
            sym("main"),
            list(vec![sym("args")]),
            list(vec![
                sym("progn"),
                list(vec![sym("intrinsics:defn"), sym("f"), list(vec![sym("x")]), sym("x")]),
                list(vec![sym("intrinsics:defn"), sym("f"), list(vec![sym("y")]), sym("y")]),
                num(1),
            ]),
        ]),
    ];
    let r = compile_modules(vec![main_mod]);
    match r {
        Err(ErrorKind::DuplicateLetrecName(n)) => assert_eq!(n, "f"),
        other => panic!("expected DuplicateLetrecName, got {:?}", other),
    }
}

#[test]
fn duplicate_decl_names_are_rejected() {
    let main_mod = vec![
        module_form("main", vec!["main"]),
        list(vec![sym("intrinsics:def"), sym("x"), num(1)]),
        list(vec![sym("intrinsics:def"), sym("x"), num(2)]),
        list(vec![
            sym("intrinsics:defn"),
            sym("main"),
            list(vec![sym("args")]),
            sym("x"),
        ]),
    ];
    let r = compile_modules(vec![main_mod]);
    match r {
        Err(ErrorKind::DuplicateDeclName(n)) => assert_eq!(n, "x"),
        other => panic!("expected DuplicateDeclName, got {:?}", other),
    }
}

#[test]
fn colon_decl_names_are_rejected() {
    // A declaration name holding a colon would collide with qualified
    // global names, so it is reserved.
    let main_mod = vec![
        module_form("main", vec!["main"]),
        list(vec![sym("intrinsics:def"), sym("odd:name"), num(1)]),
        list(vec![
            sym("intrinsics:defn"),
            sym("main"),
            list(vec![sym("args")]),
            num(1),
        ]),
    ];
    let r = compile_modules(vec![main_mod]);
    match r {
        Err(ErrorKind::IllegalDeclName(n)) => assert_eq!(n, "odd:name"),
        other => panic!("expected IllegalDeclName, got {:?}", other),
    }
}

#[test]
fn qualified_reference_to_nothing_is_free() {
    // A colon-qualified variable bypasses scope checks, but the linker's
    // free-variable sanity still rejects it when nothing declares it.
    let main_mod = vec![
        module_form("main", vec!["main"]),
        list(vec![
            sym("intrinsics:defn"),
            sym("main"),
            list(vec![sym("args")]),
            sym("nowhere:thing"),
        ]),
    ];
    let r = compile_modules(vec![main_mod]);
    match r {
        Err(ErrorKind::FreeVars(vs)) => assert_eq!(vs, vec!["nowhere:thing".to_string()]),
        other => panic!("expected FreeVars, got {:?}", other),
    }
}

#[test]
fn eval_runs_out_of_fuel_gracefully() {
    // An unbounded loop stays Running when the fuel is spent.
    let body = anf::Expr::CExpr(anf::CExpr::LetRec(
        vec![(
            "spin".to_string(),
            anf::AExpr::Lambda(
                None,
                vec!["x".to_string()],
                Box::new(anf::Expr::CExpr(anf::CExpr::Call(
                    anf::AExpr::Var("spin".to_string()),
                    vec![anf::AExpr::Var("x".to_string())],
                ))),
            ),
        )],
        Box::new(anf::Expr::CExpr(anf::CExpr::Call(
            anf::AExpr::Var("spin".to_string()),
            vec![anf::AExpr::Literal(Literal::Nil)],
        ))),
    ));
    let m = anf::Module {
        name: "main".to_string(),
        exports: vec!["main".to_string()],
        imports: vec![],
        body: vec![anf::Decl::Defn("main".to_string(), vec!["args".to_string()], body)],
        attrs: vec![],
    };
    let program = from_modules(vec![m], &vec![]).expect("should link");
    let mut interp = Interpreter::new();
    let expr = program.decls[0].1.duplicate();
    let v = interp.eval(&expr, 1_000).expect("a lambda halts at once");
    interp.add_global("main:main".to_string(), v);
    let call = Expr::CExpr(CExpr::Call(
        AExpr::Global("main:main".to_string()),
        vec![AExpr::Literal(Literal::Nil)],
    ));
    assert!(interp.eval(&call, 10_000).is_none());
    assert!(matches!(interp.state, State::Running(_, _, _)));
}
