//! The bytecode codec: serialized programs come back unchanged, and
//! deserialized bytes re-serialize exactly.

use oftb::anf;
use oftb::ast;
use oftb::interpreter::value::{Intrinsic, Value};
use oftb::interpreter::{Interpreter, State};
use oftb::flatanf::convert::from_modules;
use oftb::flatanf::{AExpr, CExpr, Expr, Program};
use oftb::Literal;

fn sym(s: &str) -> Literal {
    Literal::Symbol(s.to_string())
}

fn list(items: Vec<Literal>) -> Literal {
    Literal::list(items)
}

fn two_module_program() -> Program {
    let mut gen = anf::Gensym::new();
    let lib = vec![
        list(vec![
            sym("module"),
            sym("lib"),
            Literal::Vector(vec![sym("double")]),
        ]),
        list(vec![
            sym("intrinsics:defn"),
            sym("double"),
            list(vec![sym("n")]),
            list(vec![sym("intrinsics:math:add"), sym("n"), sym("n")]),
        ]),
    ];
    let main = vec![
        list(vec![
            sym("module"),
            sym("main"),
            Literal::Vector(vec![sym("main")]),
        ]),
        list(vec![sym("import"), sym("lib"), sym("double")]),
        list(vec![
            sym("intrinsics:defn"),
            sym("main"),
            list(vec![sym("args")]),
            list(vec![sym("double"), Literal::Fixnum(21)]),
        ]),
    ];
    let mut mods = Vec::new();
    for lits in [lib, main] {
        let m = ast::Module::from_values("test", lits).expect("module should parse");
        mods.push(anf::Module::convert(m, &mut gen));
    }
    let builtins = vec![("intrinsics:math".to_string(), vec!["add".to_string()])];
    from_modules(mods, &builtins).expect("should link")
}

#[test]
fn program_roundtrips_through_bytes() {
    let program = two_module_program();
    let mut bytes = Vec::new();
    program.serialize_to(&mut bytes);
    let (back, used) = Program::deserialize_from(&bytes).expect("should deserialize");
    assert_eq!(used, bytes.len());
    assert_eq!(back, program);

    // And the bytes themselves round-trip: re-serializing what was read
    // reproduces the input exactly.
    let mut again = Vec::new();
    back.serialize_to(&mut again);
    assert_eq!(again, bytes);
}

#[test]
fn deserialized_program_executes_like_the_original() {
    // Compile a two-module program to bytes, deserialize, execute; the
    // result equals the direct in-memory run.
    let program = two_module_program();
    let mut bytes = Vec::new();
    program.serialize_to(&mut bytes);
    let (back, _) = Program::deserialize_from(&bytes).expect("should deserialize");

    let direct = run(&program);
    let via_bytes = run(&back);
    assert_eq!(direct, via_bytes);
    assert_eq!(direct, Value::Fixnum(42));
}

fn run(program: &Program) -> Value {
    let mut interp = Interpreter::new();
    for name in &program.intrinsics {
        interp.add_global(name.clone(), Value::Intrinsic(Intrinsic(name.clone())));
    }
    for i in 0..program.decls.len() {
        let name = program.decls[i].0.clone();
        let expr = program.decls[i].1.duplicate();
        let v = drive(&mut interp, &expr);
        interp.add_global(name, v);
    }
    let main_call = Expr::CExpr(CExpr::Call(
        AExpr::Global("main:main".to_string()),
        vec![AExpr::Literal(Literal::Nil)],
    ));
    drive(&mut interp, &main_call)
}

fn drive(interp: &mut Interpreter, expr: &Expr) -> Value {
    interp.load_expr(expr);
    loop {
        interp.run(1_000_000);
        let (a, b) = match &interp.state {
            State::Halted(_) => {
                let v = match std::mem::replace(&mut interp.state, State::Halted(Value::Nil)) {
                    State::Halted(v) => v,
                    _ => unreachable!(),
                };
                return v;
            }
            State::Intrinsic(name, args, _) => {
                assert_eq!(name, "intrinsics:math:add");
                let a = match &args[0] {
                    Value::Fixnum(n) => *n,
                    other => panic!("not a fixnum: {:?}", other),
                };
                let b = match &args[1] {
                    Value::Fixnum(n) => *n,
                    other => panic!("not a fixnum: {:?}", other),
                };
                (a, b)
            }
            other => panic!("machine stopped unexpectedly: {:?}", other),
        };
        interp.resume_with_value(Value::Fixnum(a + b));
    }
}

#[test]
fn malformed_bytes_are_rejected() {
    // Bad magic.
    assert!(Program::deserialize_from(b"nope").is_err());
    // Truncated input.
    assert!(Program::deserialize_from(b"ofta").is_err());
    // A truncated program.
    let program = two_module_program();
    let mut bytes = Vec::new();
    program.serialize_to(&mut bytes);
    bytes.pop();
    assert!(Program::deserialize_from(&bytes).is_err());
    // An expression with an unknown discriminant.
    let mut small = Vec::new();
    Program { intrinsics: vec![], decls: vec![("main:main".to_string(), Expr::AExpr(AExpr::Local(0)))] }
        .serialize_to(&mut small);
    let disc = small.len() - 9;
    assert_eq!(small[disc], 0x08);
    small[disc] = 0xfe;
    assert!(Program::deserialize_from(&small).is_err());
}

#[test]
fn literal_encodings_are_byte_exact() {
    // A fixnum literal: decl expr `Literal(Fixnum(-1))`.
    let program = Program {
        intrinsics: vec![],
        decls: vec![("main:main".to_string(), Expr::AExpr(AExpr::Literal(Literal::Fixnum(-1))))],
    };
    let mut bytes = Vec::new();
    program.serialize_to(&mut bytes);
    let mut expected = Vec::new();
    expected.extend_from_slice(b"ofta");
    expected.extend_from_slice(&0u64.to_le_bytes());
    expected.extend_from_slice(&1u64.to_le_bytes());
    expected.extend_from_slice(&9u64.to_le_bytes());
    expected.extend_from_slice(b"main:main");
    expected.push(0x07); // an atomic literal expression
    expected.push(0x03); // a fixnum
    expected.extend_from_slice(&(-1i64 as u64).to_le_bytes());
    assert_eq!(bytes, expected);
}

#[test]
fn trailing_bytes_are_left_unread() {
    let program = two_module_program();
    let mut bytes = Vec::new();
    program.serialize_to(&mut bytes);
    let len = bytes.len();
    bytes.extend_from_slice(b"extra");
    let (back, used) = Program::deserialize_from(&bytes).expect("should deserialize");
    assert_eq!(used, len);
    assert_eq!(back, program);
}
