use agentc::ast::{AgentDef, BinOp, Expr, Field, Handler, Program, StateVar, Stmt, Type, TypeDef, Variant};
use agentc::bytecode::{compile, CompileError, Instruction, Value};
use agentc::typechecker::{typecheck, TypeError};

fn var(n: &str) -> Expr {
    Expr::Var(n.to_string())
}

fn bin(op: BinOp, l: Expr, r: Expr) -> Expr {
    Expr::BinOp { op, left: Box::new(l), right: Box::new(r) }
}

fn state(name: &str, ty: Type, init: Expr) -> StateVar {
    StateVar { name: name.to_string(), ty, init }
}

fn assign(target: &str, value: Expr) -> Stmt {
    Stmt::Assign { target: target.to_string(), value }
}

fn handler(variant: &str, params: &[&str], body: Vec<Stmt>) -> Handler {
    Handler {
        variant: variant.to_string(),
        params: params.iter().map(|p| p.to_string()).collect(),
        body,
    }
}

fn counter_program() -> Program {
    Program {
        types: vec![TypeDef {
            name: "CounterMsg".to_string(),
            variants: vec![Variant {
                name: "Bump".to_string(),
                fields: vec![Field { name: "by".to_string(), ty: Type::Int }],
            }],
        }],
        agents: vec![AgentDef {
            name: "Counter".to_string(),
            state: vec![state("n", Type::Int, Expr::Int(0))],
            handlers: vec![handler("Bump", &["by"], vec![assign("n", bin(BinOp::Add, var("n"), var("by")))])],
        }],
    }
}

#[test]
fn typecheck_accepts_counter() {
    assert_eq!(typecheck(&counter_program()), Ok(()));
}

#[test]
fn typecheck_twice_gives_same_verdict() {
    let p = counter_program();
    let first = typecheck(&p);
    let second = typecheck(&p);
    assert_eq!(first, Ok(()));
    assert_eq!(first, second);
    let mut bad = counter_program();
    bad.agents[0].handlers[0].body.push(assign("missing", Expr::Int(1)));
    assert_eq!(typecheck(&bad), typecheck(&bad));
}

#[test]
fn typecheck_undefined_assign_target() {
    let mut p = counter_program();
    p.agents[0].handlers[0].body = vec![assign("x", Expr::Int(1))];
    assert_eq!(typecheck(&p), Err(TypeError::UndefinedVariable("x".to_string())));
}

#[test]
fn typecheck_undefined_variable_in_expression() {
    let mut p = counter_program();
    p.agents[0].handlers[0].body = vec![assign("n", var("y"))];
    assert_eq!(typecheck(&p), Err(TypeError::UndefinedVariable("y".to_string())));
}

#[test]
fn typecheck_duplicate_type() {
    let mut p = counter_program();
    p.types.push(TypeDef { name: "CounterMsg".to_string(), variants: vec![] });
    assert_eq!(typecheck(&p), Err(TypeError::DuplicateType("CounterMsg".to_string())));
}

#[test]
fn typecheck_assign_type_mismatch() {
    let mut p = counter_program();
    p.agents[0].handlers[0].body = vec![assign("n", Expr::Str("s".to_string()))];
    assert_eq!(typecheck(&p), Err(TypeError::TypeMismatch));
}

#[test]
fn typecheck_arith_needs_ints() {
    let mut p = counter_program();
    p.agents[0].handlers[0].body = vec![assign("n", bin(BinOp::Add, Expr::Bool(true), Expr::Int(1)))];
    assert_eq!(typecheck(&p), Err(TypeError::TypeMismatch));
}

#[test]
fn typecheck_comparison_yields_bool() {
    let mut p = counter_program();
    p.agents[0].state.push(state("flag", Type::Bool, Expr::Bool(false)));
    p.agents[0].handlers[0].body = vec![assign("flag", bin(BinOp::Lt, var("n"), Expr::Int(3)))];
    assert_eq!(typecheck(&p), Ok(()));
}

fn send_program(args: Vec<Expr>, variant: &str) -> Program {
    let mut p = counter_program();
    p.agents[0].state.push(state("peer", Type::Ref("CounterMsg".to_string()), Expr::Int(0)));
    p.agents[0].handlers[0].body = vec![Stmt::Send { target: var("peer"), msg_variant: variant.to_string(), args }];
    p
}

#[test]
fn typecheck_send_checks_variant_and_arguments() {
    assert_eq!(typecheck(&send_program(vec![Expr::Int(1)], "Bump")), Ok(()));
    assert_eq!(typecheck(&send_program(vec![Expr::Int(1)], "Reset")), Err(TypeError::UnknownVariant));
    assert_eq!(typecheck(&send_program(vec![], "Bump")), Err(TypeError::ArityMismatch));
    assert_eq!(
        typecheck(&send_program(vec![Expr::Str("x".to_string())], "Bump")),
        Err(TypeError::TypeMismatch)
    );
}

#[test]
fn typecheck_send_to_non_reference() {
    let mut p = counter_program();
    p.agents[0].handlers[0].body =
        vec![Stmt::Send { target: var("n"), msg_variant: "Bump".to_string(), args: vec![Expr::Int(1)] }];
    assert_eq!(typecheck(&p), Err(TypeError::TypeMismatch));
}

#[test]
fn typecheck_field_access_uses_field_type() {
    let mut p = counter_program();
    p.types.push(TypeDef {
        name: "Point".to_string(),
        variants: vec![Variant {
            name: "P".to_string(),
            fields: vec![
                Field { name: "x".to_string(), ty: Type::Int },
                Field { name: "label".to_string(), ty: Type::String },
            ],
        }],
    });
    p.agents[0].state.push(state("pt", Type::Named("Point".to_string()), Expr::Int(0)));
    p.agents[0].state.push(state("text", Type::String, Expr::Str(String::new())));
    let access = |f: &str| Expr::FieldAccess { obj: Box::new(var("pt")), field: f.to_string() };
    p.agents[0].handlers[0].body = vec![assign("n", access("x")), assign("text", access("label"))];
    assert_eq!(typecheck(&p), Ok(()));
    p.agents[0].handlers[0].body = vec![assign("n", access("label"))];
    assert_eq!(typecheck(&p), Err(TypeError::TypeMismatch));
    p.agents[0].handlers[0].body = vec![assign("n", access("nope"))];
    assert_eq!(typecheck(&p), Err(TypeError::TypeMismatch));
}

#[test]
fn typecheck_effects_are_not_checked() {
    let mut p = counter_program();
    p.agents[0].handlers[0].body = vec![Stmt::Effect { name: "anything".to_string(), args: vec![var("n")] }];
    assert_eq!(typecheck(&p), Ok(()));
}

#[test]
fn compile_lowers_in_source_order() {
    let b = compile(&counter_program()).unwrap();
    assert_eq!(b.agents.len(), 1);
    let a = &b.agents[0];
    assert_eq!(a.name, "Counter");
    assert_eq!(a.state_init, vec![("n".to_string(), Value::Int(0))]);
    assert_eq!(a.handlers[0].variant, "Bump");
    assert_eq!(a.handlers[0].params, vec!["by".to_string()]);
    assert_eq!(
        a.handlers[0].instructions,
        vec![
            Instruction::LoadVar("n".to_string()),
            Instruction::LoadVar("by".to_string()),
            Instruction::BinOp(BinOp::Add),
            Instruction::Store("n".to_string()),
        ]
    );
}

#[test]
fn compile_send_and_effect() {
    let mut p = send_program(vec![Expr::Int(7), Expr::Str("a".to_string())], "Bump");
    p.agents[0].handlers[0].body.push(Stmt::Effect { name: "log".to_string(), args: vec![var("n"), Expr::Bool(true)] });
    let b = compile(&p).unwrap();
    assert_eq!(
        b.agents[0].handlers[0].instructions,
        vec![
            Instruction::LoadConst(Value::Int(7)),
            Instruction::LoadConst(Value::Str("a".to_string())),
            Instruction::Send { target_var: "peer".to_string(), variant: "Bump".to_string(), arg_count: 2 },
            Instruction::LoadVar("n".to_string()),
            Instruction::LoadConst(Value::Bool(true)),
            Instruction::Effect { name: "log".to_string(), arg_count: 2 },
        ]
    );
}

#[test]
fn compile_field_access() {
    let mut p = counter_program();
    p.agents[0].handlers[0].body =
        vec![assign("n", Expr::FieldAccess { obj: Box::new(var("by")), field: "x".to_string() })];
    let b = compile(&p).unwrap();
    assert_eq!(
        b.agents[0].handlers[0].instructions,
        vec![
            Instruction::LoadVar("by".to_string()),
            Instruction::FieldAccess("x".to_string()),
            Instruction::Store("n".to_string()),
        ]
    );
}

#[test]
fn compile_rejects_non_constant_initializer() {
    let mut p = counter_program();
    p.agents[0].state.push(state("m", Type::Int, bin(BinOp::Add, Expr::Int(1), Expr::Int(2))));
    assert_eq!(compile(&p).err(), Some(CompileError::NonConstantInitializer));
    let mut q = counter_program();
    q.agents[0].state.push(state("m", Type::Int, var("n")));
    assert_eq!(compile(&q).err(), Some(CompileError::NonConstantInitializer));
}

#[test]
fn compile_twice_same_state_init() {
    let mut p = counter_program();
    p.agents[0].state.push(state("s", Type::String, Expr::Str("hi".to_string())));
    p.agents[0].state.push(state("b", Type::Bool, Expr::Bool(true)));
    let first = compile(&p).unwrap();
    let second = compile(&p).unwrap();
    assert_eq!(first.agents[0].state_init, second.agents[0].state_init);
    assert_eq!(
        first.agents[0].state_init,
        vec![
            ("n".to_string(), Value::Int(0)),
            ("s".to_string(), Value::Str("hi".to_string())),
            ("b".to_string(), Value::Bool(true)),
        ]
    );
}

#[test]
fn typecheck_compares_equal_types() {
    let mut p = counter_program();
    p.types.push(TypeDef { name: "Point".to_string(), variants: vec![] });
    p.agents[0].state.push(state("flag", Type::Bool, Expr::Bool(false)));
    p.agents[0].state.push(state("pt", Type::Named("Point".to_string()), Expr::Int(0)));
    p.agents[0].state.push(state("label", Type::String, Expr::Str(String::new())));
    p.agents[0].handlers[0].body = vec![assign("flag", bin(BinOp::Eq, var("pt"), var("pt")))];
    assert_eq!(typecheck(&p), Ok(()));
    p.agents[0].handlers[0].body = vec![assign("flag", bin(BinOp::Lt, var("pt"), var("pt")))];
    assert_eq!(typecheck(&p), Ok(()));
    p.agents[0].handlers[0].body = vec![assign("flag", bin(BinOp::Lt, var("pt"), var("label")))];
    assert_eq!(typecheck(&p), Err(TypeError::TypeMismatch));
    p.agents[0].handlers[0].body = vec![assign("flag", bin(BinOp::Gt, var("label"), var("label")))];
    assert_eq!(typecheck(&p), Ok(()));
}

fn holder_program(body: Vec<Stmt>) -> Program {
    let mut p = counter_program();
    p.types.push(TypeDef {
        name: "Holder".to_string(),
        variants: vec![Variant {
            name: "H".to_string(),
            fields: vec![Field { name: "peer".to_string(), ty: Type::Ref("CounterMsg".to_string()) }],
        }],
    });
    p.agents[0].state.push(state("h", Type::Named("Holder".to_string()), Expr::Int(0)));
    p.agents[0].handlers[0].body = body;
    p
}

fn send_via_field(variant: &str, args: Vec<Expr>) -> Stmt {
    Stmt::Send {
        target: Expr::FieldAccess { obj: Box::new(var("h")), field: "peer".to_string() },
        msg_variant: variant.to_string(),
        args,
    }
}

#[test]
fn typecheck_send_to_computed_target() {
    assert_eq!(typecheck(&holder_program(vec![send_via_field("Bump", vec![Expr::Int(1)])])), Ok(()));
    assert_eq!(
        typecheck(&holder_program(vec![send_via_field("Reset", vec![Expr::Int(1)])])),
        Err(TypeError::UnknownVariant)
    );
    assert_eq!(typecheck(&holder_program(vec![send_via_field("Bump", vec![])])), Err(TypeError::ArityMismatch));
}

#[test]
fn compile_send_to_computed_target() {
    let p = holder_program(vec![send_via_field("Bump", vec![Expr::Int(3)])]);
    let b = compile(&p).unwrap();
    assert_eq!(
        b.agents[0].handlers[0].instructions,
        vec![
            Instruction::LoadVar("h".to_string()),
            Instruction::FieldAccess("peer".to_string()),
            Instruction::LoadConst(Value::Int(3)),
            Instruction::SendRef { variant: "Bump".to_string(), arg_count: 1 },
        ]
    );
}
