use agentc::ast::BinOp;
use agentc::bytecode::{BytecodeAgent, BytecodeHandler, BytecodeProgram, FieldList, Instruction, Value};
use agentc::effects::{Capability, Effect, EffectContext, EffectError};
use agentc::interpreter::{eval_binop, execute_handler, value_to_string, ExecError};
use agentc::mailbox::{Mailbox, Message, RuntimeError};
use agentc::runtime::{execute, split_refused, StepReport};

fn s(x: &str) -> String {
    x.to_string()
}

fn handler(variant: &str, params: &[&str], instructions: Vec<Instruction>) -> BytecodeHandler {
    BytecodeHandler {
        variant: s(variant),
        params: params.iter().map(|p| s(p)).collect(),
        instructions,
    }
}

fn counter_agent() -> BytecodeAgent {
    BytecodeAgent {
        name: s("Counter"),
        state_init: vec![(s("n"), Value::Int(0))],
        handlers: vec![handler(
            "Bump",
            &["by"],
            vec![
                Instruction::LoadVar(s("n")),
                Instruction::LoadVar(s("by")),
                Instruction::BinOp(BinOp::Add),
                Instruction::Store(s("n")),
            ],
        )],
    }
}

fn bump(by: i64) -> Message {
    Message { variant: s("Bump"), args: vec![Value::Int(by)] }
}

#[test]
fn counter_bump_scenario() {
    let ctx = EffectContext::new();
    let mut rt = execute(BytecodeProgram { agents: vec![counter_agent()] }, 8);
    rt.post(0, bump(5)).unwrap();
    rt.post(0, bump(-2)).unwrap();
    assert!(matches!(rt.step(0, &ctx, &vec![]), StepReport::Done { .. }));
    assert!(matches!(rt.step(0, &ctx, &vec![]), StepReport::Done { .. }));
    assert!(matches!(rt.step(0, &ctx, &vec![]), StepReport::Idle));
    assert_eq!(rt.instance(0).state, vec![(s("n"), Value::Int(3))]);
}

fn tally_agent() -> BytecodeAgent {
    BytecodeAgent {
        name: s("Tally"),
        state_init: vec![(s("count"), Value::Int(0))],
        handlers: vec![handler(
            "Increment",
            &[],
            vec![
                Instruction::LoadVar(s("count")),
                Instruction::LoadConst(Value::Int(1)),
                Instruction::BinOp(BinOp::Add),
                Instruction::Store(s("count")),
            ],
        )],
    }
}

#[test]
fn increment_three_times_is_deterministic() {
    let mut finals = Vec::new();
    for _ in 0..2 {
        let ctx = EffectContext::new();
        let mut rt = execute(BytecodeProgram { agents: vec![tally_agent()] }, 4);
        for _ in 0..3 {
            rt.post(0, Message { variant: s("Increment"), args: vec![] }).unwrap();
            assert!(matches!(rt.step(0, &ctx, &vec![]), StepReport::Done { .. }));
        }
        assert_eq!(rt.instance(0).state, vec![(s("count"), Value::Int(3))]);
        finals.push(format!("{:?}", rt.instance(0).state));
    }
    assert_eq!(finals[0], finals[1]);
}

#[test]
fn division_by_zero_leaves_state() {
    let h = handler(
        "Div",
        &[],
        vec![
            Instruction::LoadConst(Value::Int(9)),
            Instruction::Store(s("n")),
            Instruction::LoadVar(s("n")),
            Instruction::LoadConst(Value::Int(0)),
            Instruction::BinOp(BinOp::Div),
            Instruction::Store(s("n")),
        ],
    );
    let ctx = EffectContext::new();
    let mut st = vec![(s("n"), Value::Int(4))];
    let r = execute_handler(&h, &mut st, &vec![], &ctx, &vec![]);
    assert_eq!(r.err().map(|f| f.error), Some(ExecError::DivisionByZero));
    assert_eq!(st, vec![(s("n"), Value::Int(4))]);
}

#[test]
fn log_effect_keeps_argument_order() {
    let mut ctx = EffectContext::new();
    let cap = ctx.grant(Effect::Log);
    let h = handler(
        "Say",
        &[],
        vec![
            Instruction::LoadConst(Value::Str(s("a"))),
            Instruction::LoadConst(Value::Str(s("b"))),
            Instruction::Effect { name: s("log"), arg_count: 2 },
        ],
    );
    let mut st = vec![];
    let out = execute_handler(&h, &mut st, &vec![], &ctx, &vec![cap]).unwrap();
    assert_eq!(out.effects.len(), 1);
    assert_eq!(out.effects[0].effect, Effect::Log);
    assert_eq!(out.effects[0].text, "a b");
}

#[test]
fn effect_without_capability_is_denied() {
    let ctx = EffectContext::new();
    let h = handler(
        "Say",
        &[],
        vec![Instruction::LoadConst(Value::Int(1)), Instruction::Effect { name: s("log"), arg_count: 1 }],
    );
    let mut st = vec![];
    assert_eq!(execute_handler(&h, &mut st, &vec![], &ctx, &vec![]).err().map(|f| f.error), Some(ExecError::EffectDenied));
    let h2 = handler("Say", &[], vec![Instruction::Effect { name: s("teleport"), arg_count: 0 }]);
    assert_eq!(execute_handler(&h2, &mut st, &vec![], &ctx, &vec![]).err().map(|f| f.error), Some(ExecError::EffectDenied));
}

#[test]
fn forged_capability_is_refused_by_vm() {
    let ctx = EffectContext::new();
    let forged = Capability::new(Effect::Log, 0);
    let h = handler("Say", &[], vec![Instruction::Effect { name: s("log"), arg_count: 0 }]);
    let mut st = vec![];
    assert_eq!(
        execute_handler(&h, &mut st, &vec![], &ctx, &vec![forged]).err().map(|f| f.error),
        Some(ExecError::InvalidCapability)
    );
}

#[test]
fn vm_errors() {
    let ctx = EffectContext::new();
    let run = |ins: Vec<Instruction>| {
        let mut st = vec![(s("n"), Value::Int(1))];
        execute_handler(&handler("X", &[], ins), &mut st, &vec![], &ctx, &vec![]).err().map(|f| f.error)
    };
    assert_eq!(run(vec![Instruction::Store(s("n"))]), Some(ExecError::StackUnderflow));
    assert_eq!(run(vec![Instruction::LoadVar(s("q"))]), Some(ExecError::UndefinedVariable));
    assert_eq!(
        run(vec![Instruction::LoadConst(Value::Int(1)), Instruction::Store(s("q"))]),
        Some(ExecError::UndefinedVariable)
    );
    assert_eq!(
        run(vec![
            Instruction::LoadConst(Value::Int(1)),
            Instruction::LoadConst(Value::Bool(true)),
            Instruction::BinOp(BinOp::Add),
        ]),
        Some(ExecError::TypeError)
    );
    assert_eq!(
        run(vec![Instruction::Send { target_var: s("n"), variant: s("Bump"), arg_count: 0 }]),
        Some(ExecError::UnknownTarget)
    );
    assert_eq!(
        run(vec![Instruction::LoadConst(Value::Int(1)), Instruction::FieldAccess(s("x"))]),
        Some(ExecError::NoSuchField)
    );
}

#[test]
fn field_access_projects_record() {
    let ctx = EffectContext::new();
    let rec = Value::Record(FieldList::Cons {
        name: s("x"),
        value: Box::new(Value::Int(7)),
        rest: Box::new(FieldList::Nil),
    });
    let h = handler(
        "P",
        &["p"],
        vec![Instruction::LoadVar(s("p")), Instruction::FieldAccess(s("x")), Instruction::Store(s("n"))],
    );
    let mut st = vec![(s("n"), Value::Int(0))];
    execute_handler(&h, &mut st, &vec![(s("p"), rec)], &ctx, &vec![]).unwrap();
    assert_eq!(st, vec![(s("n"), Value::Int(7))]);
}

#[test]
fn binop_semantics() {
    assert_eq!(eval_binop(BinOp::Div, &Value::Int(-7), &Value::Int(2)), Ok(Value::Int(-3)));
    assert_eq!(eval_binop(BinOp::Sub, &Value::Int(3), &Value::Int(5)), Ok(Value::Int(-2)));
    assert_eq!(eval_binop(BinOp::Mul, &Value::Int(6), &Value::Int(7)), Ok(Value::Int(42)));
    assert_eq!(eval_binop(BinOp::Div, &Value::Int(1), &Value::Int(0)), Err(ExecError::DivisionByZero));
    assert_eq!(eval_binop(BinOp::Add, &Value::Int(i64::MAX), &Value::Int(1)), Ok(Value::Int(i64::MIN)));
    assert_eq!(eval_binop(BinOp::Div, &Value::Int(i64::MIN), &Value::Int(-1)), Ok(Value::Int(i64::MIN)));
    assert_eq!(eval_binop(BinOp::Lt, &Value::Int(1), &Value::Int(2)), Ok(Value::Bool(true)));
    assert_eq!(eval_binop(BinOp::Gt, &Value::Int(1), &Value::Int(2)), Ok(Value::Bool(false)));
    assert_eq!(eval_binop(BinOp::Eq, &Value::Str(s("a")), &Value::Str(s("a"))), Ok(Value::Bool(true)));
    assert_eq!(eval_binop(BinOp::Ne, &Value::Bool(true), &Value::Bool(false)), Ok(Value::Bool(true)));
    assert_eq!(eval_binop(BinOp::Eq, &Value::Int(1), &Value::Bool(true)), Err(ExecError::TypeError));
    assert_eq!(eval_binop(BinOp::Lt, &Value::Str(s("a")), &Value::Str(s("b"))), Ok(Value::Bool(true)));
    assert_eq!(eval_binop(BinOp::Gt, &Value::Str(s("ab")), &Value::Str(s("a"))), Ok(Value::Bool(true)));
    assert_eq!(eval_binop(BinOp::Lt, &Value::Str(s("ab")), &Value::Str(s("ab"))), Ok(Value::Bool(false)));
    assert_eq!(eval_binop(BinOp::Lt, &Value::Str(s("b")), &Value::Str(s("ab"))), Ok(Value::Bool(false)));
    assert_eq!(eval_binop(BinOp::Lt, &Value::Ref(1), &Value::Ref(2)), Ok(Value::Bool(true)));
    assert_eq!(eval_binop(BinOp::Gt, &Value::Ref(1), &Value::Ref(2)), Ok(Value::Bool(false)));
    assert_eq!(eval_binop(BinOp::Eq, &Value::Ref(4), &Value::Ref(4)), Ok(Value::Bool(true)));
}

#[test]
fn value_text_forms() {
    assert_eq!(value_to_string(&Value::Int(0)), "0");
    assert_eq!(value_to_string(&Value::Int(-42)), "-42");
    assert_eq!(value_to_string(&Value::Int(1234567)), "1234567");
    assert_eq!(value_to_string(&Value::Int(i64::MIN)), "-9223372036854775808");
    assert_eq!(value_to_string(&Value::Bool(true)), "true");
    assert_eq!(value_to_string(&Value::Bool(false)), "false");
    assert_eq!(value_to_string(&Value::Str(s("hi"))), "hi");
    assert_eq!(value_to_string(&Value::Ref(12)), "@12");
}

#[test]
fn test_capability_grant_and_verify() {
    let mut ctx = EffectContext::new();
    let cap = ctx.grant(Effect::Log);
    assert!(ctx.verify(&cap).is_ok());
}

#[test]
fn test_log_effect() {
    let mut ctx = EffectContext::new();
    let cap = ctx.grant(Effect::Log);
    let result = ctx.execute(&cap, &vec![s("Hello"), s("World")]);
    assert!(result.is_ok());
    assert_eq!(result.unwrap(), "Hello World");
}

#[test]
fn verify_refuses_ungranted_identifiers() {
    let mut ctx = EffectContext::new();
    assert_eq!(ctx.verify(&Capability::new(Effect::Log, 0)), Err(EffectError::InvalidCapability));
    let cap = ctx.grant(Effect::Http);
    assert_eq!(cap.id(), 0);
    assert_eq!(ctx.verify(&cap), Ok(()));
    assert_eq!(ctx.verify(&Capability::new(Effect::Log, 0)), Err(EffectError::InvalidCapability));
    assert_eq!(ctx.verify(&Capability::new(Effect::Http, 1)), Err(EffectError::InvalidCapability));
    let second = ctx.grant(Effect::FileRead);
    assert_eq!(second.id(), 1);
    assert_eq!(ctx.verify(&second), Ok(()));
    assert_eq!(ctx.verify(&cap), Ok(()));
}

#[test]
fn stub_effect_texts() {
    let mut ctx = EffectContext::new();
    let http = ctx.grant(Effect::Http);
    let read = ctx.grant(Effect::FileRead);
    let write = ctx.grant(Effect::FileWrite);
    assert_eq!(ctx.execute(&http, &vec![s("example.org")]).unwrap(), "HTTP request to example.org");
    assert_eq!(ctx.execute(&read, &vec![]).unwrap(), "Read file: unknown");
    assert_eq!(ctx.execute(&write, &vec![s("out.txt")]).unwrap(), "Wrote to file: out.txt");
    assert_eq!(ctx.execute(&Capability::new(Effect::Log, 7), &vec![]), Err(EffectError::InvalidCapability));
}

#[test]
fn test_actor_send_receive() {
    let mut mb: Mailbox<i32> = Mailbox::new(10);
    mb.try_send(42).unwrap();
    assert_eq!(mb.recv(), Some(42));
}

#[test]
fn mailbox_backpressure() {
    let mut mb: Mailbox<u8> = Mailbox::new(2);
    assert_eq!(mb.try_send(1), Ok(()));
    assert_eq!(mb.try_send(2), Ok(()));
    assert_eq!(mb.try_send(3), Err(RuntimeError::MailboxFull));
    assert_eq!(mb.len(), 2);
    assert_eq!(mb.recv(), Some(1));
    assert_eq!(mb.try_send(3), Ok(()));
    assert_eq!(mb.recv(), Some(2));
    assert_eq!(mb.recv(), Some(3));
    assert_eq!(mb.recv(), None);
    mb.close();
    assert_eq!(mb.try_send(4), Err(RuntimeError::Closed));
}

#[test]
fn send_between_instances_and_no_handler() {
    let ctx = EffectContext::new();
    let sender = BytecodeAgent {
        name: s("Sender"),
        state_init: vec![(s("peer"), Value::Ref(1))],
        handlers: vec![handler(
            "Go",
            &[],
            vec![
                Instruction::LoadConst(Value::Int(5)),
                Instruction::Send { target_var: s("peer"), variant: s("Bump"), arg_count: 1 },
            ],
        )],
    };
    let mut rt = execute(BytecodeProgram { agents: vec![sender, counter_agent()] }, 4);
    rt.post(0, Message { variant: s("Go"), args: vec![] }).unwrap();
    match rt.step(0, &ctx, &vec![]) {
        StepReport::Done { sends, .. } => {
            assert_eq!(sends.len(), 1);
            assert_eq!(sends[0].target, 1);
            assert!(rt.deliver(sends).is_empty());
        }
        _ => panic!("handler should complete"),
    }
    assert!(matches!(rt.step(1, &ctx, &vec![]), StepReport::Done { .. }));
    assert_eq!(rt.instance(1).state, vec![(s("n"), Value::Int(5))]);
    rt.post(1, Message { variant: s("Reset"), args: vec![] }).unwrap();
    assert!(matches!(rt.step(1, &ctx, &vec![]), StepReport::NoHandler));
    assert_eq!(rt.post(9, bump(1)), Err(RuntimeError::Closed));
}

#[test]
fn deliver_hands_back_refused_sends() {
    let mut rt = execute(BytecodeProgram { agents: vec![counter_agent()] }, 1);
    rt.post(0, bump(1)).unwrap();
    let out = |t: u64, by: i64| agentc::interpreter::Outgoing { target: t, variant: s("Bump"), args: vec![Value::Int(by)] };
    let refused = rt.deliver(vec![out(0, 2), out(3, 4)]);
    assert_eq!(refused.len(), 2);
    assert_eq!(refused[0], (out(0, 2), RuntimeError::MailboxFull));
    assert_eq!(refused[1], (out(3, 4), RuntimeError::Closed));
    assert_eq!(rt.instance(0).mailbox.len(), 1);
}

fn record(pairs: &[(&str, i64)]) -> Value {
    let mut fs = FieldList::Nil;
    for (n, v) in pairs.iter().rev() {
        fs = FieldList::Cons { name: s(n), value: Box::new(Value::Int(*v)), rest: Box::new(fs) };
    }
    Value::Record(fs)
}

#[test]
fn record_equality() {
    let a = record(&[("x", 1), ("y", 2)]);
    let b = record(&[("x", 1), ("y", 2)]);
    let c = record(&[("x", 1), ("y", 3)]);
    assert_eq!(eval_binop(BinOp::Eq, &a, &b), Ok(Value::Bool(true)));
    assert_eq!(eval_binop(BinOp::Ne, &a, &c), Ok(Value::Bool(true)));
    assert_eq!(eval_binop(BinOp::Eq, &a, &c), Ok(Value::Bool(false)));
    assert_eq!(eval_binop(BinOp::Eq, &record(&[]), &record(&[])), Ok(Value::Bool(true)));
    assert_eq!(eval_binop(BinOp::Eq, &record(&[("x", 1)]), &a), Ok(Value::Bool(false)));
    assert_eq!(eval_binop(BinOp::Lt, &a, &b), Ok(Value::Bool(false)));
    assert_eq!(eval_binop(BinOp::Lt, &a, &c), Ok(Value::Bool(true)));
    assert_eq!(eval_binop(BinOp::Gt, &a, &c), Ok(Value::Bool(false)));
    assert_eq!(eval_binop(BinOp::Gt, &c, &a), Ok(Value::Bool(true)));
    assert_eq!(eval_binop(BinOp::Lt, &record(&[("x", 1)]), &a), Ok(Value::Bool(true)));
    assert_eq!(eval_binop(BinOp::Lt, &record(&[("x", 2)]), &a), Ok(Value::Bool(false)));
}

#[test]
fn send_to_missing_instance_fails_and_keeps_state() {
    let mut ctx = EffectContext::new();
    let cap = ctx.grant(Effect::Log);
    let agent = BytecodeAgent {
        name: s("Lost"),
        state_init: vec![(s("peer"), Value::Ref(5)), (s("n"), Value::Int(0))],
        handlers: vec![handler(
            "Go",
            &[],
            vec![
                Instruction::LoadConst(Value::Int(1)),
                Instruction::Store(s("n")),
                Instruction::LoadConst(Value::Str(s("going"))),
                Instruction::Effect { name: s("log"), arg_count: 1 },
                Instruction::Send { target_var: s("peer"), variant: s("Bump"), arg_count: 0 },
            ],
        )],
    };
    let mut rt = execute(BytecodeProgram { agents: vec![agent] }, 2);
    rt.post(0, Message { variant: s("Go"), args: vec![] }).unwrap();
    match rt.step(0, &ctx, &vec![cap]) {
        StepReport::Failed { error, effects } => {
            assert_eq!(error, ExecError::UnknownTarget);
            assert_eq!(effects.len(), 1);
            assert_eq!(effects[0].text, "going");
        }
        _ => panic!("the run should fail"),
    }
    assert_eq!(rt.instance(0).state, vec![(s("peer"), Value::Ref(5)), (s("n"), Value::Int(0))]);
}

#[test]
fn failed_run_reports_effects_already_performed() {
    let mut ctx = EffectContext::new();
    let cap = ctx.grant(Effect::Log);
    let h = handler(
        "X",
        &[],
        vec![
            Instruction::LoadConst(Value::Str(s("before"))),
            Instruction::Effect { name: s("log"), arg_count: 1 },
            Instruction::LoadConst(Value::Int(1)),
            Instruction::LoadConst(Value::Int(0)),
            Instruction::BinOp(BinOp::Div),
        ],
    );
    let mut st = vec![];
    let f = execute_handler(&h, &mut st, &vec![], &ctx, &vec![cap]).unwrap_err();
    assert_eq!(f.error, ExecError::DivisionByZero);
    assert_eq!(f.effects.len(), 1);
    assert_eq!(f.effects[0].text, "before");
}

#[test]
fn closed_instance_refuses_sends_and_drains() {
    let ctx = EffectContext::new();
    let mut rt = execute(BytecodeProgram { agents: vec![counter_agent()] }, 4);
    rt.post(0, bump(2)).unwrap();
    rt.close(0);
    assert_eq!(rt.post(0, bump(1)), Err(RuntimeError::Closed));
    assert!(matches!(rt.step(0, &ctx, &vec![]), StepReport::Done { .. }));
    assert!(matches!(rt.step(0, &ctx, &vec![]), StepReport::Idle));
    assert_eq!(rt.instance(0).state, vec![(s("n"), Value::Int(2))]);
}

#[test]
fn refused_sends_split_into_waiting_and_dropped() {
    let out = |t: u64| agentc::interpreter::Outgoing { target: t, variant: s("Bump"), args: vec![] };
    let (waiting, dropped) = split_refused(vec![
        (out(0), RuntimeError::MailboxFull),
        (out(7), RuntimeError::Closed),
        (out(1), RuntimeError::MailboxFull),
    ]);
    assert_eq!(waiting, vec![out(0), out(1)]);
    assert_eq!(dropped, vec![(out(7), RuntimeError::Closed)]);
}

#[test]
fn send_through_record_field() {
    let ctx = EffectContext::new();
    let holder = Value::Record(FieldList::Cons {
        name: s("peer"),
        value: Box::new(Value::Ref(1)),
        rest: Box::new(FieldList::Nil),
    });
    let sender = BytecodeAgent {
        name: s("Sender"),
        state_init: vec![(s("h"), holder)],
        handlers: vec![handler(
            "Go",
            &[],
            vec![
                Instruction::LoadVar(s("h")),
                Instruction::FieldAccess(s("peer")),
                Instruction::LoadConst(Value::Int(4)),
                Instruction::SendRef { variant: s("Bump"), arg_count: 1 },
            ],
        )],
    };
    let mut rt = execute(BytecodeProgram { agents: vec![sender, counter_agent()] }, 4);
    rt.post(0, Message { variant: s("Go"), args: vec![] }).unwrap();
    match rt.step(0, &ctx, &vec![]) {
        StepReport::Done { sends, .. } => {
            assert_eq!(sends, vec![agentc::interpreter::Outgoing { target: 1, variant: s("Bump"), args: vec![Value::Int(4)] }]);
            assert!(rt.deliver(sends).is_empty());
        }
        _ => panic!("handler should complete"),
    }
    assert!(matches!(rt.step(1, &ctx, &vec![]), StepReport::Done { .. }));
    assert_eq!(rt.instance(1).state, vec![(s("n"), Value::Int(4))]);
    let bad = handler(
        "Bad",
        &[],
        vec![Instruction::LoadConst(Value::Int(1)), Instruction::LoadConst(Value::Int(2)),
             Instruction::SendRef { variant: s("Bump"), arg_count: 1 }],
    );
    let mut st = vec![];
    assert_eq!(
        execute_handler(&bad, &mut st, &vec![], &ctx, &vec![]).err().map(|f| f.error),
        Some(ExecError::UnknownTarget)
    );
}
