//! The bytecode form of agents and the compiler that lowers checked agent
//! definitions into it.
use vstd::prelude::*;
use crate::ast::{AgentDef, BinOp, Expr, Handler, Program, Stmt};

verus! {

/// A runtime datum.
#[derive(Debug, PartialEq)]
pub enum Value {
    Int(i64),
    Str(String),
    Bool(bool),
    /// The handle of a live agent instance.
    Ref(u64),
    /// A record: named fields in declaration order.
    Record(FieldList),
}

/// The fields of a record value.
#[derive(Debug, PartialEq)]
pub enum FieldList {
    Nil,
    Cons { name: String, value: Box<Value>, rest: Box<FieldList> },
}

/// The value of the first field named `name`.
pub open spec fn field_value(fs: FieldList, name: Seq<char>) -> Option<Value>
    decreases fs,
{
    match fs {
        FieldList::Nil => None,
        FieldList::Cons { name: n, value, rest } => if n@ == name {
            Some(*value)
        } else {
            field_value(*rest, name)
        },
    }
}

#[derive(Debug, PartialEq)]
pub enum Instruction {
    LoadVar(String),
    LoadConst(Value),
    Store(String),
    BinOp(BinOp),
    /// Pops `arg_count` arguments and sends them as `variant` to the agent
    /// whose reference `target_var` holds.
    Send { target_var: String, variant: String, arg_count: usize },
    /// Pops `arg_count` arguments, then the reference beneath them, and sends
    /// the arguments as `variant` to that agent.
    SendRef { variant: String, arg_count: usize },
    Effect { name: String, arg_count: usize },
    FieldAccess(String),
}

#[derive(Debug)]
pub struct BytecodeHandler {
    pub variant: String,
    pub params: Vec<String>,
    pub instructions: Vec<Instruction>,
}

#[derive(Debug)]
pub struct BytecodeAgent {
    pub name: String,
    pub state_init: Vec<(String, Value)>,
    pub handlers: Vec<BytecodeHandler>,
}

#[derive(Debug)]
pub struct BytecodeProgram {
    pub agents: Vec<BytecodeAgent>,
}

#[derive(Clone, Copy, PartialEq, Eq, Structural, Debug)]
pub enum CompileError {
    /// A state initializer is not a literal.
    NonConstantInitializer,
}

/// Copies a value, field by field.
pub fn copy_value(v: &Value) -> (r: Value)
    ensures
        r == *v,
    decreases v,
{
    match v {
        Value::Int(n) => Value::Int(*n),
        Value::Str(s) => Value::Str(s.clone()),
        Value::Bool(b) => Value::Bool(*b),
        Value::Ref(id) => Value::Ref(*id),
        Value::Record(fields) => Value::Record(copy_fields(fields)),
    }
}

fn copy_fields(fs: &FieldList) -> (r: FieldList)
    ensures
        r == *fs,
    decreases fs,
{
    match fs {
        FieldList::Nil => FieldList::Nil,
        FieldList::Cons { name, value, rest } => FieldList::Cons {
            name: name.clone(),
            value: Box::new(copy_value(value)),
            rest: Box::new(copy_fields(rest)),
        },
    }
}

/// Looks up the first field named `name`.
pub fn lookup_field(fs: &FieldList, name: &String) -> (r: Option<Value>)
    ensures
        r == field_value(*fs, name@),
    decreases fs,
{
    match fs {
        FieldList::Nil => None,
        FieldList::Cons { name: n, value, rest } => if n.eq(name) {
            Some(copy_value(value))
        } else {
            lookup_field(rest, name)
        },
    }
}

/// The value of a literal expression; `None` for any other expression.
pub open spec fn const_value(e: Expr) -> Option<Value> {
    match e {
        Expr::Int(n) => Some(Value::Int(n)),
        Expr::Str(s) => Some(Value::Str(s)),
        Expr::Bool(b) => Some(Value::Bool(b)),
        _ => None,
    }
}

/// The instructions an expression lowers to: operands in source order, then
/// the operator.
pub open spec fn expr_code(e: Expr) -> Seq<Instruction>
    decreases e,
{
    match e {
        Expr::Var(n) => seq![Instruction::LoadVar(n)],
        Expr::Int(n) => seq![Instruction::LoadConst(Value::Int(n))],
        Expr::Str(s) => seq![Instruction::LoadConst(Value::Str(s))],
        Expr::Bool(b) => seq![Instruction::LoadConst(Value::Bool(b))],
        Expr::BinOp { op, left, right } => expr_code(*left) + expr_code(*right) + seq![
            Instruction::BinOp(op),
        ],
        Expr::FieldAccess { obj, field } => expr_code(*obj) + seq![Instruction::FieldAccess(field)],
    }
}

/// The code of a list of expressions, each evaluated in turn.
pub open spec fn exprs_code(es: Seq<Expr>) -> Seq<Instruction>
    decreases es.len(),
{
    if es.len() == 0 {
        seq![]
    } else {
        exprs_code(es.drop_last()) + expr_code(es.last())
    }
}

/// The code of one statement. A send to a variable names the variable; a
/// send to a computed target evaluates the target before the arguments.
pub open spec fn stmt_code(s: Stmt) -> Seq<Instruction> {
    match s {
        Stmt::Assign { target, value } => expr_code(value) + seq![Instruction::Store(target)],
        Stmt::Send { target, msg_variant, args } => match target {
            Expr::Var(t) => exprs_code(args@) + seq![
                Instruction::Send { target_var: t, variant: msg_variant, arg_count: args@.len() as usize },
            ],
            _ => expr_code(target) + exprs_code(args@) + seq![
                Instruction::SendRef { variant: msg_variant, arg_count: args@.len() as usize },
            ],
        },
        Stmt::Effect { name, args } => exprs_code(args@) + seq![
            Instruction::Effect { name, arg_count: args@.len() as usize },
        ],
    }
}

/// The code of a statement sequence.
pub open spec fn body_code(ss: Seq<Stmt>) -> Seq<Instruction>
    decreases ss.len(),
{
    if ss.len() == 0 {
        seq![]
    } else {
        body_code(ss.drop_last()) + stmt_code(ss.last())
    }
}

/// `b` is the compiled form of handler `h`.
pub open spec fn handler_compiled(h: Handler, b: BytecodeHandler) -> bool {
    &&& b.variant == h.variant
    &&& b.params@ == h.params@
    &&& b.instructions@ == body_code(h.body@)
}

/// Every state initializer of `a` is a literal.
pub open spec fn constant_inits(a: AgentDef) -> bool {
    forall|i: int| 0 <= i < a.state@.len() ==> (#[trigger] const_value(a.state@[i].init)).is_some()
}

/// `b` is the compiled form of agent `a`.
pub open spec fn agent_compiled(a: AgentDef, b: BytecodeAgent) -> bool {
    &&& b.name == a.name
    &&& b.state_init@.len() == a.state@.len()
    &&& forall|i: int|
        0 <= i < a.state@.len() ==> #[trigger] b.state_init@[i] == (
            a.state@[i].name,
            const_value(a.state@[i].init).unwrap(),
        )
    &&& b.handlers@.len() == a.handlers@.len()
    &&& forall|i: int|
        0 <= i < a.handlers@.len() ==> handler_compiled(a.handlers@[i], #[trigger] b.handlers@[i])
}

/// Every agent of `p` has only literal initializers.
pub open spec fn program_compilable(p: Program) -> bool {
    forall|i: int| 0 <= i < p.agents@.len() ==> constant_inits(#[trigger] p.agents@[i])
}

/// `b` is the compiled form of program `p`, agent by agent.
pub open spec fn program_compiled(p: Program, b: BytecodeProgram) -> bool {
    &&& b.agents@.len() == p.agents@.len()
    &&& forall|i: int| 0 <= i < p.agents@.len() ==> agent_compiled(p.agents@[i], #[trigger] b.agents@[i])
}

/// Lowers every agent of the program; fails only on a state initializer that
/// is not a literal.
pub fn compile(program: &Program) -> (r: Result<BytecodeProgram, CompileError>)
    ensures
        r is Ok <==> program_compilable(*program),
        r matches Ok(b) ==> program_compiled(*program, b),
        r matches Err(e) ==> e == CompileError::NonConstantInitializer,
{
    let mut agents: Vec<BytecodeAgent> = Vec::new();
    let mut i: usize = 0;
    while i < program.agents.len()
        invariant
            i <= program.agents@.len(),
            agents@.len() == i,
            forall|j: int| 0 <= j < i ==> constant_inits(#[trigger] program.agents@[j]),
            forall|j: int| 0 <= j < i ==> agent_compiled(program.agents@[j], #[trigger] agents@[j]),
        decreases program.agents@.len() - i,
    {
        match compile_agent(&program.agents[i]) {
            Ok(a) => agents.push(a),
            Err(e) => return Err(e),
        }
        i = i + 1;
    }
    Ok(BytecodeProgram { agents })
}

fn compile_agent(agent: &AgentDef) -> (r: Result<BytecodeAgent, CompileError>)
    ensures
        r is Ok <==> constant_inits(*agent),
        r matches Ok(b) ==> agent_compiled(*agent, b),
        r matches Err(e) ==> e == CompileError::NonConstantInitializer,
{
    let mut state_init: Vec<(String, Value)> = Vec::new();
    let mut i: usize = 0;
    while i < agent.state.len()
        invariant
            i <= agent.state@.len(),
            state_init@.len() == i,
            forall|j: int| 0 <= j < i ==> (#[trigger] const_value(agent.state@[j].init)).is_some(),
            forall|j: int|
                0 <= j < i ==> #[trigger] state_init@[j] == (
                    agent.state@[j].name,
                    const_value(agent.state@[j].init).unwrap(),
                ),
        decreases agent.state@.len() - i,
    {
        let value = eval_const_expr(&agent.state[i].init)?;
        state_init.push((agent.state[i].name.clone(), value));
        i = i + 1;
    }
    let mut handlers: Vec<BytecodeHandler> = Vec::new();
    let mut k: usize = 0;
    while k < agent.handlers.len()
        invariant
            k <= agent.handlers@.len(),
            handlers@.len() == k,
            forall|j: int| 0 <= j < k ==> handler_compiled(agent.handlers@[j], #[trigger] handlers@[j]),
        decreases agent.handlers@.len() - k,
    {
        handlers.push(compile_handler(&agent.handlers[k]));
        k = k + 1;
    }
    Ok(BytecodeAgent { name: agent.name.clone(), state_init, handlers })
}

fn copy_names(names: &Vec<String>) -> (r: Vec<String>)
    ensures
        r@ == names@,
{
    let mut out: Vec<String> = Vec::new();
    let mut i: usize = 0;
    while i < names.len()
        invariant
            i <= names@.len(),
            out@ == names@.subrange(0, i as int),
        decreases names@.len() - i,
    {
        out.push(names[i].clone());
        i = i + 1;
        assert(out@ =~= names@.subrange(0, i as int));
    }
    assert(out@ =~= names@);
    out
}

fn compile_handler(handler: &Handler) -> (r: BytecodeHandler)
    ensures
        handler_compiled(*handler, r),
{
    let mut instructions: Vec<Instruction> = Vec::new();
    let mut i: usize = 0;
    while i < handler.body.len()
        invariant
            i <= handler.body@.len(),
            instructions@ == body_code(handler.body@.subrange(0, i as int)),
        decreases handler.body@.len() - i,
    {
        compile_stmt(&handler.body[i], &mut instructions);
        assert(handler.body@.subrange(0, i + 1).drop_last() =~= handler.body@.subrange(0, i as int));
        i = i + 1;
    }
    assert(handler.body@.subrange(0, i as int) =~= handler.body@);
    BytecodeHandler {
        variant: handler.variant.clone(),
        params: copy_names(&handler.params),
        instructions,
    }
}

fn compile_exprs(args: &Vec<Expr>, instructions: &mut Vec<Instruction>)
    ensures
        final(instructions)@ == old(instructions)@ + exprs_code(args@),
{
    let mut i: usize = 0;
    while i < args.len()
        invariant
            i <= args@.len(),
            instructions@ == old(instructions)@ + exprs_code(args@.subrange(0, i as int)),
        decreases args@.len() - i,
    {
        compile_expr(&args[i], instructions);
        assert(args@.subrange(0, i + 1).drop_last() =~= args@.subrange(0, i as int));
        i = i + 1;
    }
    assert(args@.subrange(0, i as int) =~= args@);
}

fn compile_stmt(stmt: &Stmt, instructions: &mut Vec<Instruction>)
    ensures
        final(instructions)@ == old(instructions)@ + stmt_code(*stmt),
{
    match stmt {
        Stmt::Assign { target, value } => {
            compile_expr(value, instructions);
            instructions.push(Instruction::Store(target.clone()));
        },
        Stmt::Send { target, msg_variant, args } => {
            if let Expr::Var(target_var) = target {
                compile_exprs(args, instructions);
                instructions.push(
                    Instruction::Send {
                        target_var: target_var.clone(),
                        variant: msg_variant.clone(),
                        arg_count: args.len(),
                    },
                );
            } else {
                compile_expr(target, instructions);
                compile_exprs(args, instructions);
                instructions.push(Instruction::SendRef { variant: msg_variant.clone(), arg_count: args.len() });
            }
        },
        Stmt::Effect { name, args } => {
            compile_exprs(args, instructions);
            instructions.push(Instruction::Effect { name: name.clone(), arg_count: args.len() });
        },
    }
    assert(instructions@ =~= old(instructions)@ + stmt_code(*stmt));
}

fn compile_expr(expr: &Expr, instructions: &mut Vec<Instruction>)
    ensures
        final(instructions)@ == old(instructions)@ + expr_code(*expr),
    decreases expr,
{
    match expr {
        Expr::Var(name) => instructions.push(Instruction::LoadVar(name.clone())),
        Expr::Int(n) => instructions.push(Instruction::LoadConst(Value::Int(*n))),
        Expr::Str(s) => instructions.push(Instruction::LoadConst(Value::Str(s.clone()))),
        Expr::Bool(b) => instructions.push(Instruction::LoadConst(Value::Bool(*b))),
        Expr::BinOp { op, left, right } => {
            compile_expr(left, instructions);
            compile_expr(right, instructions);
            instructions.push(Instruction::BinOp(*op));
        },
        Expr::FieldAccess { obj, field } => {
            compile_expr(obj, instructions);
            instructions.push(Instruction::FieldAccess(field.clone()));
        },
    }
    assert(instructions@ =~= old(instructions)@ + expr_code(*expr));
}

fn eval_const_expr(expr: &Expr) -> (r: Result<Value, CompileError>)
    ensures
        r matches Ok(v) ==> const_value(*expr) == Some(v),
        r is Err <==> const_value(*expr) is None,
        r matches Err(e) ==> e == CompileError::NonConstantInitializer,
{
    match expr {
        Expr::Int(n) => Ok(Value::Int(*n)),
        Expr::Str(s) => Ok(Value::Str(s.clone())),
        Expr::Bool(b) => Ok(Value::Bool(*b)),
        _ => Err(CompileError::NonConstantInitializer),
    }
}

/// Compiling is a function of the program: two compilations of one program
/// give the same state-initialization tables.
pub proof fn lemma_compile_deterministic(p: Program, b1: BytecodeProgram, b2: BytecodeProgram)
    requires
        program_compiled(p, b1),
        program_compiled(p, b2),
    ensures
        b1.agents@.len() == b2.agents@.len(),
        forall|i: int|
            0 <= i < b1.agents@.len() ==> (#[trigger] b1.agents@[i]).state_init@
                == b2.agents@[i].state_init@,
{
    assert forall|i: int| 0 <= i < b1.agents@.len() implies (#[trigger] b1.agents@[i]).state_init@
        == b2.agents@[i].state_init@ by {
        let a = p.agents@[i];
        assert(agent_compiled(a, b1.agents@[i]));
        assert(agent_compiled(a, b2.agents@[i]));
        assert(b1.agents@[i].state_init@ =~= b2.agents@[i].state_init@);
    }
}

} // verus!
