//! The stack machine that runs one handler invocation against an agent's
//! state.
use vstd::prelude::*;
use vstd::string::{StrSliceExecFns, StringExecFns};
use crate::ast::BinOp;
use crate::bytecode::{copy_value, field_value, lookup_field, BytecodeHandler, FieldList, Instruction, Value};
use crate::effects::{effect_text, texts, Capability, Effect, EffectContext};

verus! {

#[derive(Clone, Copy, PartialEq, Eq, Structural, Debug)]
pub enum ExecError {
    StackUnderflow,
    /// An operator met operands of types it does not take.
    TypeError,
    DivisionByZero,
    /// The send target does not hold an agent reference.
    UnknownTarget,
    /// Field projection out of a non-record, or of a missing field.
    NoSuchField,
    /// No capability was supplied for the effect, or the effect is unknown.
    EffectDenied,
    /// A name bound neither in the state nor among the parameters.
    UndefinedVariable,
    /// The supplied capability was refused by the effect context.
    InvalidCapability,
}

/// A message addressed to an agent instance.
#[derive(Debug, PartialEq)]
pub struct Outgoing {
    pub target: u64,
    pub variant: String,
    pub args: Vec<Value>,
}

/// An effect that was performed, with the text it reported.
#[derive(Debug, PartialEq)]
pub struct EffectRecord {
    pub effect: Effect,
    pub text: String,
}

/// What a successful handler run hands back besides the new state: the
/// messages to deliver and the effects performed, in order.
#[derive(Debug)]
pub struct HandlerOutput {
    pub sends: Vec<Outgoing>,
    pub effects: Vec<EffectRecord>,
}

/// The machine between two instructions.
pub struct Machine {
    pub stack: Seq<Value>,
    pub vars: Seq<(String, Value)>,
    pub sends: Seq<(u64, Seq<char>, Seq<Value>)>,
    pub effects: Seq<(Effect, Seq<char>)>,
}

pub open spec fn out_view(o: Outgoing) -> (u64, Seq<char>, Seq<Value>) {
    (o.target, o.variant@, o.args@)
}

pub open spec fn record_view(r: EffectRecord) -> (Effect, Seq<char>) {
    (r.effect, r.text@)
}

/// The index of the last binding of `name`, or -1.
pub open spec fn slot(vars: Seq<(String, Value)>, name: Seq<char>) -> int
    decreases vars.len(),
{
    if vars.len() == 0 {
        -1
    } else if vars.last().0@ == name {
        vars.len() - 1
    } else {
        slot(vars.drop_last(), name)
    }
}

pub proof fn lemma_slot_range(vars: Seq<(String, Value)>, name: Seq<char>)
    ensures
        -1 <= slot(vars, name) < vars.len(),
        slot(vars, name) >= 0 ==> vars[slot(vars, name)].0@ == name,
    decreases vars.len(),
{
    if vars.len() > 0 && vars.last().0@ != name {
        lemma_slot_range(vars.drop_last(), name);
    }
}

/// A variable's value: the state first, then the parameters.
pub open spec fn read_var(vars: Seq<(String, Value)>, params: Seq<(String, Value)>, name: Seq<char>) -> Option<Value> {
    if slot(vars, name) >= 0 {
        Some(vars[slot(vars, name)].1)
    } else if slot(params, name) >= 0 {
        Some(params[slot(params, name)].1)
    } else {
        None
    }
}

pub open spec fn digit(d: nat) -> char {
    if d == 0 { '0' } else if d == 1 { '1' } else if d == 2 { '2' } else if d == 3 { '3' }
    else if d == 4 { '4' } else if d == 5 { '5' } else if d == 6 { '6' } else if d == 7 { '7' }
    else if d == 8 { '8' } else { '9' }
}

/// Decimal digits of a natural number, most significant first.
pub open spec fn decimal(n: nat) -> Seq<char>
    decreases n,
{
    if n < 10 {
        seq![digit(n)]
    } else {
        decimal(n / 10) + seq![digit(n % 10)]
    }
}

/// The displayable form of a value.
pub open spec fn value_text(v: Value) -> Seq<char> {
    match v {
        Value::Int(n) => if n < 0 {
            seq!['-'] + decimal((-n) as nat)
        } else {
            decimal(n as nat)
        },
        Value::Str(s) => s@,
        Value::Bool(b) => if b { "true"@ } else { "false"@ },
        Value::Ref(id) => seq!['@'] + decimal(id as nat),
        Value::Record(_) => "<record>"@,
    }
}

/// Equality of values: strings by their characters, records field by field.
pub open spec fn same_value(a: Value, b: Value) -> bool
    decreases a,
{
    match a {
        Value::Int(x) => b matches Value::Int(y) && x == y,
        Value::Str(x) => b matches Value::Str(y) && x@ == y@,
        Value::Bool(x) => b matches Value::Bool(y) && x == y,
        Value::Ref(x) => b matches Value::Ref(y) && x == y,
        Value::Record(x) => match b {
            Value::Record(y) => same_fields(x, y),
            _ => false,
        },
    }
}

/// Equality of field lists: the same names, in order, with equal values.
pub open spec fn same_fields(a: FieldList, b: FieldList) -> bool
    decreases a,
{
    match a {
        FieldList::Nil => b is Nil,
        FieldList::Cons { name: n1, value: v1, rest: r1 } => match b {
            FieldList::Cons { name: n2, value: v2, rest: r2 } => n1@ == n2@ && same_value(*v1, *v2)
                && same_fields(*r1, *r2),
            FieldList::Nil => false,
        },
    }
}

/// The order of two values of one kind: integers and identifiers by number,
/// `false` before `true`, strings by `text_less`, records by `fields_less`.
/// Values of different kinds are unordered.
pub open spec fn value_less(a: Value, b: Value) -> bool
    decreases a,
{
    match a {
        Value::Int(x) => b matches Value::Int(y) && x < y,
        Value::Str(x) => b matches Value::Str(y) && text_less(x@, y@),
        Value::Bool(x) => b matches Value::Bool(y) && !x && y,
        Value::Ref(x) => b matches Value::Ref(y) && x < y,
        Value::Record(x) => match b {
            Value::Record(y) => fields_less(x, y),
            _ => false,
        },
    }
}

/// Lexicographic order of records: the first field whose values differ
/// decides; a record that is a prefix of the other comes first.
pub open spec fn fields_less(a: FieldList, b: FieldList) -> bool
    decreases a,
{
    match a {
        FieldList::Nil => b is Cons,
        FieldList::Cons { value: v1, rest: r1, .. } => match b {
            FieldList::Cons { value: v2, rest: r2, .. } => if same_value(*v1, *v2) {
                fields_less(*r1, *r2)
            } else {
                value_less(*v1, *v2)
            },
            FieldList::Nil => false,
        },
    }
}

/// Lexicographic order of character sequences, by code point.
pub open spec fn text_less(a: Seq<char>, b: Seq<char>) -> bool
    decreases a.len(),
{
    if a.len() == 0 {
        b.len() > 0
    } else if b.len() == 0 {
        false
    } else if a[0] != b[0] {
        (a[0] as u32) < (b[0] as u32)
    } else {
        text_less(a.drop_first(), b.drop_first())
    }
}

/// Result of a binary operator on two operand values. Arithmetic takes
/// integers; comparisons take two values of one kind.
pub open spec fn binop_result(op: BinOp, l: Value, r: Value) -> Result<Value, ExecError> {
    match (l, r) {
        (Value::Int(a), Value::Int(b)) => match op {
            BinOp::Add => Ok(Value::Int(a.wrapping_add(b))),
            BinOp::Sub => Ok(Value::Int(a.wrapping_sub(b))),
            BinOp::Mul => Ok(Value::Int(a.wrapping_mul(b))),
            BinOp::Div => if b == 0 {
                Err(ExecError::DivisionByZero)
            } else {
                match a.checked_div(b) {
                    Some(q) => Ok(Value::Int(q)),
                    None => Ok(Value::Int(i64::MIN)),
                }
            },
            BinOp::Eq => Ok(Value::Bool(a == b)),
            BinOp::Ne => Ok(Value::Bool(a != b)),
            BinOp::Lt => Ok(Value::Bool(a < b)),
            BinOp::Gt => Ok(Value::Bool(a > b)),
        },
        (Value::Bool(a), Value::Bool(b)) => match op {
            BinOp::Eq => Ok(Value::Bool(a == b)),
            BinOp::Ne => Ok(Value::Bool(a != b)),
            BinOp::Lt => Ok(Value::Bool(!a && b)),
            BinOp::Gt => Ok(Value::Bool(a && !b)),
            _ => Err(ExecError::TypeError),
        },
        (Value::Str(a), Value::Str(b)) => match op {
            BinOp::Eq => Ok(Value::Bool(a@ == b@)),
            BinOp::Ne => Ok(Value::Bool(a@ != b@)),
            BinOp::Lt => Ok(Value::Bool(text_less(a@, b@))),
            BinOp::Gt => Ok(Value::Bool(text_less(b@, a@))),
            _ => Err(ExecError::TypeError),
        },
        (Value::Ref(a), Value::Ref(b)) => match op {
            BinOp::Eq => Ok(Value::Bool(a == b)),
            BinOp::Ne => Ok(Value::Bool(a != b)),
            BinOp::Lt => Ok(Value::Bool(a < b)),
            BinOp::Gt => Ok(Value::Bool(a > b)),
            _ => Err(ExecError::TypeError),
        },
        (Value::Record(a), Value::Record(b)) => match op {
            BinOp::Eq => Ok(Value::Bool(same_fields(a, b))),
            BinOp::Ne => Ok(Value::Bool(!same_fields(a, b))),
            BinOp::Lt => Ok(Value::Bool(fields_less(a, b))),
            BinOp::Gt => Ok(Value::Bool(fields_less(b, a))),
            _ => Err(ExecError::TypeError),
        },
        _ => Err(ExecError::TypeError),
    }
}

/// The effect kind an effect name stands for.
pub open spec fn effect_named(n: Seq<char>) -> Option<Effect> {
    if n == "log"@ {
        Some(Effect::Log)
    } else if n == "http"@ {
        Some(Effect::Http)
    } else if n == "file_read"@ {
        Some(Effect::FileRead)
    } else if n == "file_write"@ {
        Some(Effect::FileWrite)
    } else {
        None
    }
}

/// The first supplied capability for effect `e`.
pub open spec fn cap_for(caps: Seq<Capability>, e: Effect) -> Option<Capability>
    decreases caps.len(),
{
    if caps.len() == 0 {
        None
    } else if caps[0].spec_effect() == e {
        Some(caps[0])
    } else {
        cap_for(caps.drop_first(), e)
    }
}

/// One instruction's effect on the machine.
pub open spec fn step(
    ctx: EffectContext,
    caps: Seq<Capability>,
    params: Seq<(String, Value)>,
    m: Machine,
    ins: Instruction,
) -> Result<Machine, ExecError> {
    let n = m.stack.len() as int;
    match ins {
        Instruction::LoadVar(name) => match read_var(m.vars, params, name@) {
            Some(v) => Ok(Machine { stack: m.stack.push(v), ..m }),
            None => Err(ExecError::UndefinedVariable),
        },
        Instruction::LoadConst(v) => Ok(Machine { stack: m.stack.push(v), ..m }),
        Instruction::Store(name) => if n == 0 {
            Err(ExecError::StackUnderflow)
        } else if slot(m.vars, name@) < 0 {
            Err(ExecError::UndefinedVariable)
        } else {
            let k = slot(m.vars, name@);
            Ok(Machine {
                stack: m.stack.drop_last(),
                vars: m.vars.update(k, (m.vars[k].0, m.stack.last())),
                ..m
            })
        },
        Instruction::BinOp(op) => if n < 2 {
            Err(ExecError::StackUnderflow)
        } else {
            match binop_result(op, m.stack[n - 2], m.stack[n - 1]) {
                Ok(v) => Ok(Machine { stack: m.stack.subrange(0, n - 2).push(v), ..m }),
                Err(e) => Err(e),
            }
        },
        Instruction::Send { target_var, variant, arg_count } => if n < arg_count {
            Err(ExecError::StackUnderflow)
        } else {
            match read_var(m.vars, params, target_var@) {
                Some(Value::Ref(id)) => Ok(Machine {
                    stack: m.stack.subrange(0, n - arg_count),
                    sends: m.sends.push((id, variant@, m.stack.subrange(n - arg_count, n))),
                    ..m
                }),
                _ => Err(ExecError::UnknownTarget),
            }
        },
        Instruction::SendRef { variant, arg_count } => if n < arg_count + 1 {
            Err(ExecError::StackUnderflow)
        } else {
            match m.stack[n - arg_count - 1] {
                Value::Ref(id) => Ok(Machine {
                    stack: m.stack.subrange(0, n - arg_count - 1),
                    sends: m.sends.push((id, variant@, m.stack.subrange(n - arg_count, n))),
                    ..m
                }),
                _ => Err(ExecError::UnknownTarget),
            }
        },
        Instruction::Effect { name, arg_count } => if n < arg_count {
            Err(ExecError::StackUnderflow)
        } else {
            match effect_named(name@) {
                None => Err(ExecError::EffectDenied),
                Some(kind) => match cap_for(caps, kind) {
                    None => Err(ExecError::EffectDenied),
                    Some(cap) => if !ctx.valid(cap) {
                        Err(ExecError::InvalidCapability)
                    } else {
                        let words = m.stack.subrange(n - arg_count, n).map_values(|v: Value| value_text(v));
                        Ok(Machine {
                            stack: m.stack.subrange(0, n - arg_count),
                            effects: m.effects.push((kind, effect_text(kind, words))),
                            ..m
                        })
                    },
                },
            }
        },
        Instruction::FieldAccess(field) => if n == 0 {
            Err(ExecError::StackUnderflow)
        } else {
            match m.stack.last() {
                Value::Record(fs) => match field_value(fs, field@) {
                    Some(v) => Ok(Machine { stack: m.stack.drop_last().push(v), ..m }),
                    None => Err(ExecError::NoSuchField),
                },
                _ => Err(ExecError::NoSuchField),
            }
        },
    }
}

/// Runs instructions in order; the first failure ends the run.
pub open spec fn run(
    ctx: EffectContext,
    caps: Seq<Capability>,
    params: Seq<(String, Value)>,
    m: Machine,
    code: Seq<Instruction>,
) -> Result<Machine, ExecError>
    decreases code.len(),
{
    if code.len() == 0 {
        Ok(m)
    } else {
        match step(ctx, caps, params, m, code[0]) {
            Err(e) => Err(e),
            Ok(m2) => run(ctx, caps, params, m2, code.drop_first()),
        }
    }
}

/// The effects a run performed before it failed; empty for a run that
/// succeeds.
pub open spec fn effects_before_failure(
    ctx: EffectContext,
    caps: Seq<Capability>,
    params: Seq<(String, Value)>,
    m: Machine,
    code: Seq<Instruction>,
) -> Seq<(Effect, Seq<char>)>
    decreases code.len(),
{
    if code.len() == 0 {
        seq![]
    } else {
        match step(ctx, caps, params, m, code[0]) {
            Err(_) => m.effects,
            Ok(m2) => effects_before_failure(ctx, caps, params, m2, code.drop_first()),
        }
    }
}

/// A failed handler run: the error, and the effects it had already
/// performed, which cannot be taken back.
#[derive(Debug)]
pub struct HandlerFailure {
    pub error: ExecError,
    pub effects: Vec<EffectRecord>,
}

/// A fresh machine over the given state.
pub open spec fn start(vars: Seq<(String, Value)>) -> Machine {
    Machine { stack: seq![], vars, sends: seq![], effects: seq![] }
}

/// The machine that the executable state stands for.
pub open spec fn machine_of(stack: Seq<Value>, vars: Seq<(String, Value)>, sends: Seq<Outgoing>, effects: Seq<EffectRecord>) -> Machine {
    Machine {
        stack,
        vars,
        sends: sends.map_values(|o: Outgoing| out_view(o)),
        effects: effects.map_values(|r: EffectRecord| record_view(r)),
    }
}

fn find_slot(vars: &Vec<(String, Value)>, name: &String) -> (r: Option<usize>)
    ensures
        r is None <==> slot(vars@, name@) < 0,
        r matches Some(k) ==> k == slot(vars@, name@),
{
    let mut i: usize = vars.len();
    assert(vars@.subrange(0, i as int) =~= vars@);
    while i > 0
        invariant
            i <= vars@.len(),
            slot(vars@, name@) == slot(vars@.subrange(0, i as int), name@),
        decreases i,
    {
        let ghost pre = vars@.subrange(0, i as int);
        assert(pre.drop_last() =~= vars@.subrange(0, i - 1));
        if vars[i - 1].0.eq(name) {
            return Some(i - 1);
        }
        i = i - 1;
    }
    None
}

fn read_variable(vars: &Vec<(String, Value)>, params: &Vec<(String, Value)>, name: &String) -> (r: Option<Value>)
    ensures
        r == read_var(vars@, params@, name@),
{
    proof {
        lemma_slot_range(vars@, name@);
        lemma_slot_range(params@, name@);
    }
    match find_slot(vars, name) {
        Some(k) => Some(copy_value(&vars[k].1)),
        None => match find_slot(params, name) {
            Some(k) => Some(copy_value(&params[k].1)),
            None => None,
        },
    }
}

/// Applies a binary operator: integer arithmetic wraps, division truncates
/// and refuses a zero divisor, comparisons need operands of one type.
pub fn eval_binop(op: BinOp, left: &Value, right: &Value) -> (r: Result<Value, ExecError>)
    ensures
        r == binop_result(op, *left, *right),
{
    match (left, right) {
        (Value::Int(a), Value::Int(b)) => {
            let (a, b) = (*a, *b);
            match op {
                BinOp::Add => Ok(Value::Int(a.wrapping_add(b))),
                BinOp::Sub => Ok(Value::Int(a.wrapping_sub(b))),
                BinOp::Mul => Ok(Value::Int(a.wrapping_mul(b))),
                BinOp::Div => if b == 0 {
                    Err(ExecError::DivisionByZero)
                } else {
                    match a.checked_div(b) {
                        Some(q) => Ok(Value::Int(q)),
                        None => Ok(Value::Int(i64::MIN)),
                    }
                },
                BinOp::Eq => Ok(Value::Bool(a == b)),
                BinOp::Ne => Ok(Value::Bool(a != b)),
                BinOp::Lt => Ok(Value::Bool(a < b)),
                BinOp::Gt => Ok(Value::Bool(a > b)),
            }
        },
        (Value::Bool(a), Value::Bool(b)) => {
            let (a, b) = (*a, *b);
            match op {
                BinOp::Eq => Ok(Value::Bool(a == b)),
                BinOp::Ne => Ok(Value::Bool(a != b)),
                BinOp::Lt => Ok(Value::Bool(!a && b)),
                BinOp::Gt => Ok(Value::Bool(a && !b)),
                _ => Err(ExecError::TypeError),
            }
        },
        (Value::Str(a), Value::Str(b)) => match op {
            BinOp::Eq => Ok(Value::Bool(a.eq(b))),
            BinOp::Ne => Ok(Value::Bool(!a.eq(b))),
            BinOp::Lt => Ok(Value::Bool(less_text(a, b))),
            BinOp::Gt => Ok(Value::Bool(less_text(b, a))),
            _ => Err(ExecError::TypeError),
        },
        (Value::Ref(a), Value::Ref(b)) => match op {
            BinOp::Eq => Ok(Value::Bool(*a == *b)),
            BinOp::Ne => Ok(Value::Bool(*a != *b)),
            BinOp::Lt => Ok(Value::Bool(*a < *b)),
            BinOp::Gt => Ok(Value::Bool(*a > *b)),
            _ => Err(ExecError::TypeError),
        },
        (Value::Record(a), Value::Record(b)) => match op {
            BinOp::Eq => Ok(Value::Bool(fields_equal(a, b))),
            BinOp::Ne => Ok(Value::Bool(!fields_equal(a, b))),
            BinOp::Lt => Ok(Value::Bool(fields_before(a, b))),
            BinOp::Gt => Ok(Value::Bool(fields_before(b, a))),
            _ => Err(ExecError::TypeError),
        },
        _ => Err(ExecError::TypeError),
    }
}

/// Compares two values as `same_value` does.
pub fn values_equal(a: &Value, b: &Value) -> (r: bool)
    ensures
        r == same_value(*a, *b),
    decreases a,
{
    match (a, b) {
        (Value::Int(x), Value::Int(y)) => *x == *y,
        (Value::Str(x), Value::Str(y)) => x.eq(y),
        (Value::Bool(x), Value::Bool(y)) => *x == *y,
        (Value::Ref(x), Value::Ref(y)) => *x == *y,
        (Value::Record(x), Value::Record(y)) => fields_equal(x, y),
        _ => false,
    }
}

fn fields_equal(a: &FieldList, b: &FieldList) -> (r: bool)
    ensures
        r == same_fields(*a, *b),
    decreases a,
{
    match (a, b) {
        (FieldList::Nil, FieldList::Nil) => true,
        (FieldList::Cons { name: n1, value: v1, rest: r1 }, FieldList::Cons { name: n2, value: v2, rest: r2 }) => {
            n1.eq(n2) && values_equal(v1, v2) && fields_equal(r1, r2)
        },
        _ => false,
    }
}

/// Orders two values as `value_less` does.
pub fn value_before(a: &Value, b: &Value) -> (r: bool)
    ensures
        r == value_less(*a, *b),
    decreases a,
{
    match (a, b) {
        (Value::Int(x), Value::Int(y)) => *x < *y,
        (Value::Str(x), Value::Str(y)) => less_text(x, y),
        (Value::Bool(x), Value::Bool(y)) => !*x && *y,
        (Value::Ref(x), Value::Ref(y)) => *x < *y,
        (Value::Record(x), Value::Record(y)) => fields_before(x, y),
        _ => false,
    }
}

fn fields_before(a: &FieldList, b: &FieldList) -> (r: bool)
    ensures
        r == fields_less(*a, *b),
    decreases a,
{
    match (a, b) {
        (FieldList::Nil, FieldList::Nil) => false,
        (FieldList::Nil, FieldList::Cons { .. }) => true,
        (FieldList::Cons { .. }, FieldList::Nil) => false,
        (FieldList::Cons { value: v1, rest: r1, .. }, FieldList::Cons { value: v2, rest: r2, .. }) => {
            if values_equal(v1, v2) {
                fields_before(r1, r2)
            } else {
                value_before(v1, v2)
            }
        },
    }
}

fn less_text(a: &String, b: &String) -> (r: bool)
    ensures
        r == text_less(a@, b@),
{
    let sa = a.as_str();
    let sb = b.as_str();
    let la = sa.unicode_len();
    let lb = sb.unicode_len();
    let mut i: usize = 0;
    assert(a@.subrange(0, la as int) =~= a@);
    assert(b@.subrange(0, lb as int) =~= b@);
    while i < la && i < lb
        invariant
            sa@ == a@,
            sb@ == b@,
            la == a@.len(),
            lb == b@.len(),
            i <= la,
            i <= lb,
            text_less(a@, b@) == text_less(a@.subrange(i as int, la as int), b@.subrange(i as int, lb as int)),
        decreases la - i,
    {
        let ca = sa.get_char(i);
        let cb = sb.get_char(i);
        let ghost ra = a@.subrange(i as int, la as int);
        let ghost rb = b@.subrange(i as int, lb as int);
        assert(ra.drop_first() =~= a@.subrange(i + 1, la as int));
        assert(rb.drop_first() =~= b@.subrange(i + 1, lb as int));
        assert(ra[0] == ca && rb[0] == cb);
        if ca != cb {
            return (ca as u32) < (cb as u32);
        }
        i = i + 1;
    }
    i == la && i < lb
}

fn digit_str(d: u64) -> (r: &'static str)
    requires
        d < 10,
    ensures
        r@ == seq![digit(d as nat)],
{
    proof {
        reveal_strlit("0");
        reveal_strlit("1");
        reveal_strlit("2");
        reveal_strlit("3");
        reveal_strlit("4");
        reveal_strlit("5");
        reveal_strlit("6");
        reveal_strlit("7");
        reveal_strlit("8");
        reveal_strlit("9");
    }
    if d == 0 { "0" } else if d == 1 { "1" } else if d == 2 { "2" } else if d == 3 { "3" }
    else if d == 4 { "4" } else if d == 5 { "5" } else if d == 6 { "6" } else if d == 7 { "7" }
    else if d == 8 { "8" } else { "9" }
}

fn append_decimal(out: &mut String, n: u64)
    ensures
        final(out)@ == old(out)@ + decimal(n as nat),
    decreases n,
{
    if n >= 10 {
        append_decimal(out, n / 10);
    }
    out.append(digit_str(n % 10));
    assert(out@ =~= old(out)@ + decimal(n as nat));
}

/// The displayable form of a value: decimal for integers, the text of a
/// string, `true` or `false`.
pub fn value_to_string(val: &Value) -> (r: String)
    ensures
        r@ == value_text(*val),
{
    match val {
        Value::Int(n) => {
            let mut out = String::new();
            if *n < 0 {
                proof {
                    reveal_strlit("-");
                }
                out.append("-");
                let m: u64 = if *n == i64::MIN {
                    9223372036854775808u64
                } else {
                    (0 - *n) as u64
                };
                append_decimal(&mut out, m);
            } else {
                append_decimal(&mut out, *n as u64);
            }
            assert(out@ =~= value_text(*val));
            out
        },
        Value::Str(s) => s.clone(),
        Value::Bool(b) => if *b {
            String::from_str("true")
        } else {
            String::from_str("false")
        },
        Value::Ref(id) => {
            let mut out = String::new();
            proof {
                reveal_strlit("@");
            }
            out.append("@");
            append_decimal(&mut out, *id);
            assert(out@ =~= value_text(*val));
            out
        },
        Value::Record(_) => String::from_str("<record>"),
    }
}

fn effect_for_name(name: &String) -> (r: Option<Effect>)
    ensures
        r == effect_named(name@),
{
    if name.eq(&String::from_str("log")) {
        Some(Effect::Log)
    } else if name.eq(&String::from_str("http")) {
        Some(Effect::Http)
    } else if name.eq(&String::from_str("file_read")) {
        Some(Effect::FileRead)
    } else if name.eq(&String::from_str("file_write")) {
        Some(Effect::FileWrite)
    } else {
        None
    }
}

proof fn lemma_cap_for(caps: Seq<Capability>, e: Effect)
    ensures
        cap_for(caps, e) matches Some(c) ==> c.spec_effect() == e,
    decreases caps.len(),
{
    if caps.len() > 0 && caps[0].spec_effect() != e {
        lemma_cap_for(caps.drop_first(), e);
    }
}

fn find_cap(caps: &Vec<Capability>, e: Effect) -> (r: Option<Capability>)
    ensures
        r == cap_for(caps@, e),
{
    let mut i: usize = 0;
    assert(caps@.subrange(0, caps@.len() as int) =~= caps@);
    while i < caps.len()
        invariant
            i <= caps@.len(),
            cap_for(caps@, e) == cap_for(caps@.subrange(i as int, caps@.len() as int), e),
        decreases caps@.len() - i,
    {
        let ghost rest = caps@.subrange(i as int, caps@.len() as int);
        assert(rest.drop_first() =~= caps@.subrange(i + 1, caps@.len() as int));
        if *caps[i].effect() == e {
            return Some(caps[i]);
        }
        i = i + 1;
    }
    None
}

/// Copies a state table entry by entry.
pub fn copy_vars(vars: &Vec<(String, Value)>) -> (r: Vec<(String, Value)>)
    ensures
        r@ == vars@,
{
    let mut out: Vec<(String, Value)> = Vec::new();
    let mut i: usize = 0;
    while i < vars.len()
        invariant
            i <= vars@.len(),
            out@ =~= vars@.subrange(0, i as int),
        decreases vars@.len() - i,
    {
        out.push((vars[i].0.clone(), copy_value(&vars[i].1)));
        i = i + 1;
    }
    assert(out@ =~= vars@);
    out
}

fn exec_step(
    ctx: &EffectContext,
    caps: &Vec<Capability>,
    params: &Vec<(String, Value)>,
    ins: &Instruction,
    stack: &mut Vec<Value>,
    vars: &mut Vec<(String, Value)>,
    sends: &mut Vec<Outgoing>,
    effects: &mut Vec<EffectRecord>,
) -> (r: Result<(), ExecError>)
    ensures
        match step(*ctx, caps@, params@, machine_of(old(stack)@, old(vars)@, old(sends)@, old(effects)@), *ins) {
            Ok(m) => r is Ok && machine_of(final(stack)@, final(vars)@, final(sends)@, final(effects)@) == m,
            Err(e) => r == Err::<(), ExecError>(e) && final(effects)@ == old(effects)@,
        },
{
    let ghost m0 = machine_of(stack@, vars@, sends@, effects@);
    let n = stack.len();
    match ins {
        Instruction::LoadVar(name) => {
            match read_variable(vars, params, name) {
                Some(v) => stack.push(v),
                None => return Err(ExecError::UndefinedVariable),
            }
        },
        Instruction::LoadConst(v) => stack.push(copy_value(v)),
        Instruction::Store(name) => {
            if n == 0 {
                return Err(ExecError::StackUnderflow);
            }
            proof {
                lemma_slot_range(vars@, name@);
            }
            match find_slot(vars, name) {
                None => return Err(ExecError::UndefinedVariable),
                Some(k) => {
                    let v = stack.pop().unwrap();
                    let slot_name = vars[k].0.clone();
                    vars[k] = (slot_name, v);
                },
            }
        },
        Instruction::BinOp(op) => {
            if n < 2 {
                return Err(ExecError::StackUnderflow);
            }
            let right = stack.pop().unwrap();
            let left = stack.pop().unwrap();
            let v = eval_binop(*op, &left, &right)?;
            stack.push(v);
        },
        Instruction::Send { target_var, variant, arg_count } => {
            if n < *arg_count {
                return Err(ExecError::StackUnderflow);
            }
            match read_variable(vars, params, target_var) {
                Some(Value::Ref(id)) => {
                    let args = stack.split_off(n - *arg_count);
                    sends.push(Outgoing { target: id, variant: variant.clone(), args });
                },
                _ => return Err(ExecError::UnknownTarget),
            }
        },
        Instruction::SendRef { variant, arg_count } => {
            if n < *arg_count || n - *arg_count < 1 {
                return Err(ExecError::StackUnderflow);
            }
            match &stack[n - *arg_count - 1] {
                Value::Ref(id) => {
                    let id = *id;
                    let args = stack.split_off(n - *arg_count);
                    stack.pop();
                    sends.push(Outgoing { target: id, variant: variant.clone(), args });
                },
                _ => return Err(ExecError::UnknownTarget),
            }
        },
        Instruction::Effect { name, arg_count } => {
            if n < *arg_count {
                return Err(ExecError::StackUnderflow);
            }
            let kind = match effect_for_name(name) {
                Some(k) => k,
                None => return Err(ExecError::EffectDenied),
            };
            let cap = match find_cap(caps, kind) {
                Some(c) => c,
                None => return Err(ExecError::EffectDenied),
            };
            proof {
                lemma_cap_for(caps@, kind);
            }
            let ghost top = stack@.subrange(n - *arg_count, n as int);
            let args = stack.split_off(n - *arg_count);
            let mut words: Vec<String> = Vec::new();
            let mut i: usize = 0;
            while i < args.len()
                invariant
                    i <= args@.len(),
                    args@ == top,
                    texts(words@) =~= top.subrange(0, i as int).map_values(|v: Value| value_text(v)),
                decreases args@.len() - i,
            {
                let w = value_to_string(&args[i]);
                let ghost before = words@;
                words.push(w);
                assert(texts(words@) =~= texts(before).push(w@));
                assert(top.subrange(0, i + 1).map_values(|v: Value| value_text(v))
                    =~= top.subrange(0, i as int).map_values(|v: Value| value_text(v)).push(value_text(top[i as int])));
                i = i + 1;
            }
            assert(top.subrange(0, i as int) =~= top);
            assert(texts(words@) == top.map_values(|v: Value| value_text(v)));
            match ctx.execute(&cap, &words) {
                Ok(text) => effects.push(EffectRecord { effect: kind, text }),
                Err(_) => return Err(ExecError::InvalidCapability),
            }
        },
        Instruction::FieldAccess(field) => {
            if n == 0 {
                return Err(ExecError::StackUnderflow);
            }
            let top = stack.pop().unwrap();
            match &top {
                Value::Record(fs) => match lookup_field(fs, field) {
                    Some(v) => stack.push(v),
                    None => return Err(ExecError::NoSuchField),
                },
                _ => return Err(ExecError::NoSuchField),
            }
        },
    }
    proof {
        let m1 = machine_of(stack@, vars@, sends@, effects@);
        let want = step(*ctx, caps@, params@, m0, *ins).unwrap();
        assert(m1.stack =~= want.stack);
        assert(m1.vars =~= want.vars);
        assert(m1.sends =~= want.sends);
        assert(m1.effects =~= want.effects);
    }
    Ok(())
}

/// Runs one handler invocation against an agent's state, with the handler's
/// parameters bound to the message's fields. On success the state holds the
/// machine's final variables and the output lists the sends and effects in
/// order; on failure the state is left as it was, and the failure lists the
/// effects performed before it.
///
/// A send is recorded here with its target identifier, variant and
/// arguments in source order; an operand that is no reference fails
/// `UnknownTarget`. Whether the identifier names a live instance is decided
/// by `Runtime::step`, which fails the run `UnknownTarget` otherwise, and
/// the message is put in the target's mailbox by `Runtime::deliver`, which
/// hands back a send that met a full mailbox so that it waits for room.
/// Sends of a failed run are never delivered.
pub fn execute_handler(
    handler: &BytecodeHandler,
    state: &mut Vec<(String, Value)>,
    params: &Vec<(String, Value)>,
    ctx: &EffectContext,
    caps: &Vec<Capability>,
) -> (r: Result<HandlerOutput, HandlerFailure>)
    ensures
        match run(*ctx, caps@, params@, start(old(state)@), handler.instructions@) {
            Ok(m) => r matches Ok(out) && final(state)@ == m.vars
                && machine_of(seq![], final(state)@, out.sends@, out.effects@) == Machine { stack: seq![], ..m }
                && out.sends@.map_values(|o: Outgoing| out_view(o)) == m.sends
                && out.effects@.map_values(|x: EffectRecord| record_view(x)) == m.effects,
            Err(e) => r matches Err(f) && f.error == e && final(state)@ == old(state)@
                && f.effects@.map_values(|x: EffectRecord| record_view(x))
                == effects_before_failure(*ctx, caps@, params@, start(old(state)@), handler.instructions@),
        },
{
    let mut stack: Vec<Value> = Vec::new();
    let mut vars = copy_vars(state);
    let mut sends: Vec<Outgoing> = Vec::new();
    let mut effects: Vec<EffectRecord> = Vec::new();
    let code = &handler.instructions;
    assert(code@ == handler.instructions@);
    let ghost whole = run(*ctx, caps@, params@, start(old(state)@), code@);
    let ghost lost = effects_before_failure(*ctx, caps@, params@, start(old(state)@), code@);
    proof {
        assert(sends@.map_values(|o: Outgoing| out_view(o)) =~= seq![]);
        assert(effects@.map_values(|x: EffectRecord| record_view(x)) =~= seq![]);
        assert(stack@ =~= seq![]);
        assert(machine_of(stack@, vars@, sends@, effects@) == start(old(state)@));
        assert(code@.subrange(0, code@.len() as int) =~= code@);
    }
    let mut i: usize = 0;
    while i < code.len()
        invariant
            i <= code@.len(),
            *state == *old(state),
            code@ == handler.instructions@,
            whole == run(*ctx, caps@, params@, start(old(state)@), code@),
            whole == run(*ctx, caps@, params@, machine_of(stack@, vars@, sends@, effects@),
                code@.subrange(i as int, code@.len() as int)),
            lost == effects_before_failure(*ctx, caps@, params@, start(old(state)@), code@),
            lost == effects_before_failure(*ctx, caps@, params@, machine_of(stack@, vars@, sends@, effects@),
                code@.subrange(i as int, code@.len() as int)),
        decreases code@.len() - i,
    {
        let ghost rest = code@.subrange(i as int, code@.len() as int);
        assert(rest.drop_first() =~= code@.subrange(i + 1, code@.len() as int));
        assert(rest[0] == code@[i as int]);
        let ghost mcur = machine_of(stack@, vars@, sends@, effects@);
        let res = exec_step(ctx, caps, params, &code[i], &mut stack, &mut vars, &mut sends, &mut effects);
        if let Err(e) = res {
            assert(step(*ctx, caps@, params@, mcur, rest[0]) is Err);
            assert(whole == Err::<Machine, ExecError>(e));
            assert(lost == mcur.effects);
            return Err(HandlerFailure { error: e, effects });
        }
        i = i + 1;
    }
    proof {
        let m = whole.unwrap();
        assert(m == machine_of(stack@, vars@, sends@, effects@));
    }
    *state = vars;
    let ghost mm = machine_of(seq![], state@, sends@, effects@);
    assert(mm.stack =~= seq![]);
    assert(mm == Machine { stack: seq![], ..whole.unwrap() });
    Ok(HandlerOutput { sends, effects })
}

/// The code neither sends nor performs effects.
pub open spec fn state_only(code: Seq<Instruction>) -> bool {
    forall|i: int| 0 <= i < code.len() ==> !(#[trigger] code[i] is Send) && !(code[i] is SendRef) && !(code[i] is Effect)
}

/// A handler that neither sends nor performs effects is a function of its
/// parameters and starting state alone: any effect context and any
/// capabilities give the same outcome, and it adds no sends or effects.
pub proof fn lemma_state_only_deterministic(
    ctx1: EffectContext,
    ctx2: EffectContext,
    caps1: Seq<Capability>,
    caps2: Seq<Capability>,
    params: Seq<(String, Value)>,
    m: Machine,
    code: Seq<Instruction>,
)
    requires
        state_only(code),
    ensures
        run(ctx1, caps1, params, m, code) == run(ctx2, caps2, params, m, code),
        run(ctx1, caps1, params, m, code) matches Ok(m2) ==> m2.sends == m.sends && m2.effects == m.effects,
    decreases code.len(),
{
    if code.len() > 0 {
        assert(!(code[0] is Send) && !(code[0] is SendRef) && !(code[0] is Effect));
        assert(step(ctx1, caps1, params, m, code[0]) == step(ctx2, caps2, params, m, code[0]));
        assert(state_only(code.drop_first())) by {
            assert forall|i: int| 0 <= i < code.drop_first().len() implies
                !(#[trigger] code.drop_first()[i] is Send) && !(code.drop_first()[i] is SendRef)
                && !(code.drop_first()[i] is Effect) by {
                assert(code.drop_first()[i] == code[i + 1]);
            }
        }
        if let Ok(m1) = step(ctx1, caps1, params, m, code[0]) {
            lemma_state_only_deterministic(ctx1, ctx2, caps1, caps2, params, m1, code.drop_first());
        }
    }
}

/// The same variables, in the same order, possibly with other values.
pub open spec fn same_names(a: Seq<(String, Value)>, b: Seq<(String, Value)>) -> bool {
    &&& a.len() == b.len()
    &&& forall|i: int| 0 <= i < a.len() ==> (#[trigger] a[i]).0 == b[i].0
}

/// A handler run never adds or drops a state variable: the state holds
/// exactly the variables it started with.
pub proof fn lemma_run_keeps_names(
    ctx: EffectContext,
    caps: Seq<Capability>,
    params: Seq<(String, Value)>,
    m: Machine,
    code: Seq<Instruction>,
)
    ensures
        run(ctx, caps, params, m, code) matches Ok(m2) ==> same_names(m2.vars, m.vars),
    decreases code.len(),
{
    if code.len() > 0 {
        if let Ok(m1) = step(ctx, caps, params, m, code[0]) {
            lemma_run_keeps_names(ctx, caps, params, m1, code.drop_first());
            if let Instruction::Store(name) = code[0] {
                lemma_slot_range(m.vars, name@);
            }
            assert(same_names(m1.vars, m.vars));
        }
    }
}

/// Running two pieces of code one after the other is running their
/// concatenation.
pub proof fn lemma_run_split(
    ctx: EffectContext,
    caps: Seq<Capability>,
    params: Seq<(String, Value)>,
    m: Machine,
    a: Seq<Instruction>,
    b: Seq<Instruction>,
)
    ensures
        run(ctx, caps, params, m, a + b) == match run(ctx, caps, params, m, a) {
            Ok(m1) => run(ctx, caps, params, m1, b),
            Err(e) => Err(e),
        },
    decreases a.len(),
{
    if a.len() == 0 {
        assert(a + b =~= b);
    } else {
        assert((a + b)[0] == a[0]);
        assert((a + b).drop_first() =~= a.drop_first() + b);
        if let Ok(m1) = step(ctx, caps, params, m, a[0]) {
            lemma_run_split(ctx, caps, params, m1, a.drop_first(), b);
        }
    }
}

/// A division whose divisor is zero fails the whole run `DivisionByZero`,
/// wherever it stands: whatever ran before it, stores included, is undone,
/// since by `execute_handler`'s contract a failed run leaves the state as
/// it was.
pub proof fn lemma_division_by_zero_anywhere(
    ctx: EffectContext,
    caps: Seq<Capability>,
    params: Seq<(String, Value)>,
    m: Machine,
    before: Seq<Instruction>,
    after: Seq<Instruction>,
)
    requires
        run(ctx, caps, params, m, before) matches Ok(m1) && m1.stack.len() >= 2
            && m1.stack[m1.stack.len() - 2] is Int && m1.stack.last() == Value::Int(0),
    ensures
        run(ctx, caps, params, m, before + seq![Instruction::BinOp(BinOp::Div)] + after)
            == Err::<Machine, ExecError>(ExecError::DivisionByZero),
{
    let div = seq![Instruction::BinOp(BinOp::Div)] + after;
    assert(before + seq![Instruction::BinOp(BinOp::Div)] + after =~= before + div);
    lemma_run_split(ctx, caps, params, m, before, div);
    assert(div[0] == Instruction::BinOp(BinOp::Div));
}

/// One handler run per message, in order, each from the state the previous
/// one left (a failed run leaves it unchanged); the final state and every
/// run's outcome.
pub open spec fn run_each(
    ctx: EffectContext,
    caps: Seq<Capability>,
    code: Seq<Instruction>,
    vars: Seq<(String, Value)>,
    messages: Seq<Seq<(String, Value)>>,
) -> (Seq<(String, Value)>, Seq<Result<Machine, ExecError>>)
    decreases messages.len(),
{
    if messages.len() == 0 {
        (vars, seq![])
    } else {
        let r = run(ctx, caps, messages[0], start(vars), code);
        let next = match r {
            Ok(m) => m.vars,
            Err(_) => vars,
        };
        let rest = run_each(ctx, caps, code, next, messages.drop_first());
        (rest.0, seq![r] + rest.1)
    }
}

/// A handler that neither sends nor performs effects, fed the same messages
/// from the same state, ends in the same state with the same outcomes, under
/// any effect context and capabilities.
pub proof fn lemma_state_only_repeatable(
    ctx1: EffectContext,
    ctx2: EffectContext,
    caps1: Seq<Capability>,
    caps2: Seq<Capability>,
    code: Seq<Instruction>,
    vars: Seq<(String, Value)>,
    messages: Seq<Seq<(String, Value)>>,
)
    requires
        state_only(code),
    ensures
        run_each(ctx1, caps1, code, vars, messages) == run_each(ctx2, caps2, code, vars, messages),
    decreases messages.len(),
{
    if messages.len() > 0 {
        lemma_state_only_deterministic(ctx1, ctx2, caps1, caps2, messages[0], start(vars), code);
        let next = match run(ctx1, caps1, messages[0], start(vars), code) {
            Ok(m) => m.vars,
            Err(_) => vars,
        };
        lemma_state_only_repeatable(ctx1, ctx2, caps1, caps2, code, next, messages.drop_first());
    }
}

} // verus!
