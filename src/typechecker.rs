//! Static checking of agent definitions against the declared message types.
use vstd::prelude::*;
use crate::ast::{same_type, AgentDef, BinOp, Expr, Field, Handler, Program, Stmt, Type, TypeDef, Variant};

verus! {

#[derive(Debug, PartialEq)]
pub enum TypeError {
    /// A second type definition with this name.
    DuplicateType(String),
    /// A name bound neither as a state variable nor as a parameter.
    UndefinedVariable(String),
    TypeMismatch,
    /// The target type has no variant of the sent name.
    UnknownVariant,
    /// A send carries a different number of arguments than the variant has fields.
    ArityMismatch,
}

/// A typing environment: names with their types; a later binding shadows an
/// earlier one.
pub type Env = Vec<(String, Type)>;

/// The first type definition named `name`.
pub open spec fn find_type(ts: Seq<TypeDef>, name: Seq<char>) -> Option<TypeDef>
    decreases ts.len(),
{
    if ts.len() == 0 {
        None
    } else if ts[0].name@ == name {
        Some(ts[0])
    } else {
        find_type(ts.drop_first(), name)
    }
}

/// The first variant named `name`.
pub open spec fn find_variant(vs: Seq<Variant>, name: Seq<char>) -> Option<Variant>
    decreases vs.len(),
{
    if vs.len() == 0 {
        None
    } else if vs[0].name@ == name {
        Some(vs[0])
    } else {
        find_variant(vs.drop_first(), name)
    }
}

/// The type of the first field named `name`.
pub open spec fn field_type(fs: Seq<Field>, name: Seq<char>) -> Option<Type>
    decreases fs.len(),
{
    if fs.len() == 0 {
        None
    } else if fs[0].name@ == name {
        Some(fs[0].ty)
    } else {
        field_type(fs.drop_first(), name)
    }
}

/// The type of field `name` in a record type: taken from the first variant
/// that has such a field.
pub open spec fn record_field_type(vs: Seq<Variant>, name: Seq<char>) -> Option<Type>
    decreases vs.len(),
{
    if vs.len() == 0 {
        None
    } else {
        match field_type(vs[0].fields@, name) {
            Some(t) => Some(t),
            None => record_field_type(vs.drop_first(), name),
        }
    }
}

/// The type bound to `name`, the latest binding winning.
pub open spec fn env_lookup(env: Seq<(String, Type)>, name: Seq<char>) -> Option<Type>
    decreases env.len(),
{
    if env.len() == 0 {
        None
    } else if env.last().0@ == name {
        Some(env.last().1)
    } else {
        env_lookup(env.drop_last(), name)
    }
}

/// Registration of the type definitions in order: the first name that was
/// already registered is reported.
pub open spec fn register_all(ts: Seq<TypeDef>) -> Result<(), TypeError>
    decreases ts.len(),
{
    if ts.len() == 0 {
        Ok(())
    } else {
        match register_all(ts.drop_last()) {
            Err(e) => Err(e),
            Ok(_) => if find_type(ts.drop_last(), ts.last().name@) is Some {
                Err(TypeError::DuplicateType(ts.last().name))
            } else {
                Ok(())
            },
        }
    }
}

/// The type of an expression, or the first failure met, left operand first.
pub open spec fn infer(ts: Seq<TypeDef>, env: Seq<(String, Type)>, e: Expr) -> Result<Type, TypeError>
    decreases e,
{
    match e {
        Expr::Var(n) => match env_lookup(env, n@) {
            Some(t) => Ok(t),
            None => Err(TypeError::UndefinedVariable(n)),
        },
        Expr::Int(_) => Ok(Type::Int),
        Expr::Str(_) => Ok(Type::String),
        Expr::Bool(_) => Ok(Type::Bool),
        Expr::BinOp { op, left, right } => match infer(ts, env, *left) {
            Err(e) => Err(e),
            Ok(lt) => match infer(ts, env, *right) {
                Err(e) => Err(e),
                Ok(rt) => if op.is_arith() {
                    if lt is Int && rt is Int {
                        Ok(Type::Int)
                    } else {
                        Err(TypeError::TypeMismatch)
                    }
                } else if same_type(lt, rt) {
                    Ok(Type::Bool)
                } else {
                    Err(TypeError::TypeMismatch)
                },
            },
        },
        Expr::FieldAccess { obj, field } => match infer(ts, env, *obj) {
            Err(e) => Err(e),
            Ok(Type::Named(n)) => match find_type(ts, n@) {
                Some(td) => match record_field_type(td.variants@, field@) {
                    Some(t) => Ok(t),
                    None => Err(TypeError::TypeMismatch),
                },
                None => Err(TypeError::TypeMismatch),
            },
            Ok(_) => Err(TypeError::TypeMismatch),
        },
    }
}

/// Checks send arguments against the variant's fields, position by position.
pub open spec fn check_args(ts: Seq<TypeDef>, env: Seq<(String, Type)>, args: Seq<Expr>, fs: Seq<Field>) -> Result<(), TypeError>
    decreases args.len(),
{
    if args.len() == 0 || fs.len() == 0 {
        Ok(())
    } else {
        match infer(ts, env, args[0]) {
            Err(e) => Err(e),
            Ok(t) => if same_type(t, fs[0].ty) {
                check_args(ts, env, args.drop_first(), fs.drop_first())
            } else {
                Err(TypeError::TypeMismatch)
            },
        }
    }
}

pub open spec fn check_stmt_spec(ts: Seq<TypeDef>, env: Seq<(String, Type)>, s: Stmt) -> Result<(), TypeError> {
    match s {
        Stmt::Assign { target, value } => match env_lookup(env, target@) {
            None => Err(TypeError::UndefinedVariable(target)),
            Some(tt) => match infer(ts, env, value) {
                Err(e) => Err(e),
                Ok(vt) => if same_type(vt, tt) {
                    Ok(())
                } else {
                    Err(TypeError::TypeMismatch)
                },
            },
        },
        Stmt::Send { target, msg_variant, args } => {
            match infer(ts, env, target) {
                Err(e) => Err(e),
                Ok(Type::Ref(tn)) => match find_type(ts, tn@) {
                    None => Err(TypeError::UnknownVariant),
                    Some(td) => match find_variant(td.variants@, msg_variant@) {
                        None => Err(TypeError::UnknownVariant),
                        Some(v) => if args@.len() != v.fields@.len() {
                            Err(TypeError::ArityMismatch)
                        } else {
                            check_args(ts, env, args@, v.fields@)
                        },
                    },
                },
                Ok(_) => Err(TypeError::TypeMismatch),
            }
        },
        Stmt::Effect { .. } => Ok(()),
    }
}

/// Checks statements in order; the first failure is reported.
pub open spec fn check_body(ts: Seq<TypeDef>, env: Seq<(String, Type)>, ss: Seq<Stmt>) -> Result<(), TypeError>
    decreases ss.len(),
{
    if ss.len() == 0 {
        Ok(())
    } else {
        match check_stmt_spec(ts, env, ss[0]) {
            Err(e) => Err(e),
            Ok(_) => check_body(ts, env, ss.drop_first()),
        }
    }
}

/// The state variables with their declared types.
pub open spec fn state_env(a: AgentDef) -> Seq<(String, Type)> {
    Seq::new(a.state@.len(), |i: int| (a.state@[i].name, a.state@[i].ty))
}

/// A handler's environment: the agent's state, then its parameters. The
/// parameters are typed `Int`.
pub open spec fn handler_env(a: AgentDef, h: Handler) -> Seq<(String, Type)> {
    state_env(a) + Seq::new(h.params@.len(), |i: int| (h.params@[i], Type::Int))
}

pub open spec fn check_handlers(ts: Seq<TypeDef>, a: AgentDef, hs: Seq<Handler>) -> Result<(), TypeError>
    decreases hs.len(),
{
    if hs.len() == 0 {
        Ok(())
    } else {
        match check_body(ts, handler_env(a, hs[0]), hs[0].body@) {
            Err(e) => Err(e),
            Ok(_) => check_handlers(ts, a, hs.drop_first()),
        }
    }
}

pub open spec fn check_agents(ts: Seq<TypeDef>, agents: Seq<AgentDef>) -> Result<(), TypeError>
    decreases agents.len(),
{
    if agents.len() == 0 {
        Ok(())
    } else {
        match check_handlers(ts, agents[0], agents[0].handlers@) {
            Err(e) => Err(e),
            Ok(_) => check_agents(ts, agents.drop_first()),
        }
    }
}

/// The verdict on a whole program: types are registered first, then every
/// agent is checked in order.
pub open spec fn check_program(p: Program) -> Result<(), TypeError> {
    match register_all(p.types@) {
        Err(e) => Err(e),
        Ok(_) => check_agents(p.types@, p.agents@),
    }
}

/// Type checks a program: registers every type definition, then checks each
/// agent's handlers. The input is only read.
pub fn typecheck(program: &Program) -> (r: Result<(), TypeError>)
    ensures
        r == check_program(*program),
{
    let mut ctx = TypeContext::new(&program.types);
    while ctx.count < program.types.len()
        invariant
            ctx.types == &program.types,
            ctx.count <= program.types@.len(),
            register_all(program.types@.subrange(0, ctx.count as int)) is Ok,
        decreases program.types@.len() - ctx.count,
    {
        let ghost before = ctx.count as int;
        let res = ctx.register_type();
        proof {
            assert(program.types@.subrange(0, before + 1).drop_last()
                =~= program.types@.subrange(0, before));
        }
        if let Err(e) = res {
            proof { lemma_register_prefix_err(program.types@, before + 1); }
            return Err(e);
        }
    }
    assert(program.types@.subrange(0, ctx.count as int) =~= program.types@);
    assert(program.agents@.subrange(0, program.agents@.len() as int) =~= program.agents@);
    let mut i: usize = 0;
    while i < program.agents.len()
        invariant
            ctx.types == &program.types,
            ctx.count == program.types@.len(),
            i <= program.agents@.len(),
            register_all(program.types@) is Ok,
            check_agents(program.types@, program.agents@)
                == check_agents(program.types@, program.agents@.subrange(i as int, program.agents@.len() as int)),
        decreases program.agents@.len() - i,
    {
        let ghost rest = program.agents@.subrange(i as int, program.agents@.len() as int);
        assert(rest.drop_first() =~= program.agents@.subrange(i + 1, program.agents@.len() as int));
        check_agent(&ctx, &program.agents[i])?;
        i = i + 1;
    }
    Ok(())
}

/// A failure while registering a prefix is the failure of the whole list.
proof fn lemma_register_prefix_err(ts: Seq<TypeDef>, k: int)
    requires
        0 <= k <= ts.len(),
        register_all(ts.subrange(0, k)) is Err,
    ensures
        register_all(ts) == register_all(ts.subrange(0, k)),
    decreases ts.len() - k,
{
    if k < ts.len() {
        assert(ts.subrange(0, k + 1).drop_last() =~= ts.subrange(0, k));
        lemma_register_prefix_err(ts, k + 1);
    } else {
        assert(ts.subrange(0, k) =~= ts);
    }
}

/// The registered type definitions: the first `count` of the program's.
struct TypeContext<'a> {
    types: &'a Vec<TypeDef>,
    count: usize,
}

impl<'a> TypeContext<'a> {
    spec fn registered(&self) -> Seq<TypeDef> {
        self.types@.subrange(0, self.count as int)
    }

    fn new(types: &'a Vec<TypeDef>) -> (r: Self)
        ensures
            r.types == types,
            r.count == 0,
    {
        TypeContext { types, count: 0 }
    }

    /// Registers the next definition; fails if its name is taken.
    fn register_type(&mut self) -> (r: Result<(), TypeError>)
        requires
            old(self).count < old(self).types@.len(),
        ensures
            final(self).types == old(self).types,
            final(self).count == old(self).count + 1,
            r is Ok <==> find_type(old(self).registered(), old(self).types@[old(self).count as int].name@) is None,
            r matches Err(e) ==> e == TypeError::DuplicateType(old(self).types@[old(self).count as int].name),
    {
        assert(self.count < self.types.len());
        let td = &self.types[self.count];
        let found = self.get_type(&td.name).is_some();
        self.count = self.count + 1;
        if found {
            Err(TypeError::DuplicateType(td.name.clone()))
        } else {
            Ok(())
        }
    }

    fn get_type(&self, name: &String) -> (r: Option<&'a TypeDef>)
        requires
            self.count <= self.types@.len(),
        ensures
            r is Some <==> find_type(self.registered(), name@) is Some,
            r matches Some(t) ==> find_type(self.registered(), name@) == Some(*t),
    {
        let types: &'a Vec<TypeDef> = self.types;
        let mut i: usize = 0;
        while i < self.count
            invariant
                i <= self.count <= types@.len(),
                types == self.types,
                find_type(self.registered(), name@)
                    == find_type(types@.subrange(i as int, self.count as int), name@),
            decreases self.count - i,
        {
            let ghost rest = types@.subrange(i as int, self.count as int);
            assert(rest.drop_first() =~= types@.subrange(i + 1, self.count as int));
            if types[i].name.eq(name) {
                return Some(&types[i]);
            }
            i = i + 1;
        }
        None
    }

    fn variant_exists(&self, ty_name: &String, variant_name: &String) -> (r: Option<&'a Variant>)
        requires
            self.count <= self.types@.len(),
        ensures
            r is Some <==> (find_type(self.registered(), ty_name@) matches Some(td)
                && find_variant(td.variants@, variant_name@) is Some),
            r matches Some(v) ==> (find_type(self.registered(), ty_name@) matches Some(td)
                && find_variant(td.variants@, variant_name@) == Some(*v)),
    {
        match self.get_type(ty_name) {
            None => None,
            Some(td) => find_variant_in(&td.variants, variant_name),
        }
    }
}

fn find_variant_in<'b>(vs: &'b Vec<Variant>, name: &String) -> (r: Option<&'b Variant>)
    ensures
        r is Some <==> find_variant(vs@, name@) is Some,
        r matches Some(v) ==> find_variant(vs@, name@) == Some(*v),
{
    assert(vs@.subrange(0, vs@.len() as int) =~= vs@);
    let mut i: usize = 0;
    while i < vs.len()
        invariant
            i <= vs@.len(),
            find_variant(vs@, name@) == find_variant(vs@.subrange(i as int, vs@.len() as int), name@),
        decreases vs@.len() - i,
    {
        let ghost rest = vs@.subrange(i as int, vs@.len() as int);
        assert(rest.drop_first() =~= vs@.subrange(i + 1, vs@.len() as int));
        if vs[i].name.eq(name) {
            return Some(&vs[i]);
        }
        i = i + 1;
    }
    None
}

fn find_field_type(fs: &Vec<Field>, name: &String) -> (r: Option<Type>)
    ensures
        r == field_type(fs@, name@),
{
    assert(fs@.subrange(0, fs@.len() as int) =~= fs@);
    let mut i: usize = 0;
    while i < fs.len()
        invariant
            i <= fs@.len(),
            field_type(fs@, name@) == field_type(fs@.subrange(i as int, fs@.len() as int), name@),
        decreases fs@.len() - i,
    {
        let ghost rest = fs@.subrange(i as int, fs@.len() as int);
        assert(rest.drop_first() =~= fs@.subrange(i + 1, fs@.len() as int));
        if fs[i].name.eq(name) {
            return Some(fs[i].ty.copy());
        }
        i = i + 1;
    }
    None
}

fn find_record_field(vs: &Vec<Variant>, name: &String) -> (r: Option<Type>)
    ensures
        r == record_field_type(vs@, name@),
{
    assert(vs@.subrange(0, vs@.len() as int) =~= vs@);
    let mut i: usize = 0;
    while i < vs.len()
        invariant
            i <= vs@.len(),
            record_field_type(vs@, name@) == record_field_type(vs@.subrange(i as int, vs@.len() as int), name@),
        decreases vs@.len() - i,
    {
        let ghost rest = vs@.subrange(i as int, vs@.len() as int);
        assert(rest.drop_first() =~= vs@.subrange(i + 1, vs@.len() as int));
        if let Some(t) = find_field_type(&vs[i].fields, name) {
            return Some(t);
        }
        i = i + 1;
    }
    None
}

fn lookup_var(env: &Env, name: &String) -> (r: Option<Type>)
    ensures
        r == env_lookup(env@, name@),
{
    let mut i: usize = env.len();
    assert(env@.subrange(0, i as int) =~= env@);
    while i > 0
        invariant
            i <= env@.len(),
            env_lookup(env@, name@) == env_lookup(env@.subrange(0, i as int), name@),
        decreases i,
    {
        let ghost pre = env@.subrange(0, i as int);
        assert(pre.drop_last() =~= env@.subrange(0, i - 1));
        if env[i - 1].0.eq(name) {
            return Some(env[i - 1].1.copy());
        }
        i = i - 1;
    }
    None
}

/// The environment of a handler: state variables, then parameters.
fn build_env(agent: &AgentDef, handler: &Handler) -> (r: Env)
    ensures
        r@ == handler_env(*agent, *handler),
{
    let mut env: Env = Vec::new();
    let mut i: usize = 0;
    while i < agent.state.len()
        invariant
            i <= agent.state@.len(),
            env@ =~= state_env(*agent).subrange(0, i as int),
        decreases agent.state@.len() - i,
    {
        env.push((agent.state[i].name.clone(), agent.state[i].ty.copy()));
        i = i + 1;
    }
    let mut k: usize = 0;
    while k < handler.params.len()
        invariant
            k <= handler.params@.len(),
            env@ =~= handler_env(*agent, *handler).subrange(0, agent.state@.len() + k),
        decreases handler.params@.len() - k,
    {
        env.push((handler.params[k].clone(), Type::Int));
        k = k + 1;
    }
    assert(env@ =~= handler_env(*agent, *handler));
    env
}

fn check_agent(ctx: &TypeContext, agent: &AgentDef) -> (r: Result<(), TypeError>)
    requires
        ctx.count == ctx.types@.len(),
    ensures
        r == check_handlers(ctx.types@, *agent, agent.handlers@),
{
    assert(agent.handlers@.subrange(0, agent.handlers@.len() as int) =~= agent.handlers@);
    let mut i: usize = 0;
    while i < agent.handlers.len()
        invariant
            ctx.count == ctx.types@.len(),
            i <= agent.handlers@.len(),
            check_handlers(ctx.types@, *agent, agent.handlers@)
                == check_handlers(ctx.types@, *agent, agent.handlers@.subrange(i as int, agent.handlers@.len() as int)),
        decreases agent.handlers@.len() - i,
    {
        let ghost rest = agent.handlers@.subrange(i as int, agent.handlers@.len() as int);
        assert(rest.drop_first() =~= agent.handlers@.subrange(i + 1, agent.handlers@.len() as int));
        let env = build_env(agent, &agent.handlers[i]);
        check_handler(ctx, &env, &agent.handlers[i])?;
        i = i + 1;
    }
    Ok(())
}

fn check_handler(ctx: &TypeContext, env: &Env, handler: &Handler) -> (r: Result<(), TypeError>)
    requires
        ctx.count == ctx.types@.len(),
    ensures
        r == check_body(ctx.types@, env@, handler.body@),
{
    assert(handler.body@.subrange(0, handler.body@.len() as int) =~= handler.body@);
    let mut i: usize = 0;
    while i < handler.body.len()
        invariant
            ctx.count == ctx.types@.len(),
            i <= handler.body@.len(),
            check_body(ctx.types@, env@, handler.body@)
                == check_body(ctx.types@, env@, handler.body@.subrange(i as int, handler.body@.len() as int)),
        decreases handler.body@.len() - i,
    {
        let ghost rest = handler.body@.subrange(i as int, handler.body@.len() as int);
        assert(rest.drop_first() =~= handler.body@.subrange(i + 1, handler.body@.len() as int));
        check_stmt(ctx, env, &handler.body[i])?;
        i = i + 1;
    }
    Ok(())
}

fn check_stmt(ctx: &TypeContext, env: &Env, stmt: &Stmt) -> (r: Result<(), TypeError>)
    requires
        ctx.count == ctx.types@.len(),
    ensures
        r == check_stmt_spec(ctx.types@, env@, *stmt),
{
    assert(ctx.registered() =~= ctx.types@);
    match stmt {
        Stmt::Assign { target, value } => {
            match lookup_var(env, target) {
                None => Err(TypeError::UndefinedVariable(target.clone())),
                Some(tt) => {
                    let vt = infer_expr(ctx, env, value)?;
                    if vt.same_as(&tt) {
                        Ok(())
                    } else {
                        Err(TypeError::TypeMismatch)
                    }
                },
            }
        },
        Stmt::Send { target, msg_variant, args } => {
            let tt = infer_expr(ctx, env, target)?;
            match tt {
                Type::Ref(tn) => match ctx.variant_exists(&tn, msg_variant) {
                    None => Err(TypeError::UnknownVariant),
                    Some(v) => {
                        if args.len() != v.fields.len() {
                            Err(TypeError::ArityMismatch)
                        } else {
                            check_send_args(ctx, env, args, &v.fields)
                        }
                    },
                },
                _ => Err(TypeError::TypeMismatch),
            }
        },
        Stmt::Effect { .. } => Ok(()),
    }
}

fn check_send_args(ctx: &TypeContext, env: &Env, args: &Vec<Expr>, fields: &Vec<Field>) -> (r: Result<(), TypeError>)
    requires
        ctx.count == ctx.types@.len(),
        args@.len() == fields@.len(),
    ensures
        r == check_args(ctx.types@, env@, args@, fields@),
{
    assert(args@.subrange(0, args@.len() as int) =~= args@);
    assert(fields@.subrange(0, fields@.len() as int) =~= fields@);
    let mut i: usize = 0;
    while i < args.len()
        invariant
            ctx.count == ctx.types@.len(),
            args@.len() == fields@.len(),
            i <= args@.len(),
            check_args(ctx.types@, env@, args@, fields@) == check_args(
                ctx.types@,
                env@,
                args@.subrange(i as int, args@.len() as int),
                fields@.subrange(i as int, fields@.len() as int),
            ),
        decreases args@.len() - i,
    {
        let ghost ra = args@.subrange(i as int, args@.len() as int);
        let ghost rf = fields@.subrange(i as int, fields@.len() as int);
        assert(ra.drop_first() =~= args@.subrange(i + 1, args@.len() as int));
        assert(rf.drop_first() =~= fields@.subrange(i + 1, fields@.len() as int));
        let t = infer_expr(ctx, env, &args[i])?;
        if !t.same_as(&fields[i].ty) {
            return Err(TypeError::TypeMismatch);
        }
        i = i + 1;
    }
    Ok(())
}

fn infer_expr(ctx: &TypeContext, env: &Env, expr: &Expr) -> (r: Result<Type, TypeError>)
    requires
        ctx.count == ctx.types@.len(),
    ensures
        r == infer(ctx.types@, env@, *expr),
    decreases expr,
{
    assert(ctx.registered() =~= ctx.types@);
    match expr {
        Expr::Var(name) => match lookup_var(env, name) {
            Some(t) => Ok(t),
            None => Err(TypeError::UndefinedVariable(name.clone())),
        },
        Expr::Int(_) => Ok(Type::Int),
        Expr::Str(_) => Ok(Type::String),
        Expr::Bool(_) => Ok(Type::Bool),
        Expr::BinOp { op, left, right } => {
            let lt = infer_expr(ctx, env, left)?;
            let rt = infer_expr(ctx, env, right)?;
            let arith = match op {
                BinOp::Add | BinOp::Sub | BinOp::Mul | BinOp::Div => true,
                _ => false,
            };
            if arith {
                match (lt, rt) {
                    (Type::Int, Type::Int) => Ok(Type::Int),
                    _ => Err(TypeError::TypeMismatch),
                }
            } else if lt.same_as(&rt) {
                Ok(Type::Bool)
            } else {
                Err(TypeError::TypeMismatch)
            }
        },
        Expr::FieldAccess { obj, field } => {
            let ot = infer_expr(ctx, env, obj)?;
            match ot {
                Type::Named(n) => match ctx.get_type(&n) {
                    Some(td) => match find_record_field(&td.variants, field) {
                        Some(t) => Ok(t),
                        None => Err(TypeError::TypeMismatch),
                    },
                    None => Err(TypeError::TypeMismatch),
                },
                _ => Err(TypeError::TypeMismatch),
            }
        },
    }
}

/// Checking is a pure function of the program tree: checking the same tree
/// again gives the same verdict, so a program that passed passes again.
pub proof fn lemma_typecheck_idempotent(p: Program, r1: Result<(), TypeError>, r2: Result<(), TypeError>)
    requires
        r1 == check_program(p),
        r2 == check_program(p),
    ensures
        r1 == r2,
        r1 is Ok ==> r2 is Ok,
{
}

} // verus!
