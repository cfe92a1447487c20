//! Capability-gated effects: a context issues tokens and performs an effect
//! only for a token it issued.
use vstd::prelude::*;
use vstd::string::StringExecFns;
use std::collections::HashMap;

verus! {

broadcast use vstd::std_specs::hash::group_hash_axioms;

#[derive(Clone, Copy, PartialEq, Eq, Structural, Hash, Debug)]
pub enum Effect {
    Log,
    Http,
    FileRead,
    FileWrite,
}

#[derive(Clone, Copy, PartialEq, Eq, Structural, Debug)]
pub enum EffectError {
    /// The capability was not issued by this context for its effect.
    InvalidCapability,
}

/// A token that permits one kind of effect. It is honoured only by the
/// context whose `grant` returned it.
#[derive(Clone, Copy, PartialEq, Eq, Structural, Debug)]
pub struct Capability {
    effect: Effect,
    id: u64,
}

impl Capability {
    pub closed spec fn spec_effect(self) -> Effect {
        self.effect
    }

    pub closed spec fn spec_id(self) -> u64 {
        self.id
    }

    pub fn new(effect: Effect, id: u64) -> (r: Self)
        ensures
            r.spec_effect() == effect,
            r.spec_id() == id,
    {
        Capability { effect, id }
    }

    pub fn effect(&self) -> (r: &Effect)
        ensures
            *r == self.spec_effect(),
    {
        &self.effect
    }

    pub fn id(&self) -> (r: u64)
        ensures
            r == self.spec_id(),
    {
        self.id
    }
}

/// The authority over effects: the live capabilities by identifier, and the
/// identifier the next grant will use.
pub struct EffectContext {
    capabilities: HashMap<u64, Effect>,
    next_id: u64,
}

/// The arguments joined with single spaces.
pub open spec fn joined(args: Seq<Seq<char>>) -> Seq<char>
    decreases args.len(),
{
    if args.len() == 0 {
        seq![]
    } else if args.len() == 1 {
        args[0]
    } else {
        joined(args.drop_last()) + seq![' '] + args.last()
    }
}

/// The contents of each string.
pub open spec fn texts(ss: Seq<String>) -> Seq<Seq<char>> {
    ss.map_values(|s: String| s@)
}

/// The first argument, or `unknown` when there is none.
pub open spec fn first_or_unknown(args: Seq<Seq<char>>) -> Seq<char> {
    if args.len() > 0 {
        args[0]
    } else {
        "unknown"@
    }
}

/// The text an effect reports for its arguments.
pub open spec fn effect_text(e: Effect, args: Seq<Seq<char>>) -> Seq<char> {
    match e {
        Effect::Log => joined(args),
        Effect::Http => "HTTP request to "@ + first_or_unknown(args),
        Effect::FileRead => "Read file: "@ + first_or_unknown(args),
        Effect::FileWrite => "Wrote to file: "@ + first_or_unknown(args),
    }
}

impl EffectContext {
    pub closed spec fn live(&self) -> Map<u64, Effect> {
        self.capabilities@
    }

    pub closed spec fn next(&self) -> u64 {
        self.next_id
    }

    /// Every live identifier was handed out before the next one.
    pub open spec fn wf(&self) -> bool {
        forall|id: u64| #[trigger] self.live().contains_key(id) ==> id < self.next()
    }

    /// `cap` names a live identifier recorded for the effect it claims.
    pub open spec fn valid(&self, cap: Capability) -> bool {
        &&& self.live().contains_key(cap.spec_id())
        &&& self.live()[cap.spec_id()] == cap.spec_effect()
    }

    /// `post` is `pre` after a grant of `effect` that returned `cap`.
    pub open spec fn granted(pre: EffectContext, post: EffectContext, effect: Effect, cap: Capability) -> bool {
        &&& cap.spec_id() == pre.next()
        &&& cap.spec_effect() == effect
        &&& !pre.live().contains_key(cap.spec_id())
        &&& post.live() == pre.live().insert(pre.next(), effect)
        &&& post.next() == pre.next() + 1
    }

    pub fn new() -> (r: Self)
        ensures
            r.wf(),
            r.live().is_empty(),
            r.next() == 0,
    {
        EffectContext { capabilities: HashMap::new(), next_id: 0 }
    }

    /// The identifier the next grant will use.
    pub fn next_id(&self) -> (r: u64)
        ensures
            r == self.next(),
    {
        self.next_id
    }

    /// Issues a fresh capability for `effect` under the next identifier.
    pub fn grant(&mut self, effect: Effect) -> (r: Capability)
        requires
            old(self).wf(),
            old(self).next() < u64::MAX,
        ensures
            final(self).wf(),
            EffectContext::granted(*old(self), *final(self), effect, r),
    {
        let id = self.next_id;
        self.next_id = self.next_id + 1;
        self.capabilities.insert(id, effect);
        assert forall|k: u64| #[trigger] self.live().contains_key(k) implies k < self.next() by {
            if k != id {
                assert(old(self).live().contains_key(k));
            }
        }
        Capability::new(effect, id)
    }

    /// Succeeds exactly for a live identifier whose recorded effect is the
    /// one the capability claims.
    pub fn verify(&self, cap: &Capability) -> (r: Result<(), EffectError>)
        ensures
            r is Ok <==> self.valid(*cap),
            r matches Err(e) ==> e == EffectError::InvalidCapability,
    {
        match self.capabilities.get(&cap.id) {
            Some(effect) => if *effect == cap.effect {
                Ok(())
            } else {
                Err(EffectError::InvalidCapability)
            },
            None => Err(EffectError::InvalidCapability),
        }
    }

    /// Verifies `cap`, then performs its effect and returns the effect's text.
    pub fn execute(&self, cap: &Capability, args: &Vec<String>) -> (r: Result<String, EffectError>)
        ensures
            r is Ok <==> self.valid(*cap),
            r matches Ok(s) ==> s@ == effect_text(cap.spec_effect(), texts(args@)),
            r matches Err(e) ==> e == EffectError::InvalidCapability,
    {
        self.verify(cap)?;
        let text = match cap.effect {
            Effect::Log => join_args(args),
            Effect::Http => String::from_str("HTTP request to ").concat(first_arg(args).as_str()),
            Effect::FileRead => String::from_str("Read file: ").concat(first_arg(args).as_str()),
            Effect::FileWrite => String::from_str("Wrote to file: ").concat(first_arg(args).as_str()),
        };
        Ok(text)
    }
}

fn first_arg(args: &Vec<String>) -> (r: String)
    ensures
        r@ == first_or_unknown(texts(args@)),
{
    if args.len() > 0 {
        args[0].clone()
    } else {
        String::from_str("unknown")
    }
}

fn join_args(args: &Vec<String>) -> (r: String)
    ensures
        r@ == joined(texts(args@)),
{
    let mut out = String::new();
    let mut i: usize = 0;
    while i < args.len()
        invariant
            i <= args@.len(),
            out@ == joined(texts(args@.subrange(0, i as int))),
        decreases args@.len() - i,
    {
        let ghost pre = args@.subrange(0, i + 1);
        assert(texts(pre).drop_last() =~= texts(args@.subrange(0, i as int)));
        proof {
            reveal_strlit(" ");
        }
        if i > 0 {
            out.append(" ");
        }
        out.append(args[i].as_str());
        i = i + 1;
    }
    assert(args@.subrange(0, i as int) =~= args@);
    out
}

impl Default for EffectContext {
    fn default() -> (r: Self)
        ensures
            r.wf(),
            r.live().is_empty(),
            r.next() == 0,
    {
        EffectContext::new()
    }
}

/// A capability is honoured right after the grant that issued it.
pub proof fn lemma_granted_verifies(pre: EffectContext, post: EffectContext, effect: Effect, cap: Capability)
    requires
        EffectContext::granted(pre, post, effect, cap),
    ensures
        post.valid(cap),
{
}

/// An identifier that no grant of this context has returned yet is refused,
/// whatever effect the capability claims.
pub proof fn lemma_unissued_refused(ctx: EffectContext, cap: Capability)
    requires
        ctx.wf(),
        cap.spec_id() >= ctx.next(),
    ensures
        !ctx.valid(cap),
{
}

} // verus!
