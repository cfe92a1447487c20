//! The scheduler: agent instances with their state and mailbox, and the
//! processing of one message at a time per instance.
use vstd::prelude::*;
use crate::bytecode::{BytecodeAgent, BytecodeHandler, BytecodeProgram, Value, copy_value};
use crate::effects::{Capability, EffectContext};
use crate::interpreter::{
    copy_vars, effects_before_failure, execute_handler, out_view, record_view, run, start, EffectRecord, ExecError, Outgoing,
};
use crate::mailbox::{Mailbox, Message, RuntimeError};

verus! {

/// One running copy of a compiled agent.
pub struct Instance {
    /// Index of the agent in the program.
    pub agent: usize,
    pub state: Vec<(String, Value)>,
    pub mailbox: Mailbox<Message>,
}

/// What processing one message came to.
pub enum StepReport {
    /// The mailbox was empty.
    Idle,
    /// No handler accepts the message's variant; the message is dropped.
    NoHandler,
    /// The handler failed; the state is as before the message. The effects
    /// it performed before failing are listed.
    Failed { error: ExecError, effects: Vec<EffectRecord> },
    /// The handler ran to completion.
    Done { sends: Vec<Outgoing>, effects: Vec<EffectRecord> },
}

/// The index of the first handler for `variant`, or -1.
pub open spec fn handler_index(hs: Seq<BytecodeHandler>, variant: Seq<char>) -> int
    decreases hs.len(),
{
    if hs.len() == 0 {
        -1
    } else {
        let k = handler_index(hs.drop_last(), variant);
        if k >= 0 {
            k
        } else if hs.last().variant@ == variant {
            hs.len() - 1
        } else {
            -1
        }
    }
}

proof fn lemma_handler_prefix(hs: Seq<BytecodeHandler>, variant: Seq<char>, k: int)
    requires
        0 <= k <= hs.len(),
        handler_index(hs.subrange(0, k), variant) >= 0,
    ensures
        handler_index(hs, variant) == handler_index(hs.subrange(0, k), variant),
    decreases hs.len() - k,
{
    if k < hs.len() {
        assert(hs.subrange(0, k + 1).drop_last() =~= hs.subrange(0, k));
        lemma_handler_prefix(hs, variant, k + 1);
    } else {
        assert(hs.subrange(0, k) =~= hs);
    }
}

fn find_handler(hs: &Vec<BytecodeHandler>, variant: &String) -> (r: Option<usize>)
    ensures
        r is None <==> handler_index(hs@, variant@) < 0,
        r matches Some(k) ==> k == handler_index(hs@, variant@) && k < hs@.len(),
{
    let mut i: usize = 0;
    assert(hs@.subrange(0, 0) =~= Seq::<BytecodeHandler>::empty());
    while i < hs.len()
        invariant
            i <= hs@.len(),
            handler_index(hs@.subrange(0, i as int), variant@) == -1,
        decreases hs@.len() - i,
    {
        assert(hs@.subrange(0, i + 1).drop_last() =~= hs@.subrange(0, i as int));
        if hs[i].variant.eq(variant) {
            proof {
                lemma_handler_prefix(hs@, variant@, i + 1);
            }
            return Some(i);
        }
        i = i + 1;
    }
    assert(hs@.subrange(0, i as int) =~= hs@);
    None
}

fn copy_values(vs: &Vec<Value>) -> (r: Vec<Value>)
    ensures
        r@ == vs@,
{
    let mut out: Vec<Value> = Vec::new();
    let mut i: usize = 0;
    while i < vs.len()
        invariant
            i <= vs@.len(),
            out@ =~= vs@.subrange(0, i as int),
        decreases vs@.len() - i,
    {
        out.push(copy_value(&vs[i]));
        i = i + 1;
    }
    assert(out@ =~= vs@);
    out
}

fn bind_params(params: &Vec<String>, args: &Vec<Value>) -> (r: Vec<(String, Value)>)
    ensures
        r@ == bind(params@, args@),
{
    let mut out: Vec<(String, Value)> = Vec::new();
    let mut i: usize = 0;
    while i < params.len() && i < args.len()
        invariant
            i <= params@.len(),
            i <= args@.len(),
            out@ =~= bind(params@, args@).subrange(0, i as int),
        decreases params@.len() - i,
    {
        out.push((params[i].clone(), copy_value(&args[i])));
        i = i + 1;
    }
    assert(out@ =~= bind(params@, args@));
    out
}

/// Every send goes to one of the first `n` instances.
pub open spec fn targets_live(sends: Seq<(u64, Seq<char>, Seq<Value>)>, n: nat) -> bool {
    forall|i: int| 0 <= i < sends.len() ==> (#[trigger] sends[i]).0 < n
}

fn all_live(sends: &Vec<Outgoing>, n: usize) -> (r: bool)
    ensures
        r == targets_live(sends@.map_values(|o: Outgoing| out_view(o)), n as nat),
{
    let ghost views = sends@.map_values(|o: Outgoing| out_view(o));
    let mut i: usize = 0;
    while i < sends.len()
        invariant
            i <= sends@.len(),
            views == sends@.map_values(|o: Outgoing| out_view(o)),
            forall|j: int| 0 <= j < i ==> (#[trigger] views[j]).0 < n,
        decreases sends@.len() - i,
    {
        if sends[i].target >= n as u64 {
            assert(views[i as int].0 == sends@[i as int].target);
            return false;
        }
        i = i + 1;
    }
    true
}

/// Parameters bound to message fields, position by position.
pub open spec fn bind(params: Seq<String>, args: Seq<Value>) -> Seq<(String, Value)> {
    let n = if params.len() < args.len() { params.len() } else { args.len() };
    Seq::new(n, |i: int| (params[i], args[i]))
}

/// A mailbox as delivery sees it: its messages, its bound, whether closed.
pub type BoxView = (Seq<Message>, nat, bool);

pub open spec fn box_view(m: Mailbox<Message>) -> BoxView {
    (m.items(), m.bound(), m.is_shut())
}

/// One send put to the mailboxes without waiting: a missing or closed
/// target is `Closed`, a full one `MailboxFull`; otherwise the message joins
/// the end of the target's queue.
pub open spec fn post_one(boxes: Seq<BoxView>, o: Outgoing) -> (Seq<BoxView>, Option<RuntimeError>) {
    if o.target >= boxes.len() {
        (boxes, Some(RuntimeError::Closed))
    } else {
        let b = boxes[o.target as int];
        if b.2 {
            (boxes, Some(RuntimeError::Closed))
        } else if b.0.len() >= b.1 {
            (boxes, Some(RuntimeError::MailboxFull))
        } else {
            let msg = Message { variant: o.variant, args: o.args };
            (boxes.update(o.target as int, (b.0.push(msg), b.1, b.2)), None)
        }
    }
}

/// Sends put in order; the refused ones are handed back, in order, with the
/// reason.
pub open spec fn deliver_all(boxes: Seq<BoxView>, sends: Seq<Outgoing>) -> (Seq<BoxView>, Seq<(Outgoing, RuntimeError)>)
    decreases sends.len(),
{
    if sends.len() == 0 {
        (boxes, seq![])
    } else {
        let (bs, failed) = deliver_all(boxes, sends.drop_last());
        let (bs2, r) = post_one(bs, sends.last());
        match r {
            Some(e) => (bs2, failed.push((sends.last(), e))),
            None => (bs2, failed),
        }
    }
}

/// Holds the program and the instances spawned from it; an instance's
/// identifier is its position.
pub struct Runtime {
    program: BytecodeProgram,
    instances: Vec<Instance>,
}

impl Runtime {
    pub closed spec fn agents(&self) -> Seq<BytecodeAgent> {
        self.program.agents@
    }

    pub closed spec fn instances(&self) -> Seq<Instance> {
        self.instances@
    }

    pub open spec fn wf(&self) -> bool {
        forall|i: int|
            0 <= i < self.instances().len() ==> {
                &&& (#[trigger] self.instances()[i]).agent < self.agents().len()
                &&& self.instances()[i].mailbox.wf()
            }
    }

    pub fn new(program: BytecodeProgram) -> (r: Self)
        ensures
            r.wf(),
            r.agents() == program.agents@,
            r.instances().len() == 0,
    {
        Runtime { program, instances: Vec::new() }
    }

    pub fn instance_count(&self) -> (r: usize)
        ensures
            r == self.instances().len(),
    {
        self.instances.len()
    }

    pub fn instance(&self, id: usize) -> (r: &Instance)
        requires
            id < self.instances().len(),
        ensures
            *r == self.instances()[id as int],
    {
        &self.instances[id]
    }

    /// Starts an instance of agent `agent` with its initial state and an
    /// empty mailbox of the given capacity; returns its identifier.
    pub fn spawn(&mut self, agent: usize, capacity: usize) -> (r: usize)
        requires
            old(self).wf(),
            agent < old(self).agents().len(),
            capacity > 0,
        ensures
            final(self).wf(),
            final(self).agents() == old(self).agents(),
            r == old(self).instances().len(),
            final(self).instances().len() == r + 1,
            final(self).instances().subrange(0, r as int) == old(self).instances(),
            final(self).instances()[r as int].agent == agent,
            final(self).instances()[r as int].state@ == old(self).agents()[agent as int].state_init@,
            final(self).instances()[r as int].mailbox.items().len() == 0,
            final(self).instances()[r as int].mailbox.bound() == capacity,
            !final(self).instances()[r as int].mailbox.is_shut(),
    {
        let state = copy_vars(&self.program.agents[agent].state_init);
        let id = self.instances.len();
        self.instances.push(Instance { agent, state, mailbox: Mailbox::new(capacity) });
        assert(self.instances@.subrange(0, id as int) =~= old(self).instances@);
        assert forall|i: int| 0 <= i < self.instances().len() implies {
            &&& (#[trigger] self.instances()[i]).agent < self.agents().len()
            &&& self.instances()[i].mailbox.wf()
        } by {
            if i < id {
                assert(self.instances()[i] == old(self).instances()[i]);
            }
        }
        id
    }

    /// Puts `msg` in the mailbox of instance `target` without waiting; an
    /// identifier that names no instance is `Closed`.
    pub fn post(&mut self, target: u64, msg: Message) -> (r: Result<(), RuntimeError>)
        requires
            old(self).wf(),
        ensures
            final(self).wf(),
            final(self).agents() == old(self).agents(),
            final(self).instances().len() == old(self).instances().len(),
            target >= old(self).instances().len() ==> r == Err::<(), RuntimeError>(RuntimeError::Closed)
                && final(self).instances() == old(self).instances(),
            forall|i: int| 0 <= i < old(self).instances().len() && i != target
                ==> #[trigger] final(self).instances()[i] == old(self).instances()[i],
            target < old(self).instances().len() ==> {
                let pre = old(self).instances()[target as int];
                let post = final(self).instances()[target as int];
                &&& post.agent == pre.agent
                &&& post.state == pre.state
                &&& Mailbox::send_post(pre.mailbox, msg, post.mailbox, r)
            },
    {
        if target >= self.instances.len() as u64 {
            return Err(RuntimeError::Closed);
        }
        let t = target as usize;
        let mut inst = self.instances.remove(t);
        let r = inst.mailbox.try_send(msg);
        self.instances.insert(t, inst);
        assert forall|i: int| 0 <= i < self.instances().len() implies {
            &&& (#[trigger] self.instances()[i]).agent < self.agents().len()
            &&& self.instances()[i].mailbox.wf()
        } by {
            if i != t {
                assert(self.instances()[i] == old(self).instances()[i]);
            }
        }
        r
    }

    /// Closes the mailbox of instance `id`: later sends to it fail `Closed`,
    /// while the messages already queued stay to be processed.
    pub fn close(&mut self, id: usize)
        requires
            old(self).wf(),
            id < old(self).instances().len(),
        ensures
            final(self).wf(),
            final(self).agents() == old(self).agents(),
            final(self).instances().len() == old(self).instances().len(),
            forall|i: int| 0 <= i < old(self).instances().len() && i != id
                ==> #[trigger] final(self).instances()[i] == old(self).instances()[i],
            final(self).instances()[id as int].agent == old(self).instances()[id as int].agent,
            final(self).instances()[id as int].state == old(self).instances()[id as int].state,
            final(self).instances()[id as int].mailbox.is_shut(),
            final(self).instances()[id as int].mailbox.items() == old(self).instances()[id as int].mailbox.items(),
            final(self).instances()[id as int].mailbox.bound() == old(self).instances()[id as int].mailbox.bound(),
    {
        let mut inst = self.instances.remove(id);
        inst.mailbox.close();
        self.instances.insert(id, inst);
        assert forall|i: int| 0 <= i < self.instances().len() implies {
            &&& (#[trigger] self.instances()[i]).agent < self.agents().len()
            &&& self.instances()[i].mailbox.wf()
        } by {
            if i != id {
                assert(self.instances()[i] == old(self).instances()[i]);
            }
        }
    }

    /// Processes the oldest message of instance `id`: finds the handler for
    /// its variant, binds the parameters to its fields and runs the handler
    /// against the instance's state. A failing handler leaves the state as
    /// it was; so does one that sends to an identifier naming no instance,
    /// which fails `UnknownTarget`. The sends of a successful one are handed
    /// back for delivery.
    pub fn step(&mut self, id: usize, ctx: &EffectContext, caps: &Vec<Capability>) -> (r: StepReport)
        requires
            old(self).wf(),
            id < old(self).instances().len(),
        ensures
            final(self).wf(),
            final(self).agents() == old(self).agents(),
            final(self).instances().len() == old(self).instances().len(),
            forall|i: int| 0 <= i < old(self).instances().len() && i != id
                ==> #[trigger] final(self).instances()[i] == old(self).instances()[i],
            ({
                let pre = old(self).instances()[id as int];
                let post = final(self).instances()[id as int];
                &&& post.agent == pre.agent
                &&& post.mailbox.wf()
                &&& post.mailbox.bound() == pre.mailbox.bound()
                &&& post.mailbox.is_shut() == pre.mailbox.is_shut()
                &&& pre.mailbox.items().len() == 0 ==> r is Idle && post.state == pre.state
                    && post.mailbox.items() == pre.mailbox.items()
                &&& pre.mailbox.items().len() > 0 ==> post.mailbox.items() == pre.mailbox.items().drop_first()
                &&& pre.mailbox.items().len() > 0 ==> {
                    let msg = pre.mailbox.items()[0];
                    let a = old(self).agents()[pre.agent as int];
                    let h = handler_index(a.handlers@, msg.variant@);
                    &&& h < 0 ==> r is NoHandler && post.state == pre.state
                    &&& h >= 0 ==> match run(*ctx, caps@, bind(a.handlers@[h].params@, msg.args@),
                        start(pre.state@), a.handlers@[h].instructions@) {
                        Ok(m) => if targets_live(m.sends, old(self).instances().len()) {
                            post.state@ == m.vars && (r matches StepReport::Done { sends, effects }
                                && sends@.map_values(|o: Outgoing| out_view(o)) == m.sends
                                && effects@.map_values(|x: EffectRecord| record_view(x)) == m.effects)
                        } else {
                            post.state@ == pre.state@ && (r matches StepReport::Failed { error, effects }
                                && error == ExecError::UnknownTarget
                                && effects@.map_values(|x: EffectRecord| record_view(x)) == m.effects)
                        },
                        Err(e) => post.state@ == pre.state@ && (r matches StepReport::Failed { error, effects }
                            && error == e
                            && effects@.map_values(|x: EffectRecord| record_view(x)) == effects_before_failure(
                                *ctx, caps@, bind(a.handlers@[h].params@, msg.args@), start(pre.state@),
                                a.handlers@[h].instructions@)),
                    }
                }
            }),
    {
        let ghost pre = self.instances@[id as int];
        let count = self.instances.len();
        let mut inst = self.instances.remove(id);
        let report = match inst.mailbox.recv() {
            None => StepReport::Idle,
            Some(msg) => {
                let agent = &self.program.agents[inst.agent];
                match find_handler(&agent.handlers, &msg.variant) {
                    None => StepReport::NoHandler,
                    Some(h) => {
                        let handler = &agent.handlers[h];
                        let params = bind_params(&handler.params, &msg.args);
                        let saved = copy_vars(&inst.state);
                        match execute_handler(handler, &mut inst.state, &params, ctx, caps) {
                            Ok(out) => if all_live(&out.sends, count) {
                                StepReport::Done { sends: out.sends, effects: out.effects }
                            } else {
                                inst.state = saved;
                                StepReport::Failed { error: ExecError::UnknownTarget, effects: out.effects }
                            },
                            Err(f) => StepReport::Failed { error: f.error, effects: f.effects },
                        }
                    },
                }
            },
        };
        self.instances.insert(id, inst);
        assert forall|i: int| 0 <= i < self.instances().len() implies {
            &&& (#[trigger] self.instances()[i]).agent < self.agents().len()
            &&& self.instances()[i].mailbox.wf()
        } by {
            if i != id {
                assert(self.instances()[i] == old(self).instances()[i]);
            }
        }
        report
    }

    /// The mailbox contents of every instance, with their bounds and
    /// whether they are closed.
    pub open spec fn boxes(&self) -> Seq<BoxView> {
        Seq::new(self.instances().len(), |i: int| box_view(self.instances()[i].mailbox))
    }

    /// Delivers handler sends in order without waiting. Each send that was
    /// not accepted comes back, in order, with the reason: one refused for a
    /// full mailbox may be offered again once that mailbox has room.
    pub fn deliver(&mut self, sends: Vec<Outgoing>) -> (r: Vec<(Outgoing, RuntimeError)>)
        requires
            old(self).wf(),
        ensures
            final(self).wf(),
            final(self).agents() == old(self).agents(),
            final(self).instances().len() == old(self).instances().len(),
            forall|i: int| 0 <= i < old(self).instances().len() ==> {
                &&& (#[trigger] final(self).instances()[i]).state == old(self).instances()[i].state
                &&& final(self).instances()[i].agent == old(self).instances()[i].agent
            },
            final(self).boxes() == deliver_all(old(self).boxes(), sends@).0,
            r@ == deliver_all(old(self).boxes(), sends@).1,
    {
        let mut failed: Vec<(Outgoing, RuntimeError)> = Vec::new();
        let ghost n = self.instances().len();
        let ghost all = sends@;
        let mut sends = sends;
        let ghost mut i: int = 0;
        assert(all.subrange(0, 0) =~= Seq::<Outgoing>::empty());
        assert(all.subrange(0, all.len() as int) =~= all);
        while sends.len() > 0
            invariant
                self.wf(),
                self.agents() == old(self).agents(),
                self.instances().len() == n,
                n == old(self).instances().len(),
                0 <= i <= all.len(),
                sends@ == all.subrange(i, all.len() as int),
                forall|k: int| 0 <= k < n ==> {
                    &&& (#[trigger] self.instances()[k]).state == old(self).instances()[k].state
                    &&& self.instances()[k].agent == old(self).instances()[k].agent
                },
                deliver_all(old(self).boxes(), all.subrange(0, i)) == (self.boxes(), failed@),
            decreases sends@.len(),
        {
            let o = sends.remove(0);
            let ghost pre = self.boxes();
            let ghost og = o;
            let refusal = if o.target >= self.instances.len() as u64 {
                Some(RuntimeError::Closed)
            } else {
                let mb = &self.instances[o.target as usize].mailbox;
                if mb.is_closed() {
                    Some(RuntimeError::Closed)
                } else if mb.len() >= mb.capacity() {
                    Some(RuntimeError::MailboxFull)
                } else {
                    None
                }
            };
            match refusal {
                Some(e) => failed.push((o, e)),
                None => {
                    let res = self.post(o.target, Message { variant: o.variant, args: o.args });
                    assert(res is Ok);
                },
            }
            proof {
                let o = og;
                let sub = all.subrange(0, i + 1);
                assert(sub.drop_last() =~= all.subrange(0, i));
                assert(sub.last() == all[i]);
                assert(all[i] == o);
                let want = post_one(pre, o);
                assert(self.boxes() =~= want.0);
                assert(failed@ =~= deliver_all(old(self).boxes(), sub).1);
            }
            proof {
                i = i + 1;
            }
            assert(sends@ =~= all.subrange(i, all.len() as int));
        }
        assert(all.subrange(0, i) =~= all);
        failed
    }
}

/// The refused sends that wait for room: those refused for a full mailbox,
/// in order.
pub open spec fn waiting_of(refused: Seq<(Outgoing, RuntimeError)>) -> Seq<Outgoing>
    decreases refused.len(),
{
    if refused.len() == 0 {
        seq![]
    } else if refused.last().1 == RuntimeError::MailboxFull {
        waiting_of(refused.drop_last()).push(refused.last().0)
    } else {
        waiting_of(refused.drop_last())
    }
}

/// The refused sends that are given up: those whose target is closed or
/// missing, in order.
pub open spec fn dropped_of(refused: Seq<(Outgoing, RuntimeError)>) -> Seq<(Outgoing, RuntimeError)>
    decreases refused.len(),
{
    if refused.len() == 0 {
        seq![]
    } else if refused.last().1 == RuntimeError::MailboxFull {
        dropped_of(refused.drop_last())
    } else {
        dropped_of(refused.drop_last()).push(refused.last())
    }
}

/// Backpressure on delivery: a send refused for a full mailbox waits to be
/// offered again; one refused for a closed or missing target is given up.
pub fn split_refused(refused: Vec<(Outgoing, RuntimeError)>) -> (r: (Vec<Outgoing>, Vec<(Outgoing, RuntimeError)>))
    ensures
        r.0@ == waiting_of(refused@),
        r.1@ == dropped_of(refused@),
{
    let ghost all = refused@;
    let mut refused = refused;
    let mut waiting: Vec<Outgoing> = Vec::new();
    let mut dropped: Vec<(Outgoing, RuntimeError)> = Vec::new();
    let ghost mut i: int = 0;
    assert(all.subrange(0, 0) =~= Seq::<(Outgoing, RuntimeError)>::empty());
    assert(all.subrange(0, all.len() as int) =~= all);
    while refused.len() > 0
        invariant
            0 <= i <= all.len(),
            refused@ == all.subrange(i, all.len() as int),
            waiting@ == waiting_of(all.subrange(0, i)),
            dropped@ == dropped_of(all.subrange(0, i)),
        decreases refused@.len(),
    {
        let (o, e) = refused.remove(0);
        proof {
            let sub = all.subrange(0, i + 1);
            assert(sub.drop_last() =~= all.subrange(0, i));
            assert(sub.last() == all[i]);
        }
        if e == RuntimeError::MailboxFull {
            waiting.push(o);
        } else {
            dropped.push((o, e));
        }
        proof {
            i = i + 1;
        }
        assert(refused@ =~= all.subrange(i, all.len() as int));
    }
    assert(all.subrange(0, i) =~= all);
    (waiting, dropped)
}

/// Starts every agent of the program: instance `i` runs agent `i`, with its
/// initial state and an empty mailbox of capacity `mailbox_size`.
pub fn execute(program: BytecodeProgram, mailbox_size: usize) -> (r: Runtime)
    requires
        mailbox_size > 0,
    ensures
        r.wf(),
        r.agents() == program.agents@,
        r.instances().len() == program.agents@.len(),
        forall|i: int| 0 <= i < r.instances().len() ==> {
            &&& (#[trigger] r.instances()[i]).agent == i
            &&& r.instances()[i].state@ == program.agents@[i].state_init@
            &&& r.instances()[i].mailbox.items().len() == 0
            &&& r.instances()[i].mailbox.bound() == mailbox_size
        },
{
    let n = program.agents.len();
    let ghost agents = program.agents@;
    let mut rt = Runtime::new(program);
    let mut i: usize = 0;
    while i < n
        invariant
            rt.wf(),
            rt.agents() == agents,
            n == agents.len(),
            i <= n,
            rt.instances().len() == i,
            mailbox_size > 0,
            forall|j: int| 0 <= j < i ==> {
                &&& (#[trigger] rt.instances()[j]).agent == j
                &&& rt.instances()[j].state@ == agents[j].state_init@
                &&& rt.instances()[j].mailbox.items().len() == 0
                &&& rt.instances()[j].mailbox.bound() == mailbox_size
            },
        decreases n - i,
    {
        let ghost before = rt.instances();
        let id = rt.spawn(i, mailbox_size);
        assert forall|j: int| 0 <= j < i + 1 implies {
            &&& (#[trigger] rt.instances()[j]).agent == j
            &&& rt.instances()[j].state@ == agents[j].state_init@
            &&& rt.instances()[j].mailbox.items().len() == 0
            &&& rt.instances()[j].mailbox.bound() == mailbox_size
        } by {
            if j < i {
                assert(rt.instances()[j] == rt.instances().subrange(0, i as int)[j]);
                assert(before[j] == rt.instances()[j]);
            }
        }
        i = i + 1;
    }
    rt
}

} // verus!
