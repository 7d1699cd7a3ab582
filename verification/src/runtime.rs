//! The runtime dispatcher: holds one current state per region for every
//! machine of the arena, the context counters, the per-state payloads and
//! the event queue, and executes dispatch against the validated
//! descriptors.
//!
//! The whole dispatch algorithm has a mathematical mirror (the `sp_`
//! specification functions below); every executable step is proved equal to
//! it, so the dispatch laws — a failed dispatch changes nothing, nested
//! dispatch never touches an ancestor machine's state, and so on — are
//! theorems about one definition.

use vstd::prelude::*;

use crate::decl::ActionOp;
use crate::decl::CtxInit;
use crate::decl::EventId;
use crate::decl::EventInstance;
use crate::decl::FsmGuard;
use crate::decl::FsmState;
use crate::decl::FsmStateKind;
use crate::decl::HookOp;
use crate::decl::MachineId;
use crate::decl::StateId;
use crate::validate::FsmEventTransition;
use crate::validate::ValidatedFsm;

verus! {

/// The dispatch state of one region: not yet started, or resting in a
/// state.
#[derive(Clone, Copy, PartialEq, Eq, Structural, Debug)]
pub enum FsmCurrentState {
    Stopped,
    State(StateId),
}

/// Runtime errors of the dispatcher.
#[derive(Clone, Copy, PartialEq, Eq, Structural, Debug)]
pub enum FsmError {
    /// `dispatch` was called before `start`.
    NotStarted,
    /// `start` was called on a started machine.
    AlreadyStarted,
    /// No region resolved a transition for the event; nothing was changed.
    NoTransition,
}

/// The mutable state of one machine of the arena: its context counters, one
/// payload value per state, and one current state per region.
#[derive(Debug)]
pub struct MachineInstance {
    pub context: Vec<u64>,
    pub payloads: Vec<u64>,
    pub current: Vec<FsmCurrentState>,
}

/// Mathematical view of one machine instance.
pub ghost struct MachineInstV {
    pub context: Seq<u64>,
    pub payloads: Seq<u64>,
    pub current: Seq<FsmCurrentState>,
}

impl View for MachineInstance {
    type V = MachineInstV;

    open spec fn view(&self) -> MachineInstV {
        MachineInstV { context: self.context@, payloads: self.payloads@, current: self.current@ }
    }
}

/// The views of a sequence of machine instances.
pub open spec fn views(s: Seq<MachineInstance>) -> Seq<MachineInstV> {
    Seq::new(s.len(), |i: int| s[i]@)
}

/// Replaces the instance at `m`.
pub open spec fn upd_inst(
    insts: Seq<MachineInstV>,
    m: int,
    ctx: Seq<u64>,
    pay: Seq<u64>,
    cur: Seq<FsmCurrentState>,
) -> Seq<MachineInstV> {
    insts.update(m, MachineInstV { context: ctx, payloads: pay, current: cur })
}

// ---------------------------------------------------------------------
// Well-formedness
// ---------------------------------------------------------------------

/// A canonical transition references only states below `n`.
pub open spec fn canon_wf(t: FsmEventTransition, n: int) -> bool {
    match t {
        FsmEventTransition::State(a, b, _) => (a as int) < n && (b as int) < n,
        FsmEventTransition::InternalTransition(a, _) => (a as int) < n,
        FsmEventTransition::SelfTransition(a, _) => (a as int) < n,
    }
}

/// A state's sub-machine reference is acyclic (it points past its owner)
/// and its context construction is complete.
pub open spec fn state_wf(machines: Seq<ValidatedFsm>, m: int, st: FsmState) -> bool {
    match st.kind {
        FsmStateKind::Normal => true,
        FsmStateKind::SubMachine(opts) => {
            &&& m < opts.machine as int
            &&& (opts.machine as int) < machines.len()
            &&& match opts.context_constructor {
                Option::None => machines[opts.machine as int].context_len
                    == machines[m].context_len,
                Option::Some(inits) => inits@.len() == machines[opts.machine as int].context_len,
            }
        },
    }
}

/// One machine descriptor is closed: regions seed existing states, every
/// canonical transition resolves, and sub-machine references are complete.
pub open spec fn machine_wf(machines: Seq<ValidatedFsm>, m: int) -> bool {
    let f = machines[m];
    &&& f.regions@.len() > 0
    &&& forall|r: int|
        0 <= r < f.regions@.len() ==> ((#[trigger] f.regions@[r]).initial_state as int)
            < f.states@.len()
    &&& forall|e: int, j: int|
        0 <= e < f.events@.len() && 0 <= j < f.events@[e].transitions@.len() ==> canon_wf(
            #[trigger] f.events@[e].transitions@[j],
            f.states@.len() as int,
        )
    &&& forall|s: int|
        0 <= s < f.states@.len() ==> state_wf(machines, m, #[trigger] f.states@[s])
}

/// The whole arena of validated descriptors is closed.
pub open spec fn arena_wf(machines: Seq<ValidatedFsm>) -> bool {
    &&& machines.len() > 0
    &&& forall|m: int| 0 <= m < machines.len() ==> machine_wf(machines, m)
}

/// A current-state marker stays inside the state registry.
pub open spec fn cs_wf(c: FsmCurrentState, n: int) -> bool {
    match c {
        FsmCurrentState::Stopped => true,
        FsmCurrentState::State(s) => (s as int) < n,
    }
}

/// One instance has the shape its descriptor prescribes.
pub open spec fn inst_wf_one(f: ValidatedFsm, iv: MachineInstV) -> bool {
    &&& iv.context.len() == f.context_len
    &&& iv.payloads.len() == f.states@.len()
    &&& iv.current.len() == f.regions@.len()
    &&& forall|r: int|
        0 <= r < iv.current.len() ==> cs_wf(#[trigger] iv.current[r], f.states@.len() as int)
}

/// Every instance has the shape its descriptor prescribes.
pub open spec fn inst_wf(machines: Seq<ValidatedFsm>, insts: Seq<MachineInstV>) -> bool {
    &&& insts.len() == machines.len()
    &&& forall|m: int| 0 <= m < machines.len() ==> inst_wf_one(machines[m], #[trigger] insts[m])
}

// ---------------------------------------------------------------------
// The specification of the dispatch algorithm
// ---------------------------------------------------------------------

/// Saturating increment: counters stick at the top instead of wrapping.
pub open spec fn add1(x: u64) -> u64 {
    if x == u64::MAX {
        x
    } else {
        (x + 1) as u64
    }
}

/// What a guard means, over the event payload and the context counters.
pub open spec fn sp_guard(g: FsmGuard, ev: EventInstance, ctx: Seq<u64>) -> bool {
    match g {
        FsmGuard::Always => true,
        FsmGuard::PayloadAtLeast(n) => ev.payload >= n,
        FsmGuard::CounterAtLeast(i, n) => (i as int) < ctx.len() && ctx[i as int] >= n,
    }
}

/// What an entry/exit callback does to the context and the state payload.
pub open spec fn sp_hook(h: Option<HookOp>, ctx: Seq<u64>, v: u64) -> (Seq<u64>, u64) {
    match h {
        Option::None => (ctx, v),
        Option::Some(HookOp::IncOwnValue) => (ctx, add1(v)),
        Option::Some(HookOp::IncCounter(i)) => (
            if (i as int) < ctx.len() {
                ctx.update(i as int, add1(ctx[i as int]))
            } else {
                ctx
            },
            v,
        ),
    }
}

/// One action effect on a state-to-state transition, over (context,
/// from-payload, to-payload, queue).
pub open spec fn sp_op_pair(
    op: ActionOp,
    ctx: Seq<u64>,
    f: u64,
    t: u64,
    q: Seq<EventInstance>,
) -> (Seq<u64>, u64, u64, Seq<EventInstance>) {
    match op {
        ActionOp::IncCounter(i) => (
            if (i as int) < ctx.len() {
                ctx.update(i as int, add1(ctx[i as int]))
            } else {
                ctx
            },
            f,
            t,
            q,
        ),
        ActionOp::IncFromValue => (ctx, add1(f), t, q),
        ActionOp::IncToValue => (ctx, f, add1(t), q),
        ActionOp::Enqueue(e, p) => (ctx, f, t, q.push(EventInstance { id: e, payload: p })),
    }
}

/// A whole action on a state-to-state transition, first effect first.
pub open spec fn sp_ops_pair(
    ops: Seq<ActionOp>,
    ctx: Seq<u64>,
    f: u64,
    t: u64,
    q: Seq<EventInstance>,
) -> (Seq<u64>, u64, u64, Seq<EventInstance>)
    decreases ops.len(),
{
    if ops.len() == 0 {
        (ctx, f, t, q)
    } else {
        let s1 = sp_op_pair(ops[0], ctx, f, t, q);
        sp_ops_pair(ops.drop_first(), s1.0, s1.1, s1.2, s1.3)
    }
}

/// One action effect on a self or internal transition: both payload effects
/// target the single involved state.
pub open spec fn sp_op_single(op: ActionOp, ctx: Seq<u64>, v: u64, q: Seq<EventInstance>) -> (
    Seq<u64>,
    u64,
    Seq<EventInstance>,
) {
    match op {
        ActionOp::IncCounter(i) => (
            if (i as int) < ctx.len() {
                ctx.update(i as int, add1(ctx[i as int]))
            } else {
                ctx
            },
            v,
            q,
        ),
        ActionOp::IncFromValue => (ctx, add1(v), q),
        ActionOp::IncToValue => (ctx, add1(v), q),
        ActionOp::Enqueue(e, p) => (ctx, v, q.push(EventInstance { id: e, payload: p })),
    }
}

/// A whole action on a self or internal transition.
pub open spec fn sp_ops_single(
    ops: Seq<ActionOp>,
    ctx: Seq<u64>,
    v: u64,
    q: Seq<EventInstance>,
) -> (Seq<u64>, u64, Seq<EventInstance>)
    decreases ops.len(),
{
    if ops.len() == 0 {
        (ctx, v, q)
    } else {
        let s1 = sp_op_single(ops[0], ctx, v, q);
        sp_ops_single(ops.drop_first(), s1.0, s1.1, s1.2)
    }
}

/// One counter of a nested context, from the parent context.
pub open spec fn sp_ctx_one(init: CtxInit, parent: Seq<u64>) -> u64 {
    match init {
        CtxInit::Value(x) => x,
        CtxInit::FromParent(i) => if (i as int) < parent.len() {
            parent[i as int]
        } else {
            0
        },
    }
}

/// The nested context constructed at sub-machine entry: the declared
/// mapping applied to the parent context, or the parent context copied when
/// no mapping was declared.
pub open spec fn sp_sub_context(ctor: Option<Vec<CtxInit>>, parent: Seq<u64>) -> Seq<u64> {
    match ctor {
        Option::None => parent,
        Option::Some(inits) => Seq::new(inits@.len(), |i: int| sp_ctx_one(inits@[i], parent)),
    }
}

/// All regions of machine `m` rest in a state.
pub open spec fn sp_started(insts: Seq<MachineInstV>, m: int) -> bool {
    forall|r: int|
        0 <= r < insts[m].current.len() ==> (#[trigger] insts[m].current[r]) is State
}

/// Deactivates machine `m`: every region back to `Stopped`.
pub open spec fn sp_stop_machine(insts: Seq<MachineInstV>, m: int) -> Seq<MachineInstV> {
    upd_inst(
        insts,
        m,
        insts[m].context,
        insts[m].payloads,
        Seq::new(insts[m].current.len(), |r: int| FsmCurrentState::Stopped),
    )
}

/// Exiting state `s` of machine `m`: the exit callback runs, and a nested
/// machine instance is deactivated.
pub open spec fn sp_exit_state(
    machines: Seq<ValidatedFsm>,
    insts: Seq<MachineInstV>,
    m: int,
    s: StateId,
) -> Seq<MachineInstV> {
    let st = machines[m].states@[s as int];
    let hr = sp_hook(st.on_exit, insts[m].context, insts[m].payloads[s as int]);
    let i1 = upd_inst(insts, m, hr.0, insts[m].payloads.update(s as int, hr.1), insts[m].current);
    match st.kind {
        FsmStateKind::Normal => i1,
        FsmStateKind::SubMachine(opts) => {
            if m < opts.machine as int && (opts.machine as int) < i1.len() {
                sp_stop_machine(i1, opts.machine as int)
            } else {
                i1
            }
        },
    }
}

/// Entering state `s` of machine `m`: the entry callback runs; for a
/// sub-machine state, the nested context is constructed from the parent
/// context (exactly once, at entry), the nested instance is reset, and the
/// nested machine is started.
pub open spec fn sp_enter_state(
    machines: Seq<ValidatedFsm>,
    insts: Seq<MachineInstV>,
    m: int,
    s: StateId,
) -> Seq<MachineInstV>
    decreases machines.len() - m, 1int, 0int, 0int,
{
    let st = machines[m].states@[s as int];
    let hr = sp_hook(st.on_entry, insts[m].context, insts[m].payloads[s as int]);
    let i1 = upd_inst(insts, m, hr.0, insts[m].payloads.update(s as int, hr.1), insts[m].current);
    match st.kind {
        FsmStateKind::Normal => i1,
        FsmStateKind::SubMachine(opts) => {
            let sub = opts.machine as int;
            if m < sub && sub < machines.len() {
                let i2 = upd_inst(
                    i1,
                    sub,
                    sp_sub_context(opts.context_constructor, hr.0),
                    Seq::new(machines[sub].states@.len(), |j: int| 0u64),
                    Seq::new(machines[sub].regions@.len(), |r: int| FsmCurrentState::Stopped),
                );
                sp_start_machine(machines, i2, sub)
            } else {
                i1
            }
        },
    }
}

/// Starting the regions of machine `m`, from region `r` on: each moves to
/// its declared initial state, whose entry callback runs.
pub open spec fn sp_start_regions(
    machines: Seq<ValidatedFsm>,
    insts: Seq<MachineInstV>,
    m: int,
    r: int,
) -> Seq<MachineInstV>
    decreases machines.len() - m, 2int, machines[m].regions@.len() - r, 0int,
{
    if r < 0 || r >= machines[m].regions@.len() {
        insts
    } else {
        let init = machines[m].regions@[r].initial_state;
        let i1 = upd_inst(
            insts,
            m,
            insts[m].context,
            insts[m].payloads,
            insts[m].current.update(r, FsmCurrentState::State(init)),
        );
        let i2 = sp_enter_state(machines, i1, m, init);
        sp_start_regions(machines, i2, m, r + 1)
    }
}

/// Starting machine `m`: every region to its initial state, in region
/// order.
pub open spec fn sp_start_machine(
    machines: Seq<ValidatedFsm>,
    insts: Seq<MachineInstV>,
    m: int,
) -> Seq<MachineInstV>
    decreases machines.len() - m, 3int, 0int, 0int,
{
    sp_start_regions(machines, insts, m, 0)
}

/// Whether a canonical transition is a candidate for the current state.
pub open spec fn cand_matches(t: FsmEventTransition, s: StateId) -> bool {
    match t {
        FsmEventTransition::State(a, _, _) => a == s,
        FsmEventTransition::InternalTransition(a, _) => a == s,
        FsmEventTransition::SelfTransition(a, _) => a == s,
    }
}

/// The guard of a canonical transition.
pub open spec fn cand_guard(t: FsmEventTransition) -> FsmGuard {
    match t {
        FsmEventTransition::State(_, _, ega) => ega.guard,
        FsmEventTransition::InternalTransition(_, ega) => ega.guard,
        FsmEventTransition::SelfTransition(_, ega) => ega.guard,
    }
}

/// The first candidate, in declaration order, that matches the current
/// state and whose guard holds.  A failing guard moves on to the next
/// candidate; it never aborts the search.
pub open spec fn sp_find(
    trs: Seq<FsmEventTransition>,
    s: StateId,
    ev: EventInstance,
    ctx: Seq<u64>,
) -> Option<FsmEventTransition>
    decreases trs.len(),
{
    if trs.len() == 0 {
        Option::None
    } else if cand_matches(trs[0], s) && sp_guard(cand_guard(trs[0]), ev, ctx) {
        Option::Some(trs[0])
    } else {
        sp_find(trs.drop_first(), s, ev, ctx)
    }
}

/// The canonical transitions of an event; an identity outside the registry
/// triggers nothing.
pub open spec fn sp_event_trs(f: ValidatedFsm, e: EventId) -> Seq<FsmEventTransition> {
    if (e as int) < f.events@.len() {
        f.events@[e as int].transitions@
    } else {
        Seq::empty()
    }
}

/// Committing a selected transition in region `r` of machine `m`.
pub open spec fn sp_commit(
    machines: Seq<ValidatedFsm>,
    insts: Seq<MachineInstV>,
    queue: Seq<EventInstance>,
    m: int,
    r: int,
    tr: FsmEventTransition,
    ev: EventInstance,
) -> (Seq<MachineInstV>, Seq<EventInstance>)
    decreases machines.len() - m, 2int, 0int, 0int,
{
    match tr {
        FsmEventTransition::InternalTransition(s, ega) => {
            let o = sp_ops_single(ega.action@, insts[m].context, insts[m].payloads[s as int], queue);
            (upd_inst(insts, m, o.0, insts[m].payloads.update(s as int, o.1), insts[m].current), o.2)
        },
        FsmEventTransition::SelfTransition(s, ega) => {
            let i1 = sp_exit_state(machines, insts, m, s);
            let o = sp_ops_single(ega.action@, i1[m].context, i1[m].payloads[s as int], queue);
            let i2 = upd_inst(i1, m, o.0, i1[m].payloads.update(s as int, o.1), i1[m].current);
            (sp_enter_state(machines, i2, m, s), o.2)
        },
        FsmEventTransition::State(from, to, ega) => {
            let i1 = sp_exit_state(machines, insts, m, from);
            let o = sp_ops_pair(
                ega.action@,
                i1[m].context,
                i1[m].payloads[from as int],
                i1[m].payloads[to as int],
                queue,
            );
            let pay = i1[m].payloads.update(from as int, o.1).update(to as int, o.2);
            let i2 = upd_inst(i1, m, o.0, pay, i1[m].current.update(r, FsmCurrentState::State(to)));
            (sp_enter_state(machines, i2, m, to), o.3)
        },
    }
}

/// Region `r`'s own transition matching, then the remaining regions.
pub open spec fn sp_try_own(
    machines: Seq<ValidatedFsm>,
    insts: Seq<MachineInstV>,
    queue: Seq<EventInstance>,
    m: int,
    ev: EventInstance,
    r: int,
    handled: bool,
    s: StateId,
) -> (Seq<MachineInstV>, Seq<EventInstance>, bool)
    decreases machines.len() - m, 4int, machines[m].regions@.len() - r, 0int,
{
    if r < 0 || r >= machines[m].regions@.len() {
        (insts, queue, handled)
    } else {
        match sp_find(sp_event_trs(machines[m], ev.id), s, ev, insts[m].context) {
            Option::None => sp_dispatch_regions(machines, insts, queue, m, ev, r + 1, handled),
            Option::Some(tr) => {
                let c = sp_commit(machines, insts, queue, m, r, tr, ev);
                sp_dispatch_regions(machines, c.0, c.1, m, ev, r + 1, true)
            },
        }
    }
}

/// Dispatching an event to the regions of machine `m`, from region `r` on.
/// A region resting in a sub-machine state first offers the event to the
/// nested machine; only when the nested machine declines does the region
/// attempt its own transitions, with the sub-machine state's identity as
/// the current state.
pub open spec fn sp_dispatch_regions(
    machines: Seq<ValidatedFsm>,
    insts: Seq<MachineInstV>,
    queue: Seq<EventInstance>,
    m: int,
    ev: EventInstance,
    r: int,
    handled: bool,
) -> (Seq<MachineInstV>, Seq<EventInstance>, bool)
    decreases machines.len() - m, 4int, machines[m].regions@.len() - r, 1int,
{
    if r < 0 || r >= machines[m].regions@.len() {
        (insts, queue, handled)
    } else {
        match insts[m].current[r] {
            FsmCurrentState::Stopped => sp_dispatch_regions(
                machines,
                insts,
                queue,
                m,
                ev,
                r + 1,
                handled,
            ),
            FsmCurrentState::State(s) => {
                let delegate = match machines[m].states@[s as int].kind {
                    FsmStateKind::SubMachine(opts) => {
                        if m < opts.machine as int && (opts.machine as int) < machines.len()
                            && sp_started(insts, opts.machine as int) {
                            Option::Some(opts.machine as int)
                        } else {
                            Option::None
                        }
                    },
                    FsmStateKind::Normal => Option::None,
                };
                match delegate {
                    Option::Some(sub) => {
                        let d = sp_dispatch_machine(machines, insts, queue, sub, ev);
                        if d.2 {
                            sp_dispatch_regions(machines, d.0, d.1, m, ev, r + 1, true)
                        } else {
                            sp_try_own(machines, d.0, d.1, m, ev, r, handled, s)
                        }
                    },
                    Option::None => sp_try_own(machines, insts, queue, m, ev, r, handled, s),
                }
            },
        }
    }
}

/// Dispatching one event to machine `m`: every region independently, in
/// region order; handled when at least one region handled it.
pub open spec fn sp_dispatch_machine(
    machines: Seq<ValidatedFsm>,
    insts: Seq<MachineInstV>,
    queue: Seq<EventInstance>,
    m: int,
    ev: EventInstance,
) -> (Seq<MachineInstV>, Seq<EventInstance>, bool)
    decreases machines.len() - m, 5int, 0int, 0int,
{
    sp_dispatch_regions(machines, insts, queue, m, ev, 0, false)
}

/// One queue-drain step: dequeue the front event and dispatch it at the
/// root, whatever its outcome.
pub open spec fn sp_drain_step(
    machines: Seq<ValidatedFsm>,
    insts: Seq<MachineInstV>,
    queue: Seq<EventInstance>,
) -> (Seq<MachineInstV>, Seq<EventInstance>) {
    if queue.len() == 0 {
        (insts, queue)
    } else {
        let d = sp_dispatch_machine(machines, insts, queue.drop_first(), 0, queue[0]);
        (d.0, d.1)
    }
}

// ---------------------------------------------------------------------
// Sequence plumbing
// ---------------------------------------------------------------------

proof fn lemma_remove_insert<A>(s: Seq<A>, i: int, x: A)
    requires
        0 <= i < s.len(),
    ensures
        s.remove(i).insert(i, x) =~= s.update(i, x),
{
}

proof fn lemma_views_update(s: Seq<MachineInstance>, i: int, x: MachineInstance)
    requires
        0 <= i < s.len(),
    ensures
        views(s.update(i, x)) =~= views(s).update(i, x@),
{
}

// ---------------------------------------------------------------------
// Executable helpers
// ---------------------------------------------------------------------

/// Saturating increment.
fn add1_exec(x: u64) -> (r: u64)
    ensures
        r == add1(x),
{
    if x == u64::MAX {
        x
    } else {
        x + 1
    }
}

/// Evaluates a guard against the event payload and the context counters.
fn eval_guard(g: FsmGuard, ev: &EventInstance, ctx: &Vec<u64>) -> (b: bool)
    ensures
        b == sp_guard(g, *ev, ctx@),
{
    match g {
        FsmGuard::Always => true,
        FsmGuard::PayloadAtLeast(n) => ev.payload >= n,
        FsmGuard::CounterAtLeast(i, n) => i < ctx.len() && ctx[i] >= n,
    }
}

/// Runs an entry/exit callback on the context and the state payload.
fn apply_hook(h: Option<HookOp>, ctx: &mut Vec<u64>, v: u64) -> (r: u64)
    ensures
        final(ctx)@ == sp_hook(h, old(ctx)@, v).0,
        r == sp_hook(h, old(ctx)@, v).1,
{
    match h {
        Option::None => v,
        Option::Some(HookOp::IncOwnValue) => add1_exec(v),
        Option::Some(HookOp::IncCounter(i)) => {
            if i < ctx.len() {
                let x = ctx[i];
                ctx.set(i, add1_exec(x));
            }
            v
        },
    }
}

/// Runs an action on a self or internal transition.
fn apply_ops_single(ops: &Vec<ActionOp>, ctx: &mut Vec<u64>, v0: u64, q: &mut Vec<EventInstance>)
    -> (r: u64)
    ensures
        (final(ctx)@, r, final(q)@) == sp_ops_single(ops@, old(ctx)@, v0, old(q)@),
{
    let mut i: usize = 0;
    let mut v = v0;
    proof {
        assert(ops@.skip(0) =~= ops@);
    }
    while i < ops.len()
        invariant
            i <= ops@.len(),
            sp_ops_single(ops@.skip(i as int), ctx@, v, q@) == sp_ops_single(
                ops@,
                old(ctx)@,
                v0,
                old(q)@,
            ),
        decreases ops@.len() - i,
    {
        proof {
            assert(ops@.skip(i as int)[0] == ops@[i as int]);
            assert(ops@.skip(i as int).drop_first() =~= ops@.skip(i as int + 1));
        }
        match ops[i] {
            ActionOp::IncCounter(c) => {
                if c < ctx.len() {
                    let x = ctx[c];
                    ctx.set(c, add1_exec(x));
                }
            },
            ActionOp::IncFromValue => {
                v = add1_exec(v);
            },
            ActionOp::IncToValue => {
                v = add1_exec(v);
            },
            ActionOp::Enqueue(e, p) => {
                q.push(EventInstance { id: e, payload: p });
            },
        }
        i = i + 1;
    }
    proof {
        assert(ops@.skip(ops@.len() as int) =~= Seq::<ActionOp>::empty());
    }
    v
}

/// Runs an action on a state-to-state transition; returns the new from/to
/// payloads.
fn apply_ops_pair(
    ops: &Vec<ActionOp>,
    ctx: &mut Vec<u64>,
    f0: u64,
    t0: u64,
    q: &mut Vec<EventInstance>,
) -> (r: (u64, u64))
    ensures
        (final(ctx)@, r.0, r.1, final(q)@) == sp_ops_pair(ops@, old(ctx)@, f0, t0, old(q)@),
{
    let mut i: usize = 0;
    let mut f = f0;
    let mut t = t0;
    proof {
        assert(ops@.skip(0) =~= ops@);
    }
    while i < ops.len()
        invariant
            i <= ops@.len(),
            sp_ops_pair(ops@.skip(i as int), ctx@, f, t, q@) == sp_ops_pair(
                ops@,
                old(ctx)@,
                f0,
                t0,
                old(q)@,
            ),
        decreases ops@.len() - i,
    {
        proof {
            assert(ops@.skip(i as int)[0] == ops@[i as int]);
            assert(ops@.skip(i as int).drop_first() =~= ops@.skip(i as int + 1));
        }
        match ops[i] {
            ActionOp::IncCounter(c) => {
                if c < ctx.len() {
                    let x = ctx[c];
                    ctx.set(c, add1_exec(x));
                }
            },
            ActionOp::IncFromValue => {
                f = add1_exec(f);
            },
            ActionOp::IncToValue => {
                t = add1_exec(t);
            },
            ActionOp::Enqueue(e, p) => {
                q.push(EventInstance { id: e, payload: p });
            },
        }
        i = i + 1;
    }
    proof {
        assert(ops@.skip(ops@.len() as int) =~= Seq::<ActionOp>::empty());
    }
    (f, t)
}

/// Builds the nested context from the parent context.
fn build_sub_context(ctor: &Option<Vec<CtxInit>>, parent: &Vec<u64>) -> (r: Vec<u64>)
    ensures
        r@ == sp_sub_context(*ctor, parent@),
{
    match ctor {
        Option::None => {
            let mut r: Vec<u64> = Vec::new();
            let mut i: usize = 0;
            while i < parent.len()
                invariant
                    i <= parent@.len(),
                    r@ == parent@.take(i as int),
                decreases parent@.len() - i,
            {
                r.push(parent[i]);
                i = i + 1;
                proof {
                    assert(r@ =~= parent@.take(i as int));
                }
            }
            proof {
                assert(parent@.take(parent@.len() as int) =~= parent@);
            }
            r
        },
        Option::Some(inits) => {
            let mut r: Vec<u64> = Vec::new();
            let mut i: usize = 0;
            while i < inits.len()
                invariant
                    i <= inits@.len(),
                    r@.len() == i,
                    forall|k: int| 0 <= k < i ==> r@[k] == sp_ctx_one(inits@[k], parent@),
                decreases inits@.len() - i,
            {
                match inits[i] {
                    CtxInit::Value(x) => {
                        r.push(x);
                    },
                    CtxInit::FromParent(j) => {
                        if j < parent.len() {
                            r.push(parent[j]);
                        } else {
                            r.push(0);
                        }
                    },
                }
                i = i + 1;
            }
            proof {
                assert(r@ =~= sp_sub_context(*ctor, parent@));
            }
            r
        },
    }
}

/// A vector of zeroed payloads.
fn zero_payloads(n: usize) -> (r: Vec<u64>)
    ensures
        r@ == Seq::new(n as nat, |i: int| 0u64),
{
    let mut r: Vec<u64> = Vec::new();
    let mut i: usize = 0;
    while i < n
        invariant
            i <= n,
            r@.len() == i,
            forall|k: int| 0 <= k < i ==> r@[k] == 0u64,
        decreases n - i,
    {
        r.push(0);
        i = i + 1;
    }
    proof {
        assert(r@ =~= Seq::new(n as nat, |i: int| 0u64));
    }
    r
}

/// A vector of `Stopped` region markers.
fn stopped_currents(n: usize) -> (r: Vec<FsmCurrentState>)
    ensures
        r@ == Seq::new(n as nat, |i: int| FsmCurrentState::Stopped),
{
    let mut r: Vec<FsmCurrentState> = Vec::new();
    let mut i: usize = 0;
    while i < n
        invariant
            i <= n,
            r@.len() == i,
            forall|k: int| 0 <= k < i ==> r@[k] == FsmCurrentState::Stopped,
        decreases n - i,
    {
        r.push(FsmCurrentState::Stopped);
        i = i + 1;
    }
    proof {
        assert(r@ =~= Seq::new(n as nat, |i: int| FsmCurrentState::Stopped));
    }
    r
}

/// Whether every region of machine `m` rests in a state.
fn is_started(insts: &Vec<MachineInstance>, m: usize) -> (b: bool)
    requires
        m < insts@.len(),
    ensures
        b == sp_started(views(insts@), m as int),
{
    let inst = &insts[m];
    let mut r: usize = 0;
    let mut ok = true;
    while r < inst.current.len()
        invariant
            r <= inst.current@.len(),
            ok == (forall|k: int| 0 <= k < r ==> (#[trigger] inst.current@[k]) is State),
        decreases inst.current@.len() - r,
    {
        match inst.current[r] {
            FsmCurrentState::Stopped => {
                ok = false;
            },
            FsmCurrentState::State(_) => {},
        }
        r = r + 1;
    }
    proof {
        assert(views(insts@)[m as int].current =~= inst.current@);
    }
    ok
}


proof fn lemma_ops_single_len(ops: Seq<ActionOp>, ctx: Seq<u64>, v: u64, q: Seq<EventInstance>)
    ensures
        sp_ops_single(ops, ctx, v, q).0.len() == ctx.len(),
    decreases ops.len(),
{
    if ops.len() > 0 {
        let s1 = sp_op_single(ops[0], ctx, v, q);
        lemma_ops_single_len(ops.drop_first(), s1.0, s1.1, s1.2);
    }
}

proof fn lemma_ops_pair_len(ops: Seq<ActionOp>, ctx: Seq<u64>, f: u64, t: u64, q: Seq<EventInstance>)
    ensures
        sp_ops_pair(ops, ctx, f, t, q).0.len() == ctx.len(),
    decreases ops.len(),
{
    if ops.len() > 0 {
        let s1 = sp_op_pair(ops[0], ctx, f, t, q);
        lemma_ops_pair_len(ops.drop_first(), s1.0, s1.1, s1.2, s1.3);
    }
}

// ---------------------------------------------------------------------
// The executable engine, proved equal to the specification
// ---------------------------------------------------------------------

/// Deactivates machine `sub`: every region back to `Stopped`.
fn stop_machine(insts: &mut Vec<MachineInstance>, sub: usize)
    requires
        sub < old(insts)@.len(),
    ensures
        views(final(insts)@) == sp_stop_machine(views(old(insts)@), sub as int),
        final(insts)@.len() == old(insts)@.len(),
{
    let n = insts[sub].current.len();
    let mut si = insts.remove(sub);
    si.current = stopped_currents(n);
    insts.insert(sub, si);
    proof {
        lemma_remove_insert(old(insts)@, sub as int, insts@[sub as int]);
        lemma_views_update(old(insts)@, sub as int, insts@[sub as int]);
        assert(views(insts@) =~= sp_stop_machine(views(old(insts)@), sub as int));
    }
}

/// Exits state `s` of machine `m`: runs its exit callback and deactivates
/// its nested machine instance, if any.
fn exit_state(machines: &Vec<ValidatedFsm>, insts: &mut Vec<MachineInstance>, m: usize, s: StateId)
    requires
        arena_wf(machines@),
        inst_wf(machines@, views(old(insts)@)),
        m < machines@.len(),
        (s as int) < machines@[m as int].states@.len(),
    ensures
        views(final(insts)@) == sp_exit_state(machines@, views(old(insts)@), m as int, s),
        inst_wf(machines@, views(final(insts)@)),
{
    proof {
        assert(machine_wf(machines@, m as int));
        assert(inst_wf_one(machines@[m as int], views(insts@)[m as int]));
    }
    let ghost pre = views(insts@);
    let mut inst = insts.remove(m);
    let st = &machines[m].states[s];
    let hv = inst.payloads[s];
    let v2 = apply_hook(st.on_exit, &mut inst.context, hv);
    inst.payloads.set(s, v2);
    insts.insert(m, inst);
    proof {
        lemma_remove_insert(old(insts)@, m as int, insts@[m as int]);
        lemma_views_update(old(insts)@, m as int, insts@[m as int]);
        assert(views(insts@) =~= upd_inst(
            pre,
            m as int,
            sp_hook(machines@[m as int].states@[s as int].on_exit, pre[m as int].context, pre[m as int].payloads[s as int]).0,
            pre[m as int].payloads.update(
                s as int,
                sp_hook(machines@[m as int].states@[s as int].on_exit, pre[m as int].context, pre[m as int].payloads[s as int]).1,
            ),
            pre[m as int].current,
        ));
    }
    match &st.kind {
        FsmStateKind::Normal => {
            proof {
                assert(views(insts@) == sp_exit_state(machines@, pre, m as int, s));
                assert(inst_wf(machines@, views(insts@)));
            }
        },
        FsmStateKind::SubMachine(opts) => {
            proof {
                assert(state_wf(machines@, m as int, machines@[m as int].states@[s as int]));
            }
            stop_machine(insts, opts.machine);
            proof {
                assert(views(insts@) == sp_exit_state(machines@, pre, m as int, s));
                assert(inst_wf(machines@, views(insts@)));
            }
        },
    }
}

/// Enters state `s` of machine `m`: runs its entry callback; for a
/// sub-machine state, constructs the nested context, resets the nested
/// instance and starts the nested machine.
fn enter_state(machines: &Vec<ValidatedFsm>, insts: &mut Vec<MachineInstance>, m: usize, s: StateId)
    requires
        arena_wf(machines@),
        inst_wf(machines@, views(old(insts)@)),
        m < machines@.len(),
        (s as int) < machines@[m as int].states@.len(),
    ensures
        views(final(insts)@) == sp_enter_state(machines@, views(old(insts)@), m as int, s),
        inst_wf(machines@, views(final(insts)@)),
    decreases machines@.len() - m, 1int, 0int, 0int,
{
    proof {
        assert(machine_wf(machines@, m as int));
        assert(inst_wf_one(machines@[m as int], views(insts@)[m as int]));
    }
    let ghost pre = views(insts@);
    let mut inst = insts.remove(m);
    let st = &machines[m].states[s];
    let hv = inst.payloads[s];
    let v2 = apply_hook(st.on_entry, &mut inst.context, hv);
    inst.payloads.set(s, v2);
    match &st.kind {
        FsmStateKind::Normal => {
            insts.insert(m, inst);
            proof {
                lemma_remove_insert(old(insts)@, m as int, insts@[m as int]);
                lemma_views_update(old(insts)@, m as int, insts@[m as int]);
                assert(views(insts@) =~= sp_enter_state(machines@, pre, m as int, s));
                assert(inst_wf(machines@, views(insts@)));
            }
        },
        FsmStateKind::SubMachine(opts) => {
            let subctx = build_sub_context(&opts.context_constructor, &inst.context);
            insts.insert(m, inst);
            let sub = opts.machine;
            proof {
                assert(state_wf(machines@, m as int, machines@[m as int].states@[s as int]));
                lemma_remove_insert(old(insts)@, m as int, insts@[m as int]);
                lemma_views_update(old(insts)@, m as int, insts@[m as int]);
            }
            let ghost i1 = views(insts@);
            let ghost snap = insts@;
            let np = machines[sub].states.len();
            let nr = machines[sub].regions.len();
            let mut si = insts.remove(sub);
            si.context = subctx;
            si.payloads = zero_payloads(np);
            si.current = stopped_currents(nr);
            insts.insert(sub, si);
            proof {
                lemma_remove_insert(snap, sub as int, insts@[sub as int]);
                lemma_views_update(snap, sub as int, insts@[sub as int]);
                let hr = sp_hook(
                    machines@[m as int].states@[s as int].on_entry,
                    pre[m as int].context,
                    pre[m as int].payloads[s as int],
                );
                assert(i1 =~= upd_inst(
                    pre,
                    m as int,
                    hr.0,
                    pre[m as int].payloads.update(s as int, hr.1),
                    pre[m as int].current,
                ));
                assert(views(insts@) =~= upd_inst(
                    i1,
                    sub as int,
                    sp_sub_context(opts.context_constructor, hr.0),
                    Seq::new(machines@[sub as int].states@.len(), |j: int| 0u64),
                    Seq::new(machines@[sub as int].regions@.len(), |r: int| FsmCurrentState::Stopped),
                ));
                assert(inst_wf(machines@, views(insts@)));
            }
            start_machine(machines, insts, sub);
            proof {
                assert(views(insts@) == sp_enter_state(machines@, pre, m as int, s));
            }
        },
    }
}

/// Starts machine `m`: every region to its declared initial state, in
/// region order, running the initial states' entry callbacks.
fn start_machine(machines: &Vec<ValidatedFsm>, insts: &mut Vec<MachineInstance>, m: usize)
    requires
        arena_wf(machines@),
        inst_wf(machines@, views(old(insts)@)),
        m < machines@.len(),
    ensures
        views(final(insts)@) == sp_start_machine(machines@, views(old(insts)@), m as int),
        inst_wf(machines@, views(final(insts)@)),
    decreases machines@.len() - m, 3int, 0int, 0int,
{
    let nregions = machines[m].regions.len();
    let mut r: usize = 0;
    while r < nregions
        invariant
            arena_wf(machines@),
            inst_wf(machines@, views(insts@)),
            m < machines@.len(),
            r <= nregions,
            nregions == machines@[m as int].regions@.len(),
            sp_start_regions(machines@, views(insts@), m as int, r as int) == sp_start_regions(
                machines@,
                views(old(insts)@),
                m as int,
                0,
            ),
        decreases nregions - r,
    {
        proof {
            assert(machine_wf(machines@, m as int));
        }
        let ghost pre = views(insts@);
        let ghost snap = insts@;
        let init = machines[m].regions[r].initial_state;
        let mut inst = insts.remove(m);
        inst.current.set(r, FsmCurrentState::State(init));
        insts.insert(m, inst);
        proof {
            lemma_remove_insert(snap, m as int, insts@[m as int]);
            lemma_views_update(snap, m as int, insts@[m as int]);
            assert(views(insts@) =~= upd_inst(
                pre,
                m as int,
                pre[m as int].context,
                pre[m as int].payloads,
                pre[m as int].current.update(r as int, FsmCurrentState::State(init)),
            ));
            assert(inst_wf(machines@, views(insts@)));
        }
        enter_state(machines, insts, m, init);
        r = r + 1;
    }
    proof {
        assert(sp_start_regions(machines@, views(insts@), m as int, nregions as int) == views(
            insts@,
        ));
    }
}

/// Looks up the first enabled candidate for the current state among an
/// event's canonical transitions, in declaration order.
fn find_transition(
    trs: &Vec<FsmEventTransition>,
    s: StateId,
    ev: &EventInstance,
    ctx: &Vec<u64>,
) -> (r: Option<usize>)
    ensures
        match r {
            Option::Some(i) => (i as int) < trs@.len() && sp_find(trs@, s, *ev, ctx@)
                == Option::Some(trs@[i as int]),
            Option::None => sp_find(trs@, s, *ev, ctx@) is None,
        },
{
    let mut i: usize = 0;
    proof {
        assert(trs@.skip(0) =~= trs@);
    }
    while i < trs.len()
        invariant
            i <= trs@.len(),
            sp_find(trs@.skip(i as int), s, *ev, ctx@) == sp_find(trs@, s, *ev, ctx@),
        decreases trs@.len() - i,
    {
        proof {
            assert(trs@.skip(i as int)[0] == trs@[i as int]);
            assert(trs@.skip(i as int).drop_first() =~= trs@.skip(i as int + 1));
        }
        let t = &trs[i];
        let cand = match t {
            FsmEventTransition::State(a, _, _) => *a == s,
            FsmEventTransition::InternalTransition(a, _) => *a == s,
            FsmEventTransition::SelfTransition(a, _) => *a == s,
        };
        if cand {
            let g = match t {
                FsmEventTransition::State(_, _, ega) => ega.guard,
                FsmEventTransition::InternalTransition(_, ega) => ega.guard,
                FsmEventTransition::SelfTransition(_, ega) => ega.guard,
            };
            if eval_guard(g, ev, ctx) {
                return Option::Some(i);
            }
        }
        i = i + 1;
    }
    Option::None
}

/// Commits a selected transition in region `r` of machine `m`.
fn commit_transition(
    machines: &Vec<ValidatedFsm>,
    insts: &mut Vec<MachineInstance>,
    queue: &mut Vec<EventInstance>,
    m: usize,
    r: usize,
    tr: &FsmEventTransition,
    ev: &EventInstance,
)
    requires
        arena_wf(machines@),
        inst_wf(machines@, views(old(insts)@)),
        m < machines@.len(),
        (r as int) < machines@[m as int].regions@.len(),
        canon_wf(*tr, machines@[m as int].states@.len() as int),
    ensures
        (views(final(insts)@), final(queue)@) == sp_commit(
            machines@,
            views(old(insts)@),
            old(queue)@,
            m as int,
            r as int,
            *tr,
            *ev,
        ),
        inst_wf(machines@, views(final(insts)@)),
    decreases machines@.len() - m, 2int, 0int, 0int,
{
    let ghost pre = views(insts@);
    let ghost preq = queue@;
    proof {
        assert(inst_wf_one(machines@[m as int], views(insts@)[m as int]));
    }
    match tr {
        FsmEventTransition::InternalTransition(s, ega) => {
            let mut inst = insts.remove(m);
            let hv = inst.payloads[*s];
            let v2 = apply_ops_single(&ega.action, &mut inst.context, hv, queue);
            inst.payloads.set(*s, v2);
            insts.insert(m, inst);
            proof {
                lemma_remove_insert(old(insts)@, m as int, insts@[m as int]);
                lemma_views_update(old(insts)@, m as int, insts@[m as int]);
                let o = sp_ops_single(ega.action@, pre[m as int].context, pre[m as int].payloads[*s as int], preq);
                lemma_ops_single_len(ega.action@, pre[m as int].context, pre[m as int].payloads[*s as int], preq);
                assert(views(insts@) =~= upd_inst(
                    pre,
                    m as int,
                    o.0,
                    pre[m as int].payloads.update(*s as int, o.1),
                    pre[m as int].current,
                ));
                assert(inst_wf(machines@, views(insts@)));
            }
        },
        FsmEventTransition::SelfTransition(s, ega) => {
            exit_state(machines, insts, m, *s);
            proof {
                assert(inst_wf_one(machines@[m as int], views(insts@)[m as int]));
            }
            let ghost i1 = views(insts@);
            let ghost snap = insts@;
            let mut inst = insts.remove(m);
            let hv = inst.payloads[*s];
            let v2 = apply_ops_single(&ega.action, &mut inst.context, hv, queue);
            inst.payloads.set(*s, v2);
            insts.insert(m, inst);
            proof {
                lemma_remove_insert(snap, m as int, insts@[m as int]);
                lemma_views_update(snap, m as int, insts@[m as int]);
                let o = sp_ops_single(ega.action@, i1[m as int].context, i1[m as int].payloads[*s as int], preq);
                lemma_ops_single_len(ega.action@, i1[m as int].context, i1[m as int].payloads[*s as int], preq);
                assert(views(insts@) =~= upd_inst(
                    i1,
                    m as int,
                    o.0,
                    i1[m as int].payloads.update(*s as int, o.1),
                    i1[m as int].current,
                ));
                assert(inst_wf(machines@, views(insts@)));
            }
            enter_state(machines, insts, m, *s);
        },
        FsmEventTransition::State(from, to, ega) => {
            exit_state(machines, insts, m, *from);
            proof {
                assert(inst_wf_one(machines@[m as int], views(insts@)[m as int]));
            }
            let ghost i1 = views(insts@);
            let ghost snap = insts@;
            let mut inst = insts.remove(m);
            let pf = inst.payloads[*from];
            let pt = inst.payloads[*to];
            let ft = apply_ops_pair(&ega.action, &mut inst.context, pf, pt, queue);
            inst.payloads.set(*from, ft.0);
            inst.payloads.set(*to, ft.1);
            inst.current.set(r, FsmCurrentState::State(*to));
            insts.insert(m, inst);
            proof {
                lemma_remove_insert(snap, m as int, insts@[m as int]);
                lemma_views_update(snap, m as int, insts@[m as int]);
                let o = sp_ops_pair(
                    ega.action@,
                    i1[m as int].context,
                    i1[m as int].payloads[*from as int],
                    i1[m as int].payloads[*to as int],
                    preq,
                );
                lemma_ops_pair_len(
                    ega.action@,
                    i1[m as int].context,
                    i1[m as int].payloads[*from as int],
                    i1[m as int].payloads[*to as int],
                    preq,
                );
                assert(views(insts@) =~= upd_inst(
                    i1,
                    m as int,
                    o.0,
                    i1[m as int].payloads.update(*from as int, o.1).update(*to as int, o.2),
                    i1[m as int].current.update(r as int, FsmCurrentState::State(*to)),
                ));
                assert(inst_wf(machines@, views(insts@)));
            }
            enter_state(machines, insts, m, *to);
        },
    }
}

/// A region's own transition matching: looks up the event's candidates for
/// the given current-state identity and commits the first enabled one.
fn try_own(
    machines: &Vec<ValidatedFsm>,
    insts: &mut Vec<MachineInstance>,
    queue: &mut Vec<EventInstance>,
    m: usize,
    r: usize,
    s: StateId,
    ev: &EventInstance,
) -> (sel: bool)
    requires
        arena_wf(machines@),
        inst_wf(machines@, views(old(insts)@)),
        m < machines@.len(),
        (r as int) < machines@[m as int].regions@.len(),
        (s as int) < machines@[m as int].states@.len(),
    ensures
        ({
            let fr = sp_find(
                sp_event_trs(machines@[m as int], ev.id),
                s,
                *ev,
                views(old(insts)@)[m as int].context,
            );
            match fr {
                Option::None => !sel && views(final(insts)@) == views(old(insts)@)
                    && final(queue)@ == old(queue)@,
                Option::Some(tr) => sel && (views(final(insts)@), final(queue)@) == sp_commit(
                    machines@,
                    views(old(insts)@),
                    old(queue)@,
                    m as int,
                    r as int,
                    tr,
                    *ev,
                ),
            }
        }),
        inst_wf(machines@, views(final(insts)@)),
    decreases machines@.len() - m, 4int, 0int, 0int,
{
    if ev.id < machines[m].events.len() {
        let trs = &machines[m].events[ev.id].transitions;
        let found = find_transition(trs, s, ev, &insts[m].context);
        proof {
            assert(views(insts@)[m as int].context == insts@[m as int].context@);
        }
        match found {
            Option::Some(i) => {
                proof {
                    assert(machine_wf(machines@, m as int));
                    assert(canon_wf(trs@[i as int], machines@[m as int].states@.len() as int));
                }
                commit_transition(machines, insts, queue, m, r, &trs[i], ev);
                true
            },
            Option::None => false,
        }
    } else {
        proof {
            assert(sp_event_trs(machines@[m as int], ev.id) =~= Seq::<FsmEventTransition>::empty());
        }
        false
    }
}

/// Dispatches one event to machine `m`: every region independently, in
/// region order.  A region resting in a sub-machine state offers the event
/// to the nested machine first and only attempts its own transitions when
/// the nested machine declines.
fn dispatch_machine(
    machines: &Vec<ValidatedFsm>,
    insts: &mut Vec<MachineInstance>,
    queue: &mut Vec<EventInstance>,
    m: usize,
    ev: &EventInstance,
) -> (handled: bool)
    requires
        arena_wf(machines@),
        inst_wf(machines@, views(old(insts)@)),
        m < machines@.len(),
    ensures
        views(final(insts)@) == sp_dispatch_machine(
            machines@,
            views(old(insts)@),
            old(queue)@,
            m as int,
            *ev,
        ).0,
        final(queue)@ == sp_dispatch_machine(
            machines@,
            views(old(insts)@),
            old(queue)@,
            m as int,
            *ev,
        ).1,
        handled == sp_dispatch_machine(
            machines@,
            views(old(insts)@),
            old(queue)@,
            m as int,
            *ev,
        ).2,
        inst_wf(machines@, views(final(insts)@)),
    decreases machines@.len() - m, 5int, 0int, 0int,
{
    let nregions = machines[m].regions.len();
    let mut handled = false;
    let mut r: usize = 0;
    while r < nregions
        invariant
            arena_wf(machines@),
            inst_wf(machines@, views(insts@)),
            m < machines@.len(),
            r <= nregions,
            nregions == machines@[m as int].regions@.len(),
            sp_dispatch_regions(machines@, views(insts@), queue@, m as int, *ev, r as int, handled)
                == sp_dispatch_machine(machines@, views(old(insts)@), old(queue)@, m as int, *ev),
        decreases nregions - r,
    {
        proof {
            assert(machine_wf(machines@, m as int));
            assert(inst_wf_one(machines@[m as int], views(insts@)[m as int]));
        }
        let ghost pre = views(insts@);
        let ghost preq = queue@;
        let ghost hpre = handled;
        let cs = insts[m].current[r];
        proof {
            assert(cs == pre[m as int].current[r as int]);
        }
        match cs {
            FsmCurrentState::Stopped => {},
            FsmCurrentState::State(s) => {
                proof {
                    assert(cs_wf(pre[m as int].current[r as int], machines@[m as int].states@.len() as int));
                }
                let sub_opt: Option<usize> = match &machines[m].states[s].kind {
                    FsmStateKind::SubMachine(o) => Option::Some(o.machine),
                    FsmStateKind::Normal => Option::None,
                };
                proof {
                    assert(state_wf(machines@, m as int, machines@[m as int].states@[s as int]));
                }
                let mut do_own = true;
                if let Option::Some(sub) = sub_opt {
                    if is_started(insts, sub) {
                        let h2 = dispatch_machine(machines, insts, queue, sub, ev);
                        let ghost d = sp_dispatch_machine(machines@, pre, preq, sub as int, *ev);
                        proof {
                            assert(views(insts@) == d.0 && queue@ == d.1 && h2 == d.2);
                        }
                        if h2 {
                            handled = true;
                            do_own = false;
                            proof {
                                assert(sp_dispatch_regions(machines@, pre, preq, m as int, *ev, r as int, hpre)
                                    == sp_dispatch_regions(machines@, d.0, d.1, m as int, *ev, r as int + 1, true));
                            }
                        }
                    }
                }
                if do_own {
                    let ghost t0 = views(insts@);
                    let ghost tq0 = queue@;
                    let sel = try_own(machines, insts, queue, m, r, s, ev);
                    if sel {
                        handled = true;
                    }
                    proof {
                        assert(sp_try_own(machines@, t0, tq0, m as int, *ev, r as int, hpre, s)
                            == sp_dispatch_regions(machines@, views(insts@), queue@, m as int, *ev, r as int + 1, handled));
                        assert(sp_dispatch_regions(machines@, pre, preq, m as int, *ev, r as int, hpre)
                            == sp_try_own(machines@, t0, tq0, m as int, *ev, r as int, hpre, s));
                    }
                }
            },
        }
        proof {
            assert(sp_dispatch_regions(machines@, pre, preq, m as int, *ev, r as int, hpre)
                == sp_dispatch_regions(machines@, views(insts@), queue@, m as int, *ev, r as int + 1, handled));
        }
        r = r + 1;
    }
    proof {
        assert(sp_dispatch_regions(machines@, views(insts@), queue@, m as int, *ev, nregions as int, handled)
            == (views(insts@), queue@, handled));
    }
    handled
}

/// `n` queue-drain steps, first event first.
pub open spec fn sp_drain(
    machines: Seq<ValidatedFsm>,
    insts: Seq<MachineInstV>,
    queue: Seq<EventInstance>,
    n: nat,
) -> (Seq<MachineInstV>, Seq<EventInstance>)
    decreases n,
{
    if n == 0 {
        (insts, queue)
    } else {
        let s1 = sp_drain_step(machines, insts, queue);
        sp_drain(machines, s1.0, s1.1, (n - 1) as nat)
    }
}


// ---------------------------------------------------------------------
// Dispatch laws
// ---------------------------------------------------------------------

proof fn lemma_views_push(s: Seq<MachineInstance>, x: MachineInstance)
    ensures
        views(s.push(x)) =~= views(s).push(x@),
{
}

/// One more drain step after `n` steps equals draining the `n`-step result
/// once more.
proof fn lemma_drain_snoc(
    machines: Seq<ValidatedFsm>,
    insts: Seq<MachineInstV>,
    queue: Seq<EventInstance>,
    n: nat,
)
    ensures
        sp_drain(machines, insts, queue, n + 1) == ({
            let d = sp_drain(machines, insts, queue, n);
            sp_drain_step(machines, d.0, d.1)
        }),
    decreases n,
{
    let s1 = sp_drain_step(machines, insts, queue);
    if n == 0 {
        assert(sp_drain(machines, s1.0, s1.1, 0) == s1);
        assert(sp_drain(machines, insts, queue, 1) == sp_drain(machines, s1.0, s1.1, 0));
    } else {
        lemma_drain_snoc(machines, s1.0, s1.1, (n - 1) as nat);
    }
}

/// Exiting a state never touches a machine that stands before its owner in
/// the arena, and never changes which states the owner's regions rest in.
pub proof fn lemma_exit_frame(
    machines: Seq<ValidatedFsm>,
    insts: Seq<MachineInstV>,
    m: int,
    s: StateId,
)
    requires
        0 <= m < machines.len(),
        insts.len() == machines.len(),
    ensures
        ({
            let res = sp_exit_state(machines, insts, m, s);
            &&& res.len() == insts.len()
            &&& forall|k: int| 0 <= k < m ==> res[k] == insts[k]
            &&& res[m].current == insts[m].current
        }),
{
}

/// Entering a state never touches a machine that stands before its owner
/// in the arena, and never changes which states the owner's regions rest
/// in: nested machines live strictly deeper.
pub proof fn lemma_enter_frame(
    machines: Seq<ValidatedFsm>,
    insts: Seq<MachineInstV>,
    m: int,
    s: StateId,
)
    requires
        0 <= m < machines.len(),
        insts.len() == machines.len(),
    ensures
        ({
            let res = sp_enter_state(machines, insts, m, s);
            &&& res.len() == insts.len()
            &&& forall|k: int| 0 <= k < m ==> res[k] == insts[k]
            &&& res[m].current == insts[m].current
        }),
    decreases machines.len() - m, 1int, 0int, 0int,
{
    let st = machines[m].states@[s as int];
    match st.kind {
        FsmStateKind::Normal => {},
        FsmStateKind::SubMachine(opts) => {
            let sub = opts.machine as int;
            if m < sub && sub < machines.len() {
                let hr = sp_hook(st.on_entry, insts[m].context, insts[m].payloads[s as int]);
                let i1 = upd_inst(
                    insts,
                    m,
                    hr.0,
                    insts[m].payloads.update(s as int, hr.1),
                    insts[m].current,
                );
                let i2 = upd_inst(
                    i1,
                    sub,
                    sp_sub_context(opts.context_constructor, hr.0),
                    Seq::new(machines[sub].states@.len(), |j: int| 0u64),
                    Seq::new(machines[sub].regions@.len(), |r: int| FsmCurrentState::Stopped),
                );
                lemma_start_frame(machines, i2, sub);
            }
        },
    }
}

/// Starting the regions of a machine from region `r` on: machines before
/// the owner are untouched, already-started regions keep their state, and
/// every region from `r` on rests in its declared initial state afterward.
pub proof fn lemma_start_regions_frame(
    machines: Seq<ValidatedFsm>,
    insts: Seq<MachineInstV>,
    m: int,
    r: int,
)
    requires
        0 <= m < machines.len(),
        insts.len() == machines.len(),
        0 <= r,
        insts[m].current.len() == machines[m].regions@.len(),
    ensures
        ({
            let res = sp_start_regions(machines, insts, m, r);
            &&& res.len() == insts.len()
            &&& forall|k: int| 0 <= k < m ==> res[k] == insts[k]
            &&& res[m].current.len() == insts[m].current.len()
            &&& forall|k: int|
                0 <= k < r && k < insts[m].current.len() ==> res[m].current[k]
                    == insts[m].current[k]
            &&& forall|k: int|
                r <= k < machines[m].regions@.len() ==> res[m].current[k]
                    == FsmCurrentState::State(machines[m].regions@[k].initial_state)
        }),
    decreases machines.len() - m, 2int, machines[m].regions@.len() - r, 0int,
{
    if r < machines[m].regions@.len() {
        let init = machines[m].regions@[r].initial_state;
        let i1 = upd_inst(
            insts,
            m,
            insts[m].context,
            insts[m].payloads,
            insts[m].current.update(r, FsmCurrentState::State(init)),
        );
        let i2 = sp_enter_state(machines, i1, m, init);
        lemma_enter_frame(machines, i1, m, init);
        lemma_start_regions_frame(machines, i2, m, r + 1);
    }
}

/// Starting a machine touches no machine before it in the arena, and
/// afterward every region rests in its declared initial state.
pub proof fn lemma_start_frame(machines: Seq<ValidatedFsm>, insts: Seq<MachineInstV>, m: int)
    requires
        0 <= m < machines.len(),
        insts.len() == machines.len(),
        insts[m].current.len() == machines[m].regions@.len(),
    ensures
        ({
            let res = sp_start_machine(machines, insts, m);
            &&& res.len() == insts.len()
            &&& forall|k: int| 0 <= k < m ==> res[k] == insts[k]
            &&& forall|k: int|
                0 <= k < machines[m].regions@.len() ==> res[m].current[k]
                    == FsmCurrentState::State(machines[m].regions@[k].initial_state)
        }),
    decreases machines.len() - m, 3int, 0int, 0int,
{
    lemma_start_regions_frame(machines, insts, m, 0);
}


/// Once some region has handled the event, the remaining regions cannot
/// undo that: the dispatch stays handled.
proof fn lemma_try_handled(
    machines: Seq<ValidatedFsm>,
    insts: Seq<MachineInstV>,
    queue: Seq<EventInstance>,
    m: int,
    ev: EventInstance,
    r: int,
    s: StateId,
)
    requires
        0 <= m < machines.len(),
    ensures
        sp_try_own(machines, insts, queue, m, ev, r, true, s).2,
    decreases machines.len() - m, 4int, machines[m].regions@.len() - r, 0int,
{
    if 0 <= r && r < machines[m].regions@.len() {
        match sp_find(sp_event_trs(machines[m], ev.id), s, ev, insts[m].context) {
            Option::None => {
                lemma_regions_handled(machines, insts, queue, m, ev, r + 1);
            },
            Option::Some(tr) => {
                let c = sp_commit(machines, insts, queue, m, r, tr, ev);
                lemma_regions_handled(machines, c.0, c.1, m, ev, r + 1);
            },
        }
    }
}

/// See `lemma_try_handled`.
proof fn lemma_regions_handled(
    machines: Seq<ValidatedFsm>,
    insts: Seq<MachineInstV>,
    queue: Seq<EventInstance>,
    m: int,
    ev: EventInstance,
    r: int,
)
    requires
        0 <= m < machines.len(),
    ensures
        sp_dispatch_regions(machines, insts, queue, m, ev, r, true).2,
    decreases machines.len() - m, 4int, machines[m].regions@.len() - r, 1int,
{
    if 0 <= r && r < machines[m].regions@.len() {
        match insts[m].current[r] {
            FsmCurrentState::Stopped => {
                lemma_regions_handled(machines, insts, queue, m, ev, r + 1);
            },
            FsmCurrentState::State(s) => {
                match machines[m].states@[s as int].kind {
                    FsmStateKind::SubMachine(opts) => {
                        let sub = opts.machine as int;
                        if m < sub && sub < machines.len() && sp_started(insts, sub) {
                            let d = sp_dispatch_machine(machines, insts, queue, sub, ev);
                            if d.2 {
                                lemma_regions_handled(machines, d.0, d.1, m, ev, r + 1);
                            } else {
                                lemma_try_handled(machines, d.0, d.1, m, ev, r, s);
                            }
                        } else {
                            lemma_try_handled(machines, insts, queue, m, ev, r, s);
                        }
                    },
                    FsmStateKind::Normal => {
                        lemma_try_handled(machines, insts, queue, m, ev, r, s);
                    },
                }
            },
        }
    }
}

/// See `lemma_dispatch_unhandled_no_effect`.
proof fn lemma_noeff_try(
    machines: Seq<ValidatedFsm>,
    insts: Seq<MachineInstV>,
    queue: Seq<EventInstance>,
    m: int,
    ev: EventInstance,
    r: int,
    handled: bool,
    s: StateId,
)
    requires
        0 <= m < machines.len(),
    ensures
        ({
            let res = sp_try_own(machines, insts, queue, m, ev, r, handled, s);
            !res.2 ==> res.0 == insts && res.1 == queue
        }),
    decreases machines.len() - m, 4int, machines[m].regions@.len() - r, 0int,
{
    if 0 <= r && r < machines[m].regions@.len() {
        match sp_find(sp_event_trs(machines[m], ev.id), s, ev, insts[m].context) {
            Option::None => {
                lemma_noeff_regions(machines, insts, queue, m, ev, r + 1, handled);
            },
            Option::Some(tr) => {
                let c = sp_commit(machines, insts, queue, m, r, tr, ev);
                lemma_regions_handled(machines, c.0, c.1, m, ev, r + 1);
            },
        }
    }
}

/// See `lemma_dispatch_unhandled_no_effect`.
proof fn lemma_noeff_regions(
    machines: Seq<ValidatedFsm>,
    insts: Seq<MachineInstV>,
    queue: Seq<EventInstance>,
    m: int,
    ev: EventInstance,
    r: int,
    handled: bool,
)
    requires
        0 <= m < machines.len(),
    ensures
        ({
            let res = sp_dispatch_regions(machines, insts, queue, m, ev, r, handled);
            !res.2 ==> res.0 == insts && res.1 == queue
        }),
    decreases machines.len() - m, 4int, machines[m].regions@.len() - r, 1int,
{
    if 0 <= r && r < machines[m].regions@.len() {
        match insts[m].current[r] {
            FsmCurrentState::Stopped => {
                lemma_noeff_regions(machines, insts, queue, m, ev, r + 1, handled);
            },
            FsmCurrentState::State(s) => {
                match machines[m].states@[s as int].kind {
                    FsmStateKind::SubMachine(opts) => {
                        let sub = opts.machine as int;
                        if m < sub && sub < machines.len() && sp_started(insts, sub) {
                            let d = sp_dispatch_machine(machines, insts, queue, sub, ev);
                            if d.2 {
                                lemma_regions_handled(machines, d.0, d.1, m, ev, r + 1);
                            } else {
                                lemma_dispatch_unhandled_no_effect(machines, insts, queue, sub, ev);
                                lemma_noeff_try(machines, d.0, d.1, m, ev, r, handled, s);
                            }
                        } else {
                            lemma_noeff_try(machines, insts, queue, m, ev, r, handled, s);
                        }
                    },
                    FsmStateKind::Normal => {
                        lemma_noeff_try(machines, insts, queue, m, ev, r, handled, s);
                    },
                }
            },
        }
    }
}

/// A dispatch that no region handles is free of side effects: instances
/// and queue come out exactly as they went in.
pub proof fn lemma_dispatch_unhandled_no_effect(
    machines: Seq<ValidatedFsm>,
    insts: Seq<MachineInstV>,
    queue: Seq<EventInstance>,
    m: int,
    ev: EventInstance,
)
    requires
        0 <= m < machines.len(),
    ensures
        ({
            let res = sp_dispatch_machine(machines, insts, queue, m, ev);
            !res.2 ==> res.0 == insts && res.1 == queue
        }),
    decreases machines.len() - m, 5int, 0int, 0int,
{
    lemma_noeff_regions(machines, insts, queue, m, ev, 0, false);
}

/// Dispatching to a nested machine leaves every ancestor machine's
/// instance — context counters, payloads and current states — untouched,
/// however many transitions the nested machine resolves.
pub proof fn lemma_nested_dispatch_leaves_ancestors(
    machines: Seq<ValidatedFsm>,
    insts: Seq<MachineInstV>,
    queue: Seq<EventInstance>,
    m: int,
    ev: EventInstance,
)
    requires
        0 <= m < machines.len(),
        insts.len() == machines.len(),
    ensures
        ({
            let res = sp_dispatch_machine(machines, insts, queue, m, ev);
            &&& res.0.len() == insts.len()
            &&& forall|k: int| 0 <= k < m ==> res.0[k] == insts[k]
        }),
    decreases machines.len() - m, 5int, 0int, 0int,
{
    lemma_frame_regions(machines, insts, queue, m, ev, 0, false);
}

/// See `lemma_nested_dispatch_leaves_ancestors`.
proof fn lemma_frame_commit(
    machines: Seq<ValidatedFsm>,
    insts: Seq<MachineInstV>,
    queue: Seq<EventInstance>,
    m: int,
    r: int,
    tr: FsmEventTransition,
    ev: EventInstance,
)
    requires
        0 <= m < machines.len(),
        insts.len() == machines.len(),
    ensures
        ({
            let res = sp_commit(machines, insts, queue, m, r, tr, ev);
            &&& res.0.len() == insts.len()
            &&& forall|k: int| 0 <= k < m ==> res.0[k] == insts[k]
        }),
    decreases machines.len() - m, 2int, 0int, 1int,
{
    match tr {
        FsmEventTransition::InternalTransition(s, ega) => {},
        FsmEventTransition::SelfTransition(s, ega) => {
            let i1 = sp_exit_state(machines, insts, m, s);
            lemma_exit_frame(machines, insts, m, s);
            let o = sp_ops_single(ega.action@, i1[m].context, i1[m].payloads[s as int], queue);
            let i2 = upd_inst(i1, m, o.0, i1[m].payloads.update(s as int, o.1), i1[m].current);
            lemma_enter_frame(machines, i2, m, s);
        },
        FsmEventTransition::State(from, to, ega) => {
            let i1 = sp_exit_state(machines, insts, m, from);
            lemma_exit_frame(machines, insts, m, from);
            let o = sp_ops_pair(
                ega.action@,
                i1[m].context,
                i1[m].payloads[from as int],
                i1[m].payloads[to as int],
                queue,
            );
            let pay = i1[m].payloads.update(from as int, o.1).update(to as int, o.2);
            let i2 = upd_inst(i1, m, o.0, pay, i1[m].current.update(r, FsmCurrentState::State(to)));
            lemma_enter_frame(machines, i2, m, to);
        },
    }
}

/// See `lemma_nested_dispatch_leaves_ancestors`.
proof fn lemma_frame_try(
    machines: Seq<ValidatedFsm>,
    insts: Seq<MachineInstV>,
    queue: Seq<EventInstance>,
    m: int,
    ev: EventInstance,
    r: int,
    handled: bool,
    s: StateId,
)
    requires
        0 <= m < machines.len(),
        insts.len() == machines.len(),
    ensures
        ({
            let res = sp_try_own(machines, insts, queue, m, ev, r, handled, s);
            &&& res.0.len() == insts.len()
            &&& forall|k: int| 0 <= k < m ==> res.0[k] == insts[k]
        }),
    decreases machines.len() - m, 4int, machines[m].regions@.len() - r, 0int,
{
    if 0 <= r && r < machines[m].regions@.len() {
        match sp_find(sp_event_trs(machines[m], ev.id), s, ev, insts[m].context) {
            Option::None => {
                lemma_frame_regions(machines, insts, queue, m, ev, r + 1, handled);
            },
            Option::Some(tr) => {
                let c = sp_commit(machines, insts, queue, m, r, tr, ev);
                lemma_frame_commit(machines, insts, queue, m, r, tr, ev);
                lemma_frame_regions(machines, c.0, c.1, m, ev, r + 1, true);
            },
        }
    }
}

/// See `lemma_nested_dispatch_leaves_ancestors`.
proof fn lemma_frame_regions(
    machines: Seq<ValidatedFsm>,
    insts: Seq<MachineInstV>,
    queue: Seq<EventInstance>,
    m: int,
    ev: EventInstance,
    r: int,
    handled: bool,
)
    requires
        0 <= m < machines.len(),
        insts.len() == machines.len(),
    ensures
        ({
            let res = sp_dispatch_regions(machines, insts, queue, m, ev, r, handled);
            &&& res.0.len() == insts.len()
            &&& forall|k: int| 0 <= k < m ==> res.0[k] == insts[k]
        }),
    decreases machines.len() - m, 4int, machines[m].regions@.len() - r, 1int,
{
    if 0 <= r && r < machines[m].regions@.len() {
        match insts[m].current[r] {
            FsmCurrentState::Stopped => {
                lemma_frame_regions(machines, insts, queue, m, ev, r + 1, handled);
            },
            FsmCurrentState::State(s) => {
                match machines[m].states@[s as int].kind {
                    FsmStateKind::SubMachine(opts) => {
                        let sub = opts.machine as int;
                        if m < sub && sub < machines.len() && sp_started(insts, sub) {
                            let d = sp_dispatch_machine(machines, insts, queue, sub, ev);
                            lemma_nested_dispatch_leaves_ancestors(machines, insts, queue, sub, ev);
                            if d.2 {
                                lemma_frame_regions(machines, d.0, d.1, m, ev, r + 1, true);
                            } else {
                                lemma_frame_try(machines, d.0, d.1, m, ev, r, handled, s);
                            }
                        } else {
                            lemma_frame_try(machines, insts, queue, m, ev, r, handled, s);
                        }
                    },
                    FsmStateKind::Normal => {
                        lemma_frame_try(machines, insts, queue, m, ev, r, handled, s);
                    },
                }
            },
        }
    }
}

/// A selected transition always satisfies its guard, and matches the
/// current state: a transition whose guard evaluates false is never
/// selected, so its action and the exit/entry callbacks never run for it.
pub proof fn lemma_selected_candidate_enabled(
    trs: Seq<FsmEventTransition>,
    s: StateId,
    ev: EventInstance,
    ctx: Seq<u64>,
)
    ensures
        ({
            match sp_find(trs, s, ev, ctx) {
                Option::Some(tr) => cand_matches(tr, s) && sp_guard(cand_guard(tr), ev, ctx),
                Option::None => true,
            }
        }),
    decreases trs.len(),
{
    if trs.len() > 0 {
        if !(cand_matches(trs[0], s) && sp_guard(cand_guard(trs[0]), ev, ctx)) {
            lemma_selected_candidate_enabled(trs.drop_first(), s, ev, ctx);
        }
    }
}

/// When every candidate that matches the current state has a false guard,
/// the matcher selects nothing — so the dispatch of that region commits
/// nothing.
pub proof fn lemma_all_guards_false_no_candidate(
    trs: Seq<FsmEventTransition>,
    s: StateId,
    ev: EventInstance,
    ctx: Seq<u64>,
)
    requires
        forall|j: int|
            0 <= j < trs.len() && cand_matches(#[trigger] trs[j], s) ==> !sp_guard(
                cand_guard(trs[j]),
                ev,
                ctx,
            ),
    ensures
        sp_find(trs, s, ev, ctx) is None,
    decreases trs.len(),
{
    if trs.len() > 0 {
        assert(trs.drop_first() =~= trs.subrange(1, trs.len() as int));
        assert(forall|j: int|
            0 <= j < trs.drop_first().len() ==> trs.drop_first()[j] == trs[j + 1]);
        lemma_all_guards_false_no_candidate(trs.drop_first(), s, ev, ctx);
    }
}

/// An internal transition runs only the action: the region's current
/// state and the entry/exit callbacks stay untouched; context, payload and
/// queue change by the action's effects alone.
pub proof fn lemma_internal_transition_skips_hooks(
    machines: Seq<ValidatedFsm>,
    insts: Seq<MachineInstV>,
    queue: Seq<EventInstance>,
    m: int,
    r: int,
    tr: FsmEventTransition,
    ev: EventInstance,
)
    requires
        0 <= m < machines.len(),
        insts.len() == machines.len(),
        tr is InternalTransition,
    ensures
        ({
            let res = sp_commit(machines, insts, queue, m, r, tr, ev);
            match tr {
                FsmEventTransition::InternalTransition(s, ega) => {
                    let o = sp_ops_single(
                        ega.action@,
                        insts[m].context,
                        insts[m].payloads[s as int],
                        queue,
                    );
                    &&& res.0[m].current == insts[m].current
                    &&& res.0[m].context == o.0
                    &&& res.1 == o.2
                    &&& forall|k: int| 0 <= k < insts.len() && k != m ==> res.0[k] == insts[k]
                },
                _ => true,
            }
        }),
{
}

/// A self transition is distinguishable from an internal one purely by the
/// callbacks: for a plain state it runs the exit callback, then the
/// action, then the entry callback, and the region's current state is
/// unchanged.
pub proof fn lemma_self_transition_fires_hooks(
    machines: Seq<ValidatedFsm>,
    insts: Seq<MachineInstV>,
    queue: Seq<EventInstance>,
    m: int,
    r: int,
    tr: FsmEventTransition,
    ev: EventInstance,
)
    requires
        0 <= m < machines.len(),
        insts.len() == machines.len(),
        tr is SelfTransition,
        (match tr {
            FsmEventTransition::SelfTransition(s, _) => {
                &&& (s as int) < machines[m].states@.len()
                &&& (s as int) < insts[m].payloads.len()
                &&& machines[m].states@[s as int].kind is Normal
            },
            _ => false,
        }),
    ensures
        ({
            let res = sp_commit(machines, insts, queue, m, r, tr, ev);
            match tr {
                FsmEventTransition::SelfTransition(s, ega) => {
                    let st = machines[m].states@[s as int];
                    let hx = sp_hook(st.on_exit, insts[m].context, insts[m].payloads[s as int]);
                    let o = sp_ops_single(ega.action@, hx.0, hx.1, queue);
                    let he = sp_hook(st.on_entry, o.0, o.1);
                    &&& res.0[m].current == insts[m].current
                    &&& res.0[m].context == he.0
                    &&& res.0[m].payloads[s as int] == he.1
                    &&& res.1 == o.2
                },
                _ => true,
            }
        }),
{
}


// ---------------------------------------------------------------------
// The public runtime
// ---------------------------------------------------------------------

/// The number of queued events one `dispatch` call is willing to drain;
/// an explicit bound that keeps every call total even when actions keep
/// enqueuing events.
pub const MAX_QUEUED_DISPATCHES: u64 = 1048576;

/// A runtime instance over an arena of validated machine descriptors:
/// machine `0` is the root; nested machines stand further along the arena
/// and are activated when their owning state is entered.
#[derive(Debug)]
pub struct FsmRuntime {
    pub machines: Vec<ValidatedFsm>,
    pub insts: Vec<MachineInstance>,
    pub queue: Vec<EventInstance>,
}

impl FsmRuntime {
    /// The descriptors are closed and every instance has the shape its
    /// descriptor prescribes.
    pub open spec fn wf(&self) -> bool {
        &&& arena_wf(self.machines@)
        &&& inst_wf(self.machines@, views(self.insts@))
    }

    /// Every region of the root machine rests in a state.
    pub open spec fn started(&self) -> bool {
        sp_started(views(self.insts@), 0)
    }

    /// Creates a fresh, unstarted runtime with the given root context.
    /// Nested machines get zeroed placeholders; their real context is
    /// constructed when their owning state is entered.
    pub fn new(machines: Vec<ValidatedFsm>, context: Vec<u64>) -> (rt: FsmRuntime)
        requires
            arena_wf(machines@),
            context@.len() == machines@[0].context_len,
        ensures
            rt.wf(),
            rt.machines == machines,
            rt.queue@ == Seq::<EventInstance>::empty(),
            !rt.started(),
            views(rt.insts@)[0].context == context@,
            forall|mm: int, rr: int|
                0 <= mm < machines@.len() && 0 <= rr < machines@[mm].regions@.len() ==> views(
                    rt.insts@,
                )[mm].current[rr] == FsmCurrentState::Stopped,
            forall|mm: int|
                0 <= mm < machines@.len() ==> (#[trigger] views(rt.insts@)[mm]).payloads
                    == Seq::new(machines@[mm].states@.len(), |i: int| 0u64),
    {
        let n = machines.len();
        let mut insts: Vec<MachineInstance> = Vec::new();
        let mut m: usize = 0;
        while m < n
            invariant
                arena_wf(machines@),
                n == machines@.len(),
                m <= n,
                views(insts@).len() == m,
                forall|k: int|
                    0 <= k < m ==> inst_wf_one(machines@[k], #[trigger] views(insts@)[k]),
                forall|k: int, rr: int|
                    0 <= k < m && 0 <= rr < machines@[k].regions@.len() ==> views(
                        insts@,
                    )[k].current[rr] == FsmCurrentState::Stopped,
                forall|k: int|
                    0 <= k < m ==> (#[trigger] views(insts@)[k]).payloads == Seq::new(
                        machines@[k].states@.len(),
                        |i: int| 0u64,
                    ),
            decreases n - m,
        {
            proof {
                assert(machine_wf(machines@, m as int));
            }
            let ghost snap = insts@;
            let ctx = zero_payloads(machines[m].context_len);
            let pays = zero_payloads(machines[m].states.len());
            let curs = stopped_currents(machines[m].regions.len());
            insts.push(MachineInstance { context: ctx, payloads: pays, current: curs });
            proof {
                lemma_views_push(snap, insts@[m as int]);
            }
            m = m + 1;
        }
        let ghost snap = insts@;
        let mut i0 = insts.remove(0);
        i0.context = context;
        insts.insert(0, i0);
        proof {
            lemma_remove_insert(snap, 0, insts@[0]);
            lemma_views_update(snap, 0, insts@[0]);
            assert(views(insts@) =~= views(snap).update(0, insts@[0]@));
            assert(insts@[0]@.current == views(snap)[0].current);
            assert(forall|mm: int| 0 < mm < views(snap).len() ==> views(insts@)[mm] == #[trigger] views(snap)[mm]);
        }
        let rt = FsmRuntime { machines, insts, queue: Vec::new() };
        proof {
            assert(inst_wf(rt.machines@, views(rt.insts@)));
            assert(machine_wf(rt.machines@, 0));
            assert(inst_wf_one(rt.machines@[0], views(rt.insts@)[0]));
            assert(views(rt.insts@)[0].current[0] == FsmCurrentState::Stopped);
            assert(!sp_started(views(rt.insts@), 0));
        }
        rt
    }

    /// Creates a fresh, unstarted runtime with the given root context and
    /// an already-filled event queue, to be drained by the first handled
    /// dispatch.  The inspector and the timer scheduler are external
    /// collaborators: they observe transitions and inject events through
    /// `dispatch`, and no part of them lives inside the runtime.
    pub fn new_with(
        machines: Vec<ValidatedFsm>,
        context: Vec<u64>,
        queue: Vec<EventInstance>,
    ) -> (rt: FsmRuntime)
        requires
            arena_wf(machines@),
            context@.len() == machines@[0].context_len,
        ensures
            rt.wf(),
            rt.machines == machines,
            rt.queue@ == queue@,
            !rt.started(),
            views(rt.insts@)[0].context == context@,
            forall|mm: int, rr: int|
                0 <= mm < machines@.len() && 0 <= rr < machines@[mm].regions@.len() ==> views(
                    rt.insts@,
                )[mm].current[rr] == FsmCurrentState::Stopped,
            forall|mm: int|
                0 <= mm < machines@.len() ==> (#[trigger] views(rt.insts@)[mm]).payloads
                    == Seq::new(machines@[mm].states@.len(), |i: int| 0u64),
    {
        let mut rt = FsmRuntime::new(machines, context);
        rt.queue = queue;
        rt
    }

    /// Starts the machine: every region of the root machine moves to its
    /// declared initial state, running entry callbacks (which may start
    /// nested machines).  Starting a started machine is an error and
    /// changes nothing.
    pub fn start(&mut self) -> (r: Result<(), FsmError>)
        requires
            old(self).wf(),
        ensures
            final(self).wf(),
            final(self).machines == old(self).machines,
            final(self).queue@ == old(self).queue@,
            old(self).started() ==> r == Err::<(), FsmError>(FsmError::AlreadyStarted) && views(
                final(self).insts@,
            ) == views(old(self).insts@),
            !old(self).started() ==> {
                &&& r == Ok::<(), FsmError>(())
                &&& views(final(self).insts@) == sp_start_machine(
                    old(self).machines@,
                    views(old(self).insts@),
                    0,
                )
                &&& forall|k: int|
                    0 <= k < old(self).machines@[0].regions@.len() ==> views(
                        final(self).insts@,
                    )[0].current[k] == FsmCurrentState::State(
                        old(self).machines@[0].regions@[k].initial_state,
                    )
                &&& final(self).started()
            },
    {
        proof {
            assert(machine_wf(self.machines@, 0));
            assert(inst_wf_one(self.machines@[0], views(self.insts@)[0]));
        }
        if is_started(&self.insts, 0) {
            Err(FsmError::AlreadyStarted)
        } else {
            start_machine(&self.machines, &mut self.insts, 0);
            proof {
                lemma_start_frame(self.machines@, views(old(self).insts@), 0);
            }
            Ok(())
        }
    }

    /// Offers one event to the machine.  When no region handles it, the
    /// result is `NoTransition` and nothing — no state, no counter, no
    /// payload, no queue — changes.  When a region handles it, events
    /// enqueued by actions are drained afterwards, first-in first-out,
    /// each dispatched at the root in turn, up to the explicit bound of
    /// `MAX_QUEUED_DISPATCHES` per call.
    pub fn dispatch(&mut self, ev: EventInstance) -> (r: Result<(), FsmError>)
        requires
            old(self).wf(),
        ensures
            final(self).wf(),
            final(self).machines == old(self).machines,
            !old(self).started() ==> r == Err::<(), FsmError>(FsmError::NotStarted) && views(
                final(self).insts@,
            ) == views(old(self).insts@) && final(self).queue@ == old(self).queue@,
            old(self).started() ==> ({
                let d = sp_dispatch_machine(
                    old(self).machines@,
                    views(old(self).insts@),
                    old(self).queue@,
                    0,
                    ev,
                );
                &&& (r == Ok::<(), FsmError>(()) <==> d.2)
                &&& (r == Err::<(), FsmError>(FsmError::NoTransition) <==> !d.2)
                &&& !d.2 ==> views(final(self).insts@) == views(old(self).insts@)
                    && final(self).queue@ == old(self).queue@
                &&& d.2 ==> exists|n: nat|
                    {
                        &&& (#[trigger] sp_drain(old(self).machines@, d.0, d.1, n)).0 == views(
                            final(self).insts@,
                        )
                        &&& sp_drain(old(self).machines@, d.0, d.1, n).1 == final(self).queue@
                        &&& (final(self).queue@.len() == 0 || n >= MAX_QUEUED_DISPATCHES)
                    }
            }),
    {
        proof {
            assert(inst_wf_one(self.machines@[0], views(self.insts@)[0]));
        }
        if !is_started(&self.insts, 0) {
            return Err(FsmError::NotStarted);
        }
        let handled = dispatch_machine(&self.machines, &mut self.insts, &mut self.queue, 0, &ev);
        if !handled {
            proof {
                lemma_dispatch_unhandled_no_effect(
                    self.machines@,
                    views(old(self).insts@),
                    old(self).queue@,
                    0,
                    ev,
                );
            }
            return Err(FsmError::NoTransition);
        }
        let ghost d0 = views(self.insts@);
        let ghost q0 = self.queue@;
        let mut steps: u64 = 0;
        let ghost mut n: nat = 0;
        while self.queue.len() > 0 && steps < MAX_QUEUED_DISPATCHES
            invariant
                arena_wf(self.machines@),
                inst_wf(self.machines@, views(self.insts@)),
                self.machines == old(self).machines,
                views(self.insts@) == sp_drain(self.machines@, d0, q0, n).0,
                self.queue@ == sp_drain(self.machines@, d0, q0, n).1,
                steps as nat == n,
                steps <= MAX_QUEUED_DISPATCHES,
            decreases MAX_QUEUED_DISPATCHES - steps,
        {
            let ghost di = views(self.insts@);
            let ghost qi = self.queue@;
            let ev2 = self.queue.remove(0);
            proof {
                assert(self.queue@ =~= qi.drop_first());
            }
            let _ = dispatch_machine(&self.machines, &mut self.insts, &mut self.queue, 0, &ev2);
            proof {
                lemma_drain_snoc(self.machines@, d0, q0, n);
                n = n + 1;
            }
            steps = steps + 1;
        }
        proof {
            assert((sp_drain(old(self).machines@, d0, q0, n)).0 == views(self.insts@));
        }
        Ok(())
    }

    /// The per-region current states of the root machine, in declared
    /// region order.
    pub fn get_current_states(&self) -> (r: Vec<FsmCurrentState>)
        requires
            self.wf(),
        ensures
            r@ == views(self.insts@)[0].current,
    {
        self.get_current_states_of(0)
    }

    /// The per-region current states of machine `m` of the arena.
    pub fn get_current_states_of(&self, m: MachineId) -> (r: Vec<FsmCurrentState>)
        requires
            self.wf(),
            (m as int) < self.machines@.len(),
        ensures
            r@ == views(self.insts@)[m as int].current,
    {
        let inst = &self.insts[m];
        let mut r: Vec<FsmCurrentState> = Vec::new();
        let mut k: usize = 0;
        while k < inst.current.len()
            invariant
                k <= inst.current@.len(),
                r@ == inst.current@.take(k as int),
            decreases inst.current@.len() - k,
        {
            r.push(inst.current[k]);
            k = k + 1;
            proof {
                assert(r@ =~= inst.current@.take(k as int));
            }
        }
        proof {
            assert(inst.current@.take(inst.current@.len() as int) =~= inst.current@);
            assert(views(self.insts@)[m as int].current == inst.current@);
        }
        r
    }

    /// The payload value of state `s` of machine `m`.
    pub fn get_state(&self, m: MachineId, s: StateId) -> (r: u64)
        requires
            self.wf(),
            (m as int) < self.machines@.len(),
            (s as int) < self.machines@[m as int].states@.len(),
        ensures
            r == views(self.insts@)[m as int].payloads[s as int],
    {
        proof {
            assert(inst_wf_one(self.machines@[m as int], views(self.insts@)[m as int]));
        }
        self.insts[m].payloads[s]
    }

    /// The context counter at index `i` of machine `m`.
    pub fn get_context(&self, m: MachineId, i: usize) -> (r: u64)
        requires
            self.wf(),
            (m as int) < self.machines@.len(),
            (i as int) < self.machines@[m as int].context_len,
        ensures
            r == views(self.insts@)[m as int].context[i as int],
    {
        proof {
            assert(inst_wf_one(self.machines@[m as int], views(self.insts@)[m as int]));
        }
        self.insts[m].context[i]
    }
}


/// Entering a sub-machine state applies the parent's declared entry
/// callback exactly once per entry: whatever the nested machine's start
/// does, the parent context afterwards is one application of the hook.
pub proof fn lemma_enter_applies_hook_once(
    machines: Seq<ValidatedFsm>,
    insts: Seq<MachineInstV>,
    m: int,
    s: StateId,
)
    requires
        0 <= m < machines.len(),
        insts.len() == machines.len(),
    ensures
        sp_enter_state(machines, insts, m, s)[m].context == sp_hook(
            machines[m].states@[s as int].on_entry,
            insts[m].context,
            insts[m].payloads[s as int],
        ).0,
    decreases machines.len() - m, 2int, 0int, 0int,
{
    let st = machines[m].states@[s as int];
    match st.kind {
        FsmStateKind::Normal => {},
        FsmStateKind::SubMachine(opts) => {
            let sub = opts.machine as int;
            if m < sub && sub < machines.len() {
                let hr = sp_hook(st.on_entry, insts[m].context, insts[m].payloads[s as int]);
                let i1 = upd_inst(
                    insts,
                    m,
                    hr.0,
                    insts[m].payloads.update(s as int, hr.1),
                    insts[m].current,
                );
                let i2 = upd_inst(
                    i1,
                    sub,
                    sp_sub_context(opts.context_constructor, hr.0),
                    Seq::new(machines[sub].states@.len(), |j: int| 0u64),
                    Seq::new(machines[sub].regions@.len(), |r: int| FsmCurrentState::Stopped),
                );
                lemma_start_frame(machines, i2, sub);
            }
        },
    }
}

/// Exiting a sub-machine state applies the parent's declared exit
/// callback exactly once per exit: deactivating the nested machine leaves
/// the parent context as one application of the hook.
pub proof fn lemma_exit_applies_hook_once(
    machines: Seq<ValidatedFsm>,
    insts: Seq<MachineInstV>,
    m: int,
    s: StateId,
)
    requires
        0 <= m < machines.len(),
        insts.len() == machines.len(),
    ensures
        sp_exit_state(machines, insts, m, s)[m].context == sp_hook(
            machines[m].states@[s as int].on_exit,
            insts[m].context,
            insts[m].payloads[s as int],
        ).0,
{
}

} // verus!
