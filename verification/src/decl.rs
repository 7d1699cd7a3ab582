//! The declaration data model: what a machine author states about states,
//! events, transitions, guards, actions and nested sub-machines, before any
//! validation has run.
//!
//! Identities are stable indices into per-machine registries (an arena):
//! a [`StateId`] indexes the machine's state registry, an [`EventId`] its
//! event registry, and a [`MachineId`] indexes the arena of machine
//! declarations itself, with index `0` the root machine.  Guard, action and
//! entry/exit callbacks are modelled as explicit effect records over the
//! machine's context counters, the event payload and the per-state payload
//! value, so the engine can be verified for every declared callback.

use vstd::prelude::*;

verus! {

/// Identity of a state inside one machine's state registry.
pub type StateId = usize;

/// Identity of an event inside one machine's event registry.  Nested
/// machines see the events their parent offers them under the same
/// identity, so an arena's machines share one identity space: give each
/// event one number, and size every machine's registry to cover the
/// events it reacts to.
pub type EventId = usize;

/// Index of a machine declaration inside the arena; `0` is the root machine.
pub type MachineId = usize;

/// A concrete event offered to the dispatcher: its identity plus a numeric
/// payload that guards may inspect.
#[derive(Clone, Copy, PartialEq, Eq, Structural, Debug)]
pub struct EventInstance {
    pub id: EventId,
    pub payload: u64,
}

/// A guard predicate over the dispatched event's payload and the owning
/// context's counters.  A counter reference that lies outside the context
/// never holds.
#[derive(Clone, Copy, PartialEq, Eq, Structural, Debug)]
pub enum FsmGuard {
    /// No guard was declared: the transition is always enabled.
    Always,
    /// Holds when the event payload is at least the given bound.
    PayloadAtLeast(u64),
    /// Holds when the context counter at the index is at least the bound.
    CounterAtLeast(usize, u64),
}

/// One effect of a transition action.  Increments saturate at `u64::MAX`;
/// a counter index outside the context is a no-op.
#[derive(Clone, Copy, PartialEq, Eq, Structural, Debug)]
pub enum ActionOp {
    /// Increment a context counter.
    IncCounter(usize),
    /// Increment the payload of the state the transition leaves.
    IncFromValue,
    /// Increment the payload of the state the transition enters.  On a self
    /// or internal transition this targets the single involved state, as
    /// `IncFromValue` does.
    IncToValue,
    /// Enqueue an event on the owning runtime's queue, to be dispatched
    /// after the current top-level dispatch has fully unwound.
    Enqueue(EventId, u64),
}

/// One effect of a state's on-entry or on-exit callback.
#[derive(Clone, Copy, PartialEq, Eq, Structural, Debug)]
pub enum HookOp {
    /// Increment the payload of the state being entered or exited.
    IncOwnValue,
    /// Increment a context counter.
    IncCounter(usize),
}

/// The guard and action bundle attached to one declared transition.
#[derive(Debug)]
pub struct EventGuardAction {
    pub guard: FsmGuard,
    pub action: Vec<ActionOp>,
}

/// How one counter of a nested machine's fresh context is produced when its
/// owning state is entered.
#[derive(Clone, Copy, PartialEq, Eq, Structural, Debug)]
pub enum CtxInit {
    /// A fixed value.
    Value(u64),
    /// Copied from the parent context counter at the index; an index outside
    /// the parent context yields `0`.
    FromParent(usize),
}

/// Options of a `SubMachine`-kind state: which machine of the arena it
/// instantiates, and how the nested context is constructed from the parent
/// context on entry.
#[derive(Debug)]
pub struct FsmSubMachineOptions {
    /// Arena index of the nested machine; validation requires it to point
    /// past the owning machine, which keeps the nesting acyclic.
    pub machine: MachineId,
    /// The declared context-construction mapping.  `None` is permitted only
    /// when the nested context has the parent's shape: the parent counters
    /// are then copied as they are.
    pub context_constructor: Option<Vec<CtxInit>>,
}

/// The kind of a declared state.
#[derive(Debug)]
pub enum FsmStateKind {
    Normal,
    SubMachine(FsmSubMachineOptions),
}

/// A timer owned by a state: armed when the state is entered, disarmed when
/// it is exited.  The scheduler that measures time is an external
/// collaborator; it injects the trigger event through the ordinary dispatch
/// entrypoint.
#[derive(Clone, Copy, PartialEq, Eq, Structural, Debug)]
pub struct FsmTimer {
    pub id: usize,
    /// The event the timer produces when it fires.
    pub event: EventId,
}

/// A declared state: its kind, optional entry/exit callbacks and owned
/// timers.  The state's identity is its index in the registry, and its
/// payload is a single numeric value held by the runtime.
#[derive(Debug)]
pub struct FsmState {
    pub kind: FsmStateKind,
    pub on_entry: Option<HookOp>,
    pub on_exit: Option<HookOp>,
    pub timers: Vec<FsmTimer>,
}

/// A state reference inside a declared transition.
#[derive(Clone, Copy, PartialEq, Eq, Structural, Debug)]
pub enum FsmTransitionState {
    /// No state was attached; validation rejects such a reference.
    NoState,
    State(StateId),
}

impl FsmTransitionState {
    /// The referenced state, if one was attached.
    pub fn get_fsm_state(&self) -> (r: Result<StateId, FsmModelError>)
        ensures
            r == (match *self {
                FsmTransitionState::State(s) => Ok::<StateId, FsmModelError>(s),
                FsmTransitionState::NoState => Err::<StateId, FsmModelError>(
                    FsmModelError::MissingState,
                ),
            }),
    {
        match self {
            FsmTransitionState::State(s) => Ok(*s),
            FsmTransitionState::NoState => Err(FsmModelError::MissingState),
        }
    }
}

/// The event reference of a declared transition.  `Start` and `Stop` mark
/// the implicit lifecycle transitions; an authored transition carries
/// `Event`.
#[derive(Clone, Copy, PartialEq, Eq, Structural, Debug)]
pub enum FsmTransitionEvent {
    Stop,
    Start,
    Event(EventId),
}

impl FsmTransitionEvent {
    /// The triggering event of an authored transition.
    pub fn get_event(&self) -> (r: Result<EventId, FsmModelError>)
        ensures
            r == (match *self {
                FsmTransitionEvent::Event(e) => Ok::<EventId, FsmModelError>(e),
                _ => Err::<EventId, FsmModelError>(FsmModelError::MissingEvent),
            }),
    {
        match self {
            FsmTransitionEvent::Event(e) => Ok(*e),
            _ => Err(FsmModelError::MissingEvent),
        }
    }
}

/// A reference inside a transition record that should have been present.
#[derive(Clone, Copy, PartialEq, Eq, Structural, Debug)]
pub enum FsmModelError {
    MissingState,
    MissingEvent,
}

/// An internal or self transition: one state, the triggering event, and the
/// guard/action bundle.
#[derive(Debug)]
pub struct FsmStateAction {
    pub state: FsmTransitionState,
    pub event: FsmTransitionEvent,
    pub action: EventGuardAction,
}

/// A state-to-state transition.
#[derive(Debug)]
pub struct FsmStateTransition {
    pub state_from: FsmTransitionState,
    pub state_to: FsmTransitionState,
    pub event: FsmTransitionEvent,
    pub action: EventGuardAction,
}

/// The kind of a declared transition.
#[derive(Debug)]
pub enum FsmTransitionType {
    /// Runs only the action: no exit/entry callbacks, no state change.
    InternalTransition(FsmStateAction),
    /// Runs exit, action and entry on the same state.
    SelfTransition(FsmStateAction),
    /// Leaves one state and enters another.
    StateTransition(FsmStateTransition),
}

impl FsmTransitionType {
    /// The states a transition record references, in from-to order.
    pub open spec fn ref_states(&self) -> Seq<StateId> {
        match self {
            FsmTransitionType::InternalTransition(a) | FsmTransitionType::SelfTransition(a) => {
                match a.state {
                    FsmTransitionState::State(s) => seq![s],
                    FsmTransitionState::NoState => Seq::empty(),
                }
            },
            FsmTransitionType::StateTransition(t) => {
                let from = match t.state_from {
                    FsmTransitionState::State(s) => seq![s],
                    FsmTransitionState::NoState => Seq::empty(),
                };
                let to = match t.state_to {
                    FsmTransitionState::State(s) => seq![s],
                    FsmTransitionState::NoState => Seq::empty(),
                };
                from + to
            },
        }
    }

    /// Collects the resolved state references of this transition.
    pub fn get_states(&self) -> (r: Vec<StateId>)
        ensures
            r@ == self.ref_states(),
    {
        let mut ret: Vec<StateId> = Vec::new();
        match self {
            FsmTransitionType::InternalTransition(a) | FsmTransitionType::SelfTransition(a) => {
                if let FsmTransitionState::State(s) = a.state {
                    ret.push(s);
                }
            },
            FsmTransitionType::StateTransition(t) => {
                if let FsmTransitionState::State(s) = t.state_from {
                    ret.push(s);
                }
                if let FsmTransitionState::State(s) = t.state_to {
                    ret.push(s);
                }
            },
        }
        proof {
            assert(ret@ =~= self.ref_states());
        }
        ret
    }
}

/// One declared transition.
#[derive(Debug)]
pub struct FsmTransition {
    pub ty: FsmTransitionType,
}

/// The unvalidated declaration set of one machine, as the model parser
/// leaves it: the declared context shape, the initial states (one per
/// region, in declaration order), the state registry, the number of declared
/// events, and the transitions in declaration order.
#[derive(Debug)]
pub struct FsmDeclarations {
    /// Number of counters in this machine's context.
    pub context_len: usize,
    pub initial_states: Vec<StateId>,
    pub states: Vec<FsmState>,
    pub n_events: usize,
    pub transitions: Vec<FsmTransition>,
}

/// Copies a list of action effects.
pub fn clone_action_ops(v: &Vec<ActionOp>) -> (r: Vec<ActionOp>)
    ensures
        r@ == v@,
{
    let mut r: Vec<ActionOp> = Vec::new();
    let mut i: usize = 0;
    while i < v.len()
        invariant
            i <= v.len(),
            r@ == v@.take(i as int),
        decreases v.len() - i,
    {
        r.push(v[i]);
        i = i + 1;
        proof {
            assert(r@ =~= v@.take(i as int));
        }
    }
    proof {
        assert(v@.take(v@.len() as int) =~= v@);
    }
    r
}

/// Copies a guard/action bundle.
pub fn clone_ega(e: &EventGuardAction) -> (r: EventGuardAction)
    ensures
        r.guard == e.guard,
        r.action@ == e.action@,
{
    EventGuardAction { guard: e.guard, action: clone_action_ops(&e.action) }
}

} // verus!
