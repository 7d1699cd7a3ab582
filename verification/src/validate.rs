//! The validator: turns a machine declaration arena into validated
//! descriptors, or reports the first inconsistency.
//!
//! Validation requires at least one initial state, resolves every
//! state/event reference, checks that every nested machine's context can be
//! constructed from its parent's, partitions each machine's states into
//! regions — one per declared initial state, each taking the states
//! reachable from its seed that no earlier region claimed — and
//! canonicalizes the transitions into an event-indexed registry for
//! dispatch lookup.

use vstd::prelude::*;

use crate::decl::CtxInit;
use crate::decl::EventGuardAction;
use crate::decl::EventId;
use crate::decl::FsmDeclarations;
use crate::decl::FsmState;
use crate::decl::FsmStateKind;
use crate::decl::FsmSubMachineOptions;
use crate::decl::FsmTimer;
use crate::decl::FsmTransition;
use crate::decl::FsmTransitionEvent;
use crate::decl::FsmTransitionState;
use crate::decl::FsmTransitionType;
use crate::decl::StateId;
use crate::decl::clone_ega;

verus! {

/// A canonical, fully resolved transition, indexed under its triggering
/// event in the validated descriptor.
#[derive(Debug)]
pub enum FsmEventTransition {
    /// From one state to another.
    State(StateId, StateId, EventGuardAction),
    /// Runs only the action on the state.
    InternalTransition(StateId, EventGuardAction),
    /// Runs exit, action and entry on the state.
    SelfTransition(StateId, EventGuardAction),
}

/// A validated event: the canonical transitions it can trigger, in
/// declaration order (the tie-break order at dispatch time).
#[derive(Debug)]
pub struct FsmEvent {
    pub transitions: Vec<FsmEventTransition>,
}

/// One orthogonal region of a validated machine: its seed initial state,
/// the states assigned to it (in registry order), and the indices, in
/// declaration order, of the declared transitions whose source state lies
/// in it.
#[derive(Debug)]
pub struct FsmRegion {
    pub region_id: usize,
    pub initial_state: StateId,
    pub states: Vec<StateId>,
    pub transitions: Vec<usize>,
}

/// A validated machine descriptor: immutable after validation, closed in
/// the sense that every canonical transition references only states and
/// events of its own registries.
#[derive(Debug)]
pub struct ValidatedFsm {
    pub context_len: usize,
    pub regions: Vec<FsmRegion>,
    pub states: Vec<FsmState>,
    pub events: Vec<FsmEvent>,
}

/// Where in a machine declaration an offending reference stands.
#[derive(Clone, Copy, PartialEq, Eq, Structural, Debug)]
pub enum DeclLoc {
    /// The declaration of the `i`-th initial state.
    InitialState(usize),
    /// The `j`-th declared transition.
    Transition(usize),
    /// The declaration of a state.
    State(StateId),
}

/// Validation errors; each carries the machine and the location of the
/// offending declaration.  Any of them is fatal to machine construction.
#[derive(Clone, Copy, PartialEq, Eq, Structural, Debug)]
pub enum FsmValidationError {
    /// The machine declares no initial state.
    NoInitialState { machine: usize },
    /// A state reference does not resolve against the state registry.
    UnknownState { machine: usize, loc: DeclLoc },
    /// An event reference does not resolve against the event registry.
    UnknownEvent { machine: usize, loc: DeclLoc },
    /// The state is reachable from no declared initial state.
    OrphanState { machine: usize, state: StateId },
    /// A sub-machine state whose nested context cannot be constructed:
    /// no mapping was declared although the context shapes differ, or the
    /// declared mapping does not cover the nested context.
    MissingSubContext { machine: usize, state: StateId },
    /// A sub-machine state references no machine of the arena beyond its
    /// owner.
    UnknownMachine { machine: usize, state: StateId },
}

// ---------------------------------------------------------------------
// What the declarations mean
// ---------------------------------------------------------------------

/// The state a transition record acts from.
pub open spec fn tr_primary(t: FsmTransition) -> FsmTransitionState {
    match t.ty {
        FsmTransitionType::InternalTransition(a) => a.state,
        FsmTransitionType::SelfTransition(a) => a.state,
        FsmTransitionType::StateTransition(st) => st.state_from,
    }
}

/// The event reference of a transition record.
pub open spec fn tr_event(t: FsmTransition) -> FsmTransitionEvent {
    match t.ty {
        FsmTransitionType::InternalTransition(a) => a.event,
        FsmTransitionType::SelfTransition(a) => a.event,
        FsmTransitionType::StateTransition(st) => st.event,
    }
}

/// Every reference of the transition resolves against the registries.
pub open spec fn tr_resolved(t: FsmTransition, n_states: int, n_events: int) -> bool {
    &&& (match tr_event(t) {
        FsmTransitionEvent::Event(e) => (e as int) < n_events,
        _ => false,
    })
    &&& (match t.ty {
        FsmTransitionType::InternalTransition(a) | FsmTransitionType::SelfTransition(a) => {
            match a.state {
                FsmTransitionState::State(s) => (s as int) < n_states,
                FsmTransitionState::NoState => false,
            }
        },
        FsmTransitionType::StateTransition(st) => {
            &&& (match st.state_from {
                FsmTransitionState::State(s) => (s as int) < n_states,
                FsmTransitionState::NoState => false,
            })
            &&& (match st.state_to {
                FsmTransitionState::State(s) => (s as int) < n_states,
                FsmTransitionState::NoState => false,
            })
        },
    })
}

/// A directed edge declared by transition `j`: a state-to-state transition
/// from `a` to `b`.
pub open spec fn edge_of(t: FsmTransition, a: StateId, b: StateId) -> bool {
    match t.ty {
        FsmTransitionType::StateTransition(st) => st.state_from
            == FsmTransitionState::State(a) && st.state_to == FsmTransitionState::State(b),
        _ => false,
    }
}

/// Some declared transition leads from `a` to `b`.
pub open spec fn sp_edge(trs: Seq<FsmTransition>, a: StateId, b: StateId) -> bool {
    exists|j: int| 0 <= j < trs.len() && edge_of(#[trigger] trs[j], a, b)
}

/// `b` is reachable from `a` along declared transitions in at most `n`
/// steps.
pub open spec fn reach_n(trs: Seq<FsmTransition>, a: StateId, b: StateId, n: nat) -> bool
    decreases n,
{
    if a == b {
        true
    } else if n == 0 {
        false
    } else {
        exists|mid: StateId| reach_n(trs, a, mid, (n - 1) as nat) && sp_edge(trs, mid, b)
    }
}

/// `b` is reachable from `a` along declared transitions.
pub open spec fn sp_reaches(trs: Seq<FsmTransition>, a: StateId, b: StateId) -> bool {
    exists|n: nat| reach_n(trs, a, b, n)
}

/// The first declared initial state from index `k` on that reaches `s`:
/// the region a state belongs to.
pub open spec fn first_region_from(d: FsmDeclarations, s: StateId, k: int) -> Option<int>
    decreases d.initial_states@.len() - k,
{
    if k < 0 || k >= d.initial_states@.len() {
        Option::None
    } else if sp_reaches(d.transitions@, d.initial_states@[k], s) {
        Option::Some(k)
    } else {
        first_region_from(d, s, k + 1)
    }
}

/// The sub-machine reference and context construction of one state are
/// complete.
pub open spec fn sub_ok(decls: Seq<FsmDeclarations>, m: int, st: FsmState) -> bool {
    match st.kind {
        FsmStateKind::Normal => true,
        FsmStateKind::SubMachine(opts) => {
            &&& m < opts.machine as int
            &&& (opts.machine as int) < decls.len()
            &&& (match opts.context_constructor {
                Option::None => decls[opts.machine as int].context_len == decls[m].context_len,
                Option::Some(inits) => inits@.len() == decls[opts.machine as int].context_len,
            })
        },
    }
}

/// One machine declaration is internally consistent.
pub open spec fn decl_ok(decls: Seq<FsmDeclarations>, m: int) -> bool {
    let d = decls[m];
    &&& d.initial_states@.len() > 0
    &&& forall|i: int|
        0 <= i < d.initial_states@.len() ==> ((#[trigger] d.initial_states@[i]) as int)
            < d.states@.len()
    &&& forall|j: int|
        0 <= j < d.transitions@.len() ==> tr_resolved(
            #[trigger] d.transitions@[j],
            d.states@.len() as int,
            d.n_events as int,
        )
    &&& forall|s: int| 0 <= s < d.states@.len() ==> sub_ok(decls, m, #[trigger] d.states@[s])
    &&& forall|s: int|
        0 <= s < d.states@.len() ==> (#[trigger] first_region_from(d, s as StateId, 0)) is Some
}

/// The whole declaration arena is internally consistent.
pub open spec fn decls_ok(decls: Seq<FsmDeclarations>) -> bool {
    forall|m: int| 0 <= m < decls.len() ==> decl_ok(decls, m)
}

/// The condition under which a validation error is reported.
pub open spec fn err_holds(decls: Seq<FsmDeclarations>, e: FsmValidationError) -> bool {
    match e {
        FsmValidationError::NoInitialState { machine } => {
            &&& (machine as int) < decls.len()
            &&& decls[machine as int].initial_states@.len() == 0
        },
        FsmValidationError::UnknownState { machine, loc } => {
            &&& (machine as int) < decls.len()
            &&& (match loc {
                DeclLoc::InitialState(i) => (i as int) < decls[
                    machine as int
                ].initial_states@.len() && (decls[machine as int].initial_states@[i as int] as int)
                    >= decls[machine as int].states@.len(),
                DeclLoc::Transition(j) => (j as int) < decls[machine as int].transitions@.len()
                    && !tr_resolved(
                    decls[machine as int].transitions@[j as int],
                    decls[machine as int].states@.len() as int,
                    decls[machine as int].n_events as int,
                ),
                DeclLoc::State(_) => false,
            })
        },
        FsmValidationError::UnknownEvent { machine, loc } => {
            &&& (machine as int) < decls.len()
            &&& (match loc {
                DeclLoc::Transition(j) => (j as int) < decls[machine as int].transitions@.len()
                    && !tr_resolved(
                    decls[machine as int].transitions@[j as int],
                    decls[machine as int].states@.len() as int,
                    decls[machine as int].n_events as int,
                ),
                _ => false,
            })
        },
        FsmValidationError::OrphanState { machine, state } => {
            &&& (machine as int) < decls.len()
            &&& (state as int) < decls[machine as int].states@.len()
            &&& first_region_from(decls[machine as int], state, 0) is None
        },
        FsmValidationError::MissingSubContext { machine, state } => {
            &&& (machine as int) < decls.len()
            &&& (state as int) < decls[machine as int].states@.len()
            &&& !sub_ok(decls, machine as int, decls[machine as int].states@[state as int])
        },
        FsmValidationError::UnknownMachine { machine, state } => {
            &&& (machine as int) < decls.len()
            &&& (state as int) < decls[machine as int].states@.len()
            &&& !sub_ok(decls, machine as int, decls[machine as int].states@[state as int])
        },
    }
}


// ---------------------------------------------------------------------
// Reachability
// ---------------------------------------------------------------------

/// One edge extends reachability by one step.
proof fn lemma_reach_step(trs: Seq<FsmTransition>, init: StateId, a: StateId, b: StateId)
    requires
        sp_reaches(trs, init, a),
        sp_edge(trs, a, b),
    ensures
        sp_reaches(trs, init, b),
{
    let n = choose|n: nat| #[trigger] reach_n(trs, init, a, n);
    assert(reach_n(trs, init, b, n + 1));
}

/// A marked set that contains the seed and is closed under declared edges
/// contains everything reachable from the seed.
pub open spec fn closed_set(trs: Seq<FsmTransition>, marked: Seq<bool>) -> bool {
    forall|a: StateId, b: StateId|
        #[trigger] sp_edge(trs, a, b) && (a as int) < marked.len() && marked[a as int] && (
        b as int) < marked.len() ==> marked[b as int]
}

proof fn lemma_closed_complete(
    trs: Seq<FsmTransition>,
    marked: Seq<bool>,
    n_states: int,
    init: StateId,
    b: StateId,
    n: nat,
)
    requires
        marked.len() == n_states,
        (init as int) < n_states,
        marked[init as int],
        closed_set(trs, marked),
        forall|j: int| 0 <= j < trs.len() ==> edge_in_range(#[trigger] trs[j], n_states),
        (b as int) < n_states,
        reach_n(trs, init, b, n),
    ensures
        marked[b as int],
    decreases n,
{
    if init != b {
        let mid = choose|mid: StateId| reach_n(trs, init, mid, (n - 1) as nat) && sp_edge(
            trs,
            mid,
            b,
        );
        let j = choose|j: int| 0 <= j < trs.len() && edge_of(#[trigger] trs[j], mid, b);
        assert(edge_in_range(trs[j], n_states));
        lemma_closed_complete(trs, marked, n_states, init, mid, (n - 1) as nat);
    }
}

/// Both endpoints of any edge the transition declares lie inside the
/// registry.
pub open spec fn edge_in_range(t: FsmTransition, n_states: int) -> bool {
    match t.ty {
        FsmTransitionType::StateTransition(st) => {
            &&& (match st.state_from {
                FsmTransitionState::State(s) => (s as int) < n_states,
                FsmTransitionState::NoState => true,
            })
            &&& (match st.state_to {
                FsmTransitionState::State(s) => (s as int) < n_states,
                FsmTransitionState::NoState => true,
            })
        },
        _ => true,
    }
}

/// How many entries of the set are marked.
spec fn count_true(s: Seq<bool>) -> int
    decreases s.len(),
{
    if s.len() == 0 {
        0
    } else {
        count_true(s.drop_last()) + if s.last() {
            1int
        } else {
            0int
        }
    }
}

proof fn lemma_count_bounds(s: Seq<bool>)
    ensures
        0 <= count_true(s) <= s.len(),
    decreases s.len(),
{
    if s.len() > 0 {
        lemma_count_bounds(s.drop_last());
    }
}

proof fn lemma_count_update(s: Seq<bool>, i: int)
    requires
        0 <= i < s.len(),
        !s[i],
    ensures
        count_true(s.update(i, true)) == count_true(s) + 1,
    decreases s.len(),
{
    let u = s.update(i, true);
    if i == s.len() - 1 {
        assert(u.drop_last() =~= s.drop_last());
    } else {
        assert(u.drop_last() =~= s.drop_last().update(i, true));
        lemma_count_update(s.drop_last(), i);
    }
}

/// Computes the set of states reachable from `init` along declared
/// state-to-state transitions, by saturation.
fn reach_set(trs: &Vec<FsmTransition>, n_states: usize, init: StateId) -> (marked: Vec<bool>)
    requires
        (init as int) < n_states as int,
        forall|j: int|
            0 <= j < trs@.len() ==> edge_in_range(#[trigger] trs@[j], n_states as int),
    ensures
        marked@.len() == n_states,
        forall|s: int| 0 <= s < n_states ==> (marked@[s] <==> sp_reaches(trs@, init, s as StateId)),
{
    let mut marked: Vec<bool> = vec![false; n_states];
    marked.set(init, true);
    proof {
        assert(reach_n(trs@, init, init, 0));
    }
    let mut changed = true;
    while changed
        invariant
            marked@.len() == n_states,
            (init as int) < n_states as int,
            marked@[init as int],
            forall|j: int|
                0 <= j < trs@.len() ==> edge_in_range(#[trigger] trs@[j], n_states as int),
            forall|s: int|
                0 <= s < n_states && marked@[s] ==> sp_reaches(trs@, init, s as StateId),
            !changed ==> closed_set(trs@, marked@),
        decreases n_states - count_true(marked@), (if changed { 1int } else { 0int }),
    {
        proof {
            lemma_count_bounds(marked@);
        }
        let ghost pass_start = marked@;
        let ghost count_start = count_true(marked@);
        changed = false;
        let mut j: usize = 0;
        while j < trs.len()
            invariant
                marked@.len() == n_states,
                (init as int) < n_states as int,
                marked@[init as int],
                j <= trs@.len(),
                forall|jj: int|
                    0 <= jj < trs@.len() ==> edge_in_range(#[trigger] trs@[jj], n_states as int),
                forall|s: int|
                    0 <= s < n_states && marked@[s] ==> sp_reaches(trs@, init, s as StateId),
                !changed ==> marked@ == pass_start,
                !changed ==> forall|jj: int, a: StateId, b: StateId|
                    0 <= jj < j && #[trigger] edge_of(trs@[jj], a, b) && (a as int) < n_states
                        && marked@[a as int] ==> marked@[b as int],
                changed ==> count_true(marked@) > count_start,
                count_true(marked@) >= count_start,
            decreases trs@.len() - j,
        {
            let edge: Option<(StateId, StateId)> = match &trs[j].ty {
                FsmTransitionType::StateTransition(st) => {
                    match (&st.state_from, &st.state_to) {
                        (FsmTransitionState::State(a), FsmTransitionState::State(b)) => Option::
                            Some((*a, *b)),
                        _ => Option::None,
                    }
                },
                _ => Option::None,
            };
            if let Option::Some((a, b)) = edge {
                proof {
                    assert(edge_of(trs@[j as int], a, b));
                    assert(edge_in_range(trs@[j as int], n_states as int));
                }
                if marked[a] && !marked[b] {
                    proof {
                        assert(sp_edge(trs@, a, b));
                        lemma_reach_step(trs@, init, a, b);
                        lemma_count_update(marked@, b as int);
                    }
                    marked.set(b, true);
                    changed = true;
                }
            }
            j = j + 1;
        }
        proof {
            lemma_count_bounds(marked@);
            if !changed {
                assert forall|a: StateId, b: StateId|
                    #[trigger] sp_edge(trs@, a, b) && (a as int) < marked@.len() && marked@[a as int]
                        && (b as int) < marked@.len() implies marked@[b as int] by {
                    let jj = choose|jj: int| 0 <= jj < trs@.len() && edge_of(
                        #[trigger] trs@[jj],
                        a,
                        b,
                    );
                }
            }
        }
    }
    proof {
        assert forall|s: int|
            0 <= s < n_states && sp_reaches(trs@, init, s as StateId) implies marked@[s] by {
            let n = choose|n: nat| #[trigger] reach_n(trs@, init, s as StateId, n);
            lemma_closed_complete(trs@, marked@, n_states as int, init, s as StateId, n);
        }
    }
    marked
}


// ---------------------------------------------------------------------
// What the validated descriptor states about its declaration
// ---------------------------------------------------------------------

/// Two guard/action bundles carry the same guard and the same effects.
pub open spec fn ega_matches(a: EventGuardAction, b: EventGuardAction) -> bool {
    a.guard == b.guard && a.action@ == b.action@
}

/// A canonical entry faithfully renders a declared transition.
pub open spec fn canon_matches(t: FsmTransition, c: FsmEventTransition) -> bool {
    match t.ty {
        FsmTransitionType::InternalTransition(a) => match c {
            FsmEventTransition::InternalTransition(s, ega) => a.state
                == FsmTransitionState::State(s) && ega_matches(a.action, ega),
            _ => false,
        },
        FsmTransitionType::SelfTransition(a) => match c {
            FsmEventTransition::SelfTransition(s, ega) => a.state == FsmTransitionState::State(s)
                && ega_matches(a.action, ega),
            _ => false,
        },
        FsmTransitionType::StateTransition(st) => match c {
            FsmEventTransition::State(f, to, ega) => st.state_from == FsmTransitionState::State(f)
                && st.state_to == FsmTransitionState::State(to) && ega_matches(st.action, ega),
            _ => false,
        },
    }
}

/// The declaration-order indices of the transitions an event triggers.
pub open spec fn evt_idxs(trs: Seq<FsmTransition>, e: EventId) -> Seq<int>
    decreases trs.len(),
{
    if trs.len() == 0 {
        Seq::empty()
    } else {
        let pre = evt_idxs(trs.drop_last(), e);
        if tr_event(trs.last()) == FsmTransitionEvent::Event(e) {
            pre.push(trs.len() - 1)
        } else {
            pre
        }
    }
}

/// The `jj`-th canonical entry renders the `jj`-th declared transition of
/// the event.
pub open spec fn canon_ok_at(
    trs: Seq<FsmTransition>,
    e: EventId,
    cs: Seq<FsmEventTransition>,
    jj: int,
) -> bool {
    let j = evt_idxs(trs, e)[jj];
    &&& 0 <= j < trs.len()
    &&& tr_event(trs[j]) == FsmTransitionEvent::Event(e)
    &&& canon_matches(trs[j], cs[jj])
}

/// A canonical transition list renders exactly the declared transitions of
/// one event, in declaration order.
pub open spec fn canon_list_matches(
    trs: Seq<FsmTransition>,
    e: EventId,
    cs: Seq<FsmEventTransition>,
) -> bool {
    &&& cs.len() == evt_idxs(trs, e).len()
    &&& forall|jj: int| 0 <= jj < cs.len() ==> #[trigger] canon_ok_at(trs, e, cs, jj)
}

/// The states of region `k`, among the first `n` states of the registry:
/// those whose first reaching initial state is the `k`-th.
pub open spec fn region_members(d: FsmDeclarations, k: int, n: int) -> Seq<StateId>
    decreases n,
{
    if n <= 0 {
        Seq::empty()
    } else {
        let pre = region_members(d, k, n - 1);
        if first_region_from(d, (n - 1) as StateId, 0) == Option::Some(k) {
            pre.push((n - 1) as StateId)
        } else {
            pre
        }
    }
}

/// Whether a declared transition belongs to region `k`: its source state
/// does.
pub open spec fn tr_in_region(d: FsmDeclarations, t: FsmTransition, k: int) -> bool {
    match tr_primary(t) {
        FsmTransitionState::State(s) => first_region_from(d, s, 0) == Option::Some(k),
        FsmTransitionState::NoState => false,
    }
}

/// The declaration-order indices of region `k`'s transitions, among the
/// first `n` declared transitions.
pub open spec fn region_tr_idxs(d: FsmDeclarations, k: int, n: int) -> Seq<usize>
    decreases n,
{
    if n <= 0 {
        Seq::empty()
    } else {
        let pre = region_tr_idxs(d, k, n - 1);
        if tr_in_region(d, d.transitions@[n - 1], k) {
            pre.push((n - 1) as usize)
        } else {
            pre
        }
    }
}

/// Two context constructors are the same mapping.
pub open spec fn ctor_matches(a: Option<Vec<CtxInit>>, b: Option<Vec<CtxInit>>) -> bool {
    match (a, b) {
        (Option::None, Option::None) => true,
        (Option::Some(u), Option::Some(v)) => u@ == v@,
        _ => false,
    }
}

/// Two state records describe the same state.
pub open spec fn state_matches(a: FsmState, b: FsmState) -> bool {
    &&& (match (a.kind, b.kind) {
        (FsmStateKind::Normal, FsmStateKind::Normal) => true,
        (FsmStateKind::SubMachine(x), FsmStateKind::SubMachine(y)) => x.machine == y.machine
            && ctor_matches(x.context_constructor, y.context_constructor),
        _ => false,
    })
    &&& a.on_entry == b.on_entry
    &&& a.on_exit == b.on_exit
    &&& a.timers@ == b.timers@
}

/// What validation promises of machine `m`'s descriptor: same context
/// shape, the same state registry, the canonical event registry in
/// declaration order, and one region per declared initial state holding
/// exactly the states and transitions assigned to it.
pub open spec fn validated_rel(decls: Seq<FsmDeclarations>, m: int, f: ValidatedFsm) -> bool {
    let d = decls[m];
    &&& f.context_len == d.context_len
    &&& f.states@.len() == d.states@.len()
    &&& forall|s: int|
        0 <= s < d.states@.len() ==> state_matches(d.states@[s], #[trigger] f.states@[s])
    &&& f.events@.len() == d.n_events
    &&& forall|e: int|
        0 <= e < d.n_events ==> canon_list_matches(
            d.transitions@,
            e as EventId,
            (#[trigger] f.events@[e]).transitions@,
        )
    &&& f.regions@.len() == d.initial_states@.len()
    &&& forall|k: int|
        0 <= k < d.initial_states@.len() ==> {
            let reg = #[trigger] f.regions@[k];
            &&& reg.region_id == k
            &&& reg.initial_state == d.initial_states@[k]
            &&& reg.states@ == region_members(d, k, d.states@.len() as int)
            &&& reg.transitions@ == region_tr_idxs(d, k, d.transitions@.len() as int)
        }
}

// ---------------------------------------------------------------------
// Copying declaration records into the descriptor
// ---------------------------------------------------------------------

/// Copies a timer list.
fn clone_timers(v: &Vec<FsmTimer>) -> (r: Vec<FsmTimer>)
    ensures
        r@ == v@,
{
    let mut r: Vec<FsmTimer> = Vec::new();
    let mut i: usize = 0;
    while i < v.len()
        invariant
            i <= v@.len(),
            r@ == v@.take(i as int),
        decreases v@.len() - i,
    {
        r.push(v[i]);
        i = i + 1;
        proof {
            assert(r@ =~= v@.take(i as int));
        }
    }
    proof {
        assert(v@.take(v@.len() as int) =~= v@);
    }
    r
}

/// Copies a context-constructor mapping.
fn clone_ctx_inits(v: &Vec<CtxInit>) -> (r: Vec<CtxInit>)
    ensures
        r@ == v@,
{
    let mut r: Vec<CtxInit> = Vec::new();
    let mut i: usize = 0;
    while i < v.len()
        invariant
            i <= v@.len(),
            r@ == v@.take(i as int),
        decreases v@.len() - i,
    {
        r.push(v[i]);
        i = i + 1;
        proof {
            assert(r@ =~= v@.take(i as int));
        }
    }
    proof {
        assert(v@.take(v@.len() as int) =~= v@);
    }
    r
}

/// Copies one state record.
fn clone_state(st: &FsmState) -> (r: FsmState)
    ensures
        state_matches(*st, r),
{
    let kind = match &st.kind {
        FsmStateKind::Normal => FsmStateKind::Normal,
        FsmStateKind::SubMachine(opts) => FsmStateKind::SubMachine(
            FsmSubMachineOptions {
                machine: opts.machine,
                context_constructor: match &opts.context_constructor {
                    Option::None => Option::None,
                    Option::Some(inits) => Option::Some(clone_ctx_inits(inits)),
                },
            },
        ),
    };
    FsmState { kind, on_entry: st.on_entry, on_exit: st.on_exit, timers: clone_timers(&st.timers) }
}

/// Copies the state registry.
fn clone_states(v: &Vec<FsmState>) -> (r: Vec<FsmState>)
    ensures
        r@.len() == v@.len(),
        forall|s: int| 0 <= s < v@.len() ==> state_matches(v@[s], #[trigger] r@[s]),
{
    let mut r: Vec<FsmState> = Vec::new();
    let mut i: usize = 0;
    while i < v.len()
        invariant
            i <= v@.len(),
            r@.len() == i,
            forall|s: int| 0 <= s < i ==> state_matches(v@[s], #[trigger] r@[s]),
        decreases v@.len() - i,
    {
        r.push(clone_state(&v[i]));
        i = i + 1;
    }
    r
}


// ---------------------------------------------------------------------
// Building the descriptor
// ---------------------------------------------------------------------

/// Canonicalizes the transitions into the event-indexed registry.
fn build_events(d: &FsmDeclarations) -> (evs: Vec<FsmEvent>)
    requires
        forall|j: int|
            0 <= j < d.transitions@.len() ==> tr_resolved(
                #[trigger] d.transitions@[j],
                d.states@.len() as int,
                d.n_events as int,
            ),
    ensures
        evs@.len() == d.n_events,
        forall|e: int|
            0 <= e < d.n_events ==> canon_list_matches(
                d.transitions@,
                e as EventId,
                (#[trigger] evs@[e]).transitions@,
            ),
{
    let mut evs: Vec<FsmEvent> = Vec::new();
    let mut e: usize = 0;
    while e < d.n_events
        invariant
            e <= d.n_events,
            evs@.len() == e,
            forall|j: int|
                0 <= j < d.transitions@.len() ==> tr_resolved(
                    #[trigger] d.transitions@[j],
                    d.states@.len() as int,
                    d.n_events as int,
                ),
            forall|ee: int|
                0 <= ee < e ==> canon_list_matches(
                    d.transitions@,
                    ee as EventId,
                    (#[trigger] evs@[ee]).transitions@,
                ),
        decreases d.n_events - e,
    {
        let mut cs: Vec<FsmEventTransition> = Vec::new();
        let mut j: usize = 0;
        proof {
            assert(d.transitions@.take(0) =~= Seq::<FsmTransition>::empty());
        }
        while j < d.transitions.len()
            invariant
                j <= d.transitions@.len(),
                forall|jj: int|
                    0 <= jj < d.transitions@.len() ==> tr_resolved(
                        #[trigger] d.transitions@[jj],
                        d.states@.len() as int,
                        d.n_events as int,
                    ),
                canon_list_matches(d.transitions@.take(j as int), e as EventId, cs@),
            decreases d.transitions@.len() - j,
        {
            let ghost pre = d.transitions@.take(j as int);
            proof {
                assert(d.transitions@.take(j as int + 1).drop_last() =~= pre);
                assert(d.transitions@.take(j as int + 1).last() == d.transitions@[j as int]);
            }
            let t = &d.transitions[j];
            let te = match &t.ty {
                FsmTransitionType::InternalTransition(a) => &a.event,
                FsmTransitionType::SelfTransition(a) => &a.event,
                FsmTransitionType::StateTransition(st) => &st.event,
            };
            let is_e = match te {
                FsmTransitionEvent::Event(ee) => *ee == e,
                _ => false,
            };
            proof {
                assert(is_e == (tr_event(d.transitions@[j as int]) == FsmTransitionEvent::Event(
                    e as EventId,
                )));
            }
            let ghost oldcs = cs@;
            if is_e {
                let c = match &t.ty {
                    FsmTransitionType::InternalTransition(a) => {
                        let s = match &a.state {
                            FsmTransitionState::State(s) => *s,
                            FsmTransitionState::NoState => 0,
                        };
                        FsmEventTransition::InternalTransition(s, clone_ega(&a.action))
                    },
                    FsmTransitionType::SelfTransition(a) => {
                        let s = match &a.state {
                            FsmTransitionState::State(s) => *s,
                            FsmTransitionState::NoState => 0,
                        };
                        FsmEventTransition::SelfTransition(s, clone_ega(&a.action))
                    },
                    FsmTransitionType::StateTransition(st) => {
                        let f = match &st.state_from {
                            FsmTransitionState::State(s) => *s,
                            FsmTransitionState::NoState => 0,
                        };
                        let to = match &st.state_to {
                            FsmTransitionState::State(s) => *s,
                            FsmTransitionState::NoState => 0,
                        };
                        FsmEventTransition::State(f, to, clone_ega(&st.action))
                    },
                };
                proof {
                    assert(tr_resolved(
                        d.transitions@[j as int],
                        d.states@.len() as int,
                        d.n_events as int,
                    ));
                }
                cs.push(c);
                proof {
                    let full = d.transitions@.take(j as int + 1);
                    let idx = evt_idxs(full, e as EventId);
                    assert(canon_matches(d.transitions@[j as int], cs@.last()));
                    assert(idx =~= evt_idxs(pre, e as EventId).push(j as int));
                    assert forall|jj: int| 0 <= jj < cs@.len() implies #[trigger] canon_ok_at(
                        full,
                        e as EventId,
                        cs@,
                        jj,
                    ) by {
                        if jj < cs@.len() - 1 {
                            assert(canon_ok_at(pre, e as EventId, oldcs, jj));
                            let j2 = evt_idxs(pre, e as EventId)[jj];
                            assert(idx[jj] == j2);
                            assert(full[j2] == d.transitions@[j2]);
                            assert(pre[j2] == d.transitions@[j2]);
                            assert(cs@[jj] == oldcs[jj]);
                        } else {
                            assert(idx[jj] == j as int);
                            assert(full[j as int] == d.transitions@[j as int]);
                        }
                    }
                }
            } else {
                proof {
                    let full = d.transitions@.take(j as int + 1);
                    let idx = evt_idxs(full, e as EventId);
                    assert(idx =~= evt_idxs(pre, e as EventId));
                    assert forall|jj: int| 0 <= jj < cs@.len() implies #[trigger] canon_ok_at(
                        full,
                        e as EventId,
                        cs@,
                        jj,
                    ) by {
                        assert(canon_ok_at(pre, e as EventId, oldcs, jj));
                        let j2 = evt_idxs(pre, e as EventId)[jj];
                        assert(idx[jj] == j2);
                        assert(full[j2] == d.transitions@[j2]);
                        assert(pre[j2] == d.transitions@[j2]);
                    }
                }
            }
            j = j + 1;
        }
        proof {
            assert(d.transitions@.take(d.transitions@.len() as int) =~= d.transitions@);
        }
        evs.push(FsmEvent { transitions: cs });
        e = e + 1;
    }
    evs
}

/// The reachability sets of every declared initial state.
fn build_reach(d: &FsmDeclarations) -> (rs: Vec<Vec<bool>>)
    requires
        forall|i: int|
            0 <= i < d.initial_states@.len() ==> ((#[trigger] d.initial_states@[i]) as int)
                < d.states@.len(),
        forall|j: int|
            0 <= j < d.transitions@.len() ==> tr_resolved(
                #[trigger] d.transitions@[j],
                d.states@.len() as int,
                d.n_events as int,
            ),
    ensures
        rs@.len() == d.initial_states@.len(),
        forall|k: int| 0 <= k < rs@.len() ==> (#[trigger] rs@[k])@.len() == d.states@.len(),
        forall|k: int, s: int|
            0 <= k < rs@.len() && 0 <= s < d.states@.len() ==> ((#[trigger] rs@[k]@[s])
                <==> sp_reaches(d.transitions@, d.initial_states@[k], s as StateId)),
{
    proof {
        assert forall|j: int| 0 <= j < d.transitions@.len() implies edge_in_range(
            #[trigger] d.transitions@[j],
            d.states@.len() as int,
        ) by {
            assert(tr_resolved(d.transitions@[j], d.states@.len() as int, d.n_events as int));
        }
    }
    let mut rs: Vec<Vec<bool>> = Vec::new();
    let mut k: usize = 0;
    while k < d.initial_states.len()
        invariant
            k <= d.initial_states@.len(),
            rs@.len() == k,
            forall|i: int|
                0 <= i < d.initial_states@.len() ==> ((#[trigger] d.initial_states@[i]) as int)
                    < d.states@.len(),
            forall|j: int|
                0 <= j < d.transitions@.len() ==> edge_in_range(
                    #[trigger] d.transitions@[j],
                    d.states@.len() as int,
                ),
            forall|kk: int| 0 <= kk < k ==> (#[trigger] rs@[kk])@.len() == d.states@.len(),
            forall|kk: int, s: int|
                0 <= kk < k && 0 <= s < d.states@.len() ==> ((#[trigger] rs@[kk]@[s])
                    <==> sp_reaches(d.transitions@, d.initial_states@[kk], s as StateId)),
        decreases d.initial_states@.len() - k,
    {
        let marked = reach_set(&d.transitions, d.states.len(), d.initial_states[k]);
        rs.push(marked);
        k = k + 1;
    }
    rs
}

/// The region a state belongs to: the first initial state that reaches it.
fn first_region_of(rs: &Vec<Vec<bool>>, s: StateId, Ghost(d): Ghost<FsmDeclarations>) -> (r: Option<
    usize,
>)
    requires
        rs@.len() == d.initial_states@.len(),
        (s as int) < d.states@.len(),
        forall|k: int| 0 <= k < rs@.len() ==> (#[trigger] rs@[k])@.len() == d.states@.len(),
        forall|k: int, ss: int|
            0 <= k < rs@.len() && 0 <= ss < d.states@.len() ==> ((#[trigger] rs@[k]@[ss])
                <==> sp_reaches(d.transitions@, d.initial_states@[k], ss as StateId)),
    ensures
        (match r {
            Option::Some(k) => first_region_from(d, s, 0) == Option::Some(k as int),
            Option::None => first_region_from(d, s, 0) is None,
        }),
{
    let mut k: usize = 0;
    while k < rs.len()
        invariant
            k <= rs@.len(),
            rs@.len() == d.initial_states@.len(),
            (s as int) < d.states@.len(),
            forall|kk: int| 0 <= kk < rs@.len() ==> (#[trigger] rs@[kk])@.len() == d.states@.len(),
            forall|kk: int, ss: int|
                0 <= kk < rs@.len() && 0 <= ss < d.states@.len() ==> ((#[trigger] rs@[kk]@[ss])
                    <==> sp_reaches(d.transitions@, d.initial_states@[kk], ss as StateId)),
            first_region_from(d, s, k as int) == first_region_from(d, s, 0),
        decreases rs@.len() - k,
    {
        if rs[k][s] {
            return Option::Some(k);
        }
        k = k + 1;
    }
    Option::None
}

/// Builds the regions: one per declared initial state, with the states and
/// transitions assigned to it.
fn build_regions(d: &FsmDeclarations, rs: &Vec<Vec<bool>>) -> (regions: Vec<FsmRegion>)
    requires
        rs@.len() == d.initial_states@.len(),
        forall|k: int| 0 <= k < rs@.len() ==> (#[trigger] rs@[k])@.len() == d.states@.len(),
        forall|k: int, ss: int|
            0 <= k < rs@.len() && 0 <= ss < d.states@.len() ==> ((#[trigger] rs@[k]@[ss])
                <==> sp_reaches(d.transitions@, d.initial_states@[k], ss as StateId)),
        forall|j: int|
            0 <= j < d.transitions@.len() ==> tr_resolved(
                #[trigger] d.transitions@[j],
                d.states@.len() as int,
                d.n_events as int,
            ),
    ensures
        regions@.len() == d.initial_states@.len(),
        forall|k: int|
            0 <= k < d.initial_states@.len() ==> {
                let reg = #[trigger] regions@[k];
                &&& reg.region_id == k
                &&& reg.initial_state == d.initial_states@[k]
                &&& reg.states@ == region_members(*d, k, d.states@.len() as int)
                &&& reg.transitions@ == region_tr_idxs(*d, k, d.transitions@.len() as int)
            },
{
    let mut regions: Vec<FsmRegion> = Vec::new();
    let mut k: usize = 0;
    while k < d.initial_states.len()
        invariant
            k <= d.initial_states@.len(),
            regions@.len() == k,
            rs@.len() == d.initial_states@.len(),
            forall|kk: int| 0 <= kk < rs@.len() ==> (#[trigger] rs@[kk])@.len() == d.states@.len(),
            forall|kk: int, ss: int|
                0 <= kk < rs@.len() && 0 <= ss < d.states@.len() ==> ((#[trigger] rs@[kk]@[ss])
                    <==> sp_reaches(d.transitions@, d.initial_states@[kk], ss as StateId)),
            forall|j: int|
                0 <= j < d.transitions@.len() ==> tr_resolved(
                    #[trigger] d.transitions@[j],
                    d.states@.len() as int,
                    d.n_events as int,
                ),
            forall|kk: int|
                0 <= kk < k ==> {
                    let reg = #[trigger] regions@[kk];
                    &&& reg.region_id == kk
                    &&& reg.initial_state == d.initial_states@[kk]
                    &&& reg.states@ == region_members(*d, kk, d.states@.len() as int)
                    &&& reg.transitions@ == region_tr_idxs(*d, kk, d.transitions@.len() as int)
                },
        decreases d.initial_states@.len() - k,
    {
        let mut members: Vec<StateId> = Vec::new();
        let mut s: usize = 0;
        while s < d.states.len()
            invariant
                s <= d.states@.len(),
                rs@.len() == d.initial_states@.len(),
                (k as int) < d.initial_states@.len(),
                forall|kk: int|
                    0 <= kk < rs@.len() ==> (#[trigger] rs@[kk])@.len() == d.states@.len(),
                forall|kk: int, ss: int|
                    0 <= kk < rs@.len() && 0 <= ss < d.states@.len() ==> ((#[trigger] rs@[kk]@[ss])
                        <==> sp_reaches(d.transitions@, d.initial_states@[kk], ss as StateId)),
                members@ == region_members(*d, k as int, s as int),
            decreases d.states@.len() - s,
        {
            let fr = first_region_of(rs, s, Ghost(*d));
            let in_region = match fr {
                Option::Some(kk) => kk == k,
                Option::None => false,
            };
            if in_region {
                members.push(s);
                proof {
                    assert(members@ =~= region_members(*d, k as int, s as int + 1));
                }
            } else {
                proof {
                    assert(members@ =~= region_members(*d, k as int, s as int + 1));
                }
            }
            s = s + 1;
        }
        let mut tidx: Vec<usize> = Vec::new();
        let mut j: usize = 0;
        while j < d.transitions.len()
            invariant
                j <= d.transitions@.len(),
                rs@.len() == d.initial_states@.len(),
                (k as int) < d.initial_states@.len(),
                forall|kk: int|
                    0 <= kk < rs@.len() ==> (#[trigger] rs@[kk])@.len() == d.states@.len(),
                forall|kk: int, ss: int|
                    0 <= kk < rs@.len() && 0 <= ss < d.states@.len() ==> ((#[trigger] rs@[kk]@[ss])
                        <==> sp_reaches(d.transitions@, d.initial_states@[kk], ss as StateId)),
                forall|jj: int|
                    0 <= jj < d.transitions@.len() ==> tr_resolved(
                        #[trigger] d.transitions@[jj],
                        d.states@.len() as int,
                        d.n_events as int,
                    ),
                tidx@ == region_tr_idxs(*d, k as int, j as int),
            decreases d.transitions@.len() - j,
        {
            let t = &d.transitions[j];
            let primary = match &t.ty {
                FsmTransitionType::InternalTransition(a) => &a.state,
                FsmTransitionType::SelfTransition(a) => &a.state,
                FsmTransitionType::StateTransition(st) => &st.state_from,
            };
            proof {
                assert(*primary == tr_primary(d.transitions@[j as int]));
                assert(tr_resolved(
                    d.transitions@[j as int],
                    d.states@.len() as int,
                    d.n_events as int,
                ));
            }
            let in_region = match primary {
                FsmTransitionState::State(ps) => {
                    let fr = first_region_of(rs, *ps, Ghost(*d));
                    match fr {
                        Option::Some(kk) => kk == k,
                        Option::None => false,
                    }
                },
                FsmTransitionState::NoState => false,
            };
            proof {
                assert(in_region == tr_in_region(*d, d.transitions@[j as int], k as int));
            }
            if in_region {
                tidx.push(j);
                proof {
                    assert(tidx@ =~= region_tr_idxs(*d, k as int, j as int + 1));
                }
            } else {
                proof {
                    assert(tidx@ =~= region_tr_idxs(*d, k as int, j as int + 1));
                }
            }
            j = j + 1;
        }
        regions.push(
            FsmRegion {
                region_id: k,
                initial_state: d.initial_states[k],
                states: members,
                transitions: tidx,
            },
        );
        k = k + 1;
    }
    regions
}


// ---------------------------------------------------------------------
// Validation
// ---------------------------------------------------------------------

/// Checks one machine declaration, reporting its first inconsistency.
fn check_machine(decls: &Vec<FsmDeclarations>, m: usize) -> (r: Option<FsmValidationError>)
    requires
        (m as int) < decls@.len(),
    ensures
        (match r {
            Option::None => decl_ok(decls@, m as int),
            Option::Some(e) => err_holds(decls@, e) && !decl_ok(decls@, m as int),
        }),
{
    let d = &decls[m];
    let ns = d.states.len();
    let ne = d.n_events;
    if d.initial_states.len() == 0 {
        return Option::Some(FsmValidationError::NoInitialState { machine: m });
    }
    let mut i: usize = 0;
    while i < d.initial_states.len()
        invariant
            i <= d.initial_states@.len(),
            ns == d.states@.len(),
            (m as int) < decls@.len(),
            d == decls@[m as int],
            forall|ii: int|
                0 <= ii < i ==> ((#[trigger] d.initial_states@[ii]) as int) < d.states@.len(),
        decreases d.initial_states@.len() - i,
    {
        if d.initial_states[i] >= ns {
            return Option::Some(
                FsmValidationError::UnknownState { machine: m, loc: DeclLoc::InitialState(i) },
            );
        }
        i = i + 1;
    }
    let mut j: usize = 0;
    while j < d.transitions.len()
        invariant
            j <= d.transitions@.len(),
            ns == d.states@.len(),
            ne == d.n_events,
            (m as int) < decls@.len(),
            d == decls@[m as int],
            forall|jj: int|
                0 <= jj < j ==> tr_resolved(
                    #[trigger] d.transitions@[jj],
                    d.states@.len() as int,
                    d.n_events as int,
                ),
        decreases d.transitions@.len() - j,
    {
        let t = &d.transitions[j];
        let states_ok = match &t.ty {
            FsmTransitionType::InternalTransition(a) | FsmTransitionType::SelfTransition(a) => {
                match &a.state {
                    FsmTransitionState::State(s) => *s < ns,
                    FsmTransitionState::NoState => false,
                }
            },
            FsmTransitionType::StateTransition(st) => {
                let from_ok = match &st.state_from {
                    FsmTransitionState::State(s) => *s < ns,
                    FsmTransitionState::NoState => false,
                };
                let to_ok = match &st.state_to {
                    FsmTransitionState::State(s) => *s < ns,
                    FsmTransitionState::NoState => false,
                };
                from_ok && to_ok
            },
        };
        if !states_ok {
            return Option::Some(
                FsmValidationError::UnknownState { machine: m, loc: DeclLoc::Transition(j) },
            );
        }
        let event_ok = match &t.ty {
            FsmTransitionType::InternalTransition(a) | FsmTransitionType::SelfTransition(a) => {
                match &a.event {
                    FsmTransitionEvent::Event(e) => *e < ne,
                    _ => false,
                }
            },
            FsmTransitionType::StateTransition(st) => {
                match &st.event {
                    FsmTransitionEvent::Event(e) => *e < ne,
                    _ => false,
                }
            },
        };
        if !event_ok {
            return Option::Some(
                FsmValidationError::UnknownEvent { machine: m, loc: DeclLoc::Transition(j) },
            );
        }
        proof {
            assert(tr_resolved(
                d.transitions@[j as int],
                d.states@.len() as int,
                d.n_events as int,
            ));
        }
        j = j + 1;
    }
    let mut s: usize = 0;
    while s < ns
        invariant
            s <= ns,
            ns == d.states@.len(),
            (m as int) < decls@.len(),
            d == decls@[m as int],
            forall|ss: int| 0 <= ss < s ==> sub_ok(decls@, m as int, #[trigger] d.states@[ss]),
        decreases ns - s,
    {
        match &d.states[s].kind {
            FsmStateKind::Normal => {},
            FsmStateKind::SubMachine(opts) => {
                if !(opts.machine > m && opts.machine < decls.len()) {
                    return Option::Some(
                        FsmValidationError::UnknownMachine { machine: m, state: s },
                    );
                }
                let sub_len = decls[opts.machine].context_len;
                let ctx_ok = match &opts.context_constructor {
                    Option::None => sub_len == d.context_len,
                    Option::Some(inits) => inits.len() == sub_len,
                };
                if !ctx_ok {
                    return Option::Some(
                        FsmValidationError::MissingSubContext { machine: m, state: s },
                    );
                }
            },
        }
        proof {
            assert(sub_ok(decls@, m as int, d.states@[s as int]));
        }
        s = s + 1;
    }
    let rs = build_reach(d);
    let mut s: usize = 0;
    while s < ns
        invariant
            s <= ns,
            ns == d.states@.len(),
            (m as int) < decls@.len(),
            d == decls@[m as int],
            rs@.len() == d.initial_states@.len(),
            forall|k: int| 0 <= k < rs@.len() ==> (#[trigger] rs@[k])@.len() == d.states@.len(),
            forall|k: int, ss: int|
                0 <= k < rs@.len() && 0 <= ss < d.states@.len() ==> ((#[trigger] rs@[k]@[ss])
                    <==> sp_reaches(d.transitions@, d.initial_states@[k], ss as StateId)),
            forall|ss: int|
                0 <= ss < s ==> (#[trigger] first_region_from(*d, ss as StateId, 0)) is Some,
        decreases ns - s,
    {
        let fr = first_region_of(&rs, s, Ghost(*d));
        if fr.is_none() {
            proof {
                assert(first_region_from(decls@[m as int], s as StateId, 0) is None);
                assert(!decl_ok(decls@, m as int));
            }
            return Option::Some(FsmValidationError::OrphanState { machine: m, state: s });
        }
        s = s + 1;
    }
    proof {
        assert(decl_ok(decls@, m as int));
    }
    Option::None
}

/// Validates the whole declaration arena (machine `0` is the root): either
/// every machine is internally consistent and a closed descriptor arena
/// comes back, or the first inconsistency is reported.  No runtime can be
/// built from an inconsistent arena.
pub fn validate(decls: &Vec<FsmDeclarations>) -> (r: Result<
    Vec<ValidatedFsm>,
    FsmValidationError,
>)
    requires
        decls@.len() > 0,
    ensures
        r is Ok <==> decls_ok(decls@),
        (match r {
            Result::Ok(v) => {
                &&& v@.len() == decls@.len()
                &&& forall|m: int|
                    0 <= m < decls@.len() ==> validated_rel(decls@, m, #[trigger] v@[m])
                &&& crate::runtime::arena_wf(v@)
            },
            Result::Err(e) => err_holds(decls@, e),
        }),
{
    let mut m: usize = 0;
    while m < decls.len()
        invariant
            m <= decls@.len(),
            forall|mm: int| 0 <= mm < m ==> decl_ok(decls@, mm),
        decreases decls@.len() - m,
    {
        if let Option::Some(e) = check_machine(decls, m) {
            return Result::Err(e);
        }
        m = m + 1;
    }
    let mut out: Vec<ValidatedFsm> = Vec::new();
    let mut m: usize = 0;
    while m < decls.len()
        invariant
            m <= decls@.len(),
            out@.len() == m,
            decls_ok(decls@),
            forall|mm: int| 0 <= mm < m ==> validated_rel(decls@, mm, #[trigger] out@[mm]),
        decreases decls@.len() - m,
    {
        proof {
            assert(decl_ok(decls@, m as int));
        }
        let d = &decls[m];
        let states = clone_states(&d.states);
        let events = build_events(d);
        let rs = build_reach(d);
        let regions = build_regions(d, &rs);
        out.push(ValidatedFsm { context_len: d.context_len, regions, states, events });
        proof {
            assert(validated_rel(decls@, m as int, out@[m as int]));
        }
        m = m + 1;
    }
    proof {
        assert forall|mm: int| 0 <= mm < out@.len() implies crate::runtime::machine_wf(
            out@,
            mm,
        ) by {
            let d = decls@[mm];
            let f = out@[mm];
            assert(validated_rel(decls@, mm, f));
            assert(decl_ok(decls@, mm));
            assert forall|e: int, j: int|
                0 <= e < f.events@.len() && 0 <= j < f.events@[e].transitions@.len()
                    implies crate::runtime::canon_wf(
                #[trigger] f.events@[e].transitions@[j],
                f.states@.len() as int,
            ) by {
                assert(canon_list_matches(
                    d.transitions@,
                    e as EventId,
                    f.events@[e].transitions@,
                ));
                assert(canon_ok_at(d.transitions@, e as EventId, f.events@[e].transitions@, j));
                let j2 = evt_idxs(d.transitions@, e as EventId)[j];
                assert(tr_resolved(
                    d.transitions@[j2],
                    d.states@.len() as int,
                    d.n_events as int,
                ));
            }
            assert forall|s: int| 0 <= s < f.states@.len() implies crate::runtime::state_wf(
                out@,
                mm,
                #[trigger] f.states@[s],
            ) by {
                assert(sub_ok(decls@, mm, d.states@[s]));
                assert(state_matches(d.states@[s], f.states@[s]));
                match f.states@[s].kind {
                    FsmStateKind::Normal => {},
                    FsmStateKind::SubMachine(opts) => {
                        assert(validated_rel(decls@, opts.machine as int, out@[opts.machine as int]));
                    },
                }
            }
        }
    }
    Result::Ok(out)
}


impl FsmDeclarations {
    /// Validates a declaration arena into its descriptor arena; the
    /// declaration set itself is produced by the authoring surface.
    pub fn parse(decls: &Vec<FsmDeclarations>) -> (r: Result<Vec<ValidatedFsm>, FsmValidationError>)
        requires
            decls@.len() > 0,
        ensures
            r is Ok <==> decls_ok(decls@),
            (match r {
                Result::Ok(v) => {
                    &&& v@.len() == decls@.len()
                    &&& forall|m: int|
                        0 <= m < decls@.len() ==> validated_rel(decls@, m, #[trigger] v@[m])
                    &&& crate::runtime::arena_wf(v@)
                },
                Result::Err(e) => err_holds(decls@, e),
            }),
    {
        validate(decls)
    }
}

} // verus!
