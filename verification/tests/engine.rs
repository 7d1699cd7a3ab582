use finny::decl::ActionOp;
use finny::decl::CtxInit;
use finny::decl::EventGuardAction;
use finny::decl::EventInstance;
use finny::decl::FsmDeclarations;
use finny::decl::FsmGuard;
use finny::decl::FsmState;
use finny::decl::FsmStateAction;
use finny::decl::FsmStateKind;
use finny::decl::FsmStateTransition;
use finny::decl::FsmSubMachineOptions;
use finny::decl::FsmTransition;
use finny::decl::FsmTransitionEvent;
use finny::decl::FsmTransitionState;
use finny::decl::FsmTransitionType;
use finny::decl::HookOp;
use finny::runtime::FsmCurrentState;
use finny::runtime::FsmError;
use finny::runtime::FsmRuntime;
use finny::validate::validate;

fn ega(guard: FsmGuard, action: Vec<ActionOp>) -> EventGuardAction {
    EventGuardAction { guard, action }
}

fn state_tr(from: usize, to: usize, event: usize, a: EventGuardAction) -> FsmTransition {
    FsmTransition {
        ty: FsmTransitionType::StateTransition(FsmStateTransition {
            state_from: FsmTransitionState::State(from),
            state_to: FsmTransitionState::State(to),
            event: FsmTransitionEvent::Event(event),
            action: a,
        }),
    }
}

fn self_tr(state: usize, event: usize, a: EventGuardAction) -> FsmTransition {
    FsmTransition {
        ty: FsmTransitionType::SelfTransition(FsmStateAction {
            state: FsmTransitionState::State(state),
            event: FsmTransitionEvent::Event(event),
            action: a,
        }),
    }
}

fn internal_tr(state: usize, event: usize, a: EventGuardAction) -> FsmTransition {
    FsmTransition {
        ty: FsmTransitionType::InternalTransition(FsmStateAction {
            state: FsmTransitionState::State(state),
            event: FsmTransitionEvent::Event(event),
            action: a,
        }),
    }
}

fn normal_state(on_entry: Option<HookOp>, on_exit: Option<HookOp>) -> FsmState {
    FsmState {
        kind: FsmStateKind::Normal,
        on_entry,
        on_exit,
        timers: Vec::new(),
    }
}

fn sub_state(
    machine: usize,
    ctor: Option<Vec<CtxInit>>,
    on_entry: Option<HookOp>,
    on_exit: Option<HookOp>,
) -> FsmState {
    FsmState {
        kind: FsmStateKind::SubMachine(FsmSubMachineOptions {
            machine,
            context_constructor: ctor,
        }),
        on_entry,
        on_exit,
        timers: Vec::new(),
    }
}

fn ev(id: usize) -> EventInstance {
    EventInstance { id, payload: 0 }
}

// A two-region machine: region one holds states 0 (initial) and 1, region
// two holds states 2 (initial) and 3; event 0 moves both regions forward.
fn two_region_machine() -> Vec<FsmDeclarations> {
    vec![FsmDeclarations {
        context_len: 0,
        initial_states: vec![0, 2],
        states: vec![
            normal_state(None, None),
            normal_state(None, None),
            normal_state(None, None),
            normal_state(None, None),
        ],
        n_events: 1,
        transitions: vec![
            state_tr(0, 1, 0, ega(FsmGuard::Always, vec![])),
            state_tr(2, 3, 0, ega(FsmGuard::Always, vec![])),
        ],
    }]
}

#[test]
fn test_regions() {
    let machines = validate(&two_region_machine()).unwrap();
    let mut fsm = FsmRuntime::new(machines, vec![]);
    fsm.start().unwrap();
    let current_states = fsm.get_current_states();
    assert_eq!(
        vec![FsmCurrentState::State(0), FsmCurrentState::State(2)],
        current_states
    );
}

// The nested-machine arena of the sub-machine scenario.
//
// Machine 0 (root): context counters are [sub_enter, sub_exit, sub_action].
//   state 0: a plain state whose payload counts transition actions into it;
//   state 1: the first nested machine (machine 1), entered on event 0,
//            left on event 0, self-transitioned on event 1 when the
//            payload is positive, and left for state 2 on event 2;
//   state 2: the second nested machine (machine 2).
// Machine 1: one counter of context; its initial state counts entries in
//   its payload and moves to its second state on event 3.
// Machine 2: alike, moving on event 4.
fn sub_machine_arena() -> Vec<FsmDeclarations> {
    let root = FsmDeclarations {
        context_len: 3,
        initial_states: vec![0],
        states: vec![
            normal_state(None, None),
            sub_state(
                1,
                Some(vec![CtxInit::FromParent(0)]),
                Some(HookOp::IncCounter(0)),
                Some(HookOp::IncCounter(1)),
            ),
            sub_state(2, Some(vec![CtxInit::Value(0)]), None, None),
        ],
        n_events: 3,
        transitions: vec![
            state_tr(0, 1, 0, ega(FsmGuard::Always, vec![])),
            state_tr(1, 0, 0, ega(FsmGuard::Always, vec![ActionOp::IncToValue])),
            self_tr(
                1,
                1,
                ega(FsmGuard::PayloadAtLeast(1), vec![ActionOp::IncCounter(2)]),
            ),
            state_tr(1, 2, 2, ega(FsmGuard::Always, vec![])),
        ],
    };
    let sub = FsmDeclarations {
        context_len: 1,
        initial_states: vec![0],
        states: vec![
            normal_state(Some(HookOp::IncOwnValue), None),
            normal_state(None, None),
        ],
        n_events: 4,
        transitions: vec![state_tr(0, 1, 3, ega(FsmGuard::Always, vec![ActionOp::IncFromValue]))],
    };
    let second_sub = FsmDeclarations {
        context_len: 1,
        initial_states: vec![0],
        states: vec![
            normal_state(Some(HookOp::IncOwnValue), None),
            normal_state(None, None),
        ],
        n_events: 5,
        transitions: vec![state_tr(0, 1, 4, ega(FsmGuard::Always, vec![ActionOp::IncFromValue]))],
    };
    vec![root, sub, second_sub]
}

#[test]
fn test_sub() {
    let machines = validate(&sub_machine_arena()).unwrap();
    let mut fsm = FsmRuntime::new(machines, vec![0, 0, 0]);

    fsm.start().unwrap();
    assert_eq!(FsmCurrentState::State(0), fsm.get_current_states()[0]);

    fsm.dispatch(ev(0)).unwrap();

    assert_eq!(FsmCurrentState::State(1), fsm.get_current_states()[0]);
    assert_eq!(
        FsmCurrentState::State(0),
        fsm.get_current_states_of(1)[0]
    );
    assert_eq!(1, fsm.get_state(1, 0));

    fsm.dispatch(ev(3)).unwrap();

    assert_eq!(FsmCurrentState::State(1), fsm.get_current_states()[0]);
    assert_eq!(
        FsmCurrentState::State(1),
        fsm.get_current_states_of(1)[0]
    );
    assert_eq!(2, fsm.get_state(1, 0));

    let res = fsm.dispatch(EventInstance { id: 1, payload: 0 });
    assert_eq!(Err(FsmError::NoTransition), res);
    assert_eq!(1, fsm.get_context(0, 0));
    assert_eq!(0, fsm.get_context(0, 1));
    assert_eq!(0, fsm.get_context(0, 2));

    fsm.dispatch(EventInstance { id: 1, payload: 1 }).unwrap();
    assert_eq!(2, fsm.get_context(0, 0));
    assert_eq!(1, fsm.get_context(0, 1));
    assert_eq!(1, fsm.get_context(0, 2));

    fsm.dispatch(ev(0)).unwrap();
    assert_eq!(FsmCurrentState::State(0), fsm.get_current_states()[0]);

    fsm.dispatch(ev(0)).unwrap();
    assert_eq!(FsmCurrentState::State(1), fsm.get_current_states()[0]);

    fsm.dispatch(ev(2)).unwrap();
    assert_eq!(FsmCurrentState::State(2), fsm.get_current_states()[0]);
}

#[test]
fn dispatch_before_start_fails() {
    let machines = validate(&two_region_machine()).unwrap();
    let mut fsm = FsmRuntime::new(machines, vec![]);
    assert_eq!(Err(FsmError::NotStarted), fsm.dispatch(ev(0)));
    assert_eq!(
        vec![FsmCurrentState::Stopped, FsmCurrentState::Stopped],
        fsm.get_current_states()
    );
}

#[test]
fn start_twice_is_an_error() {
    let machines = validate(&two_region_machine()).unwrap();
    let mut fsm = FsmRuntime::new(machines, vec![]);
    fsm.start().unwrap();
    assert_eq!(Err(FsmError::AlreadyStarted), fsm.start());
    assert_eq!(
        vec![FsmCurrentState::State(0), FsmCurrentState::State(2)],
        fsm.get_current_states()
    );
}

#[test]
fn unmatched_event_changes_nothing() {
    let machines = validate(&sub_machine_arena()).unwrap();
    let mut fsm = FsmRuntime::new(machines, vec![7, 8, 9]);
    fsm.start().unwrap();
    let before = fsm.get_current_states();
    assert_eq!(Err(FsmError::NoTransition), fsm.dispatch(ev(99)));
    assert_eq!(before, fsm.get_current_states());
    assert_eq!(7, fsm.get_context(0, 0));
    assert_eq!(8, fsm.get_context(0, 1));
    assert_eq!(9, fsm.get_context(0, 2));
}

// One state with entry and exit counters; event 0 is a self transition,
// event 1 an internal transition, both with an action counter.
fn self_vs_internal_machine() -> Vec<FsmDeclarations> {
    vec![FsmDeclarations {
        context_len: 3,
        initial_states: vec![0],
        states: vec![normal_state(
            Some(HookOp::IncCounter(0)),
            Some(HookOp::IncCounter(1)),
        )],
        n_events: 2,
        transitions: vec![
            self_tr(0, 0, ega(FsmGuard::Always, vec![ActionOp::IncCounter(2)])),
            internal_tr(0, 1, ega(FsmGuard::Always, vec![ActionOp::IncCounter(2)])),
        ],
    }]
}

#[test]
fn self_transition_fires_entry_and_exit() {
    let machines = validate(&self_vs_internal_machine()).unwrap();
    let mut fsm = FsmRuntime::new(machines, vec![0, 0, 0]);
    fsm.start().unwrap();
    assert_eq!(1, fsm.get_context(0, 0));
    assert_eq!(0, fsm.get_context(0, 1));
    fsm.dispatch(ev(0)).unwrap();
    assert_eq!(2, fsm.get_context(0, 0));
    assert_eq!(1, fsm.get_context(0, 1));
    assert_eq!(1, fsm.get_context(0, 2));
}

#[test]
fn internal_transition_fires_neither_hook() {
    let machines = validate(&self_vs_internal_machine()).unwrap();
    let mut fsm = FsmRuntime::new(machines, vec![0, 0, 0]);
    fsm.start().unwrap();
    fsm.dispatch(ev(1)).unwrap();
    assert_eq!(1, fsm.get_context(0, 0));
    assert_eq!(0, fsm.get_context(0, 1));
    assert_eq!(1, fsm.get_context(0, 2));
    assert_eq!(vec![FsmCurrentState::State(0)], fsm.get_current_states());
}

#[test]
fn counter_guard_blocks_until_met() {
    let machines = validate(&vec![FsmDeclarations {
        context_len: 1,
        initial_states: vec![0],
        states: vec![normal_state(None, None), normal_state(None, None)],
        n_events: 2,
        transitions: vec![
            state_tr(0, 1, 0, ega(FsmGuard::CounterAtLeast(0, 1), vec![])),
            internal_tr(0, 1, ega(FsmGuard::Always, vec![ActionOp::IncCounter(0)])),
        ],
    }])
    .unwrap();
    let mut fsm = FsmRuntime::new(machines, vec![0]);
    fsm.start().unwrap();
    assert_eq!(Err(FsmError::NoTransition), fsm.dispatch(ev(0)));
    assert_eq!(vec![FsmCurrentState::State(0)], fsm.get_current_states());
    fsm.dispatch(ev(1)).unwrap();
    assert_eq!(1, fsm.get_context(0, 0));
    fsm.dispatch(ev(0)).unwrap();
    assert_eq!(vec![FsmCurrentState::State(1)], fsm.get_current_states());
}

#[test]
fn enqueued_events_drain_after_dispatch() {
    let machines = validate(&vec![FsmDeclarations {
        context_len: 0,
        initial_states: vec![0],
        states: vec![
            normal_state(None, None),
            normal_state(None, None),
            normal_state(None, None),
        ],
        n_events: 2,
        transitions: vec![
            state_tr(0, 1, 0, ega(FsmGuard::Always, vec![ActionOp::Enqueue(1, 0)])),
            state_tr(1, 2, 1, ega(FsmGuard::Always, vec![])),
        ],
    }])
    .unwrap();
    let mut fsm = FsmRuntime::new(machines, vec![]);
    fsm.start().unwrap();
    fsm.dispatch(ev(0)).unwrap();
    assert_eq!(vec![FsmCurrentState::State(2)], fsm.get_current_states());
}

#[test]
fn queue_drains_first_in_first_out() {
    // The action of event 0 enqueues event 1 and then event 2.  Event 1
    // only matches the state the machine is in right after the trigger,
    // and event 2 only matches the state event 1 leads to: the machine
    // ends in state 3 exactly when the queue drains in order.
    let machines = validate(&vec![FsmDeclarations {
        context_len: 0,
        initial_states: vec![0],
        states: vec![
            normal_state(None, None),
            normal_state(None, None),
            normal_state(None, None),
            normal_state(None, None),
        ],
        n_events: 3,
        transitions: vec![
            state_tr(
                0,
                1,
                0,
                ega(FsmGuard::Always, vec![ActionOp::Enqueue(1, 0), ActionOp::Enqueue(2, 0)]),
            ),
            state_tr(1, 2, 1, ega(FsmGuard::Always, vec![])),
            state_tr(2, 3, 2, ega(FsmGuard::Always, vec![])),
        ],
    }])
    .unwrap();
    let mut fsm = FsmRuntime::new(machines, vec![]);
    fsm.start().unwrap();
    fsm.dispatch(ev(0)).unwrap();
    assert_eq!(vec![FsmCurrentState::State(3)], fsm.get_current_states());
}

#[test]
fn preloaded_queue_drains_on_first_handled_dispatch() {
    let machines = validate(&vec![FsmDeclarations {
        context_len: 0,
        initial_states: vec![0],
        states: vec![
            normal_state(None, None),
            normal_state(None, None),
            normal_state(None, None),
        ],
        n_events: 2,
        transitions: vec![
            state_tr(0, 1, 0, ega(FsmGuard::Always, vec![])),
            state_tr(1, 2, 1, ega(FsmGuard::Always, vec![])),
        ],
    }])
    .unwrap();
    let mut fsm = FsmRuntime::new_with(machines, vec![], vec![ev(1)]);
    fsm.start().unwrap();
    fsm.dispatch(ev(0)).unwrap();
    assert_eq!(vec![FsmCurrentState::State(2)], fsm.get_current_states());
}
