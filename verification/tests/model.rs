use finny::decl::EventGuardAction;
use finny::decl::FsmDeclarations;
use finny::decl::FsmGuard;
use finny::decl::FsmModelError;
use finny::decl::FsmState;
use finny::decl::FsmStateAction;
use finny::decl::FsmStateKind;
use finny::decl::FsmStateTransition;
use finny::decl::FsmSubMachineOptions;
use finny::decl::FsmTransition;
use finny::decl::FsmTransitionEvent;
use finny::decl::FsmTransitionState;
use finny::decl::FsmTransitionType;
use finny::sig::FnArgShape;
use finny::sig::FnSigShape;
use finny::sig::FsmBuildError;
use finny::sig::FsmFnInput;
use finny::sig::GenericArgShape;
use finny::sig::MalformedDeclaration;
use finny::sig::PatShape;
use finny::sig::PathArgumentsShape;
use finny::sig::PathSegmentShape;
use finny::sig::ReturnShape;
use finny::sig::TypeShape;
use finny::sig::parse_signature;
use finny::validate::DeclLoc;
use finny::validate::FsmValidationError;
use finny::validate::validate;

fn plain_ega() -> EventGuardAction {
    EventGuardAction { guard: FsmGuard::Always, action: Vec::new() }
}

fn plain_state() -> FsmState {
    FsmState { kind: FsmStateKind::Normal, on_entry: None, on_exit: None, timers: Vec::new() }
}

fn tr(from: usize, to: usize, event: usize) -> FsmTransition {
    FsmTransition {
        ty: FsmTransitionType::StateTransition(FsmStateTransition {
            state_from: FsmTransitionState::State(from),
            state_to: FsmTransitionState::State(to),
            event: FsmTransitionEvent::Event(event),
            action: plain_ega(),
        }),
    }
}

fn machine(
    initial_states: Vec<usize>,
    n_states: usize,
    n_events: usize,
    transitions: Vec<FsmTransition>,
) -> FsmDeclarations {
    let mut states = Vec::new();
    let mut i: usize = 0;
    while i < n_states {
        states.push(plain_state());
        i += 1;
    }
    FsmDeclarations { context_len: 0, initial_states, states, n_events, transitions }
}

#[test]
fn no_initial_state_is_rejected() {
    let r = validate(&vec![machine(vec![], 1, 0, vec![])]);
    assert_eq!(Err(FsmValidationError::NoInitialState { machine: 0 }), r.map(|_| ()));
}

#[test]
fn unknown_initial_state_is_rejected() {
    let r = validate(&vec![machine(vec![3], 1, 0, vec![])]);
    assert_eq!(
        Err(FsmValidationError::UnknownState { machine: 0, loc: DeclLoc::InitialState(0) }),
        r.map(|_| ())
    );
}

#[test]
fn unknown_transition_state_is_rejected() {
    let r = validate(&vec![machine(vec![0], 2, 1, vec![tr(0, 5, 0)])]);
    assert_eq!(
        Err(FsmValidationError::UnknownState { machine: 0, loc: DeclLoc::Transition(0) }),
        r.map(|_| ())
    );
}

#[test]
fn unknown_event_is_rejected() {
    let r = validate(&vec![machine(vec![0], 2, 1, vec![tr(0, 1, 7)])]);
    assert_eq!(
        Err(FsmValidationError::UnknownEvent { machine: 0, loc: DeclLoc::Transition(0) }),
        r.map(|_| ())
    );
}

#[test]
fn orphan_state_is_rejected() {
    let r = validate(&vec![machine(vec![0], 2, 0, vec![])]);
    assert_eq!(Err(FsmValidationError::OrphanState { machine: 0, state: 1 }), r.map(|_| ()));
}

#[test]
fn missing_sub_context_is_rejected() {
    let sub = FsmDeclarations {
        context_len: 2,
        initial_states: vec![0],
        states: vec![plain_state()],
        n_events: 0,
        transitions: vec![],
    };
    let mut root = machine(vec![0], 1, 0, vec![]);
    root.states[0] = FsmState {
        kind: FsmStateKind::SubMachine(FsmSubMachineOptions {
            machine: 1,
            context_constructor: None,
        }),
        on_entry: None,
        on_exit: None,
        timers: Vec::new(),
    };
    let r = validate(&vec![root, sub]);
    assert_eq!(
        Err(FsmValidationError::MissingSubContext { machine: 0, state: 0 }),
        r.map(|_| ())
    );
}

#[test]
fn backward_sub_machine_reference_is_rejected() {
    let mut root = machine(vec![0], 1, 0, vec![]);
    root.states[0] = FsmState {
        kind: FsmStateKind::SubMachine(FsmSubMachineOptions {
            machine: 0,
            context_constructor: None,
        }),
        on_entry: None,
        on_exit: None,
        timers: Vec::new(),
    };
    let r = validate(&vec![root]);
    assert_eq!(Err(FsmValidationError::UnknownMachine { machine: 0, state: 0 }), r.map(|_| ()));
}

#[test]
fn valid_machine_canonicalizes_by_event() {
    let v = validate(&vec![machine(
        vec![0],
        3,
        2,
        vec![tr(0, 1, 0), tr(1, 2, 1), tr(0, 2, 1)],
    )])
    .unwrap();
    assert_eq!(1, v.len());
    assert_eq!(2, v[0].events.len());
    assert_eq!(1, v[0].events[0].transitions.len());
    assert_eq!(2, v[0].events[1].transitions.len());
    assert_eq!(1, v[0].regions.len());
    assert_eq!(vec![0, 1, 2], v[0].regions[0].states);
    assert_eq!(vec![0, 1, 2], v[0].regions[0].transitions);
}

fn seg(name: &str, arguments: PathArgumentsShape) -> PathSegmentShape {
    PathSegmentShape { ident: name.to_owned(), arguments }
}

fn builder_sig() -> FnSigShape {
    FnSigShape {
        inputs: vec![FnArgShape::Typed(
            PatShape::Ident("fsm".to_owned()),
            TypeShape::Path(vec![seg(
                "FsmBuilder",
                PathArgumentsShape::AngleBracketed(vec![
                    GenericArgShape::Type(TypeShape::Path(vec![seg(
                        "StateMachine",
                        PathArgumentsShape::Other,
                    )])),
                    GenericArgShape::Type(TypeShape::Path(vec![seg(
                        "MainContext",
                        PathArgumentsShape::NoArguments,
                    )])),
                ]),
            )]),
        )],
        output: ReturnShape::Type(TypeShape::Path(vec![seg(
            "BuiltFsm",
            PathArgumentsShape::NoArguments,
        )])),
    }
}

#[test]
fn well_formed_builder_signature_is_accepted() {
    let base = parse_signature(builder_sig()).unwrap();
    assert_eq!("fsm", base.builder_ident);
    match base.fsm_ty {
        TypeShape::Path(segs) => {
            assert_eq!(1, segs.len());
            assert_eq!("StateMachine", segs[0].ident);
            assert!(matches!(segs[0].arguments, PathArgumentsShape::NoArguments));
        },
        TypeShape::Other => panic!("expected a path type"),
    }
    match base.context_ty {
        TypeShape::Path(segs) => assert_eq!("MainContext", segs[0].ident),
        TypeShape::Other => panic!("expected a path type"),
    }
}

#[test]
fn two_builder_parameters_are_rejected() {
    let mut sig = builder_sig();
    sig.inputs.push(FnArgShape::Receiver);
    assert_eq!(Err(MalformedDeclaration::NotSingleInput), parse_signature(sig).map(|_| ()));
}

#[test]
fn untyped_builder_parameter_is_rejected() {
    let mut sig = builder_sig();
    sig.inputs[0] = FnArgShape::Receiver;
    assert_eq!(Err(MalformedDeclaration::UntypedInput), parse_signature(sig).map(|_| ()));
}

#[test]
fn missing_generics_are_rejected() {
    let sig = FnSigShape {
        inputs: vec![FnArgShape::Typed(
            PatShape::Ident("fsm".to_owned()),
            TypeShape::Path(vec![seg("FsmBuilder", PathArgumentsShape::NoArguments)]),
        )],
        output: builder_sig().output,
    };
    assert_eq!(Err(MalformedDeclaration::MissingGenerics), parse_signature(sig).map(|_| ()));
}

#[test]
fn wrong_return_type_is_rejected() {
    let mut sig = builder_sig();
    sig.output = ReturnShape::Unit;
    assert_eq!(Err(MalformedDeclaration::WrongReturnType), parse_signature(sig).map(|_| ()));
}

#[test]
fn parse_combines_signature_and_validation() {
    let decls = vec![machine(vec![0], 2, 1, vec![tr(0, 1, 0)])];
    let inp = FsmFnInput::parse(builder_sig(), &decls).unwrap();
    assert_eq!(1, inp.fsm.len());
    assert_eq!("fsm", inp.base.builder_ident);

    let bad = FsmFnInput::parse(builder_sig(), &vec![machine(vec![], 1, 0, vec![])]);
    assert!(matches!(
        bad.map(|_| ()),
        Err(FsmBuildError::Validation(FsmValidationError::NoInitialState { machine: 0 }))
    ));
}

#[test]
fn transition_event_reference_is_extracted() {
    let e = FsmTransitionEvent::Event(4);
    assert_eq!(Ok(4), e.get_event());
    assert_eq!(Err(FsmModelError::MissingEvent), FsmTransitionEvent::Start.get_event());
    assert_eq!(Err(FsmModelError::MissingEvent), FsmTransitionEvent::Stop.get_event());
}

#[test]
fn transition_states_are_collected() {
    let t = tr(3, 5, 0);
    assert_eq!(vec![3, 5], t.ty.get_states());
    let s = FsmTransitionType::SelfTransition(FsmStateAction {
        state: FsmTransitionState::State(9),
        event: FsmTransitionEvent::Event(0),
        action: plain_ega(),
    });
    assert_eq!(vec![9], s.get_states());
    let none = FsmTransitionType::InternalTransition(FsmStateAction {
        state: FsmTransitionState::NoState,
        event: FsmTransitionEvent::Start,
        action: plain_ega(),
    });
    assert_eq!(Vec::<usize>::new(), none.get_states());
}

#[test]
fn state_reference_is_extracted() {
    assert_eq!(Ok(2), FsmTransitionState::State(2).get_fsm_state());
    assert_eq!(Err(FsmModelError::MissingState), FsmTransitionState::NoState.get_fsm_state());
}

#[test]
fn non_identifier_binding_is_rejected() {
    let mut sig = builder_sig();
    if let FnArgShape::Typed(pat, _) = &mut sig.inputs[0] {
        *pat = PatShape::Other;
    }
    assert_eq!(Err(MalformedDeclaration::NotIdentPattern), parse_signature(sig).map(|_| ()));
}

#[test]
fn non_path_builder_type_is_rejected() {
    let mut sig = builder_sig();
    if let FnArgShape::Typed(_, ty) = &mut sig.inputs[0] {
        *ty = TypeShape::Other;
    }
    assert_eq!(Err(MalformedDeclaration::BuilderTypeNotPath), parse_signature(sig).map(|_| ()));
}

#[test]
fn multi_segment_builder_type_is_rejected() {
    let mut sig = builder_sig();
    if let FnArgShape::Typed(_, TypeShape::Path(segs)) = &mut sig.inputs[0] {
        segs.push(seg("Extra", PathArgumentsShape::NoArguments));
    }
    assert_eq!(Err(MalformedDeclaration::NotSingleSegment), parse_signature(sig).map(|_| ()));
}

#[test]
fn single_generic_argument_is_rejected() {
    let sig = FnSigShape {
        inputs: vec![FnArgShape::Typed(
            PatShape::Ident("fsm".to_owned()),
            TypeShape::Path(vec![seg(
                "FsmBuilder",
                PathArgumentsShape::AngleBracketed(vec![GenericArgShape::Type(TypeShape::Path(
                    vec![seg("StateMachine", PathArgumentsShape::NoArguments)],
                ))]),
            )]),
        )],
        output: builder_sig().output,
    };
    assert_eq!(Err(MalformedDeclaration::MissingGenericPair), parse_signature(sig).map(|_| ()));
}

#[test]
fn non_path_machine_type_is_rejected() {
    let sig = FnSigShape {
        inputs: vec![FnArgShape::Typed(
            PatShape::Ident("fsm".to_owned()),
            TypeShape::Path(vec![seg(
                "FsmBuilder",
                PathArgumentsShape::AngleBracketed(vec![
                    GenericArgShape::Type(TypeShape::Other),
                    GenericArgShape::Type(TypeShape::Path(vec![seg(
                        "MainContext",
                        PathArgumentsShape::NoArguments,
                    )])),
                ]),
            )]),
        )],
        output: builder_sig().output,
    };
    assert_eq!(Err(MalformedDeclaration::UnsupportedFsmType), parse_signature(sig).map(|_| ()));
}
