//! The builder-function signature check: the model parser's front gate.
//!
//! A machine is authored as a builder function of a fixed shape: one typed
//! parameter whose type is a single path segment carrying a pair of
//! generic arguments (the machine type and the context type), and the
//! return type `BuiltFsm`.  The authoring surface is modelled as plain
//! shape records; the check resolves them into an [`FsmFnBase`] or reports
//! exactly which part of the declaration is malformed.

use vstd::prelude::*;

use crate::decl::FsmDeclarations;
use crate::validate::FsmValidationError;
use crate::validate::ValidatedFsm;
use crate::validate::decls_ok;
use crate::validate::err_holds;
use crate::validate::validate;
use crate::validate::validated_rel;

verus! {

/// The shape of a type expression, as far as the check reads it.
#[derive(Debug)]
pub enum TypeShape {
    /// A path type: its segments in order.
    Path(Vec<PathSegmentShape>),
    /// Anything else.
    Other,
}

/// One segment of a path type.
#[derive(Debug)]
pub struct PathSegmentShape {
    pub ident: String,
    pub arguments: PathArgumentsShape,
}

/// The generic arguments attached to a path segment.
#[derive(Debug)]
pub enum PathArgumentsShape {
    NoArguments,
    AngleBracketed(Vec<GenericArgShape>),
    Other,
}

/// One generic argument.
#[derive(Debug)]
pub enum GenericArgShape {
    Type(TypeShape),
    Other,
}

/// The binding pattern of a function parameter.
#[derive(Debug)]
pub enum PatShape {
    Ident(String),
    Other,
}

/// One parameter of the builder function.
#[derive(Debug)]
pub enum FnArgShape {
    Typed(PatShape, TypeShape),
    Receiver,
}

/// The declared return type of the builder function.
#[derive(Debug)]
pub enum ReturnShape {
    Unit,
    Type(TypeShape),
}

/// The signature of the builder function, as the authoring surface hands
/// it over.
#[derive(Debug)]
pub struct FnSigShape {
    pub inputs: Vec<FnArgShape>,
    pub output: ReturnShape,
}

/// The ways a builder-function declaration can be malformed; one per
/// shape requirement, in the order the check reads the signature.
#[derive(Clone, Copy, PartialEq, Eq, Structural, Debug)]
pub enum MalformedDeclaration {
    /// Exactly one input parameter is supported.
    NotSingleInput,
    /// Only a typed input is supported.
    UntypedInput,
    /// Only a plain identifier binding is supported.
    NotIdentPattern,
    /// The builder parameter's type must be a path.
    BuilderTypeNotPath,
    /// The builder parameter's type must be a single path segment.
    NotSingleSegment,
    /// The builder segment must carry angle-bracketed generics.
    MissingGenerics,
    /// The generics must begin with a pair of types: machine and context.
    MissingGenericPair,
    /// The machine type must be a non-empty path.
    UnsupportedFsmType,
    /// The return type has to be `BuiltFsm`.
    WrongReturnType,
}

/// What the signature check extracts: the builder binding, the machine
/// type with the generics stripped off its head segment, and the context
/// type.
#[derive(Debug)]
pub struct FsmFnBase {
    pub builder_ident: String,
    pub fsm_ty: TypeShape,
    pub context_ty: TypeShape,
}

/// The first shape requirement the signature violates, if any; the
/// specification of the check.
pub open spec fn sig_err(sig: FnSigShape) -> Option<MalformedDeclaration> {
    if sig.inputs@.len() != 1 {
        Option::Some(MalformedDeclaration::NotSingleInput)
    } else {
        match sig.inputs@[0] {
            FnArgShape::Receiver => Option::Some(MalformedDeclaration::UntypedInput),
            FnArgShape::Typed(pat, ty) => match pat {
                PatShape::Other => Option::Some(MalformedDeclaration::NotIdentPattern),
                PatShape::Ident(_) => match ty {
                    TypeShape::Other => Option::Some(MalformedDeclaration::BuilderTypeNotPath),
                    TypeShape::Path(segs) => if segs@.len() != 1 {
                        Option::Some(MalformedDeclaration::NotSingleSegment)
                    } else {
                        match segs@[0].arguments {
                            PathArgumentsShape::AngleBracketed(args) => if !(args@.len() >= 2
                                && args@[0] is Type && args@[1] is Type) {
                                Option::Some(MalformedDeclaration::MissingGenericPair)
                            } else {
                                match args@[0] {
                                    GenericArgShape::Type(fsm0) => match fsm0 {
                                        TypeShape::Other => Option::Some(
                                            MalformedDeclaration::UnsupportedFsmType,
                                        ),
                                        TypeShape::Path(fsegs) => if fsegs@.len() == 0 {
                                            Option::Some(MalformedDeclaration::UnsupportedFsmType)
                                        } else {
                                            if ret_ok(sig.output) {
                                                Option::None
                                            } else {
                                                Option::Some(
                                                    MalformedDeclaration::WrongReturnType,
                                                )
                                            }
                                        },
                                    },
                                    GenericArgShape::Other => Option::Some(
                                        MalformedDeclaration::MissingGenericPair,
                                    ),
                                }
                            },
                            _ => Option::Some(MalformedDeclaration::MissingGenerics),
                        }
                    },
                },
            },
        }
    }
}

/// The declared return type is the bare identifier `BuiltFsm`.
pub open spec fn ret_ok(output: ReturnShape) -> bool {
    match output {
        ReturnShape::Unit => false,
        ReturnShape::Type(ot) => match ot {
            TypeShape::Other => false,
            TypeShape::Path(osegs) => {
                &&& osegs@.len() == 1
                &&& osegs@[0].arguments is NoArguments
                &&& osegs@[0].ident@ == "BuiltFsm"@
            },
        },
    }
}

/// What a successful check hands back, in terms of the signature it read:
/// the binding name, the context type as declared, and the machine type
/// with the generics stripped off its head segment.
pub open spec fn base_rel(sig: FnSigShape, base: FsmFnBase) -> bool {
    match sig.inputs@[0] {
        FnArgShape::Typed(pat, ty) => {
            &&& (match pat {
                PatShape::Ident(name) => base.builder_ident == name,
                PatShape::Other => false,
            })
            &&& (match ty {
                TypeShape::Path(segs) => match segs@[0].arguments {
                    PathArgumentsShape::AngleBracketed(args) => {
                        &&& (match args@[1] {
                            GenericArgShape::Type(ct) => base.context_ty == ct,
                            GenericArgShape::Other => false,
                        })
                        &&& (match args@[0] {
                            GenericArgShape::Type(fsm0) => match (fsm0, base.fsm_ty) {
                                (TypeShape::Path(fsegs), TypeShape::Path(bsegs)) => bsegs@
                                    =~= fsegs@.update(
                                    0,
                                    (PathSegmentShape {
                                        ident: fsegs@[0].ident,
                                        arguments: PathArgumentsShape::NoArguments,
                                    }),
                                ),
                                _ => false,
                            },
                            GenericArgShape::Other => false,
                        })
                    },
                    _ => false,
                },
                _ => false,
            })
        },
        FnArgShape::Receiver => false,
    }
}

/// Checks the builder function's signature and extracts the machine,
/// context and binding, exactly as `sig_err` specifies.
pub fn parse_signature(sig: FnSigShape) -> (r: Result<FsmFnBase, MalformedDeclaration>)
    ensures
        (match r {
            Result::Ok(base) => sig_err(sig) is None && base_rel(sig, base),
            Result::Err(e) => sig_err(sig) == Option::Some(e),
        }),
{
    let FnSigShape { mut inputs, output } = sig;
    if inputs.len() != 1 {
        return Result::Err(MalformedDeclaration::NotSingleInput);
    }
    let arg = inputs.remove(0);
    let (pat, ty) = match arg {
        FnArgShape::Receiver => {
            return Result::Err(MalformedDeclaration::UntypedInput);
        },
        FnArgShape::Typed(pat, ty) => (pat, ty),
    };
    let name = match pat {
        PatShape::Other => {
            return Result::Err(MalformedDeclaration::NotIdentPattern);
        },
        PatShape::Ident(name) => name,
    };
    let mut segs = match ty {
        TypeShape::Other => {
            return Result::Err(MalformedDeclaration::BuilderTypeNotPath);
        },
        TypeShape::Path(segs) => segs,
    };
    if segs.len() != 1 {
        return Result::Err(MalformedDeclaration::NotSingleSegment);
    }
    let seg = segs.remove(0);
    let mut args = match seg.arguments {
        PathArgumentsShape::AngleBracketed(args) => args,
        _ => {
            return Result::Err(MalformedDeclaration::MissingGenerics);
        },
    };
    if args.len() < 2 {
        return Result::Err(MalformedDeclaration::MissingGenericPair);
    }
    let ghost args0 = args@;
    let ctx_arg = args.remove(1);
    let fsm_arg = args.remove(0);
    let context_ty = match ctx_arg {
        GenericArgShape::Type(ct) => ct,
        GenericArgShape::Other => {
            return Result::Err(MalformedDeclaration::MissingGenericPair);
        },
    };
    let mut fsegs = match fsm_arg {
        GenericArgShape::Type(TypeShape::Path(fsegs)) => fsegs,
        GenericArgShape::Type(TypeShape::Other) => {
            return Result::Err(MalformedDeclaration::UnsupportedFsmType);
        },
        GenericArgShape::Other => {
            return Result::Err(MalformedDeclaration::MissingGenericPair);
        },
    };
    if fsegs.len() == 0 {
        return Result::Err(MalformedDeclaration::UnsupportedFsmType);
    }
    let ghost fsegs0 = fsegs@;
    let head = fsegs.remove(0);
    let stripped = PathSegmentShape {
        ident: head.ident,
        arguments: PathArgumentsShape::NoArguments,
    };
    fsegs.insert(0, stripped);
    proof {
        assert(fsegs@ =~= fsegs0.update(
            0,
            (PathSegmentShape {
                ident: fsegs0[0].ident,
                arguments: PathArgumentsShape::NoArguments,
            }),
        ));
    }
    let fsm_ty = TypeShape::Path(fsegs);
    let ret_is_ok = match &output {
        ReturnShape::Unit => false,
        ReturnShape::Type(ot) => match ot {
            TypeShape::Other => false,
            TypeShape::Path(osegs) => {
                if osegs.len() == 1 {
                    let no_args = match &osegs[0].arguments {
                        PathArgumentsShape::NoArguments => true,
                        _ => false,
                    };
                    let expected = "BuiltFsm".to_owned();
                    no_args && osegs[0].ident == expected
                } else {
                    false
                }
            },
        },
    };
    if !ret_is_ok {
        return Result::Err(MalformedDeclaration::WrongReturnType);
    }
    Result::Ok(FsmFnBase { builder_ident: name, fsm_ty, context_ty })
}

/// Errors of the whole front gate: a malformed builder declaration, or a
/// validation error in the declared machines.
#[derive(Clone, Copy, PartialEq, Eq, Structural, Debug)]
pub enum FsmBuildError {
    Malformed(MalformedDeclaration),
    Validation(FsmValidationError),
}

/// A fully parsed and validated machine definition: the builder base plus
/// the validated descriptor arena.
#[derive(Debug)]
pub struct FsmFnInput {
    pub base: FsmFnBase,
    pub fsm: Vec<ValidatedFsm>,
}

impl FsmFnInput {
    /// Checks the builder signature, then validates the declared machine
    /// arena; the whole declaration-time pipeline.
    pub fn parse(sig: FnSigShape, decls: &Vec<FsmDeclarations>) -> (r: Result<
        FsmFnInput,
        FsmBuildError,
    >)
        requires
            decls@.len() > 0,
        ensures
            (match r {
                Result::Ok(inp) => {
                    &&& sig_err(sig) is None
                    &&& base_rel(sig, inp.base)
                    &&& decls_ok(decls@)
                    &&& inp.fsm@.len() == decls@.len()
                    &&& forall|m: int|
                        0 <= m < decls@.len() ==> validated_rel(decls@, m, #[trigger] inp.fsm@[m])
                    &&& crate::runtime::arena_wf(inp.fsm@)
                },
                Result::Err(FsmBuildError::Malformed(e)) => sig_err(sig) == Option::Some(e),
                Result::Err(FsmBuildError::Validation(e)) => sig_err(sig) is None && err_holds(
                    decls@,
                    e,
                ) && !decls_ok(decls@),
            }),
    {
        let base = match parse_signature(sig) {
            Result::Ok(base) => base,
            Result::Err(e) => {
                return Result::Err(FsmBuildError::Malformed(e));
            },
        };
        match validate(decls) {
            Result::Ok(fsm) => Result::Ok(FsmFnInput { base, fsm }),
            Result::Err(e) => Result::Err(FsmBuildError::Validation(e)),
        }
    }
}

} // verus!
