//! The result types of intrinsic calls and of high-level portable
//! operations, given the types of their arguments.

use vstd::prelude::*;
use crate::ty::{FloatTy, IntTy, Ty, TyKind, TyModel, UintTy, lemma_tys_model, tys_model};
use crate::generic_types::ty_list_model;

verus! {

/// The intrinsics a call can name.
#[derive(Debug, Clone, Copy, PartialEq, Eq, Structural)]
pub enum IntrinsicKind {
    Print,
    Println,
    Panic,
    Format,
    Len,
    Slice,
    DebugAssertions,
    FsExists,
    FsIsDir,
    FsIsFile,
    EnvVarExists,
    HasField,
    HasMethod,
    Input,
    FsReadToString,
    FsReadDir,
    FsWalkDir,
    FsGlob,
    EnvCurrentDir,
    EnvTempDir,
    EnvHomeDir,
    EnvVar,
    PathJoin,
    PathParent,
    PathFileName,
    PathExtension,
    PathStem,
    PathNormalize,
    IoReadStdinToString,
    YamlToJson,
    JsonParse,
    ProcMacroTokenStreamToString,
    PathIsAbsolute,
    TimeNow,
    CatchUnwind,
    CatchUnwindResult,
    Spawn,
    Select,
    Join,
    FieldNameAt,
    TypeName,
    ProcMacroTokenStreamFromStr,
    VecType,
    TypeOf,
    FieldType,
    CreateStruct,
    AddField,
    BuildType,
    PrimitiveType,
    FsWriteString,
    FsAppendString,
    FsCreateDirAll,
    FsRemoveFile,
    FsRemoveDirAll,
    IoWriteStdout,
    IoWriteStderr,
    TestCommandMockReset,
    TestCommandMockPush,
    TestCommandMockApply,
    Sleep,
    Yield,
    CompileWarning,
    CompileError,
    SizeOf,
    FieldCount,
    MethodCount,
    /// An intrinsic with no typing rule here.
    Unsupported,
}

/// Why an intrinsic call got the error type.
#[derive(Debug, Clone, Copy, PartialEq, Eq, Structural)]
pub enum IntrinsicError {
    SliceWithoutBase,
    SliceBaseNotSequence,
    CatchUnwindResultWithoutCallable,
    MissingArgument(IntrinsicKind),
    JoinWithoutArgument,
    TypeValued,
    TypeDescriptorUndeclared,
    FieldTypeDescriptorUndeclared,
    CompileErrorRequested,
    NoRule(IntrinsicKind),
    /// A portable operation has no argument at the position its result
    /// type is taken from.
    MissingOperand(usize),
    /// A portable operation's result type cannot be known here.
    NotStaticallyKnowable,
}

/// The string type targets use natively: a slice of `i8`.
pub open spec fn native_string() -> TyModel {
    TyModel::Slice(Box::new(TyModel::Int(IntTy::I8)))
}

pub open spec fn unit() -> TyModel {
    TyModel::Tuple(Seq::empty())
}

/// The result type of an intrinsic call from its argument types, or why
/// there is none. `type_descriptor` and `field_type_descriptor` are the
/// declared reflection descriptor types, when declared.
pub open spec fn intrinsic_result(
    kind: IntrinsicKind,
    args: Seq<TyModel>,
    type_descriptor: Option<TyModel>,
    field_type_descriptor: Option<TyModel>,
) -> Result<TyModel, IntrinsicError> {
    match kind {
        IntrinsicKind::SizeOf | IntrinsicKind::FieldCount | IntrinsicKind::MethodCount => Ok(TyModel::Uint(UintTy::U64)),
        IntrinsicKind::Print | IntrinsicKind::Println => Ok(unit()),
        IntrinsicKind::Panic => Ok(TyModel::Never),
        IntrinsicKind::Format => Ok(native_string()),
        IntrinsicKind::Len => Ok(TyModel::Uint(UintTy::Usize)),
        IntrinsicKind::Slice => if args.len() == 0 {
            Err(IntrinsicError::SliceWithoutBase)
        } else {
            match args[0] {
                TyModel::Array(inner, _) => Ok(TyModel::Slice(inner)),
                TyModel::Slice(inner) => Ok(TyModel::Slice(inner)),
                _ => Err(IntrinsicError::SliceBaseNotSequence),
            }
        },
        IntrinsicKind::DebugAssertions | IntrinsicKind::FsExists | IntrinsicKind::FsIsDir | IntrinsicKind::FsIsFile
        | IntrinsicKind::EnvVarExists | IntrinsicKind::HasField | IntrinsicKind::HasMethod
        | IntrinsicKind::PathIsAbsolute | IntrinsicKind::CatchUnwind => Ok(TyModel::Bool),
        IntrinsicKind::Input | IntrinsicKind::FsReadToString | IntrinsicKind::FsReadDir | IntrinsicKind::FsWalkDir
        | IntrinsicKind::FsGlob | IntrinsicKind::EnvCurrentDir | IntrinsicKind::EnvTempDir
        | IntrinsicKind::EnvHomeDir | IntrinsicKind::EnvVar | IntrinsicKind::PathJoin | IntrinsicKind::PathParent
        | IntrinsicKind::PathFileName | IntrinsicKind::PathExtension | IntrinsicKind::PathStem
        | IntrinsicKind::PathNormalize | IntrinsicKind::IoReadStdinToString | IntrinsicKind::YamlToJson
        | IntrinsicKind::JsonParse | IntrinsicKind::ProcMacroTokenStreamToString | IntrinsicKind::FieldNameAt
        | IntrinsicKind::TypeName | IntrinsicKind::ProcMacroTokenStreamFromStr => Ok(native_string()),
        IntrinsicKind::TimeNow => Ok(TyModel::Float(FloatTy::F64)),
        IntrinsicKind::CatchUnwindResult => if args.len() == 0 {
            Err(IntrinsicError::CatchUnwindResultWithoutCallable)
        } else {
            Ok(TyModel::Tuple(seq![TyModel::Bool, args[0]]))
        },
        IntrinsicKind::Spawn | IntrinsicKind::Select => if args.len() == 0 {
            Err(IntrinsicError::MissingArgument(kind))
        } else {
            Ok(args[0])
        },
        IntrinsicKind::Join => if args.len() == 1 {
            Ok(args[0])
        } else if args.len() == 0 {
            Err(IntrinsicError::JoinWithoutArgument)
        } else {
            Ok(TyModel::Tuple(args))
        },
        IntrinsicKind::VecType => Err(IntrinsicError::TypeValued),
        IntrinsicKind::TypeOf => match type_descriptor {
            Some(t) => Ok(t),
            None => Err(IntrinsicError::TypeDescriptorUndeclared),
        },
        IntrinsicKind::FieldType => match field_type_descriptor {
            Some(t) => Ok(t),
            None => Err(IntrinsicError::FieldTypeDescriptorUndeclared),
        },
        IntrinsicKind::CreateStruct | IntrinsicKind::AddField | IntrinsicKind::BuildType
        | IntrinsicKind::PrimitiveType => Ok(TyModel::Type),
        IntrinsicKind::FsWriteString | IntrinsicKind::FsAppendString | IntrinsicKind::FsCreateDirAll
        | IntrinsicKind::FsRemoveFile | IntrinsicKind::FsRemoveDirAll | IntrinsicKind::IoWriteStdout
        | IntrinsicKind::IoWriteStderr | IntrinsicKind::TestCommandMockReset | IntrinsicKind::TestCommandMockPush
        | IntrinsicKind::TestCommandMockApply | IntrinsicKind::Sleep | IntrinsicKind::Yield
        | IntrinsicKind::CompileWarning => Ok(unit()),
        IntrinsicKind::CompileError => Err(IntrinsicError::CompileErrorRequested),
        IntrinsicKind::Unsupported => Err(IntrinsicError::NoRule(kind)),
    }
}

/// What a failed rule gives: the error type.
pub open spec fn result_or_error(r: Result<TyModel, IntrinsicError>) -> TyModel {
    match r {
        Ok(t) => t,
        Err(_) => TyModel::Error,
    }
}

fn native_string_ty() -> (t: Ty)
    ensures
        t.model() == native_string(),
{
    let inner = Ty::integer(IntTy::I8);
    assert(inner.model() == TyModel::Int(IntTy::I8));
    Ty { kind: TyKind::Slice(Box::new(inner)) }
}

fn unit_type() -> (t: Ty)
    ensures
        t.model() == unit(),
{
    let t = Ty { kind: TyKind::Tuple(Vec::new()) };
    assert(tys_model(Seq::<Box<Ty>>::empty()) =~= Seq::<TyModel>::empty());
    t
}

fn fail(e: IntrinsicError, diags: &mut Vec<IntrinsicError>) -> (t: Ty)
    ensures
        t.model() == TyModel::Error,
        final(diags)@ == old(diags)@.push(e),
{
    diags.push(e);
    Ty::error()
}

/// The type of an intrinsic call whose arguments have the types
/// `arg_types`; see `intrinsic_result`. Where the rule fails, the reason
/// is recorded in `diags` and the call gets the error type.
pub fn intrinsic_result_ty(
    kind: IntrinsicKind,
    arg_types: &[Ty],
    type_descriptor: Option<&Ty>,
    field_type_descriptor: Option<&Ty>,
    diags: &mut Vec<IntrinsicError>,
) -> (t: Ty)
    ensures
        ({
            let r = intrinsic_result(
                kind,
                ty_list_model(arg_types@),
                match type_descriptor { Some(t) => Some(t.model()), None => None },
                match field_type_descriptor { Some(t) => Some(t.model()), None => None },
            );
            &&& t.model() == result_or_error(r)
            &&& final(diags)@ == match r {
                Ok(_) => old(diags)@,
                Err(e) => old(diags)@.push(e),
            }
        }),
{
    let ghost args = ty_list_model(arg_types@);
    match kind {
        IntrinsicKind::SizeOf | IntrinsicKind::FieldCount | IntrinsicKind::MethodCount => Ty::uint(UintTy::U64),
        IntrinsicKind::Print | IntrinsicKind::Println => unit_type(),
        IntrinsicKind::Panic => Ty::never(),
        IntrinsicKind::Format => native_string_ty(),
        IntrinsicKind::Len => Ty::uint(UintTy::Usize),
        IntrinsicKind::Slice => {
            if arg_types.len() == 0 {
                fail(IntrinsicError::SliceWithoutBase, diags)
            } else {
                assert(args[0] == arg_types@[0].model());
                match &arg_types[0].kind {
                    TyKind::Array(inner, _) => Ty { kind: TyKind::Slice(Box::new(inner.duplicate())) },
                    TyKind::Slice(inner) => Ty { kind: TyKind::Slice(Box::new(inner.duplicate())) },
                    _ => fail(IntrinsicError::SliceBaseNotSequence, diags),
                }
            }
        },
        IntrinsicKind::DebugAssertions | IntrinsicKind::FsExists | IntrinsicKind::FsIsDir | IntrinsicKind::FsIsFile
        | IntrinsicKind::EnvVarExists | IntrinsicKind::HasField | IntrinsicKind::HasMethod
        | IntrinsicKind::PathIsAbsolute | IntrinsicKind::CatchUnwind => Ty::bool(),
        IntrinsicKind::Input | IntrinsicKind::FsReadToString | IntrinsicKind::FsReadDir | IntrinsicKind::FsWalkDir
        | IntrinsicKind::FsGlob | IntrinsicKind::EnvCurrentDir | IntrinsicKind::EnvTempDir
        | IntrinsicKind::EnvHomeDir | IntrinsicKind::EnvVar | IntrinsicKind::PathJoin | IntrinsicKind::PathParent
        | IntrinsicKind::PathFileName | IntrinsicKind::PathExtension | IntrinsicKind::PathStem
        | IntrinsicKind::PathNormalize | IntrinsicKind::IoReadStdinToString | IntrinsicKind::YamlToJson
        | IntrinsicKind::JsonParse | IntrinsicKind::ProcMacroTokenStreamToString | IntrinsicKind::FieldNameAt
        | IntrinsicKind::TypeName | IntrinsicKind::ProcMacroTokenStreamFromStr => native_string_ty(),
        IntrinsicKind::TimeNow => Ty::float(FloatTy::F64),
        IntrinsicKind::CatchUnwindResult => {
            if arg_types.len() == 0 {
                fail(IntrinsicError::CatchUnwindResultWithoutCallable, diags)
            } else {
                let mut fields: Vec<Box<Ty>> = Vec::new();
                fields.push(Box::new(Ty::bool()));
                fields.push(Box::new(arg_types[0].duplicate()));
                proof {
                    lemma_tys_model(fields@);
                    assert(tys_model(fields@) =~= seq![TyModel::Bool, args[0]]);
                }
                Ty { kind: TyKind::Tuple(fields) }
            }
        },
        IntrinsicKind::Spawn | IntrinsicKind::Select => {
            if arg_types.len() == 0 {
                fail(IntrinsicError::MissingArgument(kind), diags)
            } else {
                arg_types[0].duplicate()
            }
        },
        IntrinsicKind::Join => {
            if arg_types.len() == 1 {
                arg_types[0].duplicate()
            } else if arg_types.len() == 0 {
                fail(IntrinsicError::JoinWithoutArgument, diags)
            } else {
                let mut fields: Vec<Box<Ty>> = Vec::new();
                let mut i: usize = 0;
                while i < arg_types.len()
                    invariant
                        i <= arg_types@.len(),
                        args == ty_list_model(arg_types@),
                        tys_model(fields@) == args.take(i as int),
                    decreases arg_types@.len() - i,
                {
                    let ghost old_fields = fields@;
                    fields.push(Box::new(arg_types[i].duplicate()));
                    proof {
                        assert(fields@.drop_last() == old_fields);
                        assert(args.take(i + 1) =~= args.take(i as int).push(args[i as int]));
                    }
                    i += 1;
                }
                assert(args.take(arg_types@.len() as int) =~= args);
                Ty { kind: TyKind::Tuple(fields) }
            }
        },
        IntrinsicKind::VecType => fail(IntrinsicError::TypeValued, diags),
        IntrinsicKind::TypeOf => match type_descriptor {
            Some(t) => t.duplicate(),
            None => fail(IntrinsicError::TypeDescriptorUndeclared, diags),
        },
        IntrinsicKind::FieldType => match field_type_descriptor {
            Some(t) => t.duplicate(),
            None => fail(IntrinsicError::FieldTypeDescriptorUndeclared, diags),
        },
        IntrinsicKind::CreateStruct | IntrinsicKind::AddField | IntrinsicKind::BuildType
        | IntrinsicKind::PrimitiveType => Ty { kind: TyKind::Type },
        IntrinsicKind::FsWriteString | IntrinsicKind::FsAppendString | IntrinsicKind::FsCreateDirAll
        | IntrinsicKind::FsRemoveFile | IntrinsicKind::FsRemoveDirAll | IntrinsicKind::IoWriteStdout
        | IntrinsicKind::IoWriteStderr | IntrinsicKind::TestCommandMockReset | IntrinsicKind::TestCommandMockPush
        | IntrinsicKind::TestCommandMockApply | IntrinsicKind::Sleep | IntrinsicKind::Yield
        | IntrinsicKind::CompileWarning => unit_type(),
        IntrinsicKind::CompileError => fail(IntrinsicError::CompileErrorRequested, diags),
        IntrinsicKind::Unsupported => fail(IntrinsicError::NoRule(kind), diags),
    }
}

/// How a portable operation's result type follows from its arguments.
#[derive(Debug, Clone, Copy, PartialEq, Eq, Structural)]
pub enum ResultTypeRule {
    /// The type of the argument at this position.
    SameAsArg(usize),
    AlwaysBool,
    TargetNativeString,
    Never,
    NotStaticallyKnowable,
}

/// The result type of a portable operation under its rule.
pub open spec fn op_result(rule: ResultTypeRule, args: Seq<TyModel>) -> Result<TyModel, IntrinsicError> {
    match rule {
        ResultTypeRule::SameAsArg(index) => if (index as int) < args.len() {
            Ok(args[index as int])
        } else {
            Err(IntrinsicError::MissingOperand(index))
        },
        ResultTypeRule::AlwaysBool => Ok(TyModel::Bool),
        ResultTypeRule::TargetNativeString => Ok(native_string()),
        ResultTypeRule::Never => Ok(TyModel::Never),
        ResultTypeRule::NotStaticallyKnowable => Err(IntrinsicError::NotStaticallyKnowable),
    }
}

/// The type of a portable operation's call whose arguments have the types
/// `arg_types`; see `op_result`. Where the rule fails, the reason is
/// recorded in `diags` and the call gets the error type.
pub fn high_level_op_result_ty(rule: ResultTypeRule, arg_types: &[Ty], diags: &mut Vec<IntrinsicError>) -> (t: Ty)
    ensures
        t.model() == result_or_error(op_result(rule, ty_list_model(arg_types@))),
        final(diags)@ == match op_result(rule, ty_list_model(arg_types@)) {
            Ok(_) => old(diags)@,
            Err(e) => old(diags)@.push(e),
        },
{
    match rule {
        ResultTypeRule::SameAsArg(index) => {
            if index < arg_types.len() {
                arg_types[index].duplicate()
            } else {
                fail(IntrinsicError::MissingOperand(index), diags)
            }
        },
        ResultTypeRule::AlwaysBool => Ty::bool(),
        ResultTypeRule::TargetNativeString => native_string_ty(),
        ResultTypeRule::Never => Ty::never(),
        ResultTypeRule::NotStaticallyKnowable => fail(IntrinsicError::NotStaticallyKnowable, diags),
    }
}

} // verus!
