use vstd::prelude::*;
use crate::bytecode::{Function, opt_string_view};
use crate::text::{push_decimal, decimal, string_of};
use crate::trace::{ReplayError, ReplayErrorV};

verus! {

/// The structured classes of verification failure.
#[derive(Clone, Copy, Debug, PartialEq, Eq, Structural)]
pub enum VerifyErrorKind {
    MalformedModule,
    UnsupportedBytecodeVersion,
    DuplicateSymbol,
    RegisterOutOfBounds,
    ConstantOutOfBounds,
    InvalidJumpTarget,
    MissingExport,
    MissingCallee,
    ArityMismatch,
    UndeclaredCapability,
    CapabilitySignatureMismatch,
    SourceMapMismatch,
    TypeMismatch,
}

pub open spec fn verify_kind_name(k: VerifyErrorKind) -> Seq<char> {
    match k {
        VerifyErrorKind::MalformedModule => "MalformedModule"@,
        VerifyErrorKind::UnsupportedBytecodeVersion => "UnsupportedBytecodeVersion"@,
        VerifyErrorKind::DuplicateSymbol => "DuplicateSymbol"@,
        VerifyErrorKind::RegisterOutOfBounds => "RegisterOutOfBounds"@,
        VerifyErrorKind::ConstantOutOfBounds => "ConstantOutOfBounds"@,
        VerifyErrorKind::InvalidJumpTarget => "InvalidJumpTarget"@,
        VerifyErrorKind::MissingExport => "MissingExport"@,
        VerifyErrorKind::MissingCallee => "MissingCallee"@,
        VerifyErrorKind::ArityMismatch => "ArityMismatch"@,
        VerifyErrorKind::UndeclaredCapability => "UndeclaredCapability"@,
        VerifyErrorKind::CapabilitySignatureMismatch => "CapabilitySignatureMismatch"@,
        VerifyErrorKind::SourceMapMismatch => "SourceMapMismatch"@,
        VerifyErrorKind::TypeMismatch => "TypeMismatch"@,
    }
}

impl VerifyErrorKind {
    /// The name of the kind.
    pub fn name(&self) -> (r: &'static str)
        ensures
            r@ == verify_kind_name(*self),
    {
        match self {
            VerifyErrorKind::MalformedModule => "MalformedModule",
            VerifyErrorKind::UnsupportedBytecodeVersion => "UnsupportedBytecodeVersion",
            VerifyErrorKind::DuplicateSymbol => "DuplicateSymbol",
            VerifyErrorKind::RegisterOutOfBounds => "RegisterOutOfBounds",
            VerifyErrorKind::ConstantOutOfBounds => "ConstantOutOfBounds",
            VerifyErrorKind::InvalidJumpTarget => "InvalidJumpTarget",
            VerifyErrorKind::MissingExport => "MissingExport",
            VerifyErrorKind::MissingCallee => "MissingCallee",
            VerifyErrorKind::ArityMismatch => "ArityMismatch",
            VerifyErrorKind::UndeclaredCapability => "UndeclaredCapability",
            VerifyErrorKind::CapabilitySignatureMismatch => "CapabilitySignatureMismatch",
            VerifyErrorKind::SourceMapMismatch => "SourceMapMismatch",
            VerifyErrorKind::TypeMismatch => "TypeMismatch",
        }
    }
}

/// A verification failure: its kind, a message, and where it was found.
#[derive(Debug)]
pub struct VerifyError {
    pub kind: VerifyErrorKind,
    pub message: String,
    pub function: Option<String>,
    pub pc: Option<usize>,
}

pub struct VerifyErrorV {
    pub kind: VerifyErrorKind,
    pub message: Seq<char>,
    pub function: Option<Seq<char>>,
    pub pc: Option<usize>,
}

impl View for VerifyError {
    type V = VerifyErrorV;

    open spec fn view(&self) -> VerifyErrorV {
        VerifyErrorV {
            kind: self.kind,
            message: self.message@,
            function: opt_string_view(self.function),
            pc: self.pc,
        }
    }
}

/// The text of a verification failure.
pub open spec fn verify_error_text(e: VerifyErrorV) -> Seq<char> {
    match (e.function, e.pc) {
        (Some(f), Some(pc)) => verify_kind_name(e.kind) + " at "@ + f + " pc="@ + decimal(pc as nat)
            + ": "@ + e.message,
        _ => verify_kind_name(e.kind) + ": "@ + e.message,
    }
}

impl VerifyError {
    /// A failure of the given kind that is not tied to an instruction.
    pub fn new(kind: VerifyErrorKind, message: &str) -> (r: Self)
        ensures
            r@ == (VerifyErrorV { kind, message: message@, function: None, pc: None }),
    {
        VerifyError { kind, message: string_of(message), function: None, pc: None }
    }

    /// The same failure, located at instruction `pc` of `function`.
    pub fn at(self, function: &Function, pc: usize) -> (r: Self)
        ensures
            r@ == (VerifyErrorV {
                kind: self.kind,
                message: self.message@,
                function: Some(function.name@),
                pc: Some(pc),
            }),
    {
        VerifyError { kind: self.kind, message: self.message, function: Some(function.name.clone()), pc: Some(pc) }
    }

    /// The text of the failure.
    pub fn to_text(&self) -> (r: String)
        ensures
            r@ == verify_error_text(self@),
    {
        let mut out = string_of(self.kind.name());
        match (&self.function, self.pc) {
            (Some(f), Some(pc)) => {
                out.append(" at ");
                out.append(f.as_str());
                out.append(" pc=");
                push_decimal(&mut out, pc);
                out.append(": ");
                out.append(self.message.as_str());
            },
            _ => {
                out.append(": ");
                out.append(self.message.as_str());
            },
        }
        out
    }
}

/// The structured classes of policy failure.
#[derive(Clone, Copy, Debug, PartialEq, Eq, Structural)]
pub enum PolicyErrorKind {
    MissingPolicy,
    DeniedCapability,
    MockTypeMismatch,
    UnknownDecision,
    UnsupportedCapabilityVersion,
}

pub open spec fn policy_kind_name(k: PolicyErrorKind) -> Seq<char> {
    match k {
        PolicyErrorKind::MissingPolicy => "MissingPolicy"@,
        PolicyErrorKind::DeniedCapability => "DeniedCapability"@,
        PolicyErrorKind::MockTypeMismatch => "MockTypeMismatch"@,
        PolicyErrorKind::UnknownDecision => "UnknownDecision"@,
        PolicyErrorKind::UnsupportedCapabilityVersion => "UnsupportedCapabilityVersion"@,
    }
}

impl PolicyErrorKind {
    /// The name of the kind.
    pub fn name(&self) -> (r: &'static str)
        ensures
            r@ == policy_kind_name(*self),
    {
        match self {
            PolicyErrorKind::MissingPolicy => "MissingPolicy",
            PolicyErrorKind::DeniedCapability => "DeniedCapability",
            PolicyErrorKind::MockTypeMismatch => "MockTypeMismatch",
            PolicyErrorKind::UnknownDecision => "UnknownDecision",
            PolicyErrorKind::UnsupportedCapabilityVersion => "UnsupportedCapabilityVersion",
        }
    }
}

/// A capability that the host policy does not allow as declared.
#[derive(Debug)]
pub struct PolicyError {
    pub kind: PolicyErrorKind,
    pub capability: String,
    pub message: String,
}

pub struct PolicyErrorV {
    pub kind: PolicyErrorKind,
    pub capability: Seq<char>,
    pub message: Seq<char>,
}

impl View for PolicyError {
    type V = PolicyErrorV;

    open spec fn view(&self) -> PolicyErrorV {
        PolicyErrorV { kind: self.kind, capability: self.capability@, message: self.message@ }
    }
}

pub open spec fn policy_error_text(e: PolicyErrorV) -> Seq<char> {
    policy_kind_name(e.kind) + " for "@ + e.capability + ": "@ + e.message
}

impl PolicyError {
    pub fn new(kind: PolicyErrorKind, capability: &str, message: &str) -> (r: Self)
        ensures
            r@ == (PolicyErrorV { kind, capability: capability@, message: message@ }),
    {
        PolicyError { kind, capability: string_of(capability), message: string_of(message) }
    }

    /// The text of the failure.
    pub fn to_text(&self) -> (r: String)
        ensures
            r@ == policy_error_text(self@),
    {
        let mut out = string_of(self.kind.name());
        out.append(" for ");
        out.append(self.capability.as_str());
        out.append(": ");
        out.append(self.message.as_str());
        out
    }
}

/// Every failure of the runtime.
#[derive(Debug)]
pub enum ChronicleError {
    Decode(String),
    Verify(VerifyError),
    Policy(PolicyError),
    Runtime(String),
    ResourceLimit(String),
    Replay(Box<ReplayError>),
}

pub enum ChronicleErrorV {
    Decode(Seq<char>),
    Verify(VerifyErrorV),
    Policy(PolicyErrorV),
    Runtime(Seq<char>),
    ResourceLimit(Seq<char>),
    Replay(ReplayErrorV),
}

impl View for ChronicleError {
    type V = ChronicleErrorV;

    open spec fn view(&self) -> ChronicleErrorV {
        match self {
            ChronicleError::Decode(s) => ChronicleErrorV::Decode(s@),
            ChronicleError::Verify(e) => ChronicleErrorV::Verify(e@),
            ChronicleError::Policy(e) => ChronicleErrorV::Policy(e@),
            ChronicleError::Runtime(s) => ChronicleErrorV::Runtime(s@),
            ChronicleError::ResourceLimit(s) => ChronicleErrorV::ResourceLimit(s@),
            ChronicleError::Replay(e) => ChronicleErrorV::Replay((**e)@),
        }
    }
}

/// The text of a failure, as traces record it.
pub open spec fn error_text(e: ChronicleErrorV) -> Seq<char> {
    match e {
        ChronicleErrorV::Decode(s) => "decode error: "@ + s,
        ChronicleErrorV::Verify(v) => "verify error: "@ + verify_error_text(v),
        ChronicleErrorV::Policy(p) => "policy error: "@ + policy_error_text(p),
        ChronicleErrorV::Runtime(s) => "runtime error: "@ + s,
        ChronicleErrorV::ResourceLimit(s) => "resource limit exceeded: "@ + s,
        ChronicleErrorV::Replay(r) => "replay error: "@ + r.message,
    }
}

impl ChronicleError {
    /// The text of the failure.
    pub fn to_text(&self) -> (r: String)
        ensures
            r@ == error_text(self@),
    {
        match self {
            ChronicleError::Decode(s) => {
                let mut out = string_of("decode error: ");
                out.append(s.as_str());
                out
            },
            ChronicleError::Verify(e) => {
                let mut out = string_of("verify error: ");
                out.append(e.to_text().as_str());
                out
            },
            ChronicleError::Policy(e) => {
                let mut out = string_of("policy error: ");
                out.append(e.to_text().as_str());
                out
            },
            ChronicleError::Runtime(s) => {
                let mut out = string_of("runtime error: ");
                out.append(s.as_str());
                out
            },
            ChronicleError::ResourceLimit(s) => {
                let mut out = string_of("resource limit exceeded: ");
                out.append(s.as_str());
                out
            },
            ChronicleError::Replay(e) => {
                let mut out = string_of("replay error: ");
                out.append(e.message.as_str());
                out
            },
        }
    }
}

} // verus!
