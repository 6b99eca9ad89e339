use vstd::prelude::*;
use crate::bytecode::{
    CapabilityDecl, CapabilityDeclV, Function, FunctionV, Instruction, InstructionV, Module, ModuleV, functions_view,
    builtin_sig, builtin_signature, find_function, is_variadic, lemma_find_function,
};
use crate::error::{ChronicleError, ChronicleErrorV, VerifyError, VerifyErrorKind, VerifyErrorV};
use crate::text::{concat2, contains_char, decimal, push_decimal, string_of};
use crate::value::{Value, ValueType, ValueV, value_type_of, accepts_type, lemma_values_view, values_view};

verus! {

/// The name of a value type, as failure messages spell it.
pub open spec fn value_type_name(t: ValueType) -> Seq<char> {
    match t {
        ValueType::Nil => "Nil"@,
        ValueType::Bool => "Bool"@,
        ValueType::I64 => "I64"@,
        ValueType::F64 => "F64"@,
        ValueType::String => "String"@,
        ValueType::Array => "Array"@,
        ValueType::Function => "Function"@,
        ValueType::Capability => "Capability"@,
        ValueType::Any => "Any"@,
        ValueType::AnyVariadic => "AnyVariadic"@,
    }
}

pub fn value_type_name_str(t: ValueType) -> (r: &'static str)
    ensures
        r@ == value_type_name(t),
{
    match t {
        ValueType::Nil => "Nil",
        ValueType::Bool => "Bool",
        ValueType::I64 => "I64",
        ValueType::F64 => "F64",
        ValueType::String => "String",
        ValueType::Array => "Array",
        ValueType::Function => "Function",
        ValueType::Capability => "Capability",
        ValueType::Any => "Any",
        ValueType::AnyVariadic => "AnyVariadic",
    }
}

pub open spec fn plain(kind: VerifyErrorKind, message: Seq<char>) -> VerifyErrorV {
    VerifyErrorV { kind, message, function: None, pc: None }
}

pub open spec fn located(kind: VerifyErrorKind, message: Seq<char>, f: FunctionV, pc: int) -> VerifyErrorV {
    VerifyErrorV { kind, message, function: Some(f.name), pc: Some(pc as usize) }
}

// ---------------------------------------------------------------------------------------
// Capability declarations

/// Whether a variadic marker occurs before the final parameter.
pub open spec fn early_variadic(params: Seq<ValueType>) -> bool {
    exists|i: int| 0 <= i < params.len() - 1 && params[i] == ValueType::AnyVariadic
}

/// The checks on one capability declaration, in order.
pub open spec fn check_decl(d: CapabilityDeclV) -> Result<(), VerifyErrorV> {
    if d.id.len() == 0 || !d.id.contains('@') {
        Err(plain(
            VerifyErrorKind::CapabilitySignatureMismatch,
            "capability "@ + d.id + " must include a version suffix like @1"@,
        ))
    } else if early_variadic(d.params) {
        Err(plain(
            VerifyErrorKind::CapabilitySignatureMismatch,
            "capability "@ + d.id + " has variadic marker before final parameter"@,
        ))
    } else {
        match builtin_sig(d.id) {
            Some(expected) => if expected.params != d.params || expected.return_type != d.return_type {
                Err(plain(
                    VerifyErrorKind::CapabilitySignatureMismatch,
                    "capability "@ + d.id + " does not match built-in signature"@,
                ))
            } else {
                Ok(())
            },
            None => Ok(()),
        }
    }
}

/// Whether some declaration before position `n` has the id `id`.
pub open spec fn cap_id_before(caps: Seq<CapabilityDeclV>, n: int, id: Seq<char>) -> bool {
    exists|j: int| 0 <= j < n && #[trigger] caps[j].id == id
}

/// The capability checks over the first `n` declarations; the first failure wins.
pub open spec fn check_caps(caps: Seq<CapabilityDeclV>, n: int) -> Result<(), VerifyErrorV>
    decreases n,
{
    if n <= 0 {
        Ok(())
    } else {
        match check_caps(caps, n - 1) {
            Err(e) => Err(e),
            Ok(()) => if cap_id_before(caps, n - 1, caps[n - 1].id) {
                Err(plain(VerifyErrorKind::DuplicateSymbol, "duplicate capability "@ + caps[n - 1].id))
            } else {
                check_decl(caps[n - 1])
            },
        }
    }
}

pub open spec fn fn_name_before(fs: Seq<FunctionV>, n: int, name: Seq<char>) -> bool {
    exists|j: int| 0 <= j < n && #[trigger] fs[j].name == name
}

pub open spec fn check_fn_names(fs: Seq<FunctionV>, n: int) -> Result<(), VerifyErrorV>
    decreases n,
{
    if n <= 0 {
        Ok(())
    } else {
        match check_fn_names(fs, n - 1) {
            Err(e) => Err(e),
            Ok(()) => if fn_name_before(fs, n - 1, fs[n - 1].name) {
                Err(plain(VerifyErrorKind::DuplicateSymbol, "duplicate function "@ + fs[n - 1].name))
            } else {
                Ok(())
            },
        }
    }
}

pub open spec fn check_exports(m: ModuleV, n: int) -> Result<(), VerifyErrorV>
    decreases n,
{
    if n <= 0 {
        Ok(())
    } else {
        match check_exports(m, n - 1) {
            Err(e) => Err(e),
            Ok(()) => if m.exports[n - 1].1 >= m.functions.len() {
                Err(plain(
                    VerifyErrorKind::MissingExport,
                    "export "@ + m.exports[n - 1].0 + " points to missing function "@ + decimal(
                        m.exports[n - 1].1 as nat,
                    ),
                ))
            } else {
                Ok(())
            },
        }
    }
}

// ---------------------------------------------------------------------------------------
// Instructions

pub type RegTypes = Seq<Option<ValueType>>;

pub open spec fn reg_error(f: FunctionV, pc: int, r: usize) -> VerifyErrorV {
    located(VerifyErrorKind::RegisterOutOfBounds, "register r"@ + decimal(r as nat) + " out of bounds"@, f, pc)
}

/// The first register of `regs` that is out of bounds for `f`.
pub open spec fn first_bad_reg(f: FunctionV, regs: Seq<usize>) -> Option<usize>
    decreases regs.len(),
{
    if regs.len() == 0 {
        None
    } else {
        match first_bad_reg(f, regs.drop_last()) {
            Some(r) => Some(r),
            None => if regs.last() >= f.registers {
                Some(regs.last())
            } else {
                None
            },
        }
    }
}

/// Checks registers in order.
pub open spec fn check_regs(f: FunctionV, pc: int, regs: Seq<usize>) -> Result<(), VerifyErrorV> {
    match first_bad_reg(f, regs) {
        Some(r) => Err(reg_error(f, pc, r)),
        None => Ok(()),
    }
}

/// The index of the first declaration with the given id.
pub open spec fn find_decl(caps: Seq<CapabilityDeclV>, id: Seq<char>) -> Option<int>
    decreases caps.len(),
{
    if caps.len() == 0 {
        None
    } else {
        match find_decl(caps.drop_last(), id) {
            Some(i) => Some(i),
            None => if caps.last().id == id {
                Some(caps.len() - 1)
            } else {
                None
            },
        }
    }
}

/// The number of arguments that are not covered by a variadic marker.
pub open spec fn fixed_params(d: CapabilityDeclV) -> int {
    if is_variadic(d) {
        d.params.len() - 1
    } else {
        d.params.len() as int
    }
}

/// The type expected of argument `index`.
pub open spec fn expected_param(d: CapabilityDeclV, index: int) -> ValueType {
    if index < d.params.len() {
        d.params[index]
    } else if d.params.len() > 0 {
        d.params.last()
    } else {
        ValueType::Any
    }
}

/// The first argument whose statically known type the declaration does not accept.
pub open spec fn first_type_mismatch(d: CapabilityDeclV, args: Seq<usize>, types: RegTypes) -> Option<int>
    decreases args.len(),
{
    if args.len() == 0 {
        None
    } else {
        match first_type_mismatch(d, args.drop_last(), types) {
            Some(i) => Some(i),
            None => {
                let i = args.len() - 1;
                match types[args[i] as int] {
                    Some(actual) => if !accepts_type(expected_param(d, i), actual) {
                        Some(i)
                    } else {
                        None
                    },
                    None => None,
                }
            },
        }
    }
}

pub open spec fn check_cap_args(f: FunctionV, pc: int, d: CapabilityDeclV, args: Seq<usize>, types: RegTypes) -> Result<(), VerifyErrorV> {
    let fixed = fixed_params(d);
    let arity_ok = if is_variadic(d) {
        args.len() >= fixed
    } else {
        args.len() == fixed
    };
    if !arity_ok {
        Err(located(
            VerifyErrorKind::ArityMismatch,
            "capability "@ + d.id + " expects "@ + decimal(fixed as nat) + (if is_variadic(d) {
                "+"@
            } else {
                ""@
            }) + " args, got "@ + decimal(args.len()),
            f,
            pc,
        ))
    } else {
        match first_type_mismatch(d, args, types) {
            Some(i) => {
                let actual = types[args[i] as int]->Some_0;
                Err(located(
                    VerifyErrorKind::TypeMismatch,
                    "capability "@ + d.id + " arg "@ + decimal(i as nat) + " expects "@
                        + value_type_name(expected_param(d, i)) + ", got "@ + value_type_name(actual),
                    f,
                    pc,
                ))
            },
            None => Ok(()),
        }
    }
}

/// The checks on one instruction and the register types it leaves.
pub open spec fn check_instr(m: ModuleV, f: FunctionV, pc: int, ins: InstructionV, types: RegTypes) -> Result<RegTypes, VerifyErrorV> {
    match ins {
        InstructionV::Const { dst, constant } => match check_regs(f, pc, seq![dst]) {
            Err(e) => Err(e),
            Ok(()) => if constant >= m.constants.len() {
                Err(located(
                    VerifyErrorKind::ConstantOutOfBounds,
                    "constant "@ + decimal(constant as nat) + " out of bounds"@,
                    f,
                    pc,
                ))
            } else {
                Ok(types.update(dst as int, Some(value_type_of(m.constants[constant as int]))))
            },
        },
        InstructionV::Move { dst, src } => match check_regs(f, pc, seq![dst, src]) {
            Err(e) => Err(e),
            Ok(()) => Ok(types.update(dst as int, types[src as int])),
        },
        InstructionV::Add { dst, lhs, rhs } | InstructionV::Sub { dst, lhs, rhs } | InstructionV::Mul {
            dst,
            lhs,
            rhs,
        } | InstructionV::Div { dst, lhs, rhs } => match check_regs(f, pc, seq![dst, lhs, rhs]) {
            Err(e) => Err(e),
            Ok(()) => Ok(types.update(dst as int, Some(ValueType::I64))),
        },
        InstructionV::Eq { dst, lhs, rhs } | InstructionV::Lt { dst, lhs, rhs } => match check_regs(
            f,
            pc,
            seq![dst, lhs, rhs],
        ) {
            Err(e) => Err(e),
            Ok(()) => Ok(types.update(dst as int, Some(ValueType::Bool))),
        },
        InstructionV::Jump { target } => if target >= f.code.len() {
            Err(located(
                VerifyErrorKind::InvalidJumpTarget,
                "jump target "@ + decimal(target as nat) + " out of bounds"@,
                f,
                pc,
            ))
        } else {
            Ok(types)
        },
        InstructionV::JumpIf { cond, target } => match check_regs(f, pc, seq![cond]) {
            Err(e) => Err(e),
            Ok(()) => if target >= f.code.len() {
                Err(located(
                    VerifyErrorKind::InvalidJumpTarget,
                    "jump target "@ + decimal(target as nat) + " out of bounds"@,
                    f,
                    pc,
                ))
            } else {
                Ok(types)
            },
        },
        InstructionV::Call { dst, function, args } => match check_regs(f, pc, seq![dst] + args) {
            Err(e) => Err(e),
            Ok(()) => match find_function(m.functions, function) {
                None => Err(located(VerifyErrorKind::MissingCallee, "missing callee "@ + function, f, pc)),
                Some(ci) => if m.functions[ci].arity != args.len() {
                    Err(located(
                        VerifyErrorKind::ArityMismatch,
                        "callee "@ + function + " expects "@ + decimal(m.functions[ci].arity as nat)
                            + " args, got "@ + decimal(args.len()),
                        f,
                        pc,
                    ))
                } else {
                    Ok(types.update(dst as int, None))
                },
            },
        },
        InstructionV::Ret { src } => match check_regs(f, pc, seq![src]) {
            Err(e) => Err(e),
            Ok(()) => Ok(types),
        },
        InstructionV::CapCall { dst, capability, args } => match check_regs(f, pc, seq![dst] + args) {
            Err(e) => Err(e),
            Ok(()) => match find_decl(m.capabilities, capability) {
                None => Err(located(
                    VerifyErrorKind::UndeclaredCapability,
                    "capability "@ + capability + " was not declared"@,
                    f,
                    pc,
                )),
                Some(di) => match check_cap_args(f, pc, m.capabilities[di], args, types) {
                    Err(e) => Err(e),
                    Ok(()) => Ok(types.update(dst as int, Some(m.capabilities[di].return_type))),
                },
            },
        },
        InstructionV::ArrayNew { dst, items } => match check_regs(f, pc, seq![dst] + items) {
            Err(e) => Err(e),
            Ok(()) => Ok(types.update(dst as int, Some(ValueType::Array))),
        },
        InstructionV::ArrayGet { dst, array, index } => match check_regs(f, pc, seq![dst, array, index]) {
            Err(e) => Err(e),
            Ok(()) => Ok(types.update(dst as int, None)),
        },
        InstructionV::ArraySet { array, index, value } => match check_regs(
            f,
            pc,
            seq![array, index, value],
        ) {
            Err(e) => Err(e),
            Ok(()) => Ok(types),
        },
    }
}

/// The register types after checking the first `n` instructions of `f`.
pub open spec fn check_code(m: ModuleV, f: FunctionV, n: int) -> Result<RegTypes, VerifyErrorV>
    decreases n,
{
    if n <= 0 {
        Ok(Seq::new(f.registers as nat, |i: int| None))
    } else {
        match check_code(m, f, n - 1) {
            Err(e) => Err(e),
            Ok(types) => check_instr(m, f, n - 1, f.code[n - 1], types),
        }
    }
}

/// The checks on one function, in order.
pub open spec fn check_function(m: ModuleV, f: FunctionV) -> Result<(), VerifyErrorV> {
    if f.registers == 0 {
        Err(plain(
            VerifyErrorKind::MalformedModule,
            "function "@ + f.name + " must have at least one register"@,
        ))
    } else if f.arity > f.registers {
        Err(plain(VerifyErrorKind::ArityMismatch, "function "@ + f.name + " arity exceeds register count"@))
    } else if f.source_lines.len() != 0 && f.source_lines.len() != f.code.len() {
        Err(plain(
            VerifyErrorKind::SourceMapMismatch,
            "function "@ + f.name + " source line map length does not match code length"@,
        ))
    } else {
        match check_code(m, f, f.code.len() as int) {
            Err(e) => Err(e),
            Ok(_) => Ok(()),
        }
    }
}

pub open spec fn check_functions(m: ModuleV, n: int) -> Result<(), VerifyErrorV>
    decreases n,
{
    if n <= 0 {
        Ok(())
    } else {
        match check_functions(m, n - 1) {
            Err(e) => Err(e),
            Ok(()) => check_function(m, m.functions[n - 1]),
        }
    }
}

/// The verdict of the verifier on a module: the first failed check, in the order the checks
/// run, or success.
pub open spec fn verify_module(m: ModuleV) -> Result<(), VerifyErrorV> {
    match check_caps(m.capabilities, m.capabilities.len() as int) {
        Err(e) => Err(e),
        Ok(()) => match check_fn_names(m.functions, m.functions.len() as int) {
            Err(e) => Err(e),
            Ok(()) => match check_exports(m, m.exports.len() as int) {
                Err(e) => Err(e),
                Ok(()) => check_functions(m, m.functions.len() as int),
            },
        },
    }
}

} // verus!

verus! {

pub open spec fn verify_failure(r: Result<(), ChronicleError>, expected: Result<(), VerifyErrorV>) -> bool {
    match expected {
        Ok(()) => r is Ok,
        Err(e) => r matches Err(x) && x@ == ChronicleErrorV::Verify(e),
    }
}

fn fail(kind: VerifyErrorKind, message: String) -> (r: Result<(), ChronicleError>)
    ensures
        r matches Err(x) && x@ == ChronicleErrorV::Verify(plain(kind, message@)),
{
    Err(ChronicleError::Verify(VerifyError { kind, message, function: None, pc: None }))
}

fn fail_at(kind: VerifyErrorKind, message: String, f: &Function, pc: usize) -> (r: Result<(), ChronicleError>)
    ensures
        r matches Err(x) && x@ == ChronicleErrorV::Verify(located(kind, message@, f@, pc as int)),
{
    Err(ChronicleError::Verify(VerifyError { kind, message, function: Some(f.name.clone()), pc: Some(pc) }))
}

fn msg3(a: &str, b: &str, c: &str) -> (r: String)
    ensures
        r@ == a@ + b@ + c@,
{
    let mut out = string_of(a);
    out.append(b);
    out.append(c);
    out
}

fn msg_num(a: &str, n: usize, c: &str) -> (r: String)
    ensures
        r@ == a@ + decimal(n as nat) + c@,
{
    let mut out = string_of(a);
    push_decimal(&mut out, n);
    out.append(c);
    out
}

/// Checks one capability declaration: versioned id, variadic marker only in final position,
/// and agreement with the built-in signature of the same id.
pub fn validate_capability_decl(decl: &CapabilityDecl) -> (r: Result<(), ChronicleError>)
    ensures
        verify_failure(r, check_decl(decl@)),
{
    if decl.id.as_str().is_empty() || !contains_char(decl.id.as_str(), '@') {
        return fail(
            VerifyErrorKind::CapabilitySignatureMismatch,
            msg3("capability ", decl.id.as_str(), " must include a version suffix like @1"),
        );
    }
    let n = decl.params.len();
    let last = if n > 0 { n - 1 } else { 0 };
    let mut i: usize = 0;
    while i < last
        invariant
            n == decl.params.len(),
            last == if n > 0 { n - 1 } else { 0 },
            i <= last,
            decl.id@.len() != 0,
            decl.id@.contains('@'),
            forall|j: int| 0 <= j < i ==> decl.params@[j] != ValueType::AnyVariadic,
        decreases last - i,
    {
        if decl.params[i] == ValueType::AnyVariadic {
            assert(early_variadic(decl@.params));
            return fail(
                VerifyErrorKind::CapabilitySignatureMismatch,
                msg3("capability ", decl.id.as_str(), " has variadic marker before final parameter"),
            );
        }
        i = i + 1;
    }
    assert(!early_variadic(decl@.params));
    match builtin_signature(decl.id.as_str()) {
        Some(expected) => {
            let mut same = expected.params.len() == decl.params.len();
            let mut k: usize = 0;
            while same && k < decl.params.len()
                invariant
                    same ==> expected.params.len() == decl.params.len(),
                    same ==> forall|j: int| 0 <= j < k ==> expected.params@[j] == decl.params@[j],
                    !same ==> expected.params@ != decl.params@,
                decreases decl.params.len() - k,
            {
                if expected.params[k] != decl.params[k] {
                    same = false;
                }
                k = k + 1;
            }
            if same {
                assert(expected.params@ =~= decl.params@);
            }
            if !same || expected.return_type != decl.return_type {
                return fail(
                    VerifyErrorKind::CapabilitySignatureMismatch,
                    msg3("capability ", decl.id.as_str(), " does not match built-in signature"),
                );
            }
            Ok(())
        },
        None => Ok(()),
    }
}

pub proof fn lemma_first_bad_reg_concat(f: FunctionV, a: Seq<usize>, b: Seq<usize>)
    ensures
        first_bad_reg(f, a + b) == (match first_bad_reg(f, a) {
            Some(r) => Some(r),
            None => first_bad_reg(f, b),
        }),
    decreases b.len(),
{
    if b.len() == 0 {
        assert(a + b =~= a);
    } else {
        lemma_first_bad_reg_concat(f, a, b.drop_last());
        assert((a + b).drop_last() =~= a + b.drop_last());
    }
}

/// Checks that each register of `regs`, in order, is within the register file of `f`.
fn check_registers(f: &Function, pc: usize, regs: &Vec<usize>) -> (r: Result<(), ChronicleError>)
    ensures
        verify_failure(r, check_regs(f@, pc as int, regs@)),
        r is Ok ==> forall|i: int| 0 <= i < regs.len() ==> #[trigger] regs@[i] < f.registers,
{
    let mut i: usize = 0;
    while i < regs.len()
        invariant
            i <= regs.len(),
            first_bad_reg(f@, regs@.subrange(0, i as int)) is None,
        decreases regs.len() - i,
    {
        assert(regs@.subrange(0, i + 1).drop_last() =~= regs@.subrange(0, i as int));
        if regs[i] >= f.registers {
            assert(first_bad_reg(f@, regs@.subrange(0, i + 1)) == Some(regs@[i as int]));
            assert(regs@.subrange(0, regs.len() as int) =~= regs@);
            let rr = regs[i];
            proof {
                lemma_first_bad_reg_concat(f@, regs@.subrange(0, i + 1), regs@.subrange(i + 1, regs.len() as int));
                assert(regs@.subrange(0, i + 1) + regs@.subrange(i + 1, regs.len() as int) =~= regs@);
            }
            return fail_at(
                VerifyErrorKind::RegisterOutOfBounds,
                msg_num("register r", rr, " out of bounds"),
                f,
                pc,
            );
        }
        i = i + 1;
    }
    assert(regs@.subrange(0, i as int) =~= regs@);
    proof {
        lemma_no_bad_reg(f@, regs@);
    }
    Ok(())
}

fn v1(a: usize) -> (r: Vec<usize>)
    ensures
        r@ == seq![a],
{
    let mut r = Vec::new();
    r.push(a);
    assert(r@ =~= seq![a]);
    r
}

fn v2(a: usize, b: usize) -> (r: Vec<usize>)
    ensures
        r@ == seq![a, b],
{
    let mut r = Vec::new();
    r.push(a);
    r.push(b);
    assert(r@ =~= seq![a, b]);
    r
}

fn v3(a: usize, b: usize, c: usize) -> (r: Vec<usize>)
    ensures
        r@ == seq![a, b, c],
{
    let mut r = Vec::new();
    r.push(a);
    r.push(b);
    r.push(c);
    assert(r@ =~= seq![a, b, c]);
    r
}

fn with_first(first: usize, rest: &Vec<usize>) -> (r: Vec<usize>)
    ensures
        r@ == seq![first] + rest@,
{
    let mut r: Vec<usize> = Vec::new();
    r.push(first);
    let mut i: usize = 0;
    while i < rest.len()
        invariant
            i <= rest.len(),
            r@ == seq![first] + rest@.subrange(0, i as int),
        decreases rest.len() - i,
    {
        r.push(rest[i]);
        i = i + 1;
        assert(r@ =~= seq![first] + rest@.subrange(0, i as int));
    }
    assert(rest@.subrange(0, i as int) =~= rest@);
    r
}

pub proof fn lemma_find_decl(caps: Seq<CapabilityDeclV>, id: Seq<char>)
    ensures
        match find_decl(caps, id) {
            Some(i) => 0 <= i < caps.len() && caps[i].id == id && forall|j: int|
                0 <= j < i ==> #[trigger] caps[j].id != id,
            None => forall|j: int| 0 <= j < caps.len() ==> #[trigger] caps[j].id != id,
        },
    decreases caps.len(),
{
    if caps.len() > 0 {
        lemma_find_decl(caps.drop_last(), id);
        assert forall|j: int| 0 <= j < caps.len() - 1 implies #[trigger] caps[j] == caps.drop_last()[j] by {}
    }
}

fn find_decl_exec(caps: &Vec<CapabilityDecl>, id: &str) -> (r: Option<usize>)
    ensures
        r == (match find_decl(capabilities_view_of(caps@), id@) {
            Some(i) => Some(i as usize),
            None => None,
        }),
        r matches Some(i) ==> find_decl(capabilities_view_of(caps@), id@) == Some(i as int),
        r is None ==> find_decl(capabilities_view_of(caps@), id@) is None,
{
    let ghost cs = capabilities_view_of(caps@);
    proof {
        lemma_find_decl(cs, id@);
    }
    let mut i: usize = 0;
    while i < caps.len()
        invariant
            cs == capabilities_view_of(caps@),
            cs.len() == caps.len(),
            i <= cs.len(),
            forall|j: int| 0 <= j < i ==> #[trigger] cs[j].id != id@,
            match find_decl(cs, id@) {
                Some(k) => 0 <= k < cs.len() && cs[k].id == id@ && forall|j: int|
                    0 <= j < k ==> #[trigger] cs[j].id != id@,
                None => forall|j: int| 0 <= j < cs.len() ==> #[trigger] cs[j].id != id@,
            },
        decreases caps.len() - i,
    {
        assert(cs[i as int] == caps@[i as int]@);
        if crate::text::str_eq(caps[i].id.as_str(), id) {
            assert(cs[i as int].id == id@);
            return Some(i);
        }
        i = i + 1;
    }
    None
}

pub open spec fn capabilities_view_of(s: Seq<CapabilityDecl>) -> Seq<CapabilityDeclV> {
    s.map_values(|c: CapabilityDecl| c@)
}

/// Checks the arity and the statically known argument types of a capability call.
fn verify_capability_args(
    f: &Function,
    pc: usize,
    decl: &CapabilityDecl,
    args: &Vec<usize>,
    types: &Vec<Option<ValueType>>,
) -> (r: Result<(), ChronicleError>)
    requires
        forall|i: int| 0 <= i < args.len() ==> args@[i] < types.len(),
    ensures
        verify_failure(r, check_cap_args(f@, pc as int, decl@, args@, types@)),
{
    let variadic = decl.is_variadic();
    let fixed = if variadic {
        decl.params.len() - 1
    } else {
        decl.params.len()
    };
    let arity_ok = if variadic {
        args.len() >= fixed
    } else {
        args.len() == fixed
    };
    if !arity_ok {
        let mut m = string_of("capability ");
        m.append(decl.id.as_str());
        m.append(" expects ");
        push_decimal(&mut m, fixed);
        if variadic {
            m.append("+");
        } else {
            m.append("");
        }
        m.append(" args, got ");
        push_decimal(&mut m, args.len());
        return fail_at(VerifyErrorKind::ArityMismatch, m, f, pc);
    }
    let mut i: usize = 0;
    while i < args.len()
        invariant
            i <= args.len(),
            forall|j: int| 0 <= j < args.len() ==> args@[j] < types.len(),
            first_type_mismatch(decl@, args@.subrange(0, i as int), types@) is None,
            if is_variadic(decl@) {
                args.len() >= fixed_params(decl@)
            } else {
                args.len() == fixed_params(decl@)
            },
        decreases args.len() - i,
    {
        let expected = if i < decl.params.len() {
            decl.params[i]
        } else if decl.params.len() > 0 {
            decl.params[decl.params.len() - 1]
        } else {
            ValueType::Any
        };
        assert(expected == expected_param(decl@, i as int));
        assert(args@.subrange(0, i + 1).drop_last() =~= args@.subrange(0, i as int));
        if let Some(actual) = types[args[i]] {
            if !expected.accepts_type(&actual) {
                proof {
                    let s = args@.subrange(0, i + 1);
                    assert(s.last() == args@[i as int]);
                    assert(s.len() - 1 == i);
                    assert(first_type_mismatch(decl@, s, types@) == Some(i as int));
                    lemma_first_type_mismatch_prefix(decl@, args@, types@, i as int);
                }
                let mut m = string_of("capability ");
                m.append(decl.id.as_str());
                m.append(" arg ");
                push_decimal(&mut m, i);
                m.append(" expects ");
                m.append(value_type_name_str(expected));
                m.append(", got ");
                m.append(value_type_name_str(actual));
                return fail_at(VerifyErrorKind::TypeMismatch, m, f, pc);
            }
        }
        i = i + 1;
    }
    assert(args@.subrange(0, i as int) =~= args@);
    Ok(())
}

/// A mismatch at `i` after none before it is the first mismatch of the whole argument list.
pub proof fn lemma_first_type_mismatch_prefix(d: CapabilityDeclV, args: Seq<usize>, types: RegTypes, i: int)
    requires
        0 <= i < args.len(),
        first_type_mismatch(d, args.subrange(0, i + 1), types) == Some(i),
    ensures
        first_type_mismatch(d, args, types) == Some(i),
    decreases args.len(),
{
    if args.len() == i + 1 {
        assert(args.subrange(0, i + 1) =~= args);
    } else {
        assert(args.drop_last().subrange(0, i + 1) =~= args.subrange(0, i + 1));
        lemma_first_type_mismatch_prefix(d, args.drop_last(), types, i);
    }
}

} // verus!

verus! {

pub open spec fn instr_outcome(r: Result<(), ChronicleError>, types: RegTypes, expected: Result<RegTypes, VerifyErrorV>) -> bool {
    match expected {
        Ok(t) => r is Ok && types == t,
        Err(e) => r matches Err(x) && x@ == ChronicleErrorV::Verify(e),
    }
}

fn check_target(f: &Function, pc: usize, target: usize) -> (r: Result<(), ChronicleError>)
    ensures
        target >= f@.code.len() ==> (r matches Err(x) && x@ == ChronicleErrorV::Verify(located(
            VerifyErrorKind::InvalidJumpTarget,
            "jump target "@ + decimal(target as nat) + " out of bounds"@,
            f@,
            pc as int,
        ))),
        target < f@.code.len() ==> r is Ok,
{
    if target >= f.code.len() {
        fail_at(VerifyErrorKind::InvalidJumpTarget, msg_num("jump target ", target, " out of bounds"), f, pc)
    } else {
        Ok(())
    }
}

/// Checks one instruction and records the type it leaves in its destination register.
fn verify_instruction(
    module: &Module,
    f: &Function,
    pc: usize,
    instruction: &Instruction,
    types: &mut Vec<Option<ValueType>>,
) -> (r: Result<(), ChronicleError>)
    requires
        old(types).len() == f.registers,
    ensures
        instr_outcome(r, final(types)@, check_instr(module@, f@, pc as int, instruction@, old(types)@)),
        final(types).len() == f.registers,
        r is Err ==> final(types)@ == old(types)@,
{
    proof {
        lemma_values_view(module.constants@);
    }
    match instruction {
        Instruction::Const { dst, constant } => {
            let r = check_registers(f, pc, &v1(*dst));
            if r.is_err() {
                return r;
            }
            if *constant >= module.constants.len() {
                return fail_at(
                    VerifyErrorKind::ConstantOutOfBounds,
                    msg_num("constant ", *constant, " out of bounds"),
                    f,
                    pc,
                );
            }
            let t = module.constants[*constant].value_type();
            types.set(*dst, Some(t));
            Ok(())
        },
        Instruction::Move { dst, src } => {
            let r = check_registers(f, pc, &v2(*dst, *src));
            if r.is_err() {
                return r;
            }
            let t = types[*src];
            types.set(*dst, t);
            Ok(())
        },
        Instruction::Add { dst, lhs, rhs } | Instruction::Sub { dst, lhs, rhs } | Instruction::Mul {
            dst,
            lhs,
            rhs,
        } | Instruction::Div { dst, lhs, rhs } => {
            let r = check_registers(f, pc, &v3(*dst, *lhs, *rhs));
            if r.is_err() {
                return r;
            }
            types.set(*dst, Some(ValueType::I64));
            Ok(())
        },
        Instruction::Eq { dst, lhs, rhs } | Instruction::Lt { dst, lhs, rhs } => {
            let r = check_registers(f, pc, &v3(*dst, *lhs, *rhs));
            if r.is_err() {
                return r;
            }
            types.set(*dst, Some(ValueType::Bool));
            Ok(())
        },
        Instruction::Jump { target } => check_target(f, pc, *target),
        Instruction::JumpIf { cond, target } => {
            let r = check_registers(f, pc, &v1(*cond));
            if r.is_err() {
                return r;
            }
            check_target(f, pc, *target)
        },
        Instruction::Call { dst, function, args } => {
            let all = with_first(*dst, args);
            let r = check_registers(f, pc, &all);
            if r.is_err() {
                return r;
            }
            assert(all@[0] == *dst);
            assert(check_regs(f@, pc as int, seq![*dst] + args@) is Ok);
            proof {
                lemma_find_function(module@.functions, function@);
            }
            match module.function_index(function.as_str()) {
                None => {
                    return fail_at(VerifyErrorKind::MissingCallee, concat2("missing callee ", function.as_str()), f, pc);
                },
                Some(ci) => {
                    assert(find_function(module@.functions, function@) == Some(ci as int));
                    assert(module@.functions[ci as int] == module.functions@[ci as int]@);
                    let arity = module.functions[ci].arity;
                    if arity != args.len() {
                        let mut m = string_of("callee ");
                        m.append(function.as_str());
                        m.append(" expects ");
                        push_decimal(&mut m, arity);
                        m.append(" args, got ");
                        push_decimal(&mut m, args.len());
                        assert(m@ == "callee "@ + function@ + " expects "@ + decimal(module@.functions[ci as int].arity as nat)
                            + " args, got "@ + decimal(args@.len()));
                        return fail_at(VerifyErrorKind::ArityMismatch, m, f, pc);
                    }
                    types.set(*dst, None);
                    Ok(())
                },
            }
        },
        Instruction::Ret { src } => check_registers(f, pc, &v1(*src)),
        Instruction::CapCall { dst, capability, args } => {
            let all = with_first(*dst, args);
            let r = check_registers(f, pc, &all);
            if r.is_err() {
                return r;
            }
            assert forall|i: int| 0 <= i < args.len() implies args@[i] < f.registers by {
                assert(all@[i + 1] == args@[i]);
            }
            assert(all@[0] == *dst);
            assert(check_regs(f@, pc as int, seq![*dst] + args@) is Ok);
            assert(capabilities_view_of(module.capabilities@) == module@.capabilities);
            match find_decl_exec(&module.capabilities, capability.as_str()) {
                None => {
                    return fail_at(
                        VerifyErrorKind::UndeclaredCapability,
                        msg3("capability ", capability.as_str(), " was not declared"),
                        f,
                        pc,
                    );
                },
                Some(di) => {
                    proof {
                        lemma_find_decl(module@.capabilities, capability@);
                    }
                    assert(find_decl(module@.capabilities, capability@) == Some(di as int));
                    let decl = &module.capabilities[di];
                    assert(decl@ == module@.capabilities[di as int]);
                    let r2 = verify_capability_args(f, pc, decl, args, types);
                    if r2.is_err() {
                        return r2;
                    }
                    types.set(*dst, Some(decl.return_type));
                    Ok(())
                },
            }
        },
        Instruction::ArrayNew { dst, items } => {
            let all = with_first(*dst, items);
            let r = check_registers(f, pc, &all);
            if r.is_err() {
                return r;
            }
            assert(all@[0] == *dst);
            types.set(*dst, Some(ValueType::Array));
            Ok(())
        },
        Instruction::ArrayGet { dst, array, index } => {
            let r = check_registers(f, pc, &v3(*dst, *array, *index));
            if r.is_err() {
                return r;
            }
            types.set(*dst, None);
            Ok(())
        },
        Instruction::ArraySet { array, index, value } => check_registers(f, pc, &v3(*array, *index, *value)),
    }
}

/// With no out-of-bounds register in `regs`, every register of `regs` is in bounds.
pub proof fn lemma_no_bad_reg(f: FunctionV, regs: Seq<usize>)
    requires
        first_bad_reg(f, regs) is None,
    ensures
        forall|i: int| 0 <= i < regs.len() ==> #[trigger] regs[i] < f.registers,
    decreases regs.len(),
{
    if regs.len() > 0 {
        lemma_no_bad_reg(f, regs.drop_last());
        assert forall|i: int| 0 <= i < regs.len() implies #[trigger] regs[i] < f.registers by {
            if i < regs.len() - 1 {
                assert(regs[i] == regs.drop_last()[i]);
            }
        }
    }
}

} // verus!

verus! {

fn has_cap_id_before(caps: &Vec<CapabilityDecl>, n: usize, id: &String) -> (r: bool)
    requires
        n <= caps.len(),
    ensures
        r == cap_id_before(capabilities_view_of(caps@), n as int, id@),
{
    let ghost cs = capabilities_view_of(caps@);
    let mut j: usize = 0;
    while j < n
        invariant
            n <= caps.len(),
            cs == capabilities_view_of(caps@),
            j <= n,
            forall|k: int| 0 <= k < j ==> #[trigger] cs[k].id != id@,
        decreases n - j,
    {
        assert(cs[j as int] == caps@[j as int]@);
        if caps[j].id == *id {
            assert(cs[j as int].id == id@);
            return true;
        }
        j = j + 1;
    }
    false
}

fn has_fn_name_before(fs: &Vec<Function>, n: usize, name: &String) -> (r: bool)
    requires
        n <= fs.len(),
    ensures
        r == fn_name_before(functions_view(fs@), n as int, name@),
{
    let ghost v = functions_view(fs@);
    let mut j: usize = 0;
    while j < n
        invariant
            n <= fs.len(),
            v == functions_view(fs@),
            j <= n,
            forall|k: int| 0 <= k < j ==> #[trigger] v[k].name != name@,
        decreases n - j,
    {
        assert(v[j as int] == fs@[j as int]@);
        if fs[j].name == *name {
            assert(v[j as int].name == name@);
            return true;
        }
        j = j + 1;
    }
    false
}

fn none_types(n: usize) -> (r: Vec<Option<ValueType>>)
    ensures
        r@ == Seq::new(n as nat, |i: int| None::<ValueType>),
{
    let mut r = Vec::new();
    let mut i: usize = 0;
    while i < n
        invariant
            i <= n,
            r@ == Seq::new(i as nat, |k: int| None::<ValueType>),
        decreases n - i,
    {
        r.push(None);
        i = i + 1;
        assert(r@ =~= Seq::new(i as nat, |k: int| None::<ValueType>));
    }
    r
}

/// Checks one function: register file, arity, source map, then each instruction in order.
fn verify_function(module: &Module, f: &Function) -> (r: Result<(), ChronicleError>)
    ensures
        verify_failure(r, check_function(module@, f@)),
{
    if f.registers == 0 {
        return fail(
            VerifyErrorKind::MalformedModule,
            msg3("function ", f.name.as_str(), " must have at least one register"),
        );
    }
    if f.arity > f.registers {
        return fail(VerifyErrorKind::ArityMismatch, msg3("function ", f.name.as_str(), " arity exceeds register count"));
    }
    if f.source_lines.len() != 0 && f.source_lines.len() != f.code.len() {
        return fail(
            VerifyErrorKind::SourceMapMismatch,
            msg3("function ", f.name.as_str(), " source line map length does not match code length"),
        );
    }
    let mut types = none_types(f.registers);
    let mut pc: usize = 0;
    while pc < f.code.len()
        invariant
            pc <= f.code.len(),
            types.len() == f.registers,
            f.registers != 0,
            f.arity <= f.registers,
            !(f@.source_lines.len() != 0 && f@.source_lines.len() != f@.code.len()),
            check_code(module@, f@, pc as int) == Ok::<RegTypes, VerifyErrorV>(types@),
        decreases f.code.len() - pc,
    {
        assert(f@.code[pc as int] == f.code@[pc as int]@);
        let ghost before = types@;
        let r = verify_instruction(module, f, pc, &f.code[pc], &mut types);
        assert(check_code(module@, f@, pc as int + 1) == check_instr(module@, f@, pc as int, f@.code[pc as int], before));
        if r.is_err() {
            proof {
                lemma_check_code_err_stays(module@, f@, pc as int + 1, f@.code.len() as int);
            }
            return r;
        }
        pc = pc + 1;
    }
    Ok(())
}

/// Once a prefix of the code fails, every longer prefix fails the same way.
pub proof fn lemma_check_code_err_stays(m: ModuleV, f: FunctionV, a: int, b: int)
    requires
        0 <= a <= b,
        check_code(m, f, a) is Err,
    ensures
        check_code(m, f, b) == check_code(m, f, a),
    decreases b - a,
{
    if a < b {
        lemma_check_code_err_stays(m, f, a, b - 1);
    }
}

/// Runs every check of the verifier over a module and reports the first failure.
pub struct Verifier;

impl Verifier {
    /// Accepts a module exactly when every verifier check passes, and otherwise reports the
    /// first failing check as a `Verify` error.
    pub fn verify(module: &Module) -> (r: Result<(), ChronicleError>)
        ensures
            verify_failure(r, verify_module(module@)),
    {
        let ghost m = module@;
        let ghost cs = m.capabilities;
        let mut i: usize = 0;
        while i < module.capabilities.len()
            invariant
                m == module@,
                cs == m.capabilities,
                cs == capabilities_view_of(module.capabilities@),
                i <= module.capabilities.len(),
                check_caps(cs, i as int) == Ok::<(), VerifyErrorV>(()),
            decreases module.capabilities.len() - i,
        {
            let c = &module.capabilities[i];
            assert(cs[i as int] == c@);
            if has_cap_id_before(&module.capabilities, i, &c.id) {
                proof {
                    lemma_caps_err_stays(cs, i as int + 1, cs.len() as int);
                }
                return fail(VerifyErrorKind::DuplicateSymbol, concat2("duplicate capability ", c.id.as_str()));
            }
            let r = validate_capability_decl(c);
            if r.is_err() {
                proof {
                    lemma_caps_err_stays(cs, i as int + 1, cs.len() as int);
                }
                return r;
            }
            i = i + 1;
        }
        let ghost fs = m.functions;
        let mut i: usize = 0;
        while i < module.functions.len()
            invariant
                m == module@,
                fs == m.functions,
                fs == functions_view(module.functions@),
                check_caps(m.capabilities, m.capabilities.len() as int) == Ok::<(), VerifyErrorV>(()),
                i <= module.functions.len(),
                check_fn_names(fs, i as int) == Ok::<(), VerifyErrorV>(()),
            decreases module.functions.len() - i,
        {
            let f = &module.functions[i];
            assert(fs[i as int] == f@);
            if has_fn_name_before(&module.functions, i, &f.name) {
                proof {
                    lemma_names_err_stays(fs, i as int + 1, fs.len() as int);
                }
                return fail(VerifyErrorKind::DuplicateSymbol, concat2("duplicate function ", f.name.as_str()));
            }
            i = i + 1;
        }
        let mut i: usize = 0;
        while i < module.exports.len()
            invariant
                m == module@,
                check_caps(m.capabilities, m.capabilities.len() as int) == Ok::<(), VerifyErrorV>(()),
                check_fn_names(m.functions, m.functions.len() as int) == Ok::<(), VerifyErrorV>(()),
                i <= module.exports.len(),
                check_exports(m, i as int) == Ok::<(), VerifyErrorV>(()),
            decreases module.exports.len() - i,
        {
            assert(m.exports[i as int] == (module.exports@[i as int].0@, module.exports@[i as int].1));
            if module.exports[i].1 >= module.functions.len() {
                let mut msg = string_of("export ");
                msg.append(module.exports[i].0.as_str());
                msg.append(" points to missing function ");
                push_decimal(&mut msg, module.exports[i].1);
                proof {
                    lemma_exports_err_stays(m, i as int + 1, m.exports.len() as int);
                }
                return fail(VerifyErrorKind::MissingExport, msg);
            }
            i = i + 1;
        }
        let mut i: usize = 0;
        while i < module.functions.len()
            invariant
                m == module@,
                check_caps(m.capabilities, m.capabilities.len() as int) == Ok::<(), VerifyErrorV>(()),
                check_fn_names(m.functions, m.functions.len() as int) == Ok::<(), VerifyErrorV>(()),
                check_exports(m, m.exports.len() as int) == Ok::<(), VerifyErrorV>(()),
                i <= module.functions.len(),
                check_functions(m, i as int) == Ok::<(), VerifyErrorV>(()),
            decreases module.functions.len() - i,
        {
            assert(m.functions[i as int] == module.functions@[i as int]@);
            let r = verify_function(module, &module.functions[i]);
            if r.is_err() {
                proof {
                    lemma_functions_err_stays(m, i as int + 1, m.functions.len() as int);
                }
                return r;
            }
            i = i + 1;
        }
        Ok(())
    }
}

pub proof fn lemma_caps_err_stays(cs: Seq<CapabilityDeclV>, a: int, b: int)
    requires
        0 <= a <= b,
        check_caps(cs, a) is Err,
    ensures
        check_caps(cs, b) == check_caps(cs, a),
    decreases b - a,
{
    if a < b {
        lemma_caps_err_stays(cs, a, b - 1);
    }
}

pub proof fn lemma_names_err_stays(fs: Seq<FunctionV>, a: int, b: int)
    requires
        0 <= a <= b,
        check_fn_names(fs, a) is Err,
    ensures
        check_fn_names(fs, b) == check_fn_names(fs, a),
    decreases b - a,
{
    if a < b {
        lemma_names_err_stays(fs, a, b - 1);
    }
}

pub proof fn lemma_exports_err_stays(m: ModuleV, a: int, b: int)
    requires
        0 <= a <= b,
        check_exports(m, a) is Err,
    ensures
        check_exports(m, b) == check_exports(m, a),
    decreases b - a,
{
    if a < b {
        lemma_exports_err_stays(m, a, b - 1);
    }
}

pub proof fn lemma_functions_err_stays(m: ModuleV, a: int, b: int)
    requires
        0 <= a <= b,
        check_functions(m, a) is Err,
    ensures
        check_functions(m, b) == check_functions(m, a),
    decreases b - a,
{
    if a < b {
        lemma_functions_err_stays(m, a, b - 1);
    }
}

} // verus!

verus! {

/// Whether every register in `regs` is one of the registers of `f`.
pub open spec fn regs_in(f: FunctionV, regs: Seq<usize>) -> bool {
    forall|i: int| 0 <= i < regs.len() ==> #[trigger] regs[i] < f.registers
}

/// What the runtime relies on of one instruction of a verified module: its registers
/// exist, its constant exists, its jump target lies inside the code, and a call to a known
/// function passes as many arguments as the callee takes.
pub open spec fn instr_wf(m: ModuleV, f: FunctionV, ins: InstructionV) -> bool {
    match ins {
        InstructionV::Const { dst, constant } => dst < f.registers && constant < m.constants.len(),
        InstructionV::Move { dst, src } => dst < f.registers && src < f.registers,
        InstructionV::Add { dst, lhs, rhs } | InstructionV::Sub { dst, lhs, rhs } | InstructionV::Mul {
            dst,
            lhs,
            rhs,
        } | InstructionV::Div { dst, lhs, rhs } | InstructionV::Eq { dst, lhs, rhs } | InstructionV::Lt {
            dst,
            lhs,
            rhs,
        } => dst < f.registers && lhs < f.registers && rhs < f.registers,
        InstructionV::Jump { target } => target < f.code.len(),
        InstructionV::JumpIf { cond, target } => cond < f.registers && target < f.code.len(),
        InstructionV::Call { dst, function, args } => dst < f.registers && regs_in(f, args) && (find_function(
            m.functions,
            function,
        ) matches Some(ci) ==> m.functions[ci].arity == args.len()),
        InstructionV::Ret { src } => src < f.registers,
        InstructionV::CapCall { dst, capability, args } => dst < f.registers && regs_in(f, args),
        InstructionV::ArrayNew { dst, items } => dst < f.registers && regs_in(f, items),
        InstructionV::ArrayGet { dst, array, index } => dst < f.registers && array < f.registers && index
            < f.registers,
        InstructionV::ArraySet { array, index, value } => array < f.registers && index < f.registers && value
            < f.registers,
    }
}

pub open spec fn fn_wf(m: ModuleV, f: FunctionV) -> bool {
    &&& f.arity <= f.registers
    &&& forall|pc: int| 0 <= pc < f.code.len() ==> instr_wf(m, f, #[trigger] f.code[pc])
}

/// What the runtime relies on of a verified module.
pub open spec fn module_wf(m: ModuleV) -> bool {
    &&& forall|fi: int| 0 <= fi < m.functions.len() ==> fn_wf(m, #[trigger] m.functions[fi])
    &&& forall|k: int| 0 <= k < m.exports.len() ==> (#[trigger] m.exports[k]).1 < m.functions.len()
}

proof fn lemma_first_bad_reg(f: FunctionV, regs: Seq<usize>)
    requires
        first_bad_reg(f, regs) is None,
    ensures
        regs_in(f, regs),
    decreases regs.len(),
{
    if regs.len() > 0 {
        lemma_first_bad_reg(f, regs.drop_last());
        assert forall|i: int| 0 <= i < regs.len() implies #[trigger] regs[i] < f.registers by {
            if i < regs.len() - 1 {
                assert(regs.drop_last()[i] == regs[i]);
            }
        }
    }
}

proof fn lemma_regs_concat(f: FunctionV, a: Seq<usize>, b: Seq<usize>)
    requires
        regs_in(f, a + b),
    ensures
        regs_in(f, a),
        regs_in(f, b),
{
    assert forall|i: int| 0 <= i < a.len() implies #[trigger] a[i] < f.registers by {
        assert((a + b)[i] == a[i]);
    }
    assert forall|i: int| 0 <= i < b.len() implies #[trigger] b[i] < f.registers by {
        assert((a + b)[a.len() + i] == b[i]);
    }
}

proof fn lemma_check_instr_wf(m: ModuleV, f: FunctionV, pc: int, ins: InstructionV, types: RegTypes)
    requires
        check_instr(m, f, pc, ins, types) is Ok,
    ensures
        instr_wf(m, f, ins),
{
    match ins {
        InstructionV::Const { dst, .. } => {
            lemma_first_bad_reg(f, seq![dst]);
            assert(seq![dst][0] == dst);
        },
        InstructionV::Move { dst, src } => {
            lemma_first_bad_reg(f, seq![dst, src]);
            assert(seq![dst, src][0] == dst);
            assert(seq![dst, src][1] == src);
        },
        InstructionV::Add { dst, lhs, rhs } | InstructionV::Sub { dst, lhs, rhs } | InstructionV::Mul {
            dst,
            lhs,
            rhs,
        } | InstructionV::Div { dst, lhs, rhs } | InstructionV::Eq { dst, lhs, rhs } | InstructionV::Lt {
            dst,
            lhs,
            rhs,
        } => {
            lemma_first_bad_reg(f, seq![dst, lhs, rhs]);
            assert(seq![dst, lhs, rhs][0] == dst);
            assert(seq![dst, lhs, rhs][1] == lhs);
            assert(seq![dst, lhs, rhs][2] == rhs);
        },
        InstructionV::Jump { .. } => {},
        InstructionV::JumpIf { cond, .. } => {
            lemma_first_bad_reg(f, seq![cond]);
            assert(seq![cond][0] == cond);
        },
        InstructionV::Call { dst, args, .. } | InstructionV::CapCall { dst, args, .. } | InstructionV::ArrayNew {
            dst,
            items: args,
        } => {
            lemma_first_bad_reg(f, seq![dst] + args);
            lemma_regs_concat(f, seq![dst], args);
            assert(seq![dst][0] == dst);
        },
        InstructionV::Ret { src } => {
            lemma_first_bad_reg(f, seq![src]);
            assert(seq![src][0] == src);
        },
        InstructionV::ArrayGet { dst, array, index } => {
            lemma_first_bad_reg(f, seq![dst, array, index]);
            assert(seq![dst, array, index][0] == dst);
            assert(seq![dst, array, index][1] == array);
            assert(seq![dst, array, index][2] == index);
        },
        InstructionV::ArraySet { array, index, value } => {
            lemma_first_bad_reg(f, seq![array, index, value]);
            assert(seq![array, index, value][0] == array);
            assert(seq![array, index, value][1] == index);
            assert(seq![array, index, value][2] == value);
        },
    }
}

proof fn lemma_check_code_wf(m: ModuleV, f: FunctionV, n: int)
    requires
        check_code(m, f, n) is Ok,
        n <= f.code.len(),
    ensures
        forall|pc: int| 0 <= pc < n ==> instr_wf(m, f, #[trigger] f.code[pc]),
    decreases n,
{
    if n > 0 {
        lemma_check_code_wf(m, f, n - 1);
        let types = check_code(m, f, n - 1)->Ok_0;
        lemma_check_instr_wf(m, f, n - 1, f.code[n - 1], types);
    }
}

proof fn lemma_check_functions_wf(m: ModuleV, n: int)
    requires
        check_functions(m, n) is Ok,
        n <= m.functions.len(),
    ensures
        forall|fi: int| 0 <= fi < n ==> fn_wf(m, #[trigger] m.functions[fi]),
    decreases n,
{
    if n > 0 {
        lemma_check_functions_wf(m, n - 1);
        let f = m.functions[n - 1];
        lemma_check_code_wf(m, f, f.code.len() as int);
    }
}

proof fn lemma_check_exports_wf(m: ModuleV, n: int)
    requires
        check_exports(m, n) is Ok,
        n <= m.exports.len(),
    ensures
        forall|k: int| 0 <= k < n ==> (#[trigger] m.exports[k]).1 < m.functions.len(),
    decreases n,
{
    if n > 0 {
        lemma_check_exports_wf(m, n - 1);
    }
}

/// A module that the verifier accepts is well formed for the runtime: every register,
/// constant and jump target that an instruction names exists, every call to a known
/// function passes the callee's arity, and every export names a function.
pub proof fn lemma_verified_module_wf(m: ModuleV)
    requires
        verify_module(m) is Ok,
    ensures
        module_wf(m),
{
    lemma_check_exports_wf(m, m.exports.len() as int);
    lemma_check_functions_wf(m, m.functions.len() as int);
}

} // verus!
