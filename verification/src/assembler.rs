use vstd::prelude::*;
use crate::bytecode::{CapabilityDeclV, FunctionV, InstructionV, ModuleV, find_export, find_function, export_lookup, function_position};
use crate::codec::{export_insert, insert_export};
use crate::syntax::{
    cap_decl, has_prefix, lines, parse_i64, parse_usize, split_first_ws, strip_all, strip_comment, trim, unquote,
    words,
};
use crate::text::decimal;
use crate::value::{Value, ValueV, lemma_values_view, value_eq, value_equal, value_view, values_view};
use crate::bytecode::{CapabilityDecl, Function, Instruction, Module, capabilities_view, exports_view, functions_view, instructions_view};
use crate::text::{push_decimal, str_eq};
use crate::syntax::{cap_decl_exec, strip_all_exec, strip_comment_exec, chars_are, chars_eq, chars_view, first_ws_exec, has_prefix_exec, msg_with, parse_i64_exec, parse_usize_exec, slice_chars, string_of_chars, trim_chars, unquote_exec, words_of};

verus! {

/// A failure to assemble: a problem on a line, or a source without `.module`.
pub enum AsmErrorV {
    Line { line: usize, message: Seq<char> },
    MissingModule,
}

/// An outcome that may instead ask for the bits of a floating-point literal.
pub enum AsmOut<T> {
    Done(T),
    Fail(AsmErrorV),
    Float(Seq<char>),
}

/// An instruction whose jump target may still be a label.
pub enum PendingV {
    Ready(InstructionV),
    Jump(Seq<char>),
    JumpIf(usize, Seq<char>),
}

/// A function being assembled.
pub struct BuilderV {
    pub name: Seq<char>,
    pub registers: usize,
    pub arity: usize,
    pub pending: Seq<(usize, PendingV)>,
    pub labels: Seq<(Seq<char>, usize)>,
}

/// What the assembler has read so far.
pub struct AsmV {
    pub name: Option<Seq<char>>,
    pub constants: Seq<ValueV>,
    pub capabilities: Seq<CapabilityDeclV>,
    pub functions: Seq<FunctionV>,
    pub exports: Seq<(Seq<char>, usize)>,
    pub current: Option<BuilderV>,
}

pub open spec fn line_err(n: usize, m: Seq<char>) -> AsmErrorV {
    AsmErrorV::Line { line: n, message: m }
}

/// The first entry for `k`.
pub open spec fn assoc_get<V>(s: Seq<(Seq<char>, V)>, k: Seq<char>) -> Option<V>
    decreases s.len(),
{
    if s.len() == 0 {
        None
    } else {
        match assoc_get(s.drop_last(), k) {
            Some(v) => Some(v),
            None => if s.last().0 == k {
                Some(s.last().1)
            } else {
                None
            },
        }
    }
}

/// `s` with `k` mapped to `v`: the first entry for `k` replaced, or a new entry at the end.
pub open spec fn assoc_put<V>(s: Seq<(Seq<char>, V)>, k: Seq<char>, v: V) -> Seq<(Seq<char>, V)> {
    match first_key(s, k) {
        Some(i) => s.update(i, (k, v)),
        None => s.push((k, v)),
    }
}

pub open spec fn first_key<V>(s: Seq<(Seq<char>, V)>, k: Seq<char>) -> Option<int>
    decreases s.len(),
{
    if s.len() == 0 {
        None
    } else {
        match first_key(s.drop_last(), k) {
            Some(i) => Some(i),
            None => if s.last().0 == k {
                Some(s.len() - 1)
            } else {
                None
            },
        }
    }
}

/// The register a token names (`r` and a number).
pub open spec fn reg_of(n: usize, tok: Seq<char>) -> Result<usize, AsmErrorV> {
    if tok.len() > 0 && tok[0] == 'r' {
        match parse_usize(tok.drop_first()) {
            Some(v) => Ok(v),
            None => Err(line_err(n, "invalid register "@ + tok)),
        }
    } else {
        Err(line_err(n, "expected register, got "@ + tok))
    }
}

/// The registers the tokens name, or the failure of the first that names none.
pub open spec fn regs_of(n: usize, toks: Seq<Seq<char>>) -> Result<Seq<usize>, AsmErrorV>
    decreases toks.len(),
{
    if toks.len() == 0 {
        Ok(Seq::empty())
    } else {
        match regs_of(n, toks.drop_last()) {
            Err(e) => Err(e),
            Ok(rs) => match reg_of(n, toks.last()) {
                Err(e) => Err(e),
                Ok(r) => Ok(rs.push(r)),
            },
        }
    }
}

/// The bits recorded for the floating-point literal `t`: `Some(None)` when it is no number.
pub open spec fn float_lookup(fl: Seq<(Seq<char>, Option<u64>)>, t: Seq<char>) -> Option<Option<u64>> {
    assoc_get(fl, t)
}

/// The value a literal token denotes.
pub open spec fn value_of(n: usize, tok: Seq<char>, fl: Seq<(Seq<char>, Option<u64>)>) -> AsmOut<ValueV> {
    if tok == "nil"@ {
        AsmOut::Done(ValueV::Nil)
    } else if tok == "true"@ {
        AsmOut::Done(ValueV::Bool(true))
    } else if tok == "false"@ {
        AsmOut::Done(ValueV::Bool(false))
    } else if tok.len() > 0 && tok[0] == '"' {
        match unquote(tok) {
            Some(s) => AsmOut::Done(ValueV::String(s)),
            None => AsmOut::Fail(line_err(n, "expected quoted string"@)),
        }
    } else if tok.contains('.') {
        match float_lookup(fl, tok) {
            None => AsmOut::Float(tok),
            Some(None) => AsmOut::Fail(line_err(n, "invalid float literal "@ + tok)),
            Some(Some(b)) => AsmOut::Done(ValueV::F64(b)),
        }
    } else {
        match parse_i64(tok) {
            Some(i) => AsmOut::Done(ValueV::I64(i)),
            None => AsmOut::Fail(line_err(n, "invalid literal "@ + tok)),
        }
    }
}

/// The first constant equal to `v`.
pub open spec fn first_equal(cs: Seq<ValueV>, v: ValueV) -> Option<int>
    decreases cs.len(),
{
    if cs.len() == 0 {
        None
    } else {
        match first_equal(cs.drop_last(), v) {
            Some(i) => Some(i),
            None => if value_eq(cs.last(), v) {
                Some(cs.len() - 1)
            } else {
                None
            },
        }
    }
}

/// The constants with `v` interned, and its index.
pub open spec fn intern(cs: Seq<ValueV>, v: ValueV) -> (Seq<ValueV>, usize) {
    match first_equal(cs, v) {
        Some(i) => (cs, i as usize),
        None => (cs.push(v), cs.len() as usize),
    }
}

pub open spec fn count_error(n: usize, op: Seq<char>, args: Seq<Seq<char>>, k: nat) -> AsmErrorV {
    line_err(n, op + " expects "@ + decimal(k) + " operands, got "@ + decimal(args.len()))
}

pub struct OperandState {
    pub args: Seq<Seq<char>>,
    pub cur: Seq<char>,
    pub in_str: bool,
    pub escaped: bool,
}

pub open spec fn operand_step(st: OperandState, c: char) -> OperandState {
    if st.escaped {
        OperandState { cur: st.cur.push(c), escaped: false, ..st }
    } else if c == '\\' && st.in_str {
        OperandState { cur: st.cur.push(c), escaped: true, ..st }
    } else if c == '"' {
        OperandState { cur: st.cur.push(c), in_str: !st.in_str, ..st }
    } else if c == ',' && !st.in_str {
        OperandState { args: st.args.push(trim(st.cur)), cur: Seq::empty(), ..st }
    } else {
        OperandState { cur: st.cur.push(c), ..st }
    }
}

pub open spec fn operand_fold(s: Seq<char>) -> OperandState
    decreases s.len(),
{
    if s.len() == 0 {
        OperandState { args: Seq::empty(), cur: Seq::empty(), in_str: false, escaped: false }
    } else {
        operand_step(operand_fold(s.drop_last()), s.last())
    }
}

/// The comma-separated operands of an instruction; commas inside strings do not count, and a
/// backslash inside a string escapes the next character. `None` when a string is left open.
pub open spec fn split_operands(s: Seq<char>) -> Option<Seq<Seq<char>>> {
    if s.len() == 0 {
        Some(Seq::empty())
    } else {
        let st = operand_fold(s);
        if st.in_str {
            None
        } else if trim(st.cur).len() > 0 {
            Some(st.args.push(trim(st.cur)))
        } else {
            Some(st.args)
        }
    }
}

/// The opcode of an instruction line and its trimmed operand text.
pub open spec fn opcode_split(line: Seq<char>) -> (Seq<char>, Seq<char>) {
    let (op, rest) = split_first_ws(line);
    (op, match rest {
        Some(r) => trim(r),
        None => Seq::empty(),
    })
}

pub open spec fn three_op(op: Seq<char>, dst: usize, lhs: usize, rhs: usize) -> InstructionV {
    if op == "add"@ {
        InstructionV::Add { dst, lhs, rhs }
    } else if op == "sub"@ {
        InstructionV::Sub { dst, lhs, rhs }
    } else if op == "mul"@ {
        InstructionV::Mul { dst, lhs, rhs }
    } else if op == "div"@ {
        InstructionV::Div { dst, lhs, rhs }
    } else if op == "eq"@ {
        InstructionV::Eq { dst, lhs, rhs }
    } else {
        InstructionV::Lt { dst, lhs, rhs }
    }
}

pub open spec fn is_three_op(op: Seq<char>) -> bool {
    op == "add"@ || op == "sub"@ || op == "mul"@ || op == "div"@ || op == "eq"@ || op == "lt"@
}

/// Three register operands.
pub open spec fn regs3(n: usize, args: Seq<Seq<char>>) -> Result<(usize, usize, usize), AsmErrorV> {
    match reg_of(n, args[0]) {
        Err(e) => Err(e),
        Ok(a) => match reg_of(n, args[1]) {
            Err(e) => Err(e),
            Ok(b) => match reg_of(n, args[2]) {
                Err(e) => Err(e),
                Ok(c) => Ok((a, b, c)),
            },
        },
    }
}

/// A destination register, a name, and registers.
pub open spec fn named_call(n: usize, args: Seq<Seq<char>>) -> Result<(usize, Seq<char>, Seq<usize>), AsmErrorV> {
    match reg_of(n, args[0]) {
        Err(e) => Err(e),
        Ok(d) => match regs_of(n, args.subrange(2, args.len() as int)) {
            Err(e) => Err(e),
            Ok(rs) => Ok((d, args[1], rs)),
        },
    }
}

pub open spec fn ready(i: InstructionV, cs: Seq<ValueV>) -> AsmOut<(PendingV, Seq<ValueV>)> {
    AsmOut::Done((PendingV::Ready(i), cs))
}

pub open spec fn lift<T>(r: Result<T, AsmErrorV>) -> AsmOut<T> {
    match r {
        Ok(x) => AsmOut::Done(x),
        Err(e) => AsmOut::Fail(e),
    }
}

pub type InstrOut = AsmOut<(PendingV, Seq<ValueV>)>;

pub open spec fn const_of(n: usize, args: Seq<Seq<char>>, cs: Seq<ValueV>, fl: Seq<(Seq<char>, Option<u64>)>) -> InstrOut {
    if args.len() != 2 {
        AsmOut::Fail(count_error(n, "const"@, args, 2))
    } else {
        match reg_of(n, args[0]) {
            Err(e) => AsmOut::Fail(e),
            Ok(dst) => match value_of(n, args[1], fl) {
                AsmOut::Fail(e) => AsmOut::Fail(e),
                AsmOut::Float(t) => AsmOut::Float(t),
                AsmOut::Done(v) => {
                    let (cs2, k) = intern(cs, v);
                    ready(InstructionV::Const { dst, constant: k }, cs2)
                },
            },
        }
    }
}

pub open spec fn move_of(n: usize, args: Seq<Seq<char>>, cs: Seq<ValueV>) -> InstrOut {
    if args.len() != 2 {
        AsmOut::Fail(count_error(n, "move"@, args, 2))
    } else {
        match reg_of(n, args[0]) {
            Err(e) => AsmOut::Fail(e),
            Ok(dst) => match reg_of(n, args[1]) {
                Err(e) => AsmOut::Fail(e),
                Ok(src) => ready(InstructionV::Move { dst, src }, cs),
            },
        }
    }
}

pub open spec fn three_of(n: usize, op: Seq<char>, args: Seq<Seq<char>>, cs: Seq<ValueV>) -> InstrOut {
    if args.len() != 3 {
        AsmOut::Fail(count_error(n, op, args, 3))
    } else {
        match regs3(n, args) {
            Err(e) => AsmOut::Fail(e),
            Ok((d, l, r)) => if op == "array_get"@ {
                ready(InstructionV::ArrayGet { dst: d, array: l, index: r }, cs)
            } else if op == "array_set"@ {
                ready(InstructionV::ArraySet { array: d, index: l, value: r }, cs)
            } else {
                ready(three_op(op, d, l, r), cs)
            },
        }
    }
}

pub open spec fn jump_of(n: usize, args: Seq<Seq<char>>, cs: Seq<ValueV>) -> InstrOut {
    if args.len() != 1 {
        AsmOut::Fail(count_error(n, "jump"@, args, 1))
    } else {
        match parse_usize(args[0]) {
            Some(t) => ready(InstructionV::Jump { target: t }, cs),
            None => AsmOut::Done((PendingV::Jump(args[0]), cs)),
        }
    }
}

pub open spec fn jump_if_of(n: usize, args: Seq<Seq<char>>, cs: Seq<ValueV>) -> InstrOut {
    if args.len() != 2 {
        AsmOut::Fail(count_error(n, "jump_if"@, args, 2))
    } else {
        match reg_of(n, args[0]) {
            Err(e) => AsmOut::Fail(e),
            Ok(cond) => match parse_usize(args[1]) {
                Some(t) => ready(InstructionV::JumpIf { cond, target: t }, cs),
                None => AsmOut::Done((PendingV::JumpIf(cond, args[1]), cs)),
            },
        }
    }
}

pub open spec fn call_of(n: usize, is_cap: bool, args: Seq<Seq<char>>, cs: Seq<ValueV>) -> InstrOut {
    if args.len() < 2 {
        AsmOut::Fail(line_err(n, if is_cap {
            "cap_call expects dst, capability, and optional args"@
        } else {
            "call expects dst, function, and optional args"@
        }))
    } else {
        match named_call(n, args) {
            Err(e) => AsmOut::Fail(e),
            Ok((d, f, rs)) => if is_cap {
                ready(InstructionV::CapCall { dst: d, capability: f, args: rs }, cs)
            } else {
                ready(InstructionV::Call { dst: d, function: f, args: rs }, cs)
            },
        }
    }
}

pub open spec fn ret_of(n: usize, args: Seq<Seq<char>>, cs: Seq<ValueV>) -> InstrOut {
    if args.len() != 1 {
        AsmOut::Fail(count_error(n, "ret"@, args, 1))
    } else {
        match reg_of(n, args[0]) {
            Err(e) => AsmOut::Fail(e),
            Ok(src) => ready(InstructionV::Ret { src }, cs),
        }
    }
}

pub open spec fn array_new_of(n: usize, args: Seq<Seq<char>>, cs: Seq<ValueV>) -> InstrOut {
    if args.len() == 0 {
        AsmOut::Fail(line_err(n, "array_new expects dst and optional item registers"@))
    } else {
        match reg_of(n, args[0]) {
            Err(e) => AsmOut::Fail(e),
            Ok(d) => match regs_of(n, args.subrange(1, args.len() as int)) {
                Err(e) => AsmOut::Fail(e),
                Ok(rs) => ready(InstructionV::ArrayNew { dst: d, items: rs }, cs),
            },
        }
    }
}

/// One instruction, by opcode and operands.
pub open spec fn op_of(n: usize, op: Seq<char>, args: Seq<Seq<char>>, cs: Seq<ValueV>, fl: Seq<(Seq<char>, Option<u64>)>) -> InstrOut {
    if op == "const"@ {
        const_of(n, args, cs, fl)
    } else if op == "move"@ {
        move_of(n, args, cs)
    } else if is_three_op(op) || op == "array_get"@ || op == "array_set"@ {
        three_of(n, op, args, cs)
    } else if op == "jump"@ {
        jump_of(n, args, cs)
    } else if op == "jump_if"@ {
        jump_if_of(n, args, cs)
    } else if op == "call"@ {
        call_of(n, false, args, cs)
    } else if op == "cap_call"@ {
        call_of(n, true, args, cs)
    } else if op == "ret"@ {
        ret_of(n, args, cs)
    } else if op == "array_new"@ {
        array_new_of(n, args, cs)
    } else {
        AsmOut::Fail(line_err(n, "unknown opcode "@ + op))
    }
}

/// One instruction line: the instruction, and the constants with any literal interned.
pub open spec fn instr_of(n: usize, line: Seq<char>, cs: Seq<ValueV>, fl: Seq<(Seq<char>, Option<u64>)>) -> InstrOut {
    let (op, operands) = opcode_split(line);
    match split_operands(operands) {
        None => AsmOut::Fail(line_err(n, "unterminated string"@)),
        Some(args) => op_of(n, op, args, cs, fl),
    }
}

/// The arity that the options after a function header set: the last `arity=N`.
pub open spec fn arity_of(n: usize, parts: Seq<Seq<char>>, arity: usize) -> Result<usize, AsmErrorV>
    decreases parts.len(),
{
    if parts.len() == 0 {
        Ok(arity)
    } else {
        let p = parts[0];
        let a = if has_prefix(p, "arity="@) {
            match parse_usize(p.subrange(6, p.len() as int)) {
                Some(v) => Ok(v),
                None => Err(line_err(n, "invalid arity"@)),
            }
        } else {
            Ok(arity)
        };
        match a {
            Err(e) => Err(e),
            Ok(v) => arity_of(n, parts.drop_first(), v),
        }
    }
}

/// A function header `.fn name rN [arity=K]`.
pub open spec fn header_of(n: usize, line: Seq<char>) -> Result<BuilderV, AsmErrorV> {
    let parts = words(line);
    if parts.len() < 3 {
        Err(line_err(n, ".fn expects name and register count"@))
    } else {
        match reg_of(n, parts[2]) {
            Err(e) => Err(e),
            Ok(count) => if count == 0 {
                Err(line_err(n, "register count must be greater than zero"@))
            } else {
                match arity_of(n, parts.subrange(3, parts.len() as int), 0) {
                    Err(e) => Err(e),
                    Ok(arity) => Ok(
                        BuilderV { name: parts[1], registers: count, arity, pending: Seq::empty(), labels: Seq::empty() },
                    ),
                }
            },
        }
    }
}

/// The instructions of a finished function, jump labels resolved, with their source lines.
pub open spec fn resolve(b: BuilderV, k: int) -> Result<Seq<InstructionV>, AsmErrorV>
    decreases k,
{
    if k <= 0 {
        Ok(Seq::empty())
    } else {
        match resolve(b, k - 1) {
            Err(e) => Err(e),
            Ok(code) => {
                let (line, p) = b.pending[k - 1];
                match p {
                    PendingV::Ready(i) => Ok(code.push(i)),
                    PendingV::Jump(l) => match assoc_get(b.labels, l) {
                        Some(t) => Ok(code.push(InstructionV::Jump { target: t })),
                        None => Err(line_err(line, "unknown label "@ + l)),
                    },
                    PendingV::JumpIf(c, l) => match assoc_get(b.labels, l) {
                        Some(t) => Ok(code.push(InstructionV::JumpIf { cond: c, target: t })),
                        None => Err(line_err(line, "unknown label "@ + l)),
                    },
                }
            },
        }
    }
}

/// The assembler after `.end` on line `n` closes the function `b`.
pub open spec fn finish(st: AsmV, n: usize, b: BuilderV) -> Result<AsmV, AsmErrorV> {
    match resolve(b, b.pending.len() as int) {
        Err(e) => Err(e),
        Ok(code) => if code.len() == 0 {
            Err(line_err(n, "function has no instructions"@))
        } else {
            let f = FunctionV {
                name: b.name,
                registers: b.registers,
                arity: b.arity,
                code,
                source_lines: b.pending.map_values(|p: (usize, PendingV)| Some(p.0)),
            };
            Ok(AsmV { functions: st.functions.push(f), current: None, ..st })
        },
    }
}

/// The assembler after line `n`, whose text is `raw`.
pub open spec fn asm_line(st: AsmV, n: usize, raw: Seq<char>, fl: Seq<(Seq<char>, Option<u64>)>) -> AsmOut<AsmV> {
    asm_stripped(st, n, trim(strip_comment(raw)), fl)
}

/// The assembler after line `n`, whose text without comment and surrounding blanks is `line`.
#[verifier::opaque]
pub open spec fn asm_stripped(st: AsmV, n: usize, line: Seq<char>, fl: Seq<(Seq<char>, Option<u64>)>) -> AsmOut<AsmV> {
    if line.len() == 0 {
        AsmOut::Done(st)
    } else if line == ".end"@ {
        match st.current {
            None => AsmOut::Fail(line_err(n, ".end without .fn"@)),
            Some(b) => lift(finish(st, n, b)),
        }
    } else if st.current is Some {
        let b = st.current->Some_0;
        if line.last() == ':' {
            let label = trim(line.drop_last());
            AsmOut::Done(AsmV { current: Some(BuilderV { labels: assoc_put(b.labels, label, b.pending.len() as usize), ..b }), ..st })
        } else {
            match instr_of(n, line, st.constants, fl) {
                AsmOut::Fail(e) => AsmOut::Fail(e),
                AsmOut::Float(t) => AsmOut::Float(t),
                AsmOut::Done((p, cs)) => AsmOut::Done(
                    AsmV { constants: cs, current: Some(BuilderV { pending: b.pending.push((n, p)), ..b }), ..st },
                ),
            }
        }
    } else if has_prefix(line, ".module "@) {
        match unquote(trim(strip_all(line, ".module "@))) {
            Some(name) => AsmOut::Done(AsmV { name: Some(name), ..st }),
            None => AsmOut::Fail(line_err(n, "expected quoted string"@)),
        }
    } else if has_prefix(line, ".cap "@) {
        match cap_decl(trim(strip_all(line, ".cap "@)), true) {
            Ok(d) => AsmOut::Done(AsmV { capabilities: st.capabilities.push(d), ..st }),
            Err(m) => AsmOut::Fail(line_err(n, m)),
        }
    } else if has_prefix(line, ".fn "@) {
        match header_of(n, line) {
            Ok(b) => AsmOut::Done(AsmV { current: Some(b), ..st }),
            Err(e) => AsmOut::Fail(e),
        }
    } else if has_prefix(line, ".export "@) {
        AsmOut::Done(AsmV { exports: export_insert(st.exports, trim(strip_all(line, ".export "@)), usize::MAX), ..st })
    } else {
        AsmOut::Fail(line_err(n, "expected .module, .cap, .fn, or .export"@))
    }
}

pub open spec fn empty_asm() -> AsmV {
    AsmV {
        name: None,
        constants: Seq::empty(),
        capabilities: Seq::empty(),
        functions: Seq::empty(),
        exports: Seq::empty(),
        current: None,
    }
}

/// The assembler after the first `k` lines.
pub open spec fn asm_fold(ls: Seq<Seq<char>>, k: int, fl: Seq<(Seq<char>, Option<u64>)>) -> AsmOut<AsmV>
    decreases k,
{
    if k <= 0 {
        AsmOut::Done(empty_asm())
    } else {
        match asm_fold(ls, k - 1, fl) {
            AsmOut::Done(st) => asm_line(st, k as usize, ls[k - 1], fl),
            other => other,
        }
    }
}

/// The export table after the first `k` functions are considered: a function is exported when
/// its name was declared, when nothing is exported yet, or when it is `main`.
pub open spec fn export_pass(fs: Seq<FunctionV>, es: Seq<(Seq<char>, usize)>, k: int) -> Seq<(Seq<char>, usize)>
    decreases k,
{
    if k <= 0 {
        es
    } else {
        let prev = export_pass(fs, es, k - 1);
        let name = fs[k - 1].name;
        if find_export(prev, name) is Some || prev.len() == 0 || name == "main"@ {
            export_insert(prev, name, (k - 1) as usize)
        } else {
            prev
        }
    }
}

/// The export table with every declared export resolved to the first function of its name,
/// or the failure of the first export, in name order, that names no function.
pub open spec fn resolve_exports(fs: Seq<FunctionV>, es: Seq<(Seq<char>, usize)>, k: int) -> Result<Seq<(Seq<char>, usize)>, AsmErrorV>
    decreases k,
{
    if k <= 0 {
        Ok(es)
    } else {
        match resolve_exports(fs, es, k - 1) {
            Err(e) => Err(e),
            Ok(es2) => if es2[k - 1].1 == usize::MAX {
                match find_function(fs, es2[k - 1].0) {
                    Some(p) => Ok(es2.update(k - 1, (es2[k - 1].0, p as usize))),
                    None => Err(line_err(0, "export "@ + es2[k - 1].0 + " does not name a function"@)),
                }
            } else {
                Ok(es2)
            },
        }
    }
}

/// The module that the assembly `source` denotes, given the bits of its floating-point
/// literals in `fl`; or why there is none; or the first literal whose bits `fl` lacks.
pub open spec fn assemble(source: Seq<char>, fl: Seq<(Seq<char>, Option<u64>)>) -> AsmOut<ModuleV> {
    let ls = lines(source);
    match asm_fold(ls, ls.len() as int, fl) {
        AsmOut::Fail(e) => AsmOut::Fail(e),
        AsmOut::Float(t) => AsmOut::Float(t),
        AsmOut::Done(st) => if st.current is Some {
            AsmOut::Fail(line_err(ls.len() as usize, "function missing .end"@))
        } else {
            match st.name {
                None => AsmOut::Fail(AsmErrorV::MissingModule),
                Some(name) => {
                    let es = export_pass(st.functions, st.exports, st.functions.len() as int);
                    match resolve_exports(st.functions, es, es.len() as int) {
                        Err(e) => AsmOut::Fail(e),
                        Ok(exports) => AsmOut::Done(
                            ModuleV {
                                name,
                                constants: st.constants,
                                capabilities: st.capabilities,
                                functions: st.functions,
                                exports,
                            },
                        ),
                    }
                },
            }
        },
    }
}

} // verus!

verus! {

/// A failure to assemble (see [`AsmErrorV`]).
#[derive(Debug)]
pub enum AsmError {
    Line { line: usize, message: String },
    MissingModule,
}

impl View for AsmError {
    type V = AsmErrorV;

    open spec fn view(&self) -> AsmErrorV {
        match self {
            AsmError::Line { line, message } => AsmErrorV::Line { line: *line, message: message@ },
            AsmError::MissingModule => AsmErrorV::MissingModule,
        }
    }
}

pub open spec fn asm_error_text(e: AsmErrorV) -> Seq<char> {
    match e {
        AsmErrorV::Line { line, message } => "line "@ + decimal(line as nat) + ": "@ + message,
        AsmErrorV::MissingModule => "module is missing .module declaration"@,
    }
}

impl AsmError {
    /// The text of the failure.
    pub fn to_text(&self) -> (r: String)
        ensures
            r@ == asm_error_text(self@),
    {
        match self {
            AsmError::Line { line, message } => {
                let mut out = crate::text::with_decimal("line ", *line);
                out.append(": ");
                out.append(message.as_str());
                out
            },
            AsmError::MissingModule => String::from_str("module is missing .module declaration"),
        }
    }
}

/// The outcome of assembling: the module or the failure, or the request for the bits of a
/// floating-point literal that the table did not hold.
#[derive(Debug)]
pub enum Assembly {
    Done(Result<Module, AsmError>),
    NeedsFloat(String),
}

enum Out<T> {
    Done(T),
    Fail(AsmError),
    Float(Vec<char>),
}

fn fail_line(n: usize, m: String) -> (e: AsmError)
    ensures
        e@ == line_err(n, m@),
{
    AsmError::Line { line: n, message: m }
}

fn reg_exec(n: usize, tok: &Vec<char>) -> (r: Result<usize, AsmError>)
    ensures
        match r {
            Ok(v) => reg_of(n, tok@) == Ok::<usize, AsmErrorV>(v),
            Err(e) => reg_of(n, tok@) == Err::<usize, AsmErrorV>(e@),
        },
{
    if tok.len() > 0 && tok[0] == 'r' {
        let rest = slice_chars(tok, 1, tok.len());
        assert(rest@ =~= tok@.drop_first());
        match parse_usize_exec(&rest) {
            Some(v) => Ok(v),
            None => Err(fail_line(n, msg_with("invalid register ", tok))),
        }
    } else {
        Err(fail_line(n, msg_with("expected register, got ", tok)))
    }
}

fn regs_exec(n: usize, toks: &Vec<Vec<char>>, from: usize) -> (r: Result<Vec<usize>, AsmError>)
    requires
        from <= toks.len(),
    ensures
        match r {
            Ok(v) => regs_of(n, chars_view(toks@).subrange(from as int, toks.len() as int)) == Ok::<Seq<usize>, AsmErrorV>(v@),
            Err(e) => regs_of(n, chars_view(toks@).subrange(from as int, toks.len() as int)) == Err::<Seq<usize>, AsmErrorV>(e@),
        },
{
    let ghost ts = chars_view(toks@).subrange(from as int, toks.len() as int);
    let mut out: Vec<usize> = Vec::new();
    let mut i = from;
    while i < toks.len()
        invariant
            from <= i <= toks.len(),
            ts == chars_view(toks@).subrange(from as int, toks.len() as int),
            regs_of(n, ts.subrange(0, i - from)) == Ok::<Seq<usize>, AsmErrorV>(out@),
        decreases toks.len() - i,
    {
        assert(ts.subrange(0, i - from + 1).drop_last() =~= ts.subrange(0, i - from));
        assert(ts[i - from] == toks@[i as int]@);
        match reg_exec(n, &toks[i]) {
            Ok(v) => out.push(v),
            Err(e) => {
                proof {
                    lemma_regs_prefix(n, ts, i - from + 1);
                }
                return Err(e);
            },
        }
        i = i + 1;
    }
    assert(ts.subrange(0, i - from) =~= ts);
    Ok(out)
}

proof fn lemma_regs_prefix(n: usize, ts: Seq<Seq<char>>, k: int)
    requires
        0 <= k <= ts.len(),
        regs_of(n, ts.subrange(0, k)) is Err,
    ensures
        regs_of(n, ts) == regs_of(n, ts.subrange(0, k)),
    decreases ts.len() - k,
{
    if k < ts.len() {
        assert(ts.subrange(0, k + 1).drop_last() =~= ts.subrange(0, k));
        lemma_regs_prefix(n, ts, k + 1);
    } else {
        assert(ts.subrange(0, k) =~= ts);
    }
}

pub open spec fn float_table_view(fl: Seq<(String, Option<u64>)>) -> Seq<(Seq<char>, Option<u64>)> {
    fl.map_values(|e: (String, Option<u64>)| (e.0@, e.1))
}

fn float_lookup_exec(fl: &Vec<(String, Option<u64>)>, t: &Vec<char>) -> (r: Option<Option<u64>>)
    ensures
        r == float_lookup(float_table_view(fl@), t@),
{
    let ghost tv = float_table_view(fl@);
    let mut i: usize = 0;
    while i < fl.len()
        invariant
            tv == float_table_view(fl@),
            i <= fl.len(),
            assoc_get(tv.subrange(0, i as int), t@) is None,
        decreases fl.len() - i,
    {
        assert(tv.subrange(0, i + 1).drop_last() =~= tv.subrange(0, i as int));
        if chars_are(t, fl[i].0.as_str()) {
            assert(assoc_get(tv.subrange(0, i + 1), t@) == Some(fl@[i as int].1));
            proof {
                lemma_assoc_get_prefix(tv, i as int + 1, t@);
            }
            return Some(fl[i].1);
        }
        i = i + 1;
    }
    assert(tv.subrange(0, i as int) =~= tv);
    None
}

proof fn lemma_assoc_get_prefix<V>(s: Seq<(Seq<char>, V)>, k: int, key: Seq<char>)
    requires
        0 <= k <= s.len(),
        assoc_get(s.subrange(0, k), key) is Some,
    ensures
        assoc_get(s, key) == assoc_get(s.subrange(0, k), key),
    decreases s.len() - k,
{
    if k < s.len() {
        assert(s.subrange(0, k + 1).drop_last() =~= s.subrange(0, k));
        lemma_assoc_get_prefix(s, k + 1, key);
    } else {
        assert(s.subrange(0, k) =~= s);
    }
}

fn contains_dot(t: &Vec<char>) -> (r: bool)
    ensures
        r == t@.contains('.'),
{
    let mut i: usize = 0;
    while i < t.len()
        invariant
            i <= t.len(),
            forall|j: int| 0 <= j < i ==> t@[j] != '.',
        decreases t.len() - i,
    {
        if t[i] == '.' {
            assert(t@[i as int] == '.');
            return true;
        }
        i = i + 1;
    }
    false
}

fn value_exec(n: usize, tok: &Vec<char>, fl: &Vec<(String, Option<u64>)>) -> (r: Out<Value>)
    ensures
        match (r, value_of(n, tok@, float_table_view(fl@))) {
            (Out::Done(v), AsmOut::Done(w)) => v@ == w,
            (Out::Fail(e), AsmOut::Fail(f)) => e@ == f,
            (Out::Float(t), AsmOut::Float(u)) => t@ == u,
            _ => false,
        },
{
    if chars_are(tok, "nil") {
        Out::Done(Value::Nil)
    } else if chars_are(tok, "true") {
        Out::Done(Value::Bool(true))
    } else if chars_are(tok, "false") {
        Out::Done(Value::Bool(false))
    } else if tok.len() > 0 && tok[0] == '"' {
        match unquote_exec(tok) {
            Some(s) => Out::Done(Value::String(string_of_chars(&s))),
            None => Out::Fail(fail_line(n, String::from_str("expected quoted string"))),
        }
    } else if contains_dot(tok) {
        match float_lookup_exec(fl, tok) {
            None => Out::Float(slice_chars(tok, 0, tok.len())),
            Some(None) => Out::Fail(fail_line(n, msg_with("invalid float literal ", tok))),
            Some(Some(b)) => Out::Done(Value::F64(b)),
        }
    } else {
        match parse_i64_exec(tok) {
            Some(i) => Out::Done(Value::I64(i)),
            None => Out::Fail(fail_line(n, msg_with("invalid literal ", tok))),
        }
    }
}

pub(crate) fn intern_exec(cs: &mut Vec<Value>, v: Value) -> (k: usize)
    ensures
        (values_view(final(cs)@), k) == intern(values_view(old(cs)@), v@),
{
    proof {
        lemma_values_view(cs@);
    }
    let ghost cv = values_view(cs@);
    let mut i: usize = 0;
    while i < cs.len()
        invariant
            cv == values_view(cs@),
            cv.len() == cs.len(),
            forall|j: int| 0 <= j < cs.len() ==> #[trigger] cv[j] == value_view(cs@[j]),
            i <= cs.len(),
            first_equal(cv.subrange(0, i as int), v@) is None,
        decreases cs.len() - i,
    {
        assert(cv.subrange(0, i + 1).drop_last() =~= cv.subrange(0, i as int));
        if value_equal(&cs[i], &v) {
            proof {
                lemma_first_equal_prefix(cv, i as int + 1, v@);
            }
            return i;
        }
        i = i + 1;
    }
    assert(cv.subrange(0, i as int) =~= cv);
    let k = cs.len();
    proof {
        lemma_values_view_push(cs@, v);
    }
    cs.push(v);
    k
}

proof fn lemma_values_view_push(s: Seq<Value>, v: Value)
    ensures
        values_view(s.push(v)) == values_view(s).push(v@),
{
    assert(s.push(v).drop_last() =~= s);
}

proof fn lemma_first_equal_prefix(cs: Seq<ValueV>, k: int, v: ValueV)
    requires
        0 <= k <= cs.len(),
        first_equal(cs.subrange(0, k), v) is Some,
    ensures
        first_equal(cs, v) == first_equal(cs.subrange(0, k), v),
    decreases cs.len() - k,
{
    if k < cs.len() {
        assert(cs.subrange(0, k + 1).drop_last() =~= cs.subrange(0, k));
        lemma_first_equal_prefix(cs, k + 1, v);
    } else {
        assert(cs.subrange(0, k) =~= cs);
    }
}

fn split_operands_exec(s: &Vec<char>) -> (r: Option<Vec<Vec<char>>>)
    ensures
        match r {
            Some(v) => split_operands(s@) == Some(chars_view(v@)),
            None => split_operands(s@) is None,
        },
{
    let mut args: Vec<Vec<char>> = Vec::new();
    if s.len() == 0 {
        assert(chars_view(args@) =~= Seq::<Seq<char>>::empty());
        return Some(args);
    }
    let mut cur: Vec<char> = Vec::new();
    let mut in_str = false;
    let mut escaped = false;
    let mut i: usize = 0;
    while i < s.len()
        invariant
            i <= s.len(),
            ({
                let st = operand_fold(s@.subrange(0, i as int));
                &&& st.args == chars_view(args@)
                &&& st.cur == cur@
                &&& st.in_str == in_str
                &&& st.escaped == escaped
            }),
        decreases s.len() - i,
    {
        assert(s@.subrange(0, i + 1).drop_last() =~= s@.subrange(0, i as int));
        let c = s[i];
        let ghost before = chars_view(args@);
        if escaped {
            cur.push(c);
            escaped = false;
        } else if c == '\\' && in_str {
            cur.push(c);
            escaped = true;
        } else if c == '"' {
            in_str = !in_str;
            cur.push(c);
        } else if c == ',' && !in_str {
            let piece = trim_chars(&cur);
            args.push(piece);
            cur = Vec::new();
            assert(chars_view(args@) =~= before.push(piece@));
        } else {
            cur.push(c);
        }
        i = i + 1;
    }
    assert(s@.subrange(0, i as int) =~= s@);
    if in_str {
        return None;
    }
    let last = trim_chars(&cur);
    if last.len() > 0 {
        let ghost before = chars_view(args@);
        args.push(last);
        assert(chars_view(args@) =~= before.push(last@));
    }
    Some(args)
}


enum Pending {
    Ready(Instruction),
    Jump(Vec<char>),
    JumpIf(usize, Vec<char>),
}

impl View for Pending {
    type V = PendingV;

    closed spec fn view(&self) -> PendingV {
        match self {
            Pending::Ready(i) => PendingV::Ready(i@),
            Pending::Jump(l) => PendingV::Jump(l@),
            Pending::JumpIf(c, l) => PendingV::JumpIf(*c, l@),
        }
    }
}

spec fn instr_matches(r: Out<Pending>, out: InstrOut, cs: Seq<ValueV>) -> bool {
    match (r, out) {
        (Out::Done(p), AsmOut::Done((q, cs2))) => p@ == q && cs == cs2,
        (Out::Fail(e), AsmOut::Fail(f)) => e@ == f,
        (Out::Float(t), AsmOut::Float(u)) => t@ == u,
        _ => false,
    }
}

fn count_fail(n: usize, op: &str, args: &Vec<Vec<char>>, k: usize) -> (e: AsmError)
    ensures
        e@ == count_error(n, op@, chars_view(args@), k as nat),
{
    let mut m = String::from_str(op);
    m.append(" expects ");
    push_decimal(&mut m, k);
    m.append(" operands, got ");
    push_decimal(&mut m, args.len());
    fail_line(n, m)
}

fn regs3_exec(n: usize, args: &Vec<Vec<char>>) -> (r: Result<(usize, usize, usize), AsmError>)
    requires
        args.len() == 3,
    ensures
        match r {
            Ok(t) => regs3(n, chars_view(args@)) == Ok::<(usize, usize, usize), AsmErrorV>(t),
            Err(e) => regs3(n, chars_view(args@)) == Err::<(usize, usize, usize), AsmErrorV>(e@),
        },
{
    let a = match reg_exec(n, &args[0]) {
        Ok(v) => v,
        Err(e) => return Err(e),
    };
    let b = match reg_exec(n, &args[1]) {
        Ok(v) => v,
        Err(e) => return Err(e),
    };
    let c = match reg_exec(n, &args[2]) {
        Ok(v) => v,
        Err(e) => return Err(e),
    };
    Ok((a, b, c))
}

fn const_exec(n: usize, args: &Vec<Vec<char>>, cs: &mut Vec<Value>, fl: &Vec<(String, Option<u64>)>) -> (r: Out<Pending>)
    ensures
        instr_matches(r, const_of(n, chars_view(args@), values_view(old(cs)@), float_table_view(fl@)), values_view(final(cs)@)),
{
    if args.len() != 2 {
        return Out::Fail(count_fail(n, "const", args, 2));
    }
    let dst = match reg_exec(n, &args[0]) {
        Ok(v) => v,
        Err(e) => return Out::Fail(e),
    };
    match value_exec(n, &args[1], fl) {
        Out::Fail(e) => Out::Fail(e),
        Out::Float(t) => Out::Float(t),
        Out::Done(v) => {
            let k = intern_exec(cs, v);
            Out::Done(Pending::Ready(Instruction::Const { dst, constant: k }))
        },
    }
}

fn three_exec(n: usize, op: &Vec<char>, args: &Vec<Vec<char>>) -> (r: Out<Pending>)
    requires
        is_three_op(op@) || op@ == "array_get"@ || op@ == "array_set"@,
    ensures
        forall|cs: Seq<ValueV>| instr_matches(r, three_of(n, op@, chars_view(args@), cs), cs),
{
    if args.len() != 3 {
        let ops = string_of_chars(op);
        return Out::Fail(count_fail(n, ops.as_str(), args, 3));
    }
    let (d, l, x) = match regs3_exec(n, args) {
        Ok(t) => t,
        Err(e) => return Out::Fail(e),
    };
    let i = if chars_are(op, "array_get") {
        Instruction::ArrayGet { dst: d, array: l, index: x }
    } else if chars_are(op, "array_set") {
        Instruction::ArraySet { array: d, index: l, value: x }
    } else if chars_are(op, "add") {
        Instruction::Add { dst: d, lhs: l, rhs: x }
    } else if chars_are(op, "sub") {
        Instruction::Sub { dst: d, lhs: l, rhs: x }
    } else if chars_are(op, "mul") {
        Instruction::Mul { dst: d, lhs: l, rhs: x }
    } else if chars_are(op, "div") {
        Instruction::Div { dst: d, lhs: l, rhs: x }
    } else if chars_are(op, "eq") {
        Instruction::Eq { dst: d, lhs: l, rhs: x }
    } else {
        Instruction::Lt { dst: d, lhs: l, rhs: x }
    };
    Out::Done(Pending::Ready(i))
}

fn call_exec(n: usize, is_cap: bool, args: &Vec<Vec<char>>) -> (r: Out<Pending>)
    ensures
        forall|cs: Seq<ValueV>| instr_matches(r, call_of(n, is_cap, chars_view(args@), cs), cs),
{
    if args.len() < 2 {
        if is_cap {
            return Out::Fail(fail_line(n, String::from_str("cap_call expects dst, capability, and optional args")));
        } else {
            return Out::Fail(fail_line(n, String::from_str("call expects dst, function, and optional args")));
        }
    }
    let d = match reg_exec(n, &args[0]) {
        Ok(v) => v,
        Err(e) => return Out::Fail(e),
    };
    let rs = match regs_exec(n, args, 2) {
        Ok(v) => v,
        Err(e) => return Out::Fail(e),
    };
    let name = string_of_chars(&args[1]);
    if is_cap {
        Out::Done(Pending::Ready(Instruction::CapCall { dst: d, capability: name, args: rs }))
    } else {
        Out::Done(Pending::Ready(Instruction::Call { dst: d, function: name, args: rs }))
    }
}

fn move_exec(n: usize, args: &Vec<Vec<char>>) -> (r: Out<Pending>)
    ensures
        forall|cs: Seq<ValueV>| instr_matches(r, move_of(n, chars_view(args@), cs), cs),
{
    if args.len() != 2 {
        return Out::Fail(count_fail(n, "move", args, 2));
    }
    let dst = match reg_exec(n, &args[0]) {
        Ok(v) => v,
        Err(e) => return Out::Fail(e),
    };
    let src = match reg_exec(n, &args[1]) {
        Ok(v) => v,
        Err(e) => return Out::Fail(e),
    };
    Out::Done(Pending::Ready(Instruction::Move { dst, src }))
}

fn jump_exec(n: usize, args: &Vec<Vec<char>>) -> (r: Out<Pending>)
    ensures
        forall|cs: Seq<ValueV>| instr_matches(r, jump_of(n, chars_view(args@), cs), cs),
{
    if args.len() != 1 {
        return Out::Fail(count_fail(n, "jump", args, 1));
    }
    match parse_usize_exec(&args[0]) {
        Some(t) => Out::Done(Pending::Ready(Instruction::Jump { target: t })),
        None => {
            let l = slice_chars(&args[0], 0, args[0].len());
            assert(l@ =~= chars_view(args@)[0]);
            Out::Done(Pending::Jump(l))
        },
    }
}

fn jump_if_exec(n: usize, args: &Vec<Vec<char>>) -> (r: Out<Pending>)
    ensures
        forall|cs: Seq<ValueV>| instr_matches(r, jump_if_of(n, chars_view(args@), cs), cs),
{
    if args.len() != 2 {
        return Out::Fail(count_fail(n, "jump_if", args, 2));
    }
    let cond = match reg_exec(n, &args[0]) {
        Ok(v) => v,
        Err(e) => return Out::Fail(e),
    };
    match parse_usize_exec(&args[1]) {
        Some(t) => Out::Done(Pending::Ready(Instruction::JumpIf { cond, target: t })),
        None => {
            let l = slice_chars(&args[1], 0, args[1].len());
            assert(l@ =~= chars_view(args@)[1]);
            Out::Done(Pending::JumpIf(cond, l))
        },
    }
}

fn ret_exec(n: usize, args: &Vec<Vec<char>>) -> (r: Out<Pending>)
    ensures
        forall|cs: Seq<ValueV>| instr_matches(r, ret_of(n, chars_view(args@), cs), cs),
{
    if args.len() != 1 {
        return Out::Fail(count_fail(n, "ret", args, 1));
    }
    match reg_exec(n, &args[0]) {
        Ok(src) => Out::Done(Pending::Ready(Instruction::Ret { src })),
        Err(e) => Out::Fail(e),
    }
}

fn array_new_exec(n: usize, args: &Vec<Vec<char>>) -> (r: Out<Pending>)
    ensures
        forall|cs: Seq<ValueV>| instr_matches(r, array_new_of(n, chars_view(args@), cs), cs),
{
    if args.len() == 0 {
        return Out::Fail(fail_line(n, String::from_str("array_new expects dst and optional item registers")));
    }
    let d = match reg_exec(n, &args[0]) {
        Ok(v) => v,
        Err(e) => return Out::Fail(e),
    };
    match regs_exec(n, args, 1) {
        Ok(rs) => Out::Done(Pending::Ready(Instruction::ArrayNew { dst: d, items: rs })),
        Err(e) => Out::Fail(e),
    }
}


fn instr_exec(n: usize, line: &Vec<char>, cs: &mut Vec<Value>, fl: &Vec<(String, Option<u64>)>) -> (r: Out<Pending>)
    ensures
        instr_matches(r, instr_of(n, line@, values_view(old(cs)@), float_table_view(fl@)), values_view(final(cs)@)),
{
    let (op, operands) = match first_ws_exec(line) {
        Some(w) => {
            let rest = slice_chars(line, w + 1, line.len());
            (slice_chars(line, 0, w), trim_chars(&rest))
        },
        None => (slice_chars(line, 0, line.len()), Vec::new()),
    };
    proof {
        reveal(split_first_ws);
        assert(line@.subrange(0, line.len() as int) =~= line@);
        assert(operands@ =~= opcode_split(line@).1);
    }
    let args = match split_operands_exec(&operands) {
        None => return Out::Fail(fail_line(n, String::from_str("unterminated string"))),
        Some(a) => a,
    };
    if chars_are(&op, "const") {
        const_exec(n, &args, cs, fl)
    } else if chars_are(&op, "move") {
        move_exec(n, &args)
    } else if chars_are(&op, "add") || chars_are(&op, "sub") || chars_are(&op, "mul") || chars_are(&op, "div")
        || chars_are(&op, "eq") || chars_are(&op, "lt") || chars_are(&op, "array_get") || chars_are(&op, "array_set") {
        three_exec(n, &op, &args)
    } else if chars_are(&op, "jump") {
        jump_exec(n, &args)
    } else if chars_are(&op, "jump_if") {
        jump_if_exec(n, &args)
    } else if chars_are(&op, "call") {
        call_exec(n, false, &args)
    } else if chars_are(&op, "cap_call") {
        call_exec(n, true, &args)
    } else if chars_are(&op, "ret") {
        ret_exec(n, &args)
    } else if chars_are(&op, "array_new") {
        array_new_exec(n, &args)
    } else {
        Out::Fail(fail_line(n, msg_with("unknown opcode ", &op)))
    }
}

struct Builder {
    name: Vec<char>,
    registers: usize,
    arity: usize,
    pending: Vec<(usize, Pending)>,
    labels: Vec<(Vec<char>, usize)>,
}

spec fn pending_view(p: Seq<(usize, Pending)>) -> Seq<(usize, PendingV)> {
    p.map_values(|e: (usize, Pending)| (e.0, e.1@))
}

pub open spec fn labels_view(l: Seq<(Vec<char>, usize)>) -> Seq<(Seq<char>, usize)> {
    l.map_values(|e: (Vec<char>, usize)| (e.0@, e.1))
}

impl View for Builder {
    type V = BuilderV;

    closed spec fn view(&self) -> BuilderV {
        BuilderV {
            name: self.name@,
            registers: self.registers,
            arity: self.arity,
            pending: pending_view(self.pending@),
            labels: labels_view(self.labels@),
        }
    }
}

fn header_exec(n: usize, line: &Vec<char>) -> (r: Result<Builder, AsmError>)
    ensures
        match r {
            Ok(b) => header_of(n, line@) == Ok::<BuilderV, AsmErrorV>(b@),
            Err(e) => header_of(n, line@) == Err::<BuilderV, AsmErrorV>(e@),
        },
{
    let parts = words_of(line);
    let ghost pv = chars_view(parts@);
    assert(pv == words(line@));
    if parts.len() < 3 {
        return Err(fail_line(n, String::from_str(".fn expects name and register count")));
    }
    assert(pv[2] == parts@[2]@);
    let count = match reg_exec(n, &parts[2]) {
        Ok(v) => v,
        Err(e) => return Err(e),
    };
    if count == 0 {
        return Err(fail_line(n, String::from_str("register count must be greater than zero")));
    }
    let mut arity: usize = 0;
    let mut i: usize = 3;
    while i < parts.len()
        invariant
            3 <= i <= parts.len(),
            pv == chars_view(parts@),
            pv == words(line@),
            reg_of(n, pv[2]) == Ok::<usize, AsmErrorV>(count),
            count != 0,
            arity_of(n, pv.subrange(3, pv.len() as int), 0) == arity_of(n, pv.subrange(i as int, pv.len() as int), arity),
        decreases parts.len() - i,
    {
        let ghost rest = pv.subrange(i as int, pv.len() as int);
        assert(rest[0] == parts@[i as int]@);
        assert(rest.drop_first() =~= pv.subrange(i + 1, pv.len() as int));
        if has_prefix_exec(&parts[i], "arity=") {
            proof {
                reveal_strlit("arity=");
            }
            let v = slice_chars(&parts[i], 6, parts[i].len());
            match parse_usize_exec(&v) {
                Some(a) => {
                    arity = a;
                },
                None => return Err(fail_line(n, String::from_str("invalid arity"))),
            }
        }
        i = i + 1;
    }
    assert(pv.subrange(i as int, pv.len() as int) =~= Seq::<Seq<char>>::empty());
    assert(pv[1] == parts@[1]@);
    let b = Builder {
        name: slice_chars(&parts[1], 0, parts[1].len()),
        registers: count,
        arity,
        pending: Vec::new(),
        labels: Vec::new(),
    };
    assert(b.name@ =~= pv[1]);
    assert(pending_view(b.pending@) =~= Seq::<(usize, PendingV)>::empty());
    assert(labels_view(b.labels@) =~= Seq::<(Seq<char>, usize)>::empty());
    Ok(b)
}

pub(crate) fn label_get(labels: &Vec<(Vec<char>, usize)>, l: &Vec<char>) -> (r: Option<usize>)
    ensures
        r == assoc_get(labels_view(labels@), l@),
{
    let ghost lv = labels_view(labels@);
    let mut i: usize = 0;
    while i < labels.len()
        invariant
            lv == labels_view(labels@),
            i <= labels.len(),
            assoc_get(lv.subrange(0, i as int), l@) is None,
        decreases labels.len() - i,
    {
        assert(lv.subrange(0, i + 1).drop_last() =~= lv.subrange(0, i as int));
        if chars_eq(&labels[i].0, l) {
            assert(assoc_get(lv.subrange(0, i + 1), l@) == Some(labels@[i as int].1));
            proof {
                lemma_assoc_get_prefix(lv, i as int + 1, l@);
            }
            return Some(labels[i].1);
        }
        i = i + 1;
    }
    assert(lv.subrange(0, i as int) =~= lv);
    None
}

proof fn lemma_first_key_prefix<V>(s: Seq<(Seq<char>, V)>, k: int, key: Seq<char>)
    requires
        0 <= k <= s.len(),
        first_key(s.subrange(0, k), key) is Some,
    ensures
        first_key(s, key) == first_key(s.subrange(0, k), key),
    decreases s.len() - k,
{
    if k < s.len() {
        assert(s.subrange(0, k + 1).drop_last() =~= s.subrange(0, k));
        lemma_first_key_prefix(s, k + 1, key);
    } else {
        assert(s.subrange(0, k) =~= s);
    }
}

pub(crate) fn label_put(labels: &mut Vec<(Vec<char>, usize)>, l: Vec<char>, v: usize)
    ensures
        labels_view(final(labels)@) == assoc_put(labels_view(old(labels)@), l@, v),
{
    let ghost lv = labels_view(labels@);
    let mut i: usize = 0;
    while i < labels.len()
        invariant
            lv == labels_view(labels@),
            labels@ == old(labels)@,
            i <= labels.len(),
            first_key(lv.subrange(0, i as int), l@) is None,
        decreases labels.len() - i,
    {
        assert(lv.subrange(0, i + 1).drop_last() =~= lv.subrange(0, i as int));
        if chars_eq(&labels[i].0, &l) {
            assert(first_key(lv.subrange(0, i + 1), l@) == Some(i as int));
            proof {
                lemma_first_key_prefix(lv, i as int + 1, l@);
            }
            let ghost lview = l@;
            labels.set(i, (l, v));
            assert(labels_view(labels@) =~= lv.update(i as int, (lview, v)));
            return;
        }
        i = i + 1;
    }
    assert(lv.subrange(0, i as int) =~= lv);
    let ghost lview = l@;
    labels.push((l, v));
    assert(labels_view(labels@) =~= lv.push((lview, v)));
}

proof fn lemma_resolve_prefix(b: BuilderV, k: int)
    requires
        0 <= k <= b.pending.len(),
        resolve(b, k) is Err,
    ensures
        resolve(b, b.pending.len() as int) == resolve(b, k),
    decreases b.pending.len() - k,
{
    if k < b.pending.len() {
        lemma_resolve_prefix(b, k + 1);
    }
}

struct AsmState {
    name: Option<Vec<char>>,
    constants: Vec<Value>,
    capabilities: Vec<CapabilityDecl>,
    functions: Vec<Function>,
    exports: Vec<(String, usize)>,
    current: Option<Builder>,
}

impl View for AsmState {
    type V = AsmV;

    closed spec fn view(&self) -> AsmV {
        AsmV {
            name: match self.name {
                Some(n) => Some(n@),
                None => None,
            },
            constants: values_view(self.constants@),
            capabilities: capabilities_view(self.capabilities@),
            functions: functions_view(self.functions@),
            exports: exports_view(self.exports@),
            current: match self.current {
                Some(b) => Some(b@),
                None => None,
            },
        }
    }
}

fn finish_exec(st: &mut AsmState, n: usize, b: Builder) -> (r: Result<(), AsmError>)
    ensures
        match r {
            Ok(()) => finish(old(st)@, n, b@) == Ok::<AsmV, AsmErrorV>(final(st)@),
            Err(e) => finish(old(st)@, n, b@) == Err::<AsmV, AsmErrorV>(e@),
        },
{
    let ghost bv = b@;
    let mut code: Vec<Instruction> = Vec::new();
    let mut lines_out: Vec<Option<usize>> = Vec::new();
    let mut i: usize = 0;
    assert(instructions_view(code@) =~= Seq::<InstructionV>::empty());
    assert(lines_out@ =~= bv.pending.subrange(0, 0).map_values(|p: (usize, PendingV)| Some(p.0)));
    while i < b.pending.len()
        invariant
            bv == b@,
            bv.pending.len() == b.pending.len(),
            i <= b.pending.len(),
            resolve(bv, i as int) == Ok::<Seq<InstructionV>, AsmErrorV>(instructions_view(code@)),
            lines_out@ == bv.pending.subrange(0, i as int).map_values(|p: (usize, PendingV)| Some(p.0)),
        decreases b.pending.len() - i,
    {
        assert(bv.pending[i as int] == (b.pending@[i as int].0, b.pending@[i as int].1@));
        let line = b.pending[i].0;
        let ins = match &b.pending[i].1 {
            Pending::Ready(ins) => ins.clone(),
            Pending::Jump(l) => match label_get(&b.labels, l) {
                Some(t) => Instruction::Jump { target: t },
                None => {
                    proof {
                        lemma_resolve_prefix(bv, i as int + 1);
                    }
                    return Err(fail_line(line, msg_with("unknown label ", l)));
                },
            },
            Pending::JumpIf(c, l) => match label_get(&b.labels, l) {
                Some(t) => Instruction::JumpIf { cond: *c, target: t },
                None => {
                    proof {
                        lemma_resolve_prefix(bv, i as int + 1);
                    }
                    return Err(fail_line(line, msg_with("unknown label ", l)));
                },
            },
        };
        let ghost before = instructions_view(code@);
        code.push(ins);
        lines_out.push(Some(line));
        assert(instructions_view(code@) =~= before.push(ins@));
        assert(lines_out@ =~= bv.pending.subrange(0, i + 1).map_values(|p: (usize, PendingV)| Some(p.0)));
        i = i + 1;
    }
    assert(bv.pending.subrange(0, i as int) =~= bv.pending);
    if code.len() == 0 {
        return Err(fail_line(n, String::from_str("function has no instructions")));
    }
    let f = Function { name: string_of_chars(&b.name), registers: b.registers, arity: b.arity, code, source_lines: lines_out };
    let ghost fns = functions_view(st.functions@);
    st.functions.push(f);
    st.current = None;
    assert(functions_view(st.functions@) =~= fns.push(f@));
    Ok(())
}



spec fn line_matches(r: Out<()>, out: AsmOut<AsmV>, st: AsmV) -> bool {
    match (r, out) {
        (Out::Done(()), AsmOut::Done(s2)) => st == s2,
        (Out::Fail(e), AsmOut::Fail(f)) => e@ == f,
        (Out::Float(t), AsmOut::Float(u)) => t@ == u,
        _ => false,
    }
}

fn directive_exec(st: &mut AsmState, n: usize, line: &Vec<char>, Ghost(fl): Ghost<Seq<(Seq<char>, Option<u64>)>>) -> (r: Out<()>)
    requires
        old(st)@.current is None,
        line@.len() > 0,
        line@ != ".end"@,
    ensures
        line_matches(r, asm_stripped(old(st)@, n, line@, fl), final(st)@),
{
    proof {
        reveal(asm_stripped);
        reveal_strlit(".module ");
        reveal_strlit(".cap ");
        reveal_strlit(".fn ");
        reveal_strlit(".export ");
    }
    if has_prefix_exec(line, ".module ") {
        let rest = strip_all_exec(line, ".module ");
        let t = trim_chars(&rest);
        match unquote_exec(&t) {
            Some(name) => {
                st.name = Some(name);
                Out::Done(())
            },
            None => Out::Fail(fail_line(n, String::from_str("expected quoted string"))),
        }
    } else if has_prefix_exec(line, ".cap ") {
        let rest = strip_all_exec(line, ".cap ");
        let t = trim_chars(&rest);
        match cap_decl_exec(&t, true) {
            Ok(d) => {
                let ghost caps = capabilities_view(st.capabilities@);
                st.capabilities.push(d);
                assert(capabilities_view(st.capabilities@) =~= caps.push(d@));
                Out::Done(())
            },
            Err(m) => Out::Fail(fail_line(n, m)),
        }
    } else if has_prefix_exec(line, ".fn ") {
        match header_exec(n, line) {
            Ok(b) => {
                st.current = Some(b);
                Out::Done(())
            },
            Err(e) => Out::Fail(e),
        }
    } else if has_prefix_exec(line, ".export ") {
        let rest = strip_all_exec(line, ".export ");
        let t = trim_chars(&rest);
        insert_export(&mut st.exports, string_of_chars(&t), usize::MAX);
        Out::Done(())
    } else {
        Out::Fail(fail_line(n, String::from_str("expected .module, .cap, .fn, or .export")))
    }
}


fn line_exec(st: &mut AsmState, n: usize, raw: &Vec<char>, fl: &Vec<(String, Option<u64>)>) -> (r: Out<()>)
    ensures
        line_matches(r, asm_line(old(st)@, n, raw@, float_table_view(fl@)), final(st)@),
{
    let ghost s0 = st@;
    let ghost flv = float_table_view(fl@);
    proof {
        reveal(asm_stripped);
    }
    let stripped = strip_comment_exec(raw);
    let line = trim_chars(&stripped);
    assert(line@ == trim(strip_comment(raw@)));
    if line.len() == 0 {
        return Out::Done(());
    }
    if chars_are(&line, ".end") {
        let cur = st.current.take();
        return match cur {
            None => Out::Fail(fail_line(n, String::from_str(".end without .fn"))),
            Some(b) => {
                let ghost s1 = st@;
                assert(s1 == AsmV { current: None, ..s0 });
                match finish_exec(st, n, b) {
                    Ok(()) => Out::Done(()),
                    Err(e) => Out::Fail(e),
                }
            },
        };
    }
    if st.current.is_none() {
        return directive_exec(st, n, &line, Ghost(flv));
    }
    let cur = st.current.take();
    let mut b = match cur {
        Some(b) => b,
        None => return Out::Fail(fail_line(n, String::from_str(".end without .fn"))),
    };
    let ghost bv = b@;
    if line[line.len() - 1] == ':' {
        let head = slice_chars(&line, 0, line.len() - 1);
        assert(head@ =~= line@.drop_last());
        let label = trim_chars(&head);
        let at = b.pending.len();
        label_put(&mut b.labels, label, at);
        st.current = Some(b);
        proof {
            assert(b@.labels == assoc_put(bv.labels, trim(line@.drop_last()), bv.pending.len() as usize));
            assert(b@ == BuilderV { labels: assoc_put(bv.labels, trim(line@.drop_last()), bv.pending.len() as usize), ..bv });
        }
        Out::Done(())
    } else {
        match instr_exec(n, &line, &mut st.constants, fl) {
            Out::Fail(e) => Out::Fail(e),
            Out::Float(t) => Out::Float(t),
            Out::Done(p) => {
                let ghost pend = pending_view(b.pending@);
                b.pending.push((n, p));
                assert(pending_view(b.pending@) =~= pend.push((n, p@)));
                st.current = Some(b);
                Out::Done(())
            },
        }
    }
}


proof fn lemma_fold_stops(ls: Seq<Seq<char>>, k: int, fl: Seq<(Seq<char>, Option<u64>)>)
    requires
        0 <= k <= ls.len(),
        !(asm_fold(ls, k, fl) is Done),
    ensures
        asm_fold(ls, ls.len() as int, fl) == asm_fold(ls, k, fl),
    decreases ls.len() - k,
{
    if k < ls.len() {
        lemma_fold_stops(ls, k + 1, fl);
    }
}

proof fn lemma_fold_next(ls: Seq<Seq<char>>, k: int, fl: Seq<(Seq<char>, Option<u64>)>)
    requires
        0 <= k < ls.len(),
        asm_fold(ls, k, fl) is Done,
        k + 1 <= usize::MAX,
    ensures
        asm_fold(ls, k + 1, fl) == asm_line(asm_fold(ls, k, fl)->Done_0, (k + 1) as usize, ls[k], fl),
{
}

proof fn lemma_assemble_stops(source: Seq<char>, fl: Seq<(Seq<char>, Option<u64>)>)
    requires
        !(asm_fold(lines(source), lines(source).len() as int, fl) is Done),
    ensures
        asm_fold(lines(source), lines(source).len() as int, fl) is Fail ==> assemble(source, fl) == AsmOut::<ModuleV>::Fail(
            asm_fold(lines(source), lines(source).len() as int, fl)->Fail_0,
        ),
        asm_fold(lines(source), lines(source).len() as int, fl) is Float ==> assemble(source, fl) == AsmOut::<ModuleV>::Float(
            asm_fold(lines(source), lines(source).len() as int, fl)->Float_0,
        ),
{
}

proof fn lemma_resolve_exports_stops(fs: Seq<FunctionV>, es: Seq<(Seq<char>, usize)>, k: int)
    requires
        0 <= k <= es.len(),
        resolve_exports(fs, es, k) is Err,
    ensures
        resolve_exports(fs, es, es.len() as int) == resolve_exports(fs, es, k),
    decreases es.len() - k,
{
    if k < es.len() {
        lemma_resolve_exports_stops(fs, es, k + 1);
    }
}

proof fn lemma_resolve_exports_len(fs: Seq<FunctionV>, es: Seq<(Seq<char>, usize)>, k: int)
    requires
        0 <= k <= es.len(),
        resolve_exports(fs, es, k) is Ok,
    ensures
        resolve_exports(fs, es, k)->Ok_0.len() == es.len(),
        forall|j: int| k <= j < es.len() ==> #[trigger] resolve_exports(fs, es, k)->Ok_0[j] == es[j],
    decreases k,
{
    if k > 0 {
        lemma_resolve_exports_len(fs, es, k - 1);
    }
}

/// The assembler: text in the assembly language to a module.
pub struct Assembler;

pub open spec fn assembly_matches(r: Assembly, out: AsmOut<ModuleV>) -> bool {
    match (r, out) {
        (Assembly::Done(Ok(m)), AsmOut::Done(mv)) => m@ == mv,
        (Assembly::Done(Err(e)), AsmOut::Fail(f)) => e@ == f,
        (Assembly::NeedsFloat(t), AsmOut::Float(u)) => t@ == u,
        _ => false,
    }
}

impl Assembler {
    /// Assembles `source` into a module. `floats` gives, for each floating-point literal that
    /// has been read as a number, its bits (`None` where the text is no number); a literal that
    /// it lacks is handed back to be read.
    pub fn parse(source: &str, floats: &Vec<(String, Option<u64>)>) -> (r: Assembly)
        ensures
            assembly_matches(r, assemble(source@, float_table_view(floats@))),
    {
        let ghost flv = float_table_view(floats@);
        let cs = crate::syntax::chars_of(source);
        let ls = crate::syntax::lines_of(&cs);
        let ghost lsv = lines(source@);
        assert(lsv == ls@.map_values(|l: Vec<char>| l@));
        let mut st = AsmState {
            name: None,
            constants: Vec::new(),
            capabilities: Vec::new(),
            functions: Vec::new(),
            exports: Vec::new(),
            current: None,
        };
        assert(st@ == empty_asm()) by {
            assert(values_view(st.constants@) =~= Seq::<ValueV>::empty());
            assert(capabilities_view(st.capabilities@) =~= Seq::<CapabilityDeclV>::empty());
            assert(functions_view(st.functions@) =~= Seq::<FunctionV>::empty());
            assert(exports_view(st.exports@) =~= Seq::<(Seq<char>, usize)>::empty());
        }
        let mut k: usize = 0;
        while k < ls.len()
            invariant
                k <= ls.len(),
                lsv == lines(source@),
                lsv == ls@.map_values(|l: Vec<char>| l@),
                flv == float_table_view(floats@),
                asm_fold(lsv, k as int, flv) == AsmOut::<AsmV>::Done(st@),
            decreases ls.len() - k,
        {
            assert(lsv[k as int] == ls@[k as int]@);
            proof {
                lemma_fold_next(lsv, k as int, flv);
            }
            let r = line_exec(&mut st, k + 1, &ls[k], floats);
            assert(line_matches(r, asm_fold(lsv, k + 1, flv), st@));
            match r {
                Out::Done(()) => {},
                Out::Fail(e) => {
                    assert(asm_fold(lsv, k + 1, flv) == AsmOut::<AsmV>::Fail(e@));
                    proof {
                        lemma_fold_stops(lsv, k + 1, flv);
                        lemma_assemble_stops(source@, flv);
                    }
                    return Assembly::Done(Err(e));
                },
                Out::Float(t) => {
                    proof {
                        lemma_fold_stops(lsv, k + 1, flv);
                        lemma_assemble_stops(source@, flv);
                    }
                    return Assembly::NeedsFloat(string_of_chars(&t));
                },
            }
            k = k + 1;
        }
        if st.current.is_some() {
            return Assembly::Done(Err(fail_line(ls.len(), String::from_str("function missing .end"))));
        }
        let name = match st.name {
            None => return Assembly::Done(Err(AsmError::MissingModule)),
            Some(n) => n,
        };
        let ghost fs = functions_view(st.functions@);
        let mut exports = st.exports;
        let ghost e0 = exports_view(exports@);
        let mut i: usize = 0;
        while i < st.functions.len()
            invariant
                i <= st.functions.len(),
                fs == functions_view(st.functions@),
                exports_view(exports@) == export_pass(fs, e0, i as int),
            decreases st.functions.len() - i,
        {
            assert(fs[i as int].name == st.functions@[i as int].name@);
            let fname = st.functions[i].name.as_str();
            let known = export_lookup(&exports, fname).is_some();
            if known || exports.len() == 0 || str_eq(fname, "main") {
                insert_export(&mut exports, st.functions[i].name.clone(), i);
            }
            i = i + 1;
        }
        let ghost e1 = exports_view(exports@);
        let ghost outcome = match resolve_exports(fs, e1, e1.len() as int) {
            Err(e) => AsmOut::Fail(e),
            Ok(x) => AsmOut::Done(
                ModuleV {
                    name: name@,
                    constants: values_view(st.constants@),
                    capabilities: capabilities_view(st.capabilities@),
                    functions: fs,
                    exports: x,
                },
            ),
        };
        assert(assemble(source@, flv) == outcome);
        let mut j: usize = 0;
        while j < exports.len()
            invariant
                j <= exports.len(),
                flv == float_table_view(floats@),
                assemble(source@, flv) == outcome,
                outcome == (match resolve_exports(fs, e1, e1.len() as int) {
                    Err(e) => AsmOut::Fail(e),
                    Ok(x) => AsmOut::<ModuleV>::Done(
                        ModuleV {
                            name: name@,
                            constants: values_view(st.constants@),
                            capabilities: capabilities_view(st.capabilities@),
                            functions: fs,
                            exports: x,
                        },
                    ),
                }),
                e1.len() == exports.len(),
                fs == functions_view(st.functions@),
                resolve_exports(fs, e1, j as int) == Ok::<Seq<(Seq<char>, usize)>, AsmErrorV>(exports_view(exports@)),
            decreases exports.len() - j,
        {
            proof {
                lemma_resolve_exports_len(fs, e1, j as int);
            }
            let ghost prev = exports_view(exports@);
            assert(prev[j as int] == (exports@[j as int].0@, exports@[j as int].1));
            if exports[j].1 == usize::MAX {
                match function_position(&st.functions, exports[j].0.as_str()) {
                    Some(p) => {
                        let key = exports[j].0.clone();
                        exports.set(j, (key, p));
                        assert(exports_view(exports@) =~= prev.update(j as int, (prev[j as int].0, p)));
                    },
                    None => {
                        proof {
                            lemma_resolve_exports_stops(fs, e1, j as int + 1);
                        }
                        let msg = crate::syntax::msg_with("export ", &crate::syntax::chars_of(exports[j].0.as_str()));
                        let mut msg = msg;
                        msg.append(" does not name a function");
                        return Assembly::Done(Err(fail_line(0, msg)));
                    },
                }
            }
            j = j + 1;
        }
        proof {
            lemma_resolve_exports_len(fs, e1, j as int);
        }
        let m = Module {
            name: string_of_chars(&name),
            constants: st.constants,
            capabilities: st.capabilities,
            functions: st.functions,
            exports,
        };
        Assembly::Done(Ok(m))
    }
}

} // verus!
