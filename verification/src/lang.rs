use vstd::prelude::*;
use crate::assembler::assoc_get;
use crate::bytecode::{CapabilityDeclV, FunctionV, InstructionV, ModuleV};
use crate::checks::verify_module;
use crate::codec::export_insert;
use crate::error::{ChronicleErrorV, VerifyErrorV};
use crate::syntax::{cap_decl, find_char, has_prefix, lines, split_args, strip_comment, trim, unquote, valid_cap_name};
use crate::value::{ValueType, ValueV, value_eq};
use crate::text::{decimal, signed_decimal};

verus! {

// ---------------------------------------------------------------------------------------
// The model of a program in the plugin language

/// A failure to compile.
pub enum LangErrorV {
    Line { line: usize, message: Seq<char> },
    MissingModule,
    MissingFunction,
    Verify(ChronicleErrorV),
}

/// An outcome that may instead ask for the reading of a literal with a decimal point.
pub enum LangOut<T> {
    Done(T),
    Fail(LangErrorV),
    Float(Seq<char>),
}

/// The binary operators, from the loosest binding to the tightest.
#[derive(Clone, Copy, Debug, PartialEq, Eq, Structural)]
pub enum BinaryOp {
    Or,
    And,
    Eq,
    Neq,
    Lte,
    Gte,
    Lt,
    Gt,
    Add,
    Sub,
    Mul,
    Div,
}

pub enum ExprV {
    Literal(ValueV),
    Var(Seq<char>),
    Not(Box<ExprV>),
    Binary(BinaryOp, Box<ExprV>, Box<ExprV>),
    Array(Seq<ExprV>),
    CapCall(Seq<char>, Seq<ExprV>),
    Call(Seq<char>, Seq<ExprV>),
}

/// A statement, with the line it starts on.
pub enum StmtV {
    Let(usize, Seq<char>, ExprV),
    Expr(usize, ExprV),
    Return(usize, ExprV),
    If(usize, ExprV, Seq<StmtV>, Seq<StmtV>),
    While(usize, ExprV, Seq<StmtV>),
}

pub open spec fn stmt_line(s: StmtV) -> usize {
    match s {
        StmtV::Let(l, _, _) => l,
        StmtV::Expr(l, _) => l,
        StmtV::Return(l, _) => l,
        StmtV::If(l, _, _, _) => l,
        StmtV::While(l, _, _) => l,
    }
}

/// A function as written: its line, name, parameters and body.
pub struct SrcFnV {
    pub line: usize,
    pub name: Seq<char>,
    pub params: Seq<Seq<char>>,
    pub body: Seq<StmtV>,
}

/// What a literal with a decimal point reads as: its bits and its shortest text, or nothing
/// when it is no number.
pub type FloatTable = Seq<(Seq<char>, Option<(u64, Seq<char>)>)>;

pub open spec fn lerr(n: usize, m: Seq<char>) -> LangErrorV {
    LangErrorV::Line { line: n, message: m }
}

// ---------------------------------------------------------------------------------------
// Lines

pub open spec fn logical_fold(ls: Seq<Seq<char>>, k: int) -> Seq<(usize, Seq<char>)>
    decreases k,
{
    if k <= 0 {
        Seq::empty()
    } else {
        let prev = logical_fold(ls, k - 1);
        let t = trim(strip_comment(ls[k - 1]));
        if t.len() == 0 {
            prev
        } else {
            prev.push((k as usize, t))
        }
    }
}

/// The lines of `source` that hold something once comments and blanks are gone, with their
/// numbers.
pub open spec fn logical_lines(source: Seq<char>) -> Seq<(usize, Seq<char>)> {
    logical_fold(lines(source), lines(source).len() as int)
}

/// A line that opens a block.
pub open spec fn starts_block(t: Seq<char>) -> bool {
    has_prefix(t, "if "@) || has_prefix(t, "while "@)
}

// ---------------------------------------------------------------------------------------
// Names

pub open spec fn is_ascii_alpha(c: char) -> bool {
    ('a' <= c && c <= 'z') || ('A' <= c && c <= 'Z')
}

/// An identifier: a letter or `_`, then letters, digits and `_`.
pub open spec fn is_valid_ident(s: Seq<char>) -> bool {
    &&& s.len() > 0
    &&& (s[0] == '_' || is_ascii_alpha(s[0]))
    &&& forall|i: int| 1 <= i < s.len() ==> ({
        let c = #[trigger] s[i];
        c == '_' || is_ascii_alpha(c) || ('0' <= c && c <= '9')
    })
}

pub open spec fn ident_or_fail(n: usize, s: Seq<char>) -> Result<Seq<char>, LangErrorV> {
    if is_valid_ident(s) {
        Ok(s)
    } else {
        Err(lerr(n, "invalid identifier "@ + s))
    }
}

/// A module name: a quoted string or an identifier.
pub open spec fn name_or_string(n: usize, t: Seq<char>) -> Result<Seq<char>, LangErrorV> {
    if t.len() > 0 && t[0] == '"' {
        match unquote(t) {
            Some(s) => Ok(s),
            None => Err(lerr(n, "expected quoted string"@)),
        }
    } else {
        ident_or_fail(n, t)
    }
}

/// The first of `ps` that is no identifier.
pub open spec fn first_bad_ident(ps: Seq<Seq<char>>) -> Option<int>
    decreases ps.len(),
{
    if ps.len() == 0 {
        None
    } else {
        match first_bad_ident(ps.drop_last()) {
            Some(i) => Some(i),
            None => if is_valid_ident(ps.last()) {
                None
            } else {
                Some(ps.len() - 1)
            },
        }
    }
}

/// A function header `name` or `name(params)`.
pub open spec fn fn_header(n: usize, t: Seq<char>) -> Result<(Seq<char>, Seq<Seq<char>>), LangErrorV> {
    match find_char(t, '(') {
        Some(open) => if !(t.len() > 0 && t.last() == ')') {
            Err(lerr(n, "function header missing ')'"@))
        } else {
            let name = trim(t.subrange(0, open));
            if !is_valid_ident(name) {
                Err(lerr(n, "invalid identifier "@ + name))
            } else {
                match split_args(t.subrange(open + 1, t.len() - 1)) {
                    None => Err(lerr(n, "unterminated expression list"@)),
                    Some(ps) => match first_bad_ident(ps) {
                        Some(i) => Err(lerr(n, "invalid identifier "@ + ps[i])),
                        None => Ok((name, ps)),
                    },
                }
            }
        },
        None => if is_valid_ident(t) {
            Ok((t, Seq::empty()))
        } else {
            Err(lerr(n, "invalid identifier "@ + t))
        },
    }
}

// ---------------------------------------------------------------------------------------
// Expressions

pub struct ScanState {
    pub in_str: bool,
    pub depth: nat,
}

/// The string and bracket state after one more character.
pub open spec fn scan_step(st: ScanState, c: char) -> ScanState {
    if c == '"' {
        ScanState { in_str: !st.in_str, ..st }
    } else if (c == '[' || c == '(') && !st.in_str {
        ScanState { depth: st.depth + 1, ..st }
    } else if (c == ']' || c == ')') && !st.in_str {
        ScanState { depth: if st.depth > 0 { (st.depth - 1) as nat } else { 0 }, ..st }
    } else {
        st
    }
}

pub open spec fn op_needle(op: BinaryOp) -> Seq<char> {
    match op {
        BinaryOp::Or => " or "@,
        BinaryOp::And => " and "@,
        BinaryOp::Eq => " == "@,
        BinaryOp::Neq => " != "@,
        BinaryOp::Lte => " <= "@,
        BinaryOp::Gte => " >= "@,
        BinaryOp::Lt => " < "@,
        BinaryOp::Gt => " > "@,
        BinaryOp::Add => " + "@,
        BinaryOp::Sub => " - "@,
        BinaryOp::Mul => " * "@,
        BinaryOp::Div => " / "@,
    }
}

/// The number of precedence levels of binary operators.
pub open spec fn level_count() -> int {
    5
}

/// The operators of a precedence level, from the loosest (`or`) to the tightest (`*` and
/// `/`).
pub open spec fn level_ops(level: int) -> Seq<BinaryOp> {
    if level == 0 {
        seq![BinaryOp::Or]
    } else if level == 1 {
        seq![BinaryOp::And]
    } else if level == 2 {
        seq![BinaryOp::Eq, BinaryOp::Neq, BinaryOp::Lte, BinaryOp::Gte, BinaryOp::Lt, BinaryOp::Gt]
    } else if level == 3 {
        seq![BinaryOp::Add, BinaryOp::Sub]
    } else {
        seq![BinaryOp::Mul, BinaryOp::Div]
    }
}

/// Whether `needle` occurs in `s` at `i`.
pub open spec fn needle_at(s: Seq<char>, i: int, needle: Seq<char>) -> bool {
    0 <= i && i + needle.len() <= s.len() && s.subrange(i, i + needle.len()) == needle
}

/// The first of `ops`, from the `j`-th on, whose spelling occurs in `s` at `i`.
pub open spec fn op_starting(s: Seq<char>, i: int, ops: Seq<BinaryOp>, j: int) -> Option<BinaryOp>
    decreases ops.len() - j,
{
    if j < 0 || j >= ops.len() {
        None
    } else if needle_at(s, i, op_needle(ops[j])) {
        Some(ops[j])
    } else {
        op_starting(s, i, ops, j + 1)
    }
}

/// The last operator of `level` found from position `i` on, outside strings and brackets,
/// given the state of the scan before `i` and the last one found before `i`.
pub open spec fn last_scan(s: Seq<char>, level: int, i: int, st: ScanState, found: Option<(BinaryOp, int)>) -> Option<(BinaryOp, int)>
    decreases s.len() - i,
{
    if i < 0 || i >= s.len() {
        found
    } else {
        let st2 = scan_step(st, s[i]);
        let here = if !st2.in_str && st2.depth == 0 {
            match op_starting(s, i, level_ops(level), 0) {
                Some(op) => Some((op, i)),
                None => found,
            }
        } else {
            found
        };
        last_scan(s, level, i + 1, st2, here)
    }
}

/// The rightmost operator of `level` at the top level of `s`, and where it starts.
pub open spec fn level_split(s: Seq<char>, level: int) -> Option<(BinaryOp, int)> {
    last_scan(s, level, 0, ScanState { in_str: false, depth: 0 }, None)
}

/// Where `s` splits into two operands: at the rightmost top-level operator of the loosest
/// precedence level, from level `k` on, that occurs in `s`; so operators of one level group
/// to the left.
pub open spec fn operator_split(s: Seq<char>, k: int) -> Option<(BinaryOp, int)>
    decreases level_count() - k,
{
    if k < 0 || k >= level_count() {
        None
    } else {
        match level_split(s, k) {
            Some(x) => Some(x),
            None => operator_split(s, k + 1),
        }
    }
}

pub struct ParenState {
    pub in_str: bool,
    pub depth: nat,
    pub broken: bool,
}

/// Whether the parentheses that open and close `t` match each other, read over the first
/// `k` characters.
pub open spec fn paren_scan(t: Seq<char>, k: int) -> ParenState
    decreases k,
{
    if k <= 0 {
        ParenState { in_str: false, depth: 0, broken: false }
    } else {
        let st = paren_scan(t, k - 1);
        let c = t[k - 1];
        if st.broken {
            st
        } else if c == '"' {
            ParenState { in_str: !st.in_str, ..st }
        } else if c == '(' && !st.in_str {
            ParenState { depth: st.depth + 1, ..st }
        } else if c == ')' && !st.in_str {
            let d: nat = if st.depth > 0 { (st.depth - 1) as nat } else { 0 };
            ParenState { depth: d, broken: d == 0 && k - 1 != t.len() - 1, ..st }
        } else {
            st
        }
    }
}

pub open spec fn wrapped(t: Seq<char>) -> bool {
    t.len() >= 2 && t[0] == '(' && t.last() == ')' && !paren_scan(t, t.len() as int).broken
}

/// `s` trimmed, without the parentheses that wrap all of it.
pub open spec fn strip_parens(s: Seq<char>) -> Seq<char>
    decreases s.len(),
{
    let t = trim(s);
    if wrapped(t) && t.len() <= s.len() {
        strip_parens(t.subrange(1, t.len() - 1))
    } else {
        t
    }
}

/// A literal token, a variable, or the failure of a token that is neither.
pub open spec fn atom_of(n: usize, s: Seq<char>, fl: FloatTable) -> LangOut<ExprV> {
    if s == "nil"@ {
        LangOut::Done(ExprV::Literal(ValueV::Nil))
    } else if s == "true"@ {
        LangOut::Done(ExprV::Literal(ValueV::Bool(true)))
    } else if s == "false"@ {
        LangOut::Done(ExprV::Literal(ValueV::Bool(false)))
    } else if s.len() > 0 && s[0] == '"' {
        match unquote(s) {
            Some(t) => LangOut::Done(ExprV::Literal(ValueV::String(t))),
            None => LangOut::Fail(lerr(n, "expected quoted string"@)),
        }
    } else if s.contains('.') && assoc_get(fl, s) is None {
        LangOut::Float(s)
    } else if s.contains('.') && assoc_get(fl, s) matches Some(Some(_)) {
        LangOut::Done(ExprV::Literal(ValueV::F64(assoc_get(fl, s)->Some_0->Some_0.0)))
    } else {
        match crate::syntax::parse_i64(s) {
            Some(i) => LangOut::Done(ExprV::Literal(ValueV::I64(i))),
            None => if is_valid_ident(s) {
                LangOut::Done(ExprV::Var(s))
            } else {
                LangOut::Fail(lerr(n, "invalid identifier "@ + s))
            },
        }
    }
}

/// A call shape `name(args)`: its name and the text of its arguments.
pub open spec fn call_shape(s: Seq<char>) -> Option<(Seq<char>, Seq<char>)> {
    match find_char(s, '(') {
        None => None,
        Some(open) => if !(s.len() > 0 && s.last() == ')') {
            None
        } else {
            let name = trim(s.subrange(0, open));
            if !is_valid_ident(name) {
                None
            } else {
                Some((name, s.subrange(open + 1, s.len() - 1)))
            }
        },
    }
}

/// A capability call `cap id(args)` after `cap `: its id and the text of its arguments.
pub open spec fn cap_shape(n: usize, s: Seq<char>) -> Result<(Seq<char>, Seq<char>), LangErrorV> {
    match find_char(s, '(') {
        None => Err(lerr(n, "capability call expects name(args)"@)),
        Some(open) => if !(s.len() > 0 && s.last() == ')') {
            Err(lerr(n, "capability call missing closing ')'"@))
        } else {
            let name = trim(s.subrange(0, open));
            if !valid_cap_name(name) {
                Err(lerr(n, "invalid capability name "@ + name))
            } else {
                Ok((name, s.subrange(open + 1, s.len() - 1)))
            }
        },
    }
}

/// The expression that `input` denotes on line `n`. `fuel` bounds the depth of nesting; the
/// length of `input` is always enough, as each part read is shorter than the whole.
pub open spec fn parse_expr(n: usize, input: Seq<char>, fl: FloatTable, fuel: nat) -> LangOut<ExprV>
    decreases fuel, 2nat, 0nat,
{
    let s = strip_parens(input);
    match operator_split(s, 0) {
        Some((op, i)) => match parse_sub(n, s.subrange(0, i), fl, fuel) {
            LangOut::Done(l) => match parse_sub(n, s.subrange(i + op_needle(op).len(), s.len() as int), fl, fuel) {
                LangOut::Done(r) => LangOut::Done(ExprV::Binary(op, Box::new(l), Box::new(r))),
                LangOut::Fail(e) => LangOut::Fail(e),
                LangOut::Float(t) => LangOut::Float(t),
            },
            LangOut::Fail(e) => LangOut::Fail(e),
            LangOut::Float(t) => LangOut::Float(t),
        },
        None => if has_prefix(s, "not "@) {
            match parse_sub(n, s.subrange(4, s.len() as int), fl, fuel) {
                LangOut::Done(e) => LangOut::Done(ExprV::Not(Box::new(e))),
                LangOut::Fail(e) => LangOut::Fail(e),
                LangOut::Float(t) => LangOut::Float(t),
            }
        } else if s.len() >= 2 && s[0] == '[' && s.last() == ']' {
            match split_args(s.subrange(1, s.len() - 1)) {
                None => LangOut::Fail(lerr(n, "unterminated expression list"@)),
                Some(items) => match parse_list(n, items, fl, fuel, items.len()) {
                    LangOut::Done(es) => LangOut::Done(ExprV::Array(es)),
                    LangOut::Fail(e) => LangOut::Fail(e),
                    LangOut::Float(t) => LangOut::Float(t),
                },
            }
        } else if has_prefix(s, "cap "@) {
            match cap_shape(n, trim(s.subrange(4, s.len() as int))) {
                Err(e) => LangOut::Fail(e),
                Ok((name, inner)) => match split_args(inner) {
                    None => LangOut::Fail(lerr(n, "unterminated expression list"@)),
                    Some(items) => match parse_list(n, items, fl, fuel, items.len()) {
                        LangOut::Done(es) => LangOut::Done(ExprV::CapCall(name, es)),
                        LangOut::Fail(e) => LangOut::Fail(e),
                        LangOut::Float(t) => LangOut::Float(t),
                    },
                },
            }
        } else {
            match call_shape(s) {
                Some((name, inner)) => match split_args(inner) {
                    None => LangOut::Fail(lerr(n, "unterminated expression list"@)),
                    Some(items) => match parse_list(n, items, fl, fuel, items.len()) {
                        LangOut::Done(es) => if name == "print"@ {
                            LangOut::Done(ExprV::CapCall("log.print@1"@, es))
                        } else {
                            LangOut::Done(ExprV::Call(name, es))
                        },
                        LangOut::Fail(e) => LangOut::Fail(e),
                        LangOut::Float(t) => LangOut::Float(t),
                    },
                },
                None => atom_of(n, s, fl),
            }
        }
    }
}

/// A part of an expression, one level deeper.
pub open spec fn parse_sub(n: usize, x: Seq<char>, fl: FloatTable, fuel: nat) -> LangOut<ExprV>
    decreases fuel, 0nat, 0nat,
{
    if fuel == 0 {
        LangOut::Fail(lerr(n, "expression nested too deeply"@))
    } else {
        parse_expr(n, x, fl, (fuel - 1) as nat)
    }
}

/// The first `k` of `items`, each read as an expression one level deeper.
pub open spec fn parse_list(n: usize, items: Seq<Seq<char>>, fl: FloatTable, fuel: nat, k: nat) -> LangOut<Seq<ExprV>>
    decreases fuel, 1nat, k,
{
    if k == 0 || k > items.len() {
        LangOut::Done(Seq::empty())
    } else {
        match parse_list(n, items, fl, fuel, (k - 1) as nat) {
            LangOut::Done(es) => match parse_sub(n, items[k - 1], fl, fuel) {
                LangOut::Done(e) => LangOut::Done(es.push(e)),
                LangOut::Fail(e) => LangOut::Fail(e),
                LangOut::Float(t) => LangOut::Float(t),
            },
            other => other,
        }
    }
}

/// The expression on line `n`.
pub open spec fn expr_of(n: usize, input: Seq<char>, fl: FloatTable) -> LangOut<ExprV> {
    parse_expr(n, input, fl, input.len())
}

// ---------------------------------------------------------------------------------------
// Statements and blocks

/// A simple statement on line `n`: `let name = expr`, `return expr`, or an expression.
pub open spec fn statement_of(n: usize, t: Seq<char>, fl: FloatTable) -> LangOut<StmtV> {
    if has_prefix(t, "let "@) {
        let rest = t.subrange(4, t.len() as int);
        match find_char(rest, '=') {
            None => LangOut::Fail(lerr(n, "let expects name = expression"@)),
            Some(eq) => {
                let name = trim(rest.subrange(0, eq));
                if !is_valid_ident(name) {
                    LangOut::Fail(lerr(n, "invalid identifier "@ + name))
                } else {
                    match expr_of(n, trim(rest.subrange(eq + 1, rest.len() as int)), fl) {
                        LangOut::Done(e) => LangOut::Done(StmtV::Let(n, name, e)),
                        LangOut::Fail(e) => LangOut::Fail(e),
                        LangOut::Float(x) => LangOut::Float(x),
                    }
                }
            },
        }
    } else if has_prefix(t, "return "@) {
        match expr_of(n, trim(t.subrange(7, t.len() as int)), fl) {
            LangOut::Done(e) => LangOut::Done(StmtV::Return(n, e)),
            LangOut::Fail(e) => LangOut::Fail(e),
            LangOut::Float(x) => LangOut::Float(x),
        }
    } else {
        match expr_of(n, t, fl) {
            LangOut::Done(e) => LangOut::Done(StmtV::Expr(n, e)),
            LangOut::Fail(e) => LangOut::Fail(e),
            LangOut::Float(x) => LangOut::Float(x),
        }
    }
}

/// An open block: the function body, the branch before `else`, the branch after it, or a
/// loop body; with the line and condition of the statement that opened it.
pub enum FrameV {
    Top,
    Then(usize, ExprV),
    Else(usize, ExprV, Seq<StmtV>),
    Loop(usize, ExprV),
}

pub type Stack = Seq<(FrameV, Seq<StmtV>)>;

/// `st` with `s` added to the innermost block.
pub open spec fn add_stmt(st: Stack, s: StmtV) -> Stack {
    st.update(st.len() - 1, (st.last().0, st.last().1.push(s)))
}

/// The blocks after the body line `(n, t)`.
pub open spec fn body_step(st: Stack, n: usize, t: Seq<char>, fl: FloatTable) -> LangOut<Stack> {
    let (frame, stmts) = st.last();
    let outer = st.drop_last();
    if t == "end"@ {
        match frame {
            FrameV::Top => LangOut::Fail(lerr(n, "unexpected block terminator"@)),
            FrameV::Then(l, c) => LangOut::Done(add_stmt(outer, StmtV::If(l, c, stmts, Seq::empty()))),
            FrameV::Else(l, c, tb) => LangOut::Done(add_stmt(outer, StmtV::If(l, c, tb, stmts))),
            FrameV::Loop(l, c) => LangOut::Done(add_stmt(outer, StmtV::While(l, c, stmts))),
        }
    } else if t == "else"@ {
        match frame {
            FrameV::Then(l, c) => LangOut::Done(outer.push((FrameV::Else(l, c, stmts), Seq::empty()))),
            _ => LangOut::Fail(lerr(n, "else without matching if"@)),
        }
    } else if has_prefix(t, "if "@) {
        match expr_of(n, trim(t.subrange(3, t.len() as int)), fl) {
            LangOut::Done(c) => LangOut::Done(st.push((FrameV::Then(n, c), Seq::empty()))),
            LangOut::Fail(e) => LangOut::Fail(e),
            LangOut::Float(x) => LangOut::Float(x),
        }
    } else if has_prefix(t, "while "@) {
        match expr_of(n, trim(t.subrange(6, t.len() as int)), fl) {
            LangOut::Done(c) => LangOut::Done(st.push((FrameV::Loop(n, c), Seq::empty()))),
            LangOut::Fail(e) => LangOut::Fail(e),
            LangOut::Float(x) => LangOut::Float(x),
        }
    } else {
        match statement_of(n, t, fl) {
            LangOut::Done(k) => LangOut::Done(add_stmt(st, k)),
            LangOut::Fail(e) => LangOut::Fail(e),
            LangOut::Float(x) => LangOut::Float(x),
        }
    }
}

/// The open blocks after the first `k` body lines.
pub open spec fn body_fold(body: Seq<(usize, Seq<char>)>, k: int, fl: FloatTable) -> LangOut<Stack>
    decreases k,
{
    if k <= 0 {
        LangOut::Done(seq![(FrameV::Top, Seq::<StmtV>::empty())])
    } else {
        match body_fold(body, k - 1, fl) {
            LangOut::Done(st) => if st.len() == 0 {
                LangOut::Done(st)
            } else {
                body_step(st, body[k - 1].0, body[k - 1].1, fl)
            },
            other => other,
        }
    }
}

/// The statements of a function body, or the failure of the first line that breaks it, or the
/// block that is left open.
pub open spec fn body_of(body: Seq<(usize, Seq<char>)>, fl: FloatTable) -> LangOut<Seq<StmtV>> {
    match body_fold(body, body.len() as int, fl) {
        LangOut::Done(st) => if st.len() == 1 {
            LangOut::Done(st[0].1)
        } else if st.len() == 0 {
            LangOut::Done(Seq::empty())
        } else {
            match st.last().0 {
                FrameV::Loop(l, _) => LangOut::Fail(lerr(l, "while missing end"@)),
                FrameV::Then(l, _) => LangOut::Fail(lerr(l, "if missing end"@)),
                FrameV::Else(l, _, _) => LangOut::Fail(lerr(l, "if missing end"@)),
                FrameV::Top => LangOut::Done(st.last().1),
            }
        },
        LangOut::Fail(e) => LangOut::Fail(e),
        LangOut::Float(x) => LangOut::Float(x),
    }
}

// ---------------------------------------------------------------------------------------
// The program

/// A function whose body is being collected.
pub struct OpenFnV {
    pub line: usize,
    pub name: Seq<char>,
    pub params: Seq<Seq<char>>,
    pub depth: nat,
    pub body: Seq<(usize, Seq<char>)>,
}

/// What the parser has read so far.
pub struct ProgV {
    pub name: Option<Seq<char>>,
    pub caps: Seq<CapabilityDeclV>,
    pub functions: Seq<SrcFnV>,
    pub open: Option<OpenFnV>,
}

/// The program after the logical line `(n, t)`.
pub open spec fn prog_step(p: ProgV, n: usize, t: Seq<char>, fl: FloatTable) -> LangOut<ProgV> {
    match p.open {
        Some(o) => if starts_block(t) {
            LangOut::Done(ProgV { open: Some(OpenFnV { depth: o.depth + 1, body: o.body.push((n, t)), ..o }), ..p })
        } else if t == "end"@ && o.depth == 0 {
            match body_of(o.body, fl) {
                LangOut::Done(stmts) => LangOut::Done(
                    ProgV {
                        functions: p.functions.push(SrcFnV { line: o.line, name: o.name, params: o.params, body: stmts }),
                        open: None,
                        ..p
                    },
                ),
                LangOut::Fail(e) => LangOut::Fail(e),
                LangOut::Float(x) => LangOut::Float(x),
            }
        } else if t == "end"@ {
            LangOut::Done(ProgV { open: Some(OpenFnV { depth: (o.depth - 1) as nat, body: o.body.push((n, t)), ..o }), ..p })
        } else {
            LangOut::Done(ProgV { open: Some(OpenFnV { body: o.body.push((n, t)), ..o }), ..p })
        },
        None => if has_prefix(t, "module "@) {
            match name_or_string(n, trim(t.subrange(7, t.len() as int))) {
                Ok(name) => LangOut::Done(ProgV { name: Some(name), ..p }),
                Err(e) => LangOut::Fail(e),
            }
        } else if has_prefix(t, "cap "@) {
            match cap_decl(trim(t.subrange(4, t.len() as int)), false) {
                Ok(d) => LangOut::Done(ProgV { caps: p.caps.push(d), ..p }),
                Err(m) => LangOut::Fail(lerr(n, m)),
            }
        } else if has_prefix(t, "fn "@) {
            match fn_header(n, trim(t.subrange(3, t.len() as int))) {
                Ok((name, params)) => LangOut::Done(
                    ProgV { open: Some(OpenFnV { line: n, name, params, depth: 0, body: Seq::empty() }), ..p },
                ),
                Err(e) => LangOut::Fail(e),
            }
        } else {
            LangOut::Fail(lerr(n, "expected module, cap, or fn"@))
        },
    }
}

pub open spec fn empty_prog() -> ProgV {
    ProgV { name: None, caps: Seq::empty(), functions: Seq::empty(), open: None }
}

pub open spec fn prog_fold(ls: Seq<(usize, Seq<char>)>, k: int, fl: FloatTable) -> LangOut<ProgV>
    decreases k,
{
    if k <= 0 {
        LangOut::Done(empty_prog())
    } else {
        match prog_fold(ls, k - 1, fl) {
            LangOut::Done(p) => prog_step(p, ls[k - 1].0, ls[k - 1].1, fl),
            other => other,
        }
    }
}

/// The program that `source` holds, as written.
pub open spec fn program_of(source: Seq<char>, fl: FloatTable) -> LangOut<ProgV> {
    let ls = logical_lines(source);
    match prog_fold(ls, ls.len() as int, fl) {
        LangOut::Done(p) => match p.open {
            Some(o) => LangOut::Fail(lerr(o.line, "function missing end"@)),
            None => LangOut::Done(p),
        },
        other => other,
    }
}

/// The first function whose name an earlier function already has.
pub open spec fn first_duplicate(fs: Seq<SrcFnV>, k: int) -> Option<int>
    decreases k,
{
    if k <= 0 {
        None
    } else {
        match first_duplicate(fs, k - 1) {
            Some(i) => Some(i),
            None => if exists|j: int| 0 <= j < k - 1 && #[trigger] fs[j].name == fs[k - 1].name {
                Some(k - 1)
            } else {
                None
            },
        }
    }
}

// ---------------------------------------------------------------------------------------
// Compiling a function

/// The state of compiling one function: its own constants, the registers its variables live
/// in, the next free register, and the code with the source line of each instruction.
pub struct CompV {
    pub consts: Seq<ValueV>,
    pub vars: Seq<(Seq<char>, usize)>,
    pub next: usize,
    pub code: Seq<InstructionV>,
    pub lines: Seq<Option<usize>>,
}

/// The declared capability ids and the function names a program has.
pub struct CtxV {
    pub caps: Seq<Seq<char>>,
    pub fnames: Seq<Seq<char>>,
}

pub open spec fn push_ins(c: CompV, n: usize, i: InstructionV) -> CompV {
    CompV {
        code: c.code.push(i),
        lines: c.lines.push(if n == 0 { None } else { Some(n) }),
        ..c
    }
}

/// A fresh register; a function that would need more registers than a `usize` counts is
/// refused.
pub open spec fn fresh_reg(c: CompV, n: usize) -> Result<(CompV, usize), LangErrorV> {
    if c.next == usize::MAX {
        Err(lerr(n, "too many registers"@))
    } else {
        Ok((CompV { next: (c.next + 1) as usize, ..c }, c.next))
    }
}

/// A fresh register loaded with the constant `v`.
pub open spec fn load(c: CompV, v: ValueV, n: usize) -> Result<(CompV, usize), LangErrorV> {
    match fresh_reg(c, n) {
        Err(e) => Err(e),
        Ok((c1, dst)) => {
            let (cs, k) = crate::assembler::intern(c1.consts, v);
            Ok((push_ins(CompV { consts: cs, ..c1 }, n, InstructionV::Const { dst, constant: k }), dst))
        },
    }
}

pub open spec fn retarget(i: InstructionV, target: usize) -> InstructionV {
    match i {
        InstructionV::Jump { .. } => InstructionV::Jump { target },
        InstructionV::JumpIf { cond, .. } => InstructionV::JumpIf { cond, target },
        other => other,
    }
}

/// The jump at `at` sent to `target`.
pub open spec fn patch(c: CompV, at: int, target: usize) -> CompV {
    if 0 <= at < c.code.len() {
        CompV { code: c.code.update(at, retarget(c.code[at], target)), ..c }
    } else {
        c
    }
}

/// `src == false`, into a fresh register.
pub open spec fn compile_not(c: CompV, src: usize, n: usize) -> Result<(CompV, usize), LangErrorV> {
    match load(c, ValueV::Bool(false), n) {
        Err(e) => Err(e),
        Ok((c1, f)) => match fresh_reg(c1, n) {
            Err(e) => Err(e),
            Ok((c2, dst)) => Ok((push_ins(c2, n, InstructionV::Eq { dst, lhs: src, rhs: f }), dst)),
        },
    }
}

/// `lhs and rhs`: false unless `lhs` holds, then `rhs`.
pub open spec fn compile_and(c: CompV, lhs: usize, rhs: usize, n: usize) -> Result<(CompV, usize), LangErrorV> {
    match load(c, ValueV::Bool(false), n) {
        Err(e) => Err(e),
        Ok((c1, dst)) => {
            let j1 = c1.code.len();
            let c2 = push_ins(c1, n, InstructionV::JumpIf { cond: lhs, target: 0 });
            let j2 = c2.code.len();
            let c3 = push_ins(c2, n, InstructionV::Jump { target: 0 });
            let c4 = patch(c3, j1 as int, c3.code.len() as usize);
            let c5 = push_ins(c4, n, InstructionV::Move { dst, src: rhs });
            Ok((patch(c5, j2 as int, c5.code.len() as usize), dst))
        },
    }
}

/// `lhs or rhs`: true when `lhs` holds, else `rhs`.
pub open spec fn compile_or(c: CompV, lhs: usize, rhs: usize, n: usize) -> Result<(CompV, usize), LangErrorV> {
    match load(c, ValueV::Bool(true), n) {
        Err(e) => Err(e),
        Ok((c1, dst)) => {
            let j1 = c1.code.len();
            let c2 = push_ins(c1, n, InstructionV::JumpIf { cond: lhs, target: 0 });
            let c3 = push_ins(c2, n, InstructionV::Move { dst, src: rhs });
            Ok((patch(c3, j1 as int, c3.code.len() as usize), dst))
        },
    }
}

/// The operator applied to the registers `a` and `b`, with `dst` allocated for it.
pub open spec fn compile_op(c: CompV, op: BinaryOp, dst: usize, a: usize, b: usize, n: usize) -> Result<(CompV, usize), LangErrorV> {
    match op {
        BinaryOp::Add => Ok((push_ins(c, n, InstructionV::Add { dst, lhs: a, rhs: b }), dst)),
        BinaryOp::Sub => Ok((push_ins(c, n, InstructionV::Sub { dst, lhs: a, rhs: b }), dst)),
        BinaryOp::Mul => Ok((push_ins(c, n, InstructionV::Mul { dst, lhs: a, rhs: b }), dst)),
        BinaryOp::Div => Ok((push_ins(c, n, InstructionV::Div { dst, lhs: a, rhs: b }), dst)),
        BinaryOp::Eq => Ok((push_ins(c, n, InstructionV::Eq { dst, lhs: a, rhs: b }), dst)),
        BinaryOp::Lt => Ok((push_ins(c, n, InstructionV::Lt { dst, lhs: a, rhs: b }), dst)),
        BinaryOp::Gt => Ok((push_ins(c, n, InstructionV::Lt { dst, lhs: b, rhs: a }), dst)),
        BinaryOp::Neq => compile_not(push_ins(c, n, InstructionV::Eq { dst, lhs: a, rhs: b }), dst, n),
        BinaryOp::Lte => compile_not(push_ins(c, n, InstructionV::Lt { dst, lhs: b, rhs: a }), dst, n),
        BinaryOp::Gte => compile_not(push_ins(c, n, InstructionV::Lt { dst, lhs: a, rhs: b }), dst, n),
        BinaryOp::And => compile_and(c, a, b, n),
        BinaryOp::Or => compile_or(c, a, b, n),
    }
}

/// The code for `e` on line `n`, and the register that holds its value.
pub open spec fn compile_expr(x: CtxV, c: CompV, e: ExprV, n: usize) -> Result<(CompV, usize), LangErrorV>
    decreases e, 0nat,
{
    match e {
        ExprV::Literal(v) => load(c, v, n),
        ExprV::Var(name) => match assoc_get(c.vars, name) {
            Some(r) => Ok((c, r)),
            None => Err(lerr(n, "unknown variable "@ + name)),
        },
        ExprV::Not(inner) => match compile_expr(x, c, *inner, n) {
            Err(err) => Err(err),
            Ok((c1, r)) => compile_not(c1, r, n),
        },
        ExprV::Binary(op, l, r) => match compile_expr(x, c, *l, n) {
            Err(err) => Err(err),
            Ok((c1, a)) => match compile_expr(x, c1, *r, n) {
                Err(err) => Err(err),
                Ok((c2, b)) => match fresh_reg(c2, n) {
                    Err(err) => Err(err),
                    Ok((c3, dst)) => compile_op(c3, op, dst, a, b, n),
                },
            },
        },
        ExprV::Array(items) => match compile_exprs(x, c, items, items.len(), n) {
            Err(err) => Err(err),
            Ok((c1, regs)) => match fresh_reg(c1, n) {
                Err(err) => Err(err),
                Ok((c2, dst)) => Ok((push_ins(c2, n, InstructionV::ArrayNew { dst, items: regs }), dst)),
            },
        },
        ExprV::CapCall(name, args) => if !x.caps.contains(name) {
            Err(lerr(n, "capability "@ + name + " was not declared"@))
        } else {
            match compile_exprs(x, c, args, args.len(), n) {
                Err(err) => Err(err),
                Ok((c1, regs)) => match fresh_reg(c1, n) {
                    Err(err) => Err(err),
                    Ok((c2, dst)) => Ok(
                        (push_ins(c2, n, InstructionV::CapCall { dst, capability: name, args: regs }), dst),
                    ),
                },
            }
        },
        ExprV::Call(name, args) => if !x.fnames.contains(name) {
            Err(lerr(n, "unknown function "@ + name))
        } else {
            match compile_exprs(x, c, args, args.len(), n) {
                Err(err) => Err(err),
                Ok((c1, regs)) => match fresh_reg(c1, n) {
                    Err(err) => Err(err),
                    Ok((c2, dst)) => Ok((push_ins(c2, n, InstructionV::Call { dst, function: name, args: regs }), dst)),
                },
            }
        },
    }
}

/// The code for the first `k` of `es`, in order, and the registers of their values.
pub open spec fn compile_exprs(x: CtxV, c: CompV, es: Seq<ExprV>, k: nat, n: usize) -> Result<(CompV, Seq<usize>), LangErrorV>
    decreases es, k,
{
    if k == 0 || k > es.len() {
        Ok((c, Seq::empty()))
    } else {
        match compile_exprs(x, c, es, (k - 1) as nat, n) {
            Err(err) => Err(err),
            Ok((c1, regs)) => match compile_expr(x, c1, es[k - 1], n) {
                Err(err) => Err(err),
                Ok((c2, r)) => Ok((c2, regs.push(r))),
            },
        }
    }
}

/// Whether a statement leaves the function on every path.
pub open spec fn stmt_returns(s: StmtV) -> bool
    decreases s, 0nat,
{
    match s {
        StmtV::Return(..) => true,
        StmtV::If(_, _, tb, eb) => eb.len() > 0 && block_returns(tb, tb.len()) && block_returns(eb, eb.len()),
        _ => false,
    }
}

/// Whether the first `k` statements of a block end with one that always returns.
pub open spec fn block_returns(b: Seq<StmtV>, k: nat) -> bool
    decreases b, k,
{
    k > 0 && k <= b.len() && stmt_returns(b[k - 1])
}

/// The code for a statement.
pub open spec fn compile_stmt(x: CtxV, c: CompV, s: StmtV) -> Result<CompV, LangErrorV>
    decreases s, 0nat,
{
    match s {
        StmtV::Let(n, name, e) => match compile_expr(x, c, e, n) {
            Err(err) => Err(err),
            Ok((c1, r)) => match assoc_get(c1.vars, name) {
                Some(existing) => Ok(push_ins(c1, n, InstructionV::Move { dst: existing, src: r })),
                None => Ok(CompV { vars: crate::assembler::assoc_put(c1.vars, name, r), ..c1 }),
            },
        },
        StmtV::Expr(n, e) => match compile_expr(x, c, e, n) {
            Err(err) => Err(err),
            Ok((c1, _)) => Ok(c1),
        },
        StmtV::Return(n, e) => match compile_expr(x, c, e, n) {
            Err(err) => Err(err),
            Ok((c1, r)) => Ok(push_ins(c1, n, InstructionV::Ret { src: r })),
        },
        StmtV::If(n, cond, tb, eb) => match compile_expr(x, c, cond, n) {
            Err(err) => Err(err),
            Ok((c1, r)) => {
                let j1 = c1.code.len();
                let c2 = push_ins(c1, n, InstructionV::JumpIf { cond: r, target: 0 });
                match compile_block(x, c2, eb, eb.len()) {
                    Err(err) => Err(err),
                    Ok(c3) => {
                        let c4 = CompV { vars: c.vars, ..c3 };
                        let j2 = c4.code.len();
                        let c5 = if block_returns(eb, eb.len()) {
                            c4
                        } else {
                            push_ins(c4, n, InstructionV::Jump { target: 0 })
                        };
                        let c6 = patch(c5, j1 as int, c5.code.len() as usize);
                        match compile_block(x, c6, tb, tb.len()) {
                            Err(err) => Err(err),
                            Ok(c7) => {
                                let c8 = CompV { vars: c.vars, ..c7 };
                                if block_returns(eb, eb.len()) {
                                    Ok(c8)
                                } else {
                                    Ok(patch(c8, j2 as int, c8.code.len() as usize))
                                }
                            },
                        }
                    },
                }
            },
        },
        StmtV::While(n, cond, body) => {
            let start = c.code.len();
            match compile_expr(x, c, cond, n) {
                Err(err) => Err(err),
                Ok((c1, r)) => {
                    let j1 = c1.code.len();
                    let c2 = push_ins(c1, n, InstructionV::JumpIf { cond: r, target: 0 });
                    let j2 = c2.code.len();
                    let c3 = push_ins(c2, n, InstructionV::Jump { target: 0 });
                    let c4 = patch(c3, j1 as int, c3.code.len() as usize);
                    match compile_block(x, c4, body, body.len()) {
                        Err(err) => Err(err),
                        Ok(c5) => {
                            let c6 = push_ins(CompV { vars: c.vars, ..c5 }, n, InstructionV::Jump { target: start as usize });
                            Ok(patch(c6, j2 as int, c6.code.len() as usize))
                        },
                    }
                },
            }
        },
    }
}

/// The code for the first `k` statements of a block.
pub open spec fn compile_block(x: CtxV, c: CompV, b: Seq<StmtV>, k: nat) -> Result<CompV, LangErrorV>
    decreases b, k,
{
    if k == 0 || k > b.len() {
        Ok(c)
    } else {
        match compile_block(x, c, b, (k - 1) as nat) {
            Err(err) => Err(err),
            Ok(c1) => compile_stmt(x, c1, b[k - 1]),
        }
    }
}

/// The parameters' registers, in order; the failure of the first one that is no identifier
/// or repeats an earlier one.
pub open spec fn param_vars(ps: Seq<Seq<char>>, k: int) -> Result<Seq<(Seq<char>, usize)>, LangErrorV>
    decreases k,
{
    if k <= 0 {
        Ok(Seq::empty())
    } else {
        match param_vars(ps, k - 1) {
            Err(e) => Err(e),
            Ok(vs) => if !is_valid_ident(ps[k - 1]) {
                Err(lerr(0, "invalid identifier "@ + ps[k - 1]))
            } else if assoc_get(vs, ps[k - 1]) is Some {
                Err(lerr(0, "duplicate parameter "@ + ps[k - 1]))
            } else {
                Ok(crate::assembler::assoc_put(vs, ps[k - 1], (k - 1) as usize))
            },
        }
    }
}

/// The code with each constant index moved from the function's own table to the module's,
/// over the first `k` instructions.
pub open spec fn remap(code: Seq<InstructionV>, local: Seq<ValueV>, mc: Seq<ValueV>, k: int) -> (Seq<InstructionV>, Seq<ValueV>)
    decreases k,
{
    if k <= 0 {
        (Seq::empty(), mc)
    } else {
        let (done, mc1) = remap(code, local, mc, k - 1);
        match code[k - 1] {
            InstructionV::Const { dst, constant } => if constant < local.len() {
                let (mc2, idx) = crate::assembler::intern(mc1, local[constant as int]);
                (done.push(InstructionV::Const { dst, constant: idx }), mc2)
            } else {
                (done.push(code[k - 1]), mc1)
            },
            other => (done.push(other), mc1),
        }
    }
}

/// The finished function: a final `return nil` when the code does not end in a return, and
/// its constants moved to the module's table `mc`.
pub open spec fn finish(c: CompV, name: Seq<char>, arity: usize, mc: Seq<ValueV>) -> Result<(FunctionV, Seq<ValueV>), LangErrorV> {
    let ends = c.code.len() > 0 && c.code.last() is Ret;
    let closed = if ends {
        Ok(c)
    } else {
        match load(c, ValueV::Nil, 0) {
            Err(e) => Err(e),
            Ok((c1, dst)) => Ok(push_ins(c1, 0, InstructionV::Ret { src: dst })),
        }
    };
    match closed {
        Err(e) => Err(e),
        Ok(c2) => {
            let (code, mc2) = remap(c2.code, c2.consts, mc, c2.code.len() as int);
            Ok(
                (
                    FunctionV {
                        name,
                        registers: if c2.next == 0 { 1 } else { c2.next },
                        arity,
                        code,
                        source_lines: c2.lines,
                    },
                    mc2,
                ),
            )
        },
    }
}

/// One function compiled, given the module's constants so far.
pub open spec fn compile_fn(x: CtxV, f: SrcFnV, mc: Seq<ValueV>) -> Result<(FunctionV, Seq<ValueV>), LangErrorV> {
    match param_vars(f.params, f.params.len() as int) {
        Err(e) => Err(e),
        Ok(vs) => {
            let c0 = CompV {
                consts: Seq::empty(),
                vars: vs,
                next: f.params.len() as usize,
                code: Seq::empty(),
                lines: Seq::empty(),
            };
            match compile_block(x, c0, f.body, f.body.len()) {
                Err(e) => Err(e),
                Ok(c1) => finish(c1, f.name, f.params.len() as usize, mc),
            }
        },
    }
}

/// The first `k` functions compiled, with the module's constants.
pub open spec fn compile_fns(x: CtxV, fs: Seq<SrcFnV>, k: int) -> Result<(Seq<FunctionV>, Seq<ValueV>), LangErrorV>
    decreases k,
{
    if k <= 0 {
        Ok((Seq::empty(), Seq::empty()))
    } else {
        match compile_fns(x, fs, k - 1) {
            Err(e) => Err(e),
            Ok((done, mc)) => match compile_fn(x, fs[k - 1], mc) {
                Err(e) => Err(e),
                Ok((f, mc2)) => Ok((done.push(f), mc2)),
            },
        }
    }
}

/// Every function exported under its name.
pub open spec fn all_exports(fs: Seq<FunctionV>, k: int) -> Seq<(Seq<char>, usize)>
    decreases k,
{
    if k <= 0 {
        Seq::empty()
    } else {
        export_insert(all_exports(fs, k - 1), fs[k - 1].name, (k - 1) as usize)
    }
}

pub open spec fn context_of(p: ProgV) -> CtxV {
    CtxV {
        caps: p.caps.map_values(|d: CapabilityDeclV| d.id),
        fnames: p.functions.map_values(|f: SrcFnV| f.name),
    }
}

/// The module a parsed program compiles to, before it is checked.
pub open spec fn module_of(p: ProgV, name: Seq<char>) -> Result<ModuleV, LangErrorV> {
    match compile_fns(context_of(p), p.functions, p.functions.len() as int) {
        Err(e) => Err(e),
        Ok((fs, mc)) => Ok(
            ModuleV {
                name,
                constants: mc,
                capabilities: p.caps,
                functions: fs,
                exports: all_exports(fs, fs.len() as int),
            },
        ),
    }
}

// ---------------------------------------------------------------------------------------
// The assembly text of a compiled module

/// A type as a declaration spells it.
pub open spec fn type_text(t: ValueType) -> Seq<char> {
    match t {
        ValueType::Nil => "nil"@,
        ValueType::Bool => "bool"@,
        ValueType::I64 => "i64"@,
        ValueType::F64 => "f64"@,
        ValueType::String => "string"@,
        ValueType::Array => "array"@,
        ValueType::Function => "function"@,
        ValueType::Capability => "capability"@,
        ValueType::Any => "any"@,
        ValueType::AnyVariadic => "any..."@,
    }
}

/// The first `k` types, separated by `, `.
pub open spec fn types_text(ps: Seq<ValueType>, k: int) -> Seq<char>
    decreases k,
{
    if k <= 0 {
        Seq::empty()
    } else if k == 1 {
        type_text(ps[0])
    } else {
        types_text(ps, k - 1) + ", "@ + type_text(ps[k - 1])
    }
}

pub open spec fn escape_char(c: char) -> Seq<char> {
    if c == '\\' {
        seq!['\\', '\\']
    } else if c == '"' {
        seq!['\\', '"']
    } else {
        seq![c]
    }
}

/// `s` with each backslash doubled and each quote escaped.
pub open spec fn escape(s: Seq<char>) -> Seq<char>
    decreases s.len(),
{
    if s.len() == 0 {
        Seq::empty()
    } else {
        escape(s.drop_last()) + escape_char(s.last())
    }
}

/// `, r<a>, r<b>, ...` for the first `k` registers.
pub open spec fn reg_list(rs: Seq<usize>, k: int) -> Seq<char>
    decreases k,
{
    if k <= 0 {
        Seq::empty()
    } else {
        reg_list(rs, k - 1) + ", r"@ + decimal(rs[k - 1] as nat)
    }
}

pub open spec fn regs_text(rs: Seq<usize>) -> Seq<char> {
    reg_list(rs, rs.len() as int)
}

/// The text of the number whose bits are `b`, from the table.
pub open spec fn float_text(fl: FloatTable, b: u64) -> Seq<char>
    decreases fl.len(),
{
    if fl.len() == 0 {
        Seq::empty()
    } else {
        match fl[0].1 {
            Some((bits, t)) => if bits == b {
                t
            } else {
                float_text(fl.drop_first(), b)
            },
            None => float_text(fl.drop_first(), b),
        }
    }
}

/// A constant as a literal. Values of the other kinds never stand among a compiled
/// program's constants; they are written as an empty string literal.
pub open spec fn literal_text(v: ValueV, fl: FloatTable) -> Seq<char> {
    match v {
        ValueV::Nil => "nil"@,
        ValueV::Bool(b) => if b {
            "true"@
        } else {
            "false"@
        },
        ValueV::I64(i) => signed_decimal(i),
        ValueV::F64(b) => float_text(fl, b),
        ValueV::String(t) => "\""@ + escape(t) + "\""@,
        _ => "\"\""@,
    }
}

pub open spec fn r3(op: Seq<char>, a: usize, b: usize, c: usize) -> Seq<char> {
    op + " r"@ + decimal(a as nat) + ", r"@ + decimal(b as nat) + ", r"@ + decimal(c as nat)
}

/// One instruction as assembly text.
pub open spec fn ins_text(i: InstructionV, consts: Seq<ValueV>, fl: FloatTable) -> Seq<char> {
    match i {
        InstructionV::Const { dst, constant } => "const r"@ + decimal(dst as nat) + ", "@ + if constant < consts.len() {
            literal_text(consts[constant as int], fl)
        } else {
            Seq::empty()
        },
        InstructionV::Add { dst, lhs, rhs } => r3("add"@, dst, lhs, rhs),
        InstructionV::Sub { dst, lhs, rhs } => r3("sub"@, dst, lhs, rhs),
        InstructionV::Mul { dst, lhs, rhs } => r3("mul"@, dst, lhs, rhs),
        InstructionV::Div { dst, lhs, rhs } => r3("div"@, dst, lhs, rhs),
        InstructionV::Eq { dst, lhs, rhs } => r3("eq"@, dst, lhs, rhs),
        InstructionV::Lt { dst, lhs, rhs } => r3("lt"@, dst, lhs, rhs),
        InstructionV::CapCall { dst, capability, args } => "cap_call r"@ + decimal(dst as nat) + ", "@ + capability
            + regs_text(args),
        InstructionV::ArrayNew { dst, items } => "array_new r"@ + decimal(dst as nat) + regs_text(items),
        InstructionV::Ret { src } => "ret r"@ + decimal(src as nat),
        InstructionV::Move { dst, src } => "move r"@ + decimal(dst as nat) + ", r"@ + decimal(src as nat),
        InstructionV::Jump { target } => "jump "@ + decimal(target as nat),
        InstructionV::JumpIf { cond, target } => "jump_if r"@ + decimal(cond as nat) + ", "@ + decimal(target as nat),
        InstructionV::Call { dst, function, args } => "call r"@ + decimal(dst as nat) + ", "@ + function + regs_text(args),
        InstructionV::ArrayGet { dst, array, index } => r3("array_get"@, dst, array, index),
        InstructionV::ArraySet { array, index, value } => r3("array_set"@, array, index, value),
    }
}

pub open spec fn code_text(code: Seq<InstructionV>, consts: Seq<ValueV>, fl: FloatTable, k: int) -> Seq<char>
    decreases k,
{
    if k <= 0 {
        Seq::empty()
    } else {
        code_text(code, consts, fl, k - 1) + "  "@ + ins_text(code[k - 1], consts, fl) + "\n"@
    }
}

pub open spec fn fn_text(f: FunctionV, consts: Seq<ValueV>, fl: FloatTable) -> Seq<char> {
    ".fn "@ + f.name + " r"@ + decimal(f.registers as nat) + (if f.arity > 0 {
        " arity="@ + decimal(f.arity as nat)
    } else {
        Seq::empty()
    }) + "\n"@ + code_text(f.code, consts, fl, f.code.len() as int) + ".end\n\n"@
}

pub open spec fn cap_text(d: CapabilityDeclV) -> Seq<char> {
    ".cap "@ + d.id + "("@ + types_text(d.params, d.params.len() as int) + ") -> "@ + type_text(d.return_type) + (match d.reason {
        Some(r) => " reason=\""@ + escape(r) + "\""@,
        None => Seq::empty(),
    }) + "\n"@
}

pub open spec fn caps_text(cs: Seq<CapabilityDeclV>, k: int) -> Seq<char>
    decreases k,
{
    if k <= 0 {
        Seq::empty()
    } else {
        caps_text(cs, k - 1) + cap_text(cs[k - 1])
    }
}

pub open spec fn fns_text(fs: Seq<FunctionV>, consts: Seq<ValueV>, fl: FloatTable, k: int) -> Seq<char>
    decreases k,
{
    if k <= 0 {
        Seq::empty()
    } else {
        fns_text(fs, consts, fl, k - 1) + fn_text(fs[k - 1], consts, fl)
    }
}

/// The assembly text of a module.
pub open spec fn casm(m: ModuleV, fl: FloatTable) -> Seq<char> {
    ".module \""@ + escape(m.name) + "\"\n"@ + caps_text(m.capabilities, m.capabilities.len() as int) + "\n"@
        + fns_text(m.functions, m.constants, fl, m.functions.len() as int)
}

// ---------------------------------------------------------------------------------------
// The whole compiler

/// What `source` compiles to: the checked module and its assembly text; or why it does not
/// compile; or the first literal with a decimal point that the table does not read.
pub open spec fn compile(source: Seq<char>, fl: FloatTable) -> LangOut<(ModuleV, Seq<char>)> {
    match program_of(source, fl) {
        LangOut::Fail(e) => LangOut::Fail(e),
        LangOut::Float(t) => LangOut::Float(t),
        LangOut::Done(p) => match p.name {
            None => LangOut::Fail(LangErrorV::MissingModule),
            Some(name) => if p.functions.len() == 0 {
                LangOut::Fail(LangErrorV::MissingFunction)
            } else {
                match first_duplicate(p.functions, p.functions.len() as int) {
                    Some(i) => LangOut::Fail(lerr(p.functions[i].line, "duplicate function "@ + p.functions[i].name)),
                    None => if !context_of(p).fnames.contains("main"@) {
                        LangOut::Fail(lerr(0, "program must define main"@))
                    } else {
                        match module_of(p, name) {
                            Err(e) => LangOut::Fail(e),
                            Ok(m) => match verify_module(m) {
                                Err(v) => LangOut::Fail(LangErrorV::Verify(ChronicleErrorV::Verify(v))),
                                Ok(()) => LangOut::Done((m, casm(m, fl))),
                            },
                        }
                    },
                }
            },
        },
    }
}

/// Where the text splits at an operator, the operator lies within the text.
pub proof fn lemma_operator_split_at(s: Seq<char>, k: int)
    requires
        0 <= k <= level_count(),
    ensures
        operator_split(s, k) matches Some((op, i)) ==> 0 <= i && i + op_needle(op).len() <= s.len(),
    decreases level_count() - k,
{
    if k < level_count() {
        lemma_operator_split_at(s, k + 1);
        lemma_last_scan_bounds(s, k, 0, ScanState { in_str: false, depth: 0 }, None);
    }
}

pub proof fn lemma_op_starting_at(s: Seq<char>, i: int, ops: Seq<BinaryOp>, j: int)
    ensures
        op_starting(s, i, ops, j) matches Some(op) ==> needle_at(s, i, op_needle(op)),
    decreases ops.len() - j,
{
    if !(j < 0 || j >= ops.len()) && !needle_at(s, i, op_needle(ops[j])) {
        lemma_op_starting_at(s, i, ops, j + 1);
    }
}

pub proof fn lemma_last_scan_bounds(s: Seq<char>, level: int, i: int, st: ScanState, found: Option<(BinaryOp, int)>)
    requires
        found matches Some((op, j)) ==> 0 <= j && j + op_needle(op).len() <= s.len(),
    ensures
        last_scan(s, level, i, st, found) matches Some((op, j)) ==> 0 <= j && j + op_needle(op).len() <= s.len(),
    decreases s.len() - i,
{
    if !(i < 0 || i >= s.len()) {
        lemma_op_starting_at(s, i, level_ops(level), 0);
        let st2 = scan_step(st, s[i]);
        let here = if !st2.in_str && st2.depth == 0 {
            match op_starting(s, i, level_ops(level), 0) {
                Some(op) => Some((op, i)),
                None => found,
            }
        } else {
            found
        };
        lemma_last_scan_bounds(s, level, i + 1, st2, here);
    }
}

} // verus!
