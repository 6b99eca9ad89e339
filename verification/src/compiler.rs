use vstd::prelude::*;
use crate::assembler::{assoc_get, assoc_put, label_get, label_put, labels_view};
use crate::bytecode::{Function, FunctionV, Instruction, instructions_view};
use crate::lang::{
    LangErrorV, LangOut, BinaryOp, ExprV, StmtV, stmt_line, SrcFnV, FloatTable, lerr, logical_fold, logical_lines, starts_block, is_ascii_alpha, is_valid_ident, ident_or_fail, name_or_string, first_bad_ident, fn_header, ScanState, scan_step, op_needle, level_count, level_ops, needle_at, op_starting, last_scan, level_split, operator_split, ParenState, paren_scan, wrapped, strip_parens, atom_of, call_shape, cap_shape, parse_expr, parse_sub, parse_list, expr_of, statement_of, FrameV, Stack, add_stmt, body_step, body_fold, body_of, OpenFnV, ProgV, prog_step, empty_prog, prog_fold, program_of, first_duplicate, CompV, CtxV, push_ins, fresh_reg, load, retarget, patch, compile_not, compile_and, compile_or, compile_op, compile_expr, compile_exprs, stmt_returns, block_returns, compile_stmt, compile_block, param_vars, remap, finish, compile_fn, compile_fns, all_exports, context_of, module_of, type_text, types_text, escape_char, escape, reg_list, regs_text, float_text, literal_text, r3, ins_text, code_text, fn_text, cap_text, caps_text, fns_text, casm, compile,
};
use crate::syntax::{
    chars_view, find_char, find_char_exec, has_prefix, has_prefix_exec, is_ws, lead_ws, lemma_lead_ws, lemma_trail_ws,
    lines, slice_chars, split_args, split_args_exec, strip_comment, trail_ws, trim, trim_chars, unquote, unquote_exec,
    valid_cap_name, valid_cap_name_exec,
};
use crate::value::{Value, ValueType, ValueV};
use crate::bytecode::{CapabilityDeclV, ModuleV};
use crate::error::ChronicleError;

verus! {

/// A failure to compile (see [`LangErrorV`]).
#[derive(Debug)]
pub enum LangError {
    Line { line: usize, message: String },
    MissingModule,
    MissingFunction,
    Verify(ChronicleError),
}

impl View for LangError {
    type V = LangErrorV;

    open spec fn view(&self) -> LangErrorV {
        match self {
            LangError::Line { line, message } => LangErrorV::Line { line: *line, message: message@ },
            LangError::MissingModule => LangErrorV::MissingModule,
            LangError::MissingFunction => LangErrorV::MissingFunction,
            LangError::Verify(e) => LangErrorV::Verify(e@),
        }
    }
}

pub open spec fn lang_error_text(e: LangErrorV) -> Seq<char> {
    match e {
        LangErrorV::Line { line, message } => "line "@ + crate::text::decimal(line as nat) + ": "@ + message,
        LangErrorV::MissingModule => "module is missing a module declaration"@,
        LangErrorV::MissingFunction => "program is missing a function"@,
        LangErrorV::Verify(v) => crate::error::error_text(v),
    }
}

impl LangError {
    /// The text of the failure.
    pub fn to_text(&self) -> (r: String)
        ensures
            r@ == lang_error_text(self@),
    {
        match self {
            LangError::Line { line, message } => {
                let mut out = crate::text::with_decimal("line ", *line);
                out.append(": ");
                out.append(message.as_str());
                out
            },
            LangError::MissingModule => String::from_str("module is missing a module declaration"),
            LangError::MissingFunction => String::from_str("program is missing a function"),
            LangError::Verify(e) => e.to_text(),
        }
    }
}

// ---------------------------------------------------------------------------------------
// The syntax tree

enum Expr {
    Literal(Value),
    Var(Vec<char>),
    Not(Box<Expr>),
    Binary(BinaryOp, Box<Expr>, Box<Expr>),
    Array(Vec<Expr>),
    CapCall(Vec<char>, Vec<Expr>),
    Call(Vec<char>, Vec<Expr>),
}

spec fn expr_view(e: Expr) -> ExprV
    decreases e, 0nat,
{
    match e {
        Expr::Literal(v) => ExprV::Literal(v@),
        Expr::Var(n) => ExprV::Var(n@),
        Expr::Not(b) => ExprV::Not(Box::new(expr_view(*b))),
        Expr::Binary(op, l, r) => ExprV::Binary(op, Box::new(expr_view(*l)), Box::new(expr_view(*r))),
        Expr::Array(v) => ExprV::Array(exprs_view(v@, v@.len())),
        Expr::CapCall(n, v) => ExprV::CapCall(n@, exprs_view(v@, v@.len())),
        Expr::Call(n, v) => ExprV::Call(n@, exprs_view(v@, v@.len())),
    }
}

spec fn exprs_view(s: Seq<Expr>, k: nat) -> Seq<ExprV>
    decreases s, k,
{
    if k == 0 || k > s.len() {
        Seq::empty()
    } else {
        exprs_view(s, (k - 1) as nat).push(expr_view(s[k - 1]))
    }
}

enum Stmt {
    Let(usize, Vec<char>, Expr),
    Expr(usize, Expr),
    Return(usize, Expr),
    If(usize, Expr, Vec<Stmt>, Vec<Stmt>),
    While(usize, Expr, Vec<Stmt>),
}

spec fn stmt_view(s: Stmt) -> StmtV
    decreases s, 0nat,
{
    match s {
        Stmt::Let(l, n, e) => StmtV::Let(l, n@, expr_view(e)),
        Stmt::Expr(l, e) => StmtV::Expr(l, expr_view(e)),
        Stmt::Return(l, e) => StmtV::Return(l, expr_view(e)),
        Stmt::If(l, c, t, e) => StmtV::If(l, expr_view(c), stmts_view(t@, t@.len()), stmts_view(e@, e@.len())),
        Stmt::While(l, c, b) => StmtV::While(l, expr_view(c), stmts_view(b@, b@.len())),
    }
}

spec fn stmts_view(s: Seq<Stmt>, k: nat) -> Seq<StmtV>
    decreases s, k,
{
    if k == 0 || k > s.len() {
        Seq::empty()
    } else {
        stmts_view(s, (k - 1) as nat).push(stmt_view(s[k - 1]))
    }
}


proof fn lemma_exprs_view_prefix(s: Seq<Expr>, k: nat)
    requires
        k <= s.len(),
    ensures
        exprs_view(s, k).len() == k,
        forall|i: int| 0 <= i < k ==> #[trigger] exprs_view(s, k)[i] == expr_view(s[i]),
    decreases k,
{
    if k > 0 {
        lemma_exprs_view_prefix(s, (k - 1) as nat);
    }
}

proof fn lemma_stmts_view_prefix(s: Seq<Stmt>, k: nat)
    requires
        k <= s.len(),
    ensures
        stmts_view(s, k).len() == k,
        forall|i: int| 0 <= i < k ==> #[trigger] stmts_view(s, k)[i] == stmt_view(s[i]),
    decreases k,
{
    if k > 0 {
        lemma_stmts_view_prefix(s, (k - 1) as nat);
    }
}

/// The views of a list of expressions built one at a time.
proof fn lemma_exprs_push(s: Seq<Expr>, e: Expr)
    ensures
        exprs_view(s.push(e), s.len() + 1) == exprs_view(s, s.len()).push(expr_view(e)),
{
    lemma_exprs_view_prefix(s, s.len());
    lemma_exprs_view_prefix(s.push(e), s.len());
    assert(exprs_view(s.push(e), s.len()) =~= exprs_view(s, s.len()));
}

proof fn lemma_stmts_push(s: Seq<Stmt>, e: Stmt)
    ensures
        stmts_view(s.push(e), s.len() + 1) == stmts_view(s, s.len()).push(stmt_view(e)),
{
    lemma_stmts_view_prefix(s, s.len());
    lemma_stmts_view_prefix(s.push(e), s.len());
    assert(stmts_view(s.push(e), s.len()) =~= stmts_view(s, s.len()));
}

// ---------------------------------------------------------------------------------------
// The float table

pub open spec fn lang_floats_view(fl: Seq<(String, Option<(u64, String)>)>) -> FloatTable {
    fl.map_values(|e: (String, Option<(u64, String)>)| (e.0@, match e.1 {
        Some((b, t)) => Some((b, t@)),
        None => None,
    }))
}

fn float_entry(fl: &Vec<(String, Option<(u64, String)>)>, t: &Vec<char>) -> (r: Option<Option<u64>>)
    ensures
        r == (match assoc_get(lang_floats_view(fl@), t@) {
            Some(Some((b, _))) => Some(Some(b)),
            Some(None) => Some(None::<u64>),
            None => None,
        }),
{
    let ghost tv = lang_floats_view(fl@);
    let mut i: usize = 0;
    while i < fl.len()
        invariant
            tv == lang_floats_view(fl@),
            i <= fl.len(),
            assoc_get(tv.subrange(0, i as int), t@) is None,
        decreases fl.len() - i,
    {
        assert(tv.subrange(0, i + 1).drop_last() =~= tv.subrange(0, i as int));
        if crate::syntax::chars_are(t, fl[i].0.as_str()) {
            assert(assoc_get(tv.subrange(0, i + 1), t@) == Some(tv[i as int].1));
            proof {
                lemma_assoc_get_prefix(tv, i as int + 1, t@);
            }
            return match &fl[i].1 {
                Some((b, _)) => Some(Some(*b)),
                None => Some(None),
            };
        }
        i = i + 1;
    }
    assert(tv.subrange(0, i as int) =~= tv);
    None
}

proof fn lemma_assoc_get_prefix<V>(s: Seq<(Seq<char>, V)>, k: int, key: Seq<char>)
    requires
        0 <= k <= s.len(),
        assoc_get(s.subrange(0, k), key) is Some,
    ensures
        assoc_get(s, key) == assoc_get(s.subrange(0, k), key),
    decreases s.len() - k,
{
    if k < s.len() {
        assert(s.subrange(0, k + 1).drop_last() =~= s.subrange(0, k));
        lemma_assoc_get_prefix(s, k + 1, key);
    } else {
        assert(s.subrange(0, k) =~= s);
    }
}

// ---------------------------------------------------------------------------------------
// Names

fn is_valid_ident_exec(s: &Vec<char>) -> (r: bool)
    ensures
        r == is_valid_ident(s@),
{
    if s.len() == 0 {
        return false;
    }
    let c0 = s[0];
    if !(c0 == '_' || ('a' <= c0 && c0 <= 'z') || ('A' <= c0 && c0 <= 'Z')) {
        return false;
    }
    let mut i: usize = 1;
    while i < s.len()
        invariant
            1 <= i <= s.len(),
            forall|k: int| 1 <= k < i ==> ({
                let c = #[trigger] s@[k];
                c == '_' || is_ascii_alpha(c) || ('0' <= c && c <= '9')
            }),
        decreases s.len() - i,
    {
        let c = s[i];
        if !(c == '_' || ('a' <= c && c <= 'z') || ('A' <= c && c <= 'Z') || ('0' <= c && c <= '9')) {
            return false;
        }
        i = i + 1;
    }
    true
}

fn line_fail(n: usize, m: String) -> (e: LangError)
    ensures
        e@ == lerr(n, m@),
{
    LangError::Line { line: n, message: m }
}

fn ident_fail(n: usize, s: &Vec<char>) -> (e: LangError)
    ensures
        e@ == lerr(n, "invalid identifier "@ + s@),
{
    line_fail(n, crate::syntax::msg_with("invalid identifier ", s))
}

fn name_or_string_exec(n: usize, t: &Vec<char>) -> (r: Result<Vec<char>, LangError>)
    ensures
        match r {
            Ok(v) => name_or_string(n, t@) == Ok::<Seq<char>, LangErrorV>(v@),
            Err(e) => name_or_string(n, t@) == Err::<Seq<char>, LangErrorV>(e@),
        },
{
    if t.len() > 0 && t[0] == '"' {
        match unquote_exec(t) {
            Some(v) => Ok(v),
            None => Err(line_fail(n, String::from_str("expected quoted string"))),
        }
    } else if is_valid_ident_exec(t) {
        assert(t@.subrange(0, t.len() as int) =~= t@);
        Ok(slice_chars(t, 0, t.len()))
    } else {
        Err(ident_fail(n, t))
    }
}

fn fn_header_exec(n: usize, t: &Vec<char>) -> (r: Result<(Vec<char>, Vec<Vec<char>>), LangError>)
    ensures
        match r {
            Ok((name, ps)) => fn_header(n, t@) == Ok::<(Seq<char>, Seq<Seq<char>>), LangErrorV>((name@, chars_view(ps@))),
            Err(e) => fn_header(n, t@) == Err::<(Seq<char>, Seq<Seq<char>>), LangErrorV>(e@),
        },
{
    proof {
        crate::syntax::lemma_find_char(t@, '(');
    }
    match find_char_exec(t, '(') {
        Some(open) => {
            if !(t.len() > 0 && t[t.len() - 1] == ')') {
                return Err(line_fail(n, String::from_str("function header missing ')'")));
            }
            assert(t@[open as int] == '(');
            let head = slice_chars(t, 0, open);
            let name = trim_chars(&head);
            if !is_valid_ident_exec(&name) {
                return Err(ident_fail(n, &name));
            }
            let inner = slice_chars(t, open + 1, t.len() - 1);
            let ps = match split_args_exec(&inner) {
                None => return Err(line_fail(n, String::from_str("unterminated expression list"))),
                Some(ps) => ps,
            };
            let ghost pv = chars_view(ps@);
            assert(fn_header(n, t@) == match first_bad_ident(pv) {
                Some(k) => Err(lerr(n, "invalid identifier "@ + pv[k])),
                None => Ok((name@, pv)),
            });
            let mut i: usize = 0;
            while i < ps.len()
                invariant
                    i <= ps.len(),
                    pv == chars_view(ps@),
                    fn_header(n, t@) == match first_bad_ident(pv) {
                        Some(k) => Err(lerr(n, "invalid identifier "@ + pv[k])),
                        None => Ok::<(Seq<char>, Seq<Seq<char>>), LangErrorV>((name@, pv)),
                    },
                    first_bad_ident(pv.subrange(0, i as int)) is None,
                decreases ps.len() - i,
            {
                assert(pv.subrange(0, i + 1).drop_last() =~= pv.subrange(0, i as int));
                assert(pv[i as int] == ps@[i as int]@);
                if !is_valid_ident_exec(&ps[i]) {
                    proof {
                        lemma_first_bad_prefix(pv, i as int + 1);
                    }
                    return Err(ident_fail(n, &ps[i]));
                }
                i = i + 1;
            }
                    assert(pv.subrange(0, i as int) =~= pv);
            Ok((name, ps))
        },
        None => {
            if is_valid_ident_exec(t) {
                let none: Vec<Vec<char>> = Vec::new();
                assert(chars_view(none@) =~= Seq::<Seq<char>>::empty());
                assert(t@.subrange(0, t.len() as int) =~= t@);
                Ok((slice_chars(t, 0, t.len()), none))
            } else {
                Err(ident_fail(n, t))
            }
        },
    }
}

proof fn lemma_first_bad_prefix(ps: Seq<Seq<char>>, k: int)
    requires
        0 <= k <= ps.len(),
        first_bad_ident(ps.subrange(0, k)) is Some,
    ensures
        first_bad_ident(ps) == first_bad_ident(ps.subrange(0, k)),
    decreases ps.len() - k,
{
    if k < ps.len() {
        assert(ps.subrange(0, k + 1).drop_last() =~= ps.subrange(0, k));
        lemma_first_bad_prefix(ps, k + 1);
    } else {
        assert(ps.subrange(0, k) =~= ps);
    }
}

// ---------------------------------------------------------------------------------------
// Scanning expressions

/// Whether `p` occurs in `s` at `i`.
fn chars_at(s: &Vec<char>, i: usize, p: &Vec<char>) -> (r: bool)
    ensures
        r == (i + p.len() <= s.len() && s@.subrange(i as int, i + p.len()) == p@),
{
    if i > s.len() || p.len() > s.len() - i {
        return false;
    }
    let mut k: usize = 0;
    while k < p.len()
        invariant
            i + p.len() <= s.len(),
            k <= p.len(),
            forall|j: int| 0 <= j < k ==> s@[i + j] == p@[j],
        decreases p.len() - k,
    {
        if s[i + k] != p[k] {
            assert(s@.subrange(i as int, i + p.len())[k as int] != p@[k as int]);
            return false;
        }
        k = k + 1;
    }
    assert(s@.subrange(i as int, i + p.len()) =~= p@);
    true
}

fn needle_of(op: BinaryOp) -> (r: &'static str)
    ensures
        r@ == op_needle(op),
{
    match op {
        BinaryOp::Or => " or ",
        BinaryOp::And => " and ",
        BinaryOp::Eq => " == ",
        BinaryOp::Neq => " != ",
        BinaryOp::Lte => " <= ",
        BinaryOp::Gte => " >= ",
        BinaryOp::Lt => " < ",
        BinaryOp::Gt => " > ",
        BinaryOp::Add => " + ",
        BinaryOp::Sub => " - ",
        BinaryOp::Mul => " * ",
        BinaryOp::Div => " / ",
    }
}

/// The operators of precedence level `level`.
fn level_ops_exec(level: usize) -> (r: Vec<BinaryOp>)
    ensures
        r@ == level_ops(level as int),
{
    let mut r: Vec<BinaryOp> = Vec::new();
    if level == 0 {
        r.push(BinaryOp::Or);
    } else if level == 1 {
        r.push(BinaryOp::And);
    } else if level == 2 {
        r.push(BinaryOp::Eq);
        r.push(BinaryOp::Neq);
        r.push(BinaryOp::Lte);
        r.push(BinaryOp::Gte);
        r.push(BinaryOp::Lt);
        r.push(BinaryOp::Gt);
    } else if level == 3 {
        r.push(BinaryOp::Add);
        r.push(BinaryOp::Sub);
    } else {
        r.push(BinaryOp::Mul);
        r.push(BinaryOp::Div);
    }
    assert(r@ =~= level_ops(level as int));
    r
}

/// The first of `ops` whose spelling occurs in `s` at `i`.
fn op_starting_exec(s: &Vec<char>, i: usize, ops: &Vec<BinaryOp>) -> (r: Option<BinaryOp>)
    ensures
        r == op_starting(s@, i as int, ops@, 0),
{
    let mut j: usize = 0;
    while j < ops.len()
        invariant
            j <= ops.len(),
            op_starting(s@, i as int, ops@, 0) == op_starting(s@, i as int, ops@, j as int),
        decreases ops.len() - j,
    {
        let op = ops[j];
        let nd = crate::syntax::chars_of(needle_of(op));
        if chars_at(s, i, &nd) {
            return Some(op);
        }
        j = j + 1;
    }
    None
}

/// The rightmost operator of `level` at the top level of `s`.
fn level_split_exec(s: &Vec<char>, level: usize) -> (r: Option<(BinaryOp, usize)>)
    ensures
        match r {
            Some((op, i)) => level_split(s@, level as int) == Some((op, i as int)),
            None => level_split(s@, level as int) is None,
        },
{
    let ops = level_ops_exec(level);
    let mut in_str = false;
    let mut depth: usize = 0;
    let mut found: Option<(BinaryOp, usize)> = None;
    let mut i: usize = 0;
    while i < s.len()
        invariant
            ops@ == level_ops(level as int),
            i <= s.len(),
            depth <= i,
            found matches Some((_, j)) ==> j < i,
            level_split(s@, level as int) == last_scan(
                s@,
                level as int,
                i as int,
                ScanState { in_str, depth: depth as nat },
                match found {
                    Some((op, j)) => Some((op, j as int)),
                    None => None,
                },
            ),
        decreases s.len() - i,
    {
        let c = s[i];
        if c == '"' {
            in_str = !in_str;
        } else if (c == '[' || c == '(') && !in_str {
            depth = depth + 1;
        } else if (c == ']' || c == ')') && !in_str {
            if depth > 0 {
                depth = depth - 1;
            }
        }
        if !in_str && depth == 0 {
            match op_starting_exec(s, i, &ops) {
                Some(op) => {
                    found = Some((op, i));
                },
                None => {},
            }
        }
        i = i + 1;
    }
    found
}

/// Where `s` splits into two operands (see [`operator_split`]).
fn operator_split_exec(s: &Vec<char>) -> (r: Option<(BinaryOp, usize)>)
    ensures
        match r {
            Some((op, i)) => operator_split(s@, 0) == Some((op, i as int)),
            None => operator_split(s@, 0) is None,
        },
{
    let mut k: usize = 0;
    while k < 5
        invariant
            k <= 5,
            operator_split(s@, 0) == operator_split(s@, k as int),
        decreases 5 - k,
    {
        match level_split_exec(s, k) {
            Some(x) => return Some(x),
            None => {},
        }
        k = k + 1;
    }
    None
}

fn wrapped_exec(t: &Vec<char>) -> (r: bool)
    ensures
        r == wrapped(t@),
{
    if !(t.len() >= 2 && t[0] == '(' && t[t.len() - 1] == ')') {
        return false;
    }
    let mut in_str = false;
    let mut depth: usize = 0;
    let mut broken = false;
    let mut i: usize = 0;
    while i < t.len()
        invariant
            i <= t.len(),
            depth <= i,
            paren_scan(t@, i as int) == (ParenState { in_str, depth: depth as nat, broken }),
        decreases t.len() - i,
    {
        let c = t[i];
        if broken {
        } else if c == '"' {
            in_str = !in_str;
        } else if c == '(' && !in_str {
            depth = depth + 1;
        } else if c == ')' && !in_str {
            if depth > 0 {
                depth = depth - 1;
            }
            broken = depth == 0 && i != t.len() - 1;
        }
        i = i + 1;
    }
    !broken
}

fn strip_parens_exec(input: &Vec<char>) -> (r: Vec<char>)
    ensures
        r@ == strip_parens(input@),
{
    let mut cur = slice_chars(input, 0, input.len());
    assert(input@.subrange(0, input.len() as int) =~= input@);
    loop
        invariant
            strip_parens(cur@) == strip_parens(input@),
        decreases cur.len(),
    {
        let t = trim_chars(&cur);
        proof {
            crate::syntax::lemma_trim_len(cur@);
        }
        if wrapped_exec(&t) {
            let inner = slice_chars(&t, 1, t.len() - 1);
            cur = inner;
        } else {
            return t;
        }
    }
}

// ---------------------------------------------------------------------------------------
// Reading expressions

enum POut<T> {
    Done(T),
    Fail(LangError),
    Float(Vec<char>),
}

spec fn expr_out(r: POut<Expr>, s: LangOut<ExprV>) -> bool {
    match (r, s) {
        (POut::Done(a), LangOut::Done(b)) => expr_view(a) == b,
        (POut::Fail(e), LangOut::Fail(f)) => e@ == f,
        (POut::Float(t), LangOut::Float(u)) => t@ == u,
        _ => false,
    }
}

spec fn exprs_out(r: POut<Vec<Expr>>, s: LangOut<Seq<ExprV>>) -> bool {
    match (r, s) {
        (POut::Done(a), LangOut::Done(b)) => exprs_view(a@, a@.len()) == b,
        (POut::Fail(e), LangOut::Fail(f)) => e@ == f,
        (POut::Float(t), LangOut::Float(u)) => t@ == u,
        _ => false,
    }
}

fn has_dot(t: &Vec<char>) -> (r: bool)
    ensures
        r == t@.contains('.'),
{
    let mut i: usize = 0;
    while i < t.len()
        invariant
            i <= t.len(),
            forall|j: int| 0 <= j < i ==> t@[j] != '.',
        decreases t.len() - i,
    {
        if t[i] == '.' {
            assert(t@[i as int] == '.');
            return true;
        }
        i = i + 1;
    }
    false
}

fn copy_chars(t: &Vec<char>) -> (r: Vec<char>)
    ensures
        r@ == t@,
{
    assert(t@.subrange(0, t.len() as int) =~= t@);
    slice_chars(t, 0, t.len())
}

fn atom_exec(n: usize, s: &Vec<char>, fl: &Vec<(String, Option<(u64, String)>)>) -> (r: POut<Expr>)
    ensures
        expr_out(r, atom_of(n, s@, lang_floats_view(fl@))),
{
    if crate::syntax::chars_are(s, "nil") {
        return POut::Done(Expr::Literal(Value::Nil));
    }
    if crate::syntax::chars_are(s, "true") {
        return POut::Done(Expr::Literal(Value::Bool(true)));
    }
    if crate::syntax::chars_are(s, "false") {
        return POut::Done(Expr::Literal(Value::Bool(false)));
    }
    if s.len() > 0 && s[0] == '"' {
        return match unquote_exec(s) {
            Some(t) => POut::Done(Expr::Literal(Value::String(crate::syntax::string_of_chars(&t)))),
            None => POut::Fail(line_fail(n, String::from_str("expected quoted string"))),
        };
    }
    if has_dot(s) {
        match float_entry(fl, s) {
            None => return POut::Float(copy_chars(s)),
            Some(Some(b)) => return POut::Done(Expr::Literal(Value::F64(b))),
            Some(None) => {},
        }
    }
    match crate::syntax::parse_i64_exec(s) {
        Some(i) => POut::Done(Expr::Literal(Value::I64(i))),
        None => if is_valid_ident_exec(s) {
            POut::Done(Expr::Var(copy_chars(s)))
        } else {
            POut::Fail(ident_fail(n, s))
        },
    }
}

fn call_shape_exec(s: &Vec<char>) -> (r: Option<(Vec<char>, Vec<char>)>)
    ensures
        match r {
            Some((a, b)) => call_shape(s@) == Some((a@, b@)),
            None => call_shape(s@) is None,
        },
{
    proof {
        crate::syntax::lemma_find_char(s@, '(');
    }
    match find_char_exec(s, '(') {
        None => None,
        Some(open) => {
            if !(s.len() > 0 && s[s.len() - 1] == ')') {
                return None;
            }
            assert(s@[open as int] == '(');
            let head = slice_chars(s, 0, open);
            let name = trim_chars(&head);
            if !is_valid_ident_exec(&name) {
                return None;
            }
            Some((name, slice_chars(s, open + 1, s.len() - 1)))
        },
    }
}

fn cap_shape_exec(n: usize, s: &Vec<char>) -> (r: Result<(Vec<char>, Vec<char>), LangError>)
    ensures
        match r {
            Ok((a, b)) => cap_shape(n, s@) == Ok::<(Seq<char>, Seq<char>), LangErrorV>((a@, b@)),
            Err(e) => cap_shape(n, s@) == Err::<(Seq<char>, Seq<char>), LangErrorV>(e@),
        },
{
    proof {
        crate::syntax::lemma_find_char(s@, '(');
    }
    match find_char_exec(s, '(') {
        None => Err(line_fail(n, String::from_str("capability call expects name(args)"))),
        Some(open) => {
            if !(s.len() > 0 && s[s.len() - 1] == ')') {
                return Err(line_fail(n, String::from_str("capability call missing closing ')'")));
            }
            assert(s@[open as int] == '(');
            let head = slice_chars(s, 0, open);
            let name = trim_chars(&head);
            if !valid_cap_name_exec(&name) {
                return Err(line_fail(n, crate::syntax::msg_with("invalid capability name ", &name)));
            }
            Ok((name, slice_chars(s, open + 1, s.len() - 1)))
        },
    }
}

proof fn lemma_parse_list_stops(n: usize, items: Seq<Seq<char>>, fl: FloatTable, fuel: nat, k: nat)
    requires
        k <= items.len(),
        !(parse_list(n, items, fl, fuel, k) is Done),
    ensures
        parse_list(n, items, fl, fuel, items.len()) == parse_list(n, items, fl, fuel, k),
    decreases items.len() - k,
{
    if k < items.len() {
        lemma_parse_list_stops(n, items, fl, fuel, k + 1);
    }
}

fn parse_list_exec(n: usize, items: &Vec<Vec<char>>, fl: &Vec<(String, Option<(u64, String)>)>, fuel: usize) -> (r: POut<Vec<Expr>>)
    ensures
        exprs_out(r, parse_list(n, chars_view(items@), lang_floats_view(fl@), fuel as nat, items.len() as nat)),
    decreases fuel, 1nat, 0nat,
{
    let ghost iv = chars_view(items@);
    let ghost flv = lang_floats_view(fl@);
    let mut out: Vec<Expr> = Vec::new();
    let mut i: usize = 0;
    while i < items.len()
        invariant
            i <= items.len(),
            iv == chars_view(items@),
            flv == lang_floats_view(fl@),
            out.len() == i,
            parse_list(n, iv, flv, fuel as nat, i as nat) == LangOut::Done(exprs_view(out@, out@.len())),
        decreases items.len() - i,
    {
        assert(iv[i as int] == items@[i as int]@);
        match parse_sub_exec(n, &items[i], fl, fuel) {
            POut::Done(e) => {
                proof {
                    lemma_exprs_push(out@, e);
                }
                out.push(e);
            },
            POut::Fail(e) => {
                proof {
                    lemma_parse_list_stops(n, iv, flv, fuel as nat, (i + 1) as nat);
                }
                return POut::Fail(e);
            },
            POut::Float(t) => {
                proof {
                    lemma_parse_list_stops(n, iv, flv, fuel as nat, (i + 1) as nat);
                }
                return POut::Float(t);
            },
        }
        i = i + 1;
    }
    POut::Done(out)
}

fn parse_sub_exec(n: usize, x: &Vec<char>, fl: &Vec<(String, Option<(u64, String)>)>, fuel: usize) -> (r: POut<Expr>)
    ensures
        expr_out(r, parse_sub(n, x@, lang_floats_view(fl@), fuel as nat)),
    decreases fuel, 0nat, 0nat,
{
    if fuel == 0 {
        POut::Fail(line_fail(n, String::from_str("expression nested too deeply")))
    } else {
        parse_expr_exec(n, x, fl, fuel - 1)
    }
}

fn wrap_list(r: POut<Vec<Expr>>) -> (out: Result<Vec<Expr>, POut<Expr>>)
    ensures
        match (r, out) {
            (POut::Done(a), Ok(b)) => a == b,
            (POut::Fail(e), Err(POut::Fail(f))) => e == f,
            (POut::Float(t), Err(POut::Float(u))) => t == u,
            _ => false,
        },
{
    match r {
        POut::Done(a) => Ok(a),
        POut::Fail(e) => Err(POut::Fail(e)),
        POut::Float(t) => Err(POut::Float(t)),
    }
}

fn parse_expr_exec(n: usize, input: &Vec<char>, fl: &Vec<(String, Option<(u64, String)>)>, fuel: usize) -> (r: POut<Expr>)
    ensures
        expr_out(r, parse_expr(n, input@, lang_floats_view(fl@), fuel as nat)),
    decreases fuel, 2nat, 0nat,
{
    let s = strip_parens_exec(input);
    match operator_split_exec(&s) {
        Some((op, i)) => {
            proof {
                reveal_strlit(" or ");
                reveal_strlit(" and ");
                reveal_strlit(" == ");
                reveal_strlit(" != ");
                reveal_strlit(" <= ");
                reveal_strlit(" >= ");
                reveal_strlit(" < ");
                reveal_strlit(" > ");
                reveal_strlit(" + ");
                reveal_strlit(" - ");
                reveal_strlit(" * ");
                reveal_strlit(" / ");
                crate::lang::lemma_operator_split_at(s@, 0);
            }
            let nl = needle_of(op).unicode_len();
            let lhs_text = slice_chars(&s, 0, i);
            let l = match parse_sub_exec(n, &lhs_text, fl, fuel) {
                POut::Done(e) => e,
                POut::Fail(e) => return POut::Fail(e),
                POut::Float(t) => return POut::Float(t),
            };
            let rhs_text = slice_chars(&s, i + nl, s.len());
            let r = match parse_sub_exec(n, &rhs_text, fl, fuel) {
                POut::Done(e) => e,
                POut::Fail(e) => return POut::Fail(e),
                POut::Float(t) => return POut::Float(t),
            };
            POut::Done(Expr::Binary(op, Box::new(l), Box::new(r)))
        },
        None => {
            if has_prefix_exec(&s, "not ") {
                proof {
                    reveal_strlit("not ");
                }
                let rest = slice_chars(&s, 4, s.len());
                return match parse_sub_exec(n, &rest, fl, fuel) {
                    POut::Done(e) => POut::Done(Expr::Not(Box::new(e))),
                    POut::Fail(e) => POut::Fail(e),
                    POut::Float(t) => POut::Float(t),
                };
            }
            if s.len() >= 2 && s[0] == '[' && s[s.len() - 1] == ']' {
                let inner = slice_chars(&s, 1, s.len() - 1);
                return match split_args_exec(&inner) {
                    None => POut::Fail(line_fail(n, String::from_str("unterminated expression list"))),
                    Some(items) => match wrap_list(parse_list_exec(n, &items, fl, fuel)) {
                        Ok(es) => {
                            proof {
                                lemma_exprs_view_prefix(es@, es@.len());
                            }
                            POut::Done(Expr::Array(es))
                        },
                        Err(o) => o,
                    },
                };
            }
            if has_prefix_exec(&s, "cap ") {
                proof {
                    reveal_strlit("cap ");
                }
                let rest = slice_chars(&s, 4, s.len());
                let t = trim_chars(&rest);
                return match cap_shape_exec(n, &t) {
                    Err(e) => POut::Fail(e),
                    Ok((name, inner)) => match split_args_exec(&inner) {
                        None => POut::Fail(line_fail(n, String::from_str("unterminated expression list"))),
                        Some(items) => match wrap_list(parse_list_exec(n, &items, fl, fuel)) {
                            Ok(es) => POut::Done(Expr::CapCall(name, es)),
                            Err(o) => o,
                        },
                    },
                };
            }
            match call_shape_exec(&s) {
                Some((name, inner)) => match split_args_exec(&inner) {
                    None => POut::Fail(line_fail(n, String::from_str("unterminated expression list"))),
                    Some(items) => match wrap_list(parse_list_exec(n, &items, fl, fuel)) {
                        Ok(es) => if crate::syntax::chars_are(&name, "print") {
                            POut::Done(Expr::CapCall(crate::syntax::chars_of("log.print@1"), es))
                        } else {
                            POut::Done(Expr::Call(name, es))
                        },
                        Err(o) => o,
                    },
                },
                None => atom_exec(n, &s, fl),
            }
        },
    }
}

// ---------------------------------------------------------------------------------------
// Reading statements and blocks

fn expr_exec(n: usize, x: &Vec<char>, fl: &Vec<(String, Option<(u64, String)>)>) -> (r: POut<Expr>)
    ensures
        expr_out(r, expr_of(n, x@, lang_floats_view(fl@))),
{
    parse_expr_exec(n, x, fl, x.len())
}

spec fn stmt_out(r: POut<Stmt>, s: LangOut<StmtV>) -> bool {
    match (r, s) {
        (POut::Done(a), LangOut::Done(b)) => stmt_view(a) == b,
        (POut::Fail(e), LangOut::Fail(f)) => e@ == f,
        (POut::Float(t), LangOut::Float(u)) => t@ == u,
        _ => false,
    }
}

fn statement_exec(n: usize, t: &Vec<char>, fl: &Vec<(String, Option<(u64, String)>)>) -> (r: POut<Stmt>)
    ensures
        stmt_out(r, statement_of(n, t@, lang_floats_view(fl@))),
{
    if has_prefix_exec(t, "let ") {
        proof {
            reveal_strlit("let ");
        }
        let rest = slice_chars(t, 4, t.len());
        proof {
            crate::syntax::lemma_find_char(rest@, '=');
        }
        match find_char_exec(&rest, '=') {
            None => POut::Fail(line_fail(n, String::from_str("let expects name = expression"))),
            Some(eq) => {
                let head = slice_chars(&rest, 0, eq);
                let name = trim_chars(&head);
                if !is_valid_ident_exec(&name) {
                    return POut::Fail(ident_fail(n, &name));
                }
                let tail = slice_chars(&rest, eq + 1, rest.len());
                let body = trim_chars(&tail);
                match expr_exec(n, &body, fl) {
                    POut::Done(e) => POut::Done(Stmt::Let(n, name, e)),
                    POut::Fail(e) => POut::Fail(e),
                    POut::Float(x) => POut::Float(x),
                }
            },
        }
    } else if has_prefix_exec(t, "return ") {
        proof {
            reveal_strlit("return ");
        }
        let rest = slice_chars(t, 7, t.len());
        let body = trim_chars(&rest);
        match expr_exec(n, &body, fl) {
            POut::Done(e) => POut::Done(Stmt::Return(n, e)),
            POut::Fail(e) => POut::Fail(e),
            POut::Float(x) => POut::Float(x),
        }
    } else {
        match expr_exec(n, t, fl) {
            POut::Done(e) => POut::Done(Stmt::Expr(n, e)),
            POut::Fail(e) => POut::Fail(e),
            POut::Float(x) => POut::Float(x),
        }
    }
}

enum Frame {
    Top,
    Then(usize, Expr),
    Else(usize, Expr, Vec<Stmt>),
    Loop(usize, Expr),
}

spec fn frame_view(f: Frame) -> FrameV {
    match f {
        Frame::Top => FrameV::Top,
        Frame::Then(l, c) => FrameV::Then(l, expr_view(c)),
        Frame::Else(l, c, tb) => FrameV::Else(l, expr_view(c), stmts_view(tb@, tb@.len())),
        Frame::Loop(l, c) => FrameV::Loop(l, expr_view(c)),
    }
}

spec fn stack_view(st: Seq<(Frame, Vec<Stmt>)>) -> Stack {
    st.map_values(|e: (Frame, Vec<Stmt>)| (frame_view(e.0), stmts_view(e.1@, e.1@.len())))
}

/// The function body at the bottom of the stack, and only there.
spec fn stack_wf(st: Stack) -> bool {
    &&& st.len() >= 1
    &&& st[0].0 is Top
    &&& forall|i: int| 1 <= i < st.len() ==> !(#[trigger] st[i].0 is Top)
}

fn add_stmt_exec(st: &mut Vec<(Frame, Vec<Stmt>)>, s: Stmt)
    requires
        old(st).len() >= 1,
    ensures
        final(st).len() == old(st).len(),
        stack_view(final(st)@) == add_stmt(stack_view(old(st)@), stmt_view(s)),
        forall|i: int| 0 <= i < final(st).len() ==> frame_view(#[trigger] final(st)@[i].0) == frame_view(old(st)@[i].0),
{
    let ghost sv = stack_view(st@);
    let (f, mut stmts) = st.pop().unwrap();
    proof {
        lemma_stmts_push(stmts@, s);
    }
    stmts.push(s);
    st.push((f, stmts));
    assert(stack_view(st@) =~= add_stmt(sv, stmt_view(s)));
}

spec fn stack_out(r: POut<()>, s: LangOut<Stack>, st: Seq<(Frame, Vec<Stmt>)>) -> bool {
    match (r, s) {
        (POut::Done(()), LangOut::Done(b)) => stack_view(st) == b,
        (POut::Fail(e), LangOut::Fail(f)) => e@ == f,
        (POut::Float(t), LangOut::Float(u)) => t@ == u,
        _ => false,
    }
}

fn body_step_exec(st: &mut Vec<(Frame, Vec<Stmt>)>, n: usize, t: &Vec<char>, fl: &Vec<(String, Option<(u64, String)>)>) -> (r: POut<()>)
    requires
        stack_wf(stack_view(old(st)@)),
    ensures
        stack_out(r, body_step(stack_view(old(st)@), n, t@, lang_floats_view(fl@)), final(st)@),
        r is Done ==> stack_wf(stack_view(final(st)@)),
{
    let ghost sv = stack_view(st@);
    assert(sv.last() == stack_view(st@)[st.len() - 1]);
    if crate::syntax::chars_are(t, "end") {
        let (f, stmts) = st.pop().unwrap();
        assert(stack_view(st@) =~= sv.drop_last());
        match f {
            Frame::Top => POut::Fail(line_fail(n, String::from_str("unexpected block terminator"))),
            Frame::Then(l, c) => {
                let s = Stmt::If(l, c, stmts, Vec::new());
                add_stmt_exec(st, s);
                assert(stack_view(st@) =~= body_step(sv, n, t@, lang_floats_view(fl@))->Done_0);
                POut::Done(())
            },
            Frame::Else(l, c, tb) => {
                let s = Stmt::If(l, c, tb, stmts);
                add_stmt_exec(st, s);
                POut::Done(())
            },
            Frame::Loop(l, c) => {
                let s = Stmt::While(l, c, stmts);
                add_stmt_exec(st, s);
                POut::Done(())
            },
        }
    } else if crate::syntax::chars_are(t, "else") {
        let (f, stmts) = st.pop().unwrap();
        assert(stack_view(st@) =~= sv.drop_last());
        match f {
            Frame::Then(l, c) => {
                st.push((Frame::Else(l, c, stmts), Vec::new()));
                assert(stack_view(st@) =~= sv.drop_last().push((FrameV::Else(l, expr_view(c), sv.last().1), Seq::empty())));
                POut::Done(())
            },
            _ => POut::Fail(line_fail(n, String::from_str("else without matching if"))),
        }
    } else if has_prefix_exec(t, "if ") {
        proof {
            reveal_strlit("if ");
        }
        let rest = slice_chars(t, 3, t.len());
        let x = trim_chars(&rest);
        match expr_exec(n, &x, fl) {
            POut::Done(c) => {
                st.push((Frame::Then(n, c), Vec::new()));
                assert(stack_view(st@) =~= sv.push((FrameV::Then(n, expr_view(c)), Seq::empty())));
                POut::Done(())
            },
            POut::Fail(e) => POut::Fail(e),
            POut::Float(x) => POut::Float(x),
        }
    } else if has_prefix_exec(t, "while ") {
        proof {
            reveal_strlit("while ");
        }
        let rest = slice_chars(t, 6, t.len());
        let x = trim_chars(&rest);
        match expr_exec(n, &x, fl) {
            POut::Done(c) => {
                st.push((Frame::Loop(n, c), Vec::new()));
                assert(stack_view(st@) =~= sv.push((FrameV::Loop(n, expr_view(c)), Seq::empty())));
                POut::Done(())
            },
            POut::Fail(e) => POut::Fail(e),
            POut::Float(x) => POut::Float(x),
        }
    } else {
        match statement_exec(n, t, fl) {
            POut::Done(k) => {
                add_stmt_exec(st, k);
                POut::Done(())
            },
            POut::Fail(e) => POut::Fail(e),
            POut::Float(x) => POut::Float(x),
        }
    }
}

spec fn stmts_out(r: POut<Vec<Stmt>>, s: LangOut<Seq<StmtV>>) -> bool {
    match (r, s) {
        (POut::Done(a), LangOut::Done(b)) => stmts_view(a@, a@.len()) == b,
        (POut::Fail(e), LangOut::Fail(f)) => e@ == f,
        (POut::Float(t), LangOut::Float(u)) => t@ == u,
        _ => false,
    }
}

spec fn body_view(b: Seq<(usize, Vec<char>)>) -> Seq<(usize, Seq<char>)> {
    b.map_values(|e: (usize, Vec<char>)| (e.0, e.1@))
}

proof fn lemma_body_fold_stops(b: Seq<(usize, Seq<char>)>, k: int, fl: FloatTable)
    requires
        0 <= k <= b.len(),
        !(body_fold(b, k, fl) is Done),
    ensures
        body_fold(b, b.len() as int, fl) == body_fold(b, k, fl),
    decreases b.len() - k,
{
    if k < b.len() {
        lemma_body_fold_stops(b, k + 1, fl);
    }
}

fn body_exec(body: &Vec<(usize, Vec<char>)>, fl: &Vec<(String, Option<(u64, String)>)>) -> (r: POut<Vec<Stmt>>)
    ensures
        stmts_out(r, body_of(body_view(body@), lang_floats_view(fl@))),
{
    let ghost bv = body_view(body@);
    let ghost flv = lang_floats_view(fl@);
    let mut st: Vec<(Frame, Vec<Stmt>)> = Vec::new();
    st.push((Frame::Top, Vec::new()));
    assert(stack_view(st@) =~= seq![(FrameV::Top, Seq::<StmtV>::empty())]);
    let mut i: usize = 0;
    while i < body.len()
        invariant
            i <= body.len(),
            bv == body_view(body@),
            flv == lang_floats_view(fl@),
            body_fold(bv, i as int, flv) == LangOut::Done(stack_view(st@)),
            stack_wf(stack_view(st@)),
        decreases body.len() - i,
    {
        assert(bv[i as int] == (body@[i as int].0, body@[i as int].1@));
        match body_step_exec(&mut st, body[i].0, &body[i].1, fl) {
            POut::Done(()) => {},
            POut::Fail(e) => {
                proof {
                    lemma_body_fold_stops(bv, i + 1, flv);
                }
                return POut::Fail(e);
            },
            POut::Float(t) => {
                proof {
                    lemma_body_fold_stops(bv, i + 1, flv);
                }
                return POut::Float(t);
            },
        }
        i = i + 1;
    }
    let ghost sv = stack_view(st@);
    if st.len() == 1 {
        let (_, stmts) = st.pop().unwrap();
        return POut::Done(stmts);
    }
    assert(sv.last() == stack_view(st@)[st.len() - 1]);
    let (f, stmts) = st.pop().unwrap();
    match f {
        Frame::Loop(l, _) => POut::Fail(line_fail(l, String::from_str("while missing end"))),
        Frame::Then(l, _) => POut::Fail(line_fail(l, String::from_str("if missing end"))),
        Frame::Else(l, _, _) => POut::Fail(line_fail(l, String::from_str("if missing end"))),
        Frame::Top => POut::Done(stmts),
    }
}

// ---------------------------------------------------------------------------------------
// Reading the program

fn logical_exec(source: &str) -> (r: Vec<(usize, Vec<char>)>)
    ensures
        body_view(r@) == logical_lines(source@),
{
    let cs = crate::syntax::chars_of(source);
    let ls = crate::syntax::lines_of(&cs);
    let ghost lsv = lines(source@);
    assert(lsv == ls@.map_values(|l: Vec<char>| l@));
    let mut out: Vec<(usize, Vec<char>)> = Vec::new();
    let mut k: usize = 0;
    assert(body_view(out@) =~= logical_fold(lsv, 0));
    while k < ls.len()
        invariant
            k <= ls.len(),
            lsv == ls@.map_values(|l: Vec<char>| l@),
            body_view(out@) == logical_fold(lsv, k as int),
        decreases ls.len() - k,
    {
        assert(lsv[k as int] == ls@[k as int]@);
        let stripped = crate::syntax::strip_comment_exec(&ls[k]);
        let t = trim_chars(&stripped);
        if t.len() > 0 {
            let ghost before = body_view(out@);
            let ghost tv = t@;
            out.push((k + 1, t));
            assert(body_view(out@) =~= before.push(((k + 1) as usize, tv)));
        }
        k = k + 1;
    }
    out
}

struct SrcFn {
    line: usize,
    name: Vec<char>,
    params: Vec<Vec<char>>,
    body: Vec<Stmt>,
}

spec fn srcfn_view(f: SrcFn) -> SrcFnV {
    SrcFnV { line: f.line, name: f.name@, params: chars_view(f.params@), body: stmts_view(f.body@, f.body@.len()) }
}

spec fn srcfns_view(s: Seq<SrcFn>) -> Seq<SrcFnV> {
    s.map_values(|f: SrcFn| srcfn_view(f))
}

struct OpenFn {
    line: usize,
    name: Vec<char>,
    params: Vec<Vec<char>>,
    depth: usize,
    body: Vec<(usize, Vec<char>)>,
}

spec fn openfn_view(o: OpenFn) -> OpenFnV {
    OpenFnV { line: o.line, name: o.name@, params: chars_view(o.params@), depth: o.depth as nat, body: body_view(o.body@) }
}

struct ProgState {
    name: Option<Vec<char>>,
    caps: Vec<crate::bytecode::CapabilityDecl>,
    functions: Vec<SrcFn>,
    open: Option<OpenFn>,
}

spec fn prog_view(p: ProgState) -> ProgV {
    ProgV {
        name: match p.name {
            Some(n) => Some(n@),
            None => None,
        },
        caps: crate::bytecode::capabilities_view(p.caps@),
        functions: srcfns_view(p.functions@),
        open: match p.open {
            Some(o) => Some(openfn_view(o)),
            None => None,
        },
    }
}

/// The depth of an open function never exceeds the lines it has collected.
spec fn open_bounded(p: ProgState, bound: int) -> bool {
    p.open matches Some(o) ==> o.depth <= o.body.len() && o.body.len() <= bound
}

spec fn prog_out(r: POut<()>, s: LangOut<ProgV>, p: ProgState) -> bool {
    match (r, s) {
        (POut::Done(()), LangOut::Done(b)) => prog_view(p) == b,
        (POut::Fail(e), LangOut::Fail(f)) => e@ == f,
        (POut::Float(t), LangOut::Float(u)) => t@ == u,
        _ => false,
    }
}

/// A failure or a request, matching the outcome `s`.
spec fn fail_out<T>(o: POut<()>, s: LangOut<T>) -> bool {
    match (o, s) {
        (POut::Fail(e), LangOut::Fail(f)) => e@ == f,
        (POut::Float(t), LangOut::Float(u)) => t@ == u,
        _ => false,
    }
}

fn prog_step_exec(
    p: &mut ProgState,
    n: usize,
    t: &Vec<char>,
    fl: &Vec<(String, Option<(u64, String)>)>,
    Ghost(bound): Ghost<int>,
) -> (r: POut<()>)
    requires
        open_bounded(*old(p), bound),
        0 <= bound < usize::MAX,
    ensures
        prog_out(r, prog_step(prog_view(*old(p)), n, t@, lang_floats_view(fl@)), *final(p)),
        r is Done ==> open_bounded(*final(p), bound + 1),
{
    let cur = p.open.take();
    match cur {
        Some(mut o) => {
            if has_prefix_exec(t, "if ") || has_prefix_exec(t, "while ") {
                proof {
                    reveal_strlit("if ");
                    reveal_strlit("while ");
                }
                let ghost bv = body_view(o.body@);
                o.depth = o.depth + 1;
                o.body.push((n, copy_chars(t)));
                assert(body_view(o.body@) =~= bv.push((n, t@)));
                p.open = Some(o);
                POut::Done(())
            } else if crate::syntax::chars_are(t, "end") && o.depth == 0 {
                match body_exec(&o.body, fl) {
                    POut::Done(stmts) => {
                        let ghost fs = srcfns_view(p.functions@);
                        let f = SrcFn { line: o.line, name: o.name, params: o.params, body: stmts };
                        p.functions.push(f);
                        assert(srcfns_view(p.functions@) =~= fs.push(srcfn_view(f)));
                        POut::Done(())
                    },
                    POut::Fail(e) => POut::Fail(e),
                    POut::Float(x) => POut::Float(x),
                }
            } else if crate::syntax::chars_are(t, "end") {
                let ghost bv = body_view(o.body@);
                o.depth = o.depth - 1;
                o.body.push((n, copy_chars(t)));
                assert(body_view(o.body@) =~= bv.push((n, t@)));
                p.open = Some(o);
                POut::Done(())
            } else {
                let ghost bv = body_view(o.body@);
                o.body.push((n, copy_chars(t)));
                assert(body_view(o.body@) =~= bv.push((n, t@)));
                p.open = Some(o);
                POut::Done(())
            }
        },
        None => {
            if has_prefix_exec(t, "module ") {
                proof {
                    reveal_strlit("module ");
                }
                let rest = slice_chars(t, 7, t.len());
                let x = trim_chars(&rest);
                match name_or_string_exec(n, &x) {
                    Ok(name) => {
                        p.name = Some(name);
                        POut::Done(())
                    },
                    Err(e) => POut::Fail(e),
                }
            } else if has_prefix_exec(t, "cap ") {
                proof {
                    reveal_strlit("cap ");
                }
                let rest = slice_chars(t, 4, t.len());
                let x = trim_chars(&rest);
                match crate::syntax::cap_decl_exec(&x, false) {
                    Ok(d) => {
                        let ghost cs = crate::bytecode::capabilities_view(p.caps@);
                        p.caps.push(d);
                        assert(crate::bytecode::capabilities_view(p.caps@) =~= cs.push(d@));
                        POut::Done(())
                    },
                    Err(m) => POut::Fail(line_fail(n, m)),
                }
            } else if has_prefix_exec(t, "fn ") {
                proof {
                    reveal_strlit("fn ");
                }
                let rest = slice_chars(t, 3, t.len());
                let x = trim_chars(&rest);
                match fn_header_exec(n, &x) {
                    Ok((name, params)) => {
                        let o = OpenFn { line: n, name, params, depth: 0, body: Vec::new() };
                        assert(body_view(o.body@) =~= Seq::<(usize, Seq<char>)>::empty());
                        p.open = Some(o);
                        POut::Done(())
                    },
                    Err(e) => POut::Fail(e),
                }
            } else {
                POut::Fail(line_fail(n, String::from_str("expected module, cap, or fn")))
            }
        },
    }
}

proof fn lemma_prog_fold_stops(ls: Seq<(usize, Seq<char>)>, k: int, fl: FloatTable)
    requires
        0 <= k <= ls.len(),
        !(prog_fold(ls, k, fl) is Done),
    ensures
        prog_fold(ls, ls.len() as int, fl) == prog_fold(ls, k, fl),
    decreases ls.len() - k,
{
    if k < ls.len() {
        lemma_prog_fold_stops(ls, k + 1, fl);
    }
}

fn program_exec(source: &str, fl: &Vec<(String, Option<(u64, String)>)>) -> (r: Result<ProgState, POut<()>>)
    ensures
        match r {
            Ok(p) => program_of(source@, lang_floats_view(fl@)) == LangOut::Done(prog_view(p)),
            Err(o) => fail_out(o, program_of(source@, lang_floats_view(fl@))),
        },
{
    let ghost flv = lang_floats_view(fl@);
    let ls = logical_exec(source);
    let ghost lv = body_view(ls@);
    let mut p = ProgState { name: None, caps: Vec::new(), functions: Vec::new(), open: None };
    assert(prog_view(p) == empty_prog()) by {
        assert(crate::bytecode::capabilities_view(p.caps@) =~= Seq::<CapabilityDeclV>::empty());
        assert(srcfns_view(p.functions@) =~= Seq::<SrcFnV>::empty());
    }
    let mut k: usize = 0;
    while k < ls.len()
        invariant
            k <= ls.len(),
            lv == body_view(ls@),
            lv == logical_lines(source@),
            flv == lang_floats_view(fl@),
            prog_fold(lv, k as int, flv) == LangOut::Done(prog_view(p)),
            open_bounded(p, k as int),
        decreases ls.len() - k,
    {
        assert(lv[k as int] == (ls@[k as int].0, ls@[k as int].1@));
        match prog_step_exec(&mut p, ls[k].0, &ls[k].1, fl, Ghost(k as int)) {
            POut::Done(()) => {},
            POut::Fail(e) => {
                proof {
                    lemma_prog_fold_stops(lv, k + 1, flv);
                }
                return Err(POut::Fail(e));
            },
            POut::Float(x) => {
                proof {
                    lemma_prog_fold_stops(lv, k + 1, flv);
                }
                return Err(POut::Float(x));
            },
        }
        k = k + 1;
    }
    match &p.open {
        Some(o) => Err(POut::Fail(line_fail(o.line, String::from_str("function missing end")))),
        None => Ok(p),
    }
}

// ---------------------------------------------------------------------------------------
// Generating code

struct Comp {
    consts: Vec<Value>,
    vars: Vec<(Vec<char>, usize)>,
    next: usize,
    code: Vec<Instruction>,
    lines: Vec<Option<usize>>,
}

spec fn comp_view(c: Comp) -> CompV {
    CompV {
        consts: crate::value::values_view(c.consts@),
        vars: labels_view(c.vars@),
        next: c.next,
        code: instructions_view(c.code@),
        lines: c.lines@,
    }
}

struct Ctx {
    caps: Vec<Vec<char>>,
    fnames: Vec<Vec<char>>,
}

spec fn ctx_view(x: Ctx) -> CtxV {
    CtxV { caps: chars_view(x.caps@), fnames: chars_view(x.fnames@) }
}

spec fn reg_rel(r: Result<usize, LangError>, s: Result<(CompV, usize), LangErrorV>, c: Comp) -> bool {
    match (r, s) {
        (Ok(d), Ok((c2, d2))) => comp_view(c) == c2 && d == d2,
        (Err(e), Err(f)) => e@ == f,
        _ => false,
    }
}

spec fn unit_rel(r: Result<(), LangError>, s: Result<CompV, LangErrorV>, c: Comp) -> bool {
    match (r, s) {
        (Ok(()), Ok(c2)) => comp_view(c) == c2,
        (Err(e), Err(f)) => e@ == f,
        _ => false,
    }
}

fn contains_chars(v: &Vec<Vec<char>>, x: &Vec<char>) -> (r: bool)
    ensures
        r == chars_view(v@).contains(x@),
{
    let ghost vv = chars_view(v@);
    let mut i: usize = 0;
    while i < v.len()
        invariant
            i <= v.len(),
            vv == chars_view(v@),
            forall|j: int| 0 <= j < i ==> vv[j] != x@,
        decreases v.len() - i,
    {
        assert(vv[i as int] == v@[i as int]@);
        if crate::syntax::chars_eq(&v[i], x) {
            return true;
        }
        i = i + 1;
    }
    false
}

fn clone_vars(v: &Vec<(Vec<char>, usize)>) -> (r: Vec<(Vec<char>, usize)>)
    ensures
        labels_view(r@) == labels_view(v@),
{
    let mut out: Vec<(Vec<char>, usize)> = Vec::new();
    let mut i: usize = 0;
    while i < v.len()
        invariant
            i <= v.len(),
            labels_view(out@) == labels_view(v@).subrange(0, i as int),
        decreases v.len() - i,
    {
        let ghost before = labels_view(out@);
        let key = copy_chars(&v[i].0);
        let ghost kv = key@;
        out.push((key, v[i].1));
        assert(labels_view(v@)[i as int] == (kv, v@[i as int].1));
        assert(labels_view(out@) =~= before.push((kv, v@[i as int].1)));
        assert(labels_view(out@) =~= labels_view(v@).subrange(0, i + 1));
        i = i + 1;
    }
    assert(labels_view(v@).subrange(0, i as int) =~= labels_view(v@));
    out
}

fn push_ins_exec(c: &mut Comp, n: usize, i: Instruction)
    ensures
        comp_view(*final(c)) == push_ins(comp_view(*old(c)), n, i@),
{
    let ghost cv = comp_view(*c);
    c.code.push(i);
    c.lines.push(if n == 0 { None } else { Some(n) });
    assert(instructions_view(c.code@) =~= cv.code.push(i@));
}

fn fresh_reg_exec(c: &mut Comp, n: usize) -> (r: Result<usize, LangError>)
    ensures
        reg_rel(r, fresh_reg(comp_view(*old(c)), n), *final(c)),
{
    if c.next == usize::MAX {
        return Err(line_fail(n, String::from_str("too many registers")));
    }
    let d = c.next;
    c.next = c.next + 1;
    Ok(d)
}

fn load_exec(c: &mut Comp, v: Value, n: usize) -> (r: Result<usize, LangError>)
    ensures
        reg_rel(r, load(comp_view(*old(c)), v@, n), *final(c)),
{
    let dst = match fresh_reg_exec(c, n) {
        Ok(d) => d,
        Err(e) => return Err(e),
    };
    let k = crate::assembler::intern_exec(&mut c.consts, v);
    push_ins_exec(c, n, Instruction::Const { dst, constant: k });
    Ok(dst)
}

fn patch_exec(c: &mut Comp, at: usize, target: usize)
    ensures
        comp_view(*final(c)) == patch(comp_view(*old(c)), at as int, target),
{
    let ghost cv = comp_view(*c);
    if at < c.code.len() {
        let ins = match &c.code[at] {
            Instruction::Jump { .. } => Instruction::Jump { target },
            Instruction::JumpIf { cond, .. } => Instruction::JumpIf { cond: *cond, target },
            other => other.clone(),
        };
        assert(ins@ == retarget(cv.code[at as int], target));
        c.code.set(at, ins);
        assert(instructions_view(c.code@) =~= cv.code.update(at as int, ins@));
    }
}

fn compile_not_exec(c: &mut Comp, src: usize, n: usize) -> (r: Result<usize, LangError>)
    ensures
        reg_rel(r, compile_not(comp_view(*old(c)), src, n), *final(c)),
{
    let f = match load_exec(c, Value::Bool(false), n) {
        Ok(f) => f,
        Err(e) => return Err(e),
    };
    let dst = match fresh_reg_exec(c, n) {
        Ok(d) => d,
        Err(e) => return Err(e),
    };
    push_ins_exec(c, n, Instruction::Eq { dst, lhs: src, rhs: f });
    Ok(dst)
}

fn compile_and_exec(c: &mut Comp, lhs: usize, rhs: usize, n: usize) -> (r: Result<usize, LangError>)
    ensures
        reg_rel(r, compile_and(comp_view(*old(c)), lhs, rhs, n), *final(c)),
{
    let dst = match load_exec(c, Value::Bool(false), n) {
        Ok(d) => d,
        Err(e) => return Err(e),
    };
    let j1 = c.code.len();
    push_ins_exec(c, n, Instruction::JumpIf { cond: lhs, target: 0 });
    let j2 = c.code.len();
    push_ins_exec(c, n, Instruction::Jump { target: 0 });
    let start = c.code.len();
    patch_exec(c, j1, start);
    push_ins_exec(c, n, Instruction::Move { dst, src: rhs });
    let end = c.code.len();
    patch_exec(c, j2, end);
    Ok(dst)
}

fn compile_or_exec(c: &mut Comp, lhs: usize, rhs: usize, n: usize) -> (r: Result<usize, LangError>)
    ensures
        reg_rel(r, compile_or(comp_view(*old(c)), lhs, rhs, n), *final(c)),
{
    let dst = match load_exec(c, Value::Bool(true), n) {
        Ok(d) => d,
        Err(e) => return Err(e),
    };
    let j1 = c.code.len();
    push_ins_exec(c, n, Instruction::JumpIf { cond: lhs, target: 0 });
    push_ins_exec(c, n, Instruction::Move { dst, src: rhs });
    let end = c.code.len();
    patch_exec(c, j1, end);
    Ok(dst)
}

fn compile_op_exec(c: &mut Comp, op: BinaryOp, dst: usize, a: usize, b: usize, n: usize) -> (r: Result<usize, LangError>)
    ensures
        reg_rel(r, compile_op(comp_view(*old(c)), op, dst, a, b, n), *final(c)),
{
    match op {
        BinaryOp::Add => {
            push_ins_exec(c, n, Instruction::Add { dst, lhs: a, rhs: b });
            Ok(dst)
        },
        BinaryOp::Sub => {
            push_ins_exec(c, n, Instruction::Sub { dst, lhs: a, rhs: b });
            Ok(dst)
        },
        BinaryOp::Mul => {
            push_ins_exec(c, n, Instruction::Mul { dst, lhs: a, rhs: b });
            Ok(dst)
        },
        BinaryOp::Div => {
            push_ins_exec(c, n, Instruction::Div { dst, lhs: a, rhs: b });
            Ok(dst)
        },
        BinaryOp::Eq => {
            push_ins_exec(c, n, Instruction::Eq { dst, lhs: a, rhs: b });
            Ok(dst)
        },
        BinaryOp::Lt => {
            push_ins_exec(c, n, Instruction::Lt { dst, lhs: a, rhs: b });
            Ok(dst)
        },
        BinaryOp::Gt => {
            push_ins_exec(c, n, Instruction::Lt { dst, lhs: b, rhs: a });
            Ok(dst)
        },
        BinaryOp::Neq => {
            push_ins_exec(c, n, Instruction::Eq { dst, lhs: a, rhs: b });
            compile_not_exec(c, dst, n)
        },
        BinaryOp::Lte => {
            push_ins_exec(c, n, Instruction::Lt { dst, lhs: b, rhs: a });
            compile_not_exec(c, dst, n)
        },
        BinaryOp::Gte => {
            push_ins_exec(c, n, Instruction::Lt { dst, lhs: a, rhs: b });
            compile_not_exec(c, dst, n)
        },
        BinaryOp::And => compile_and_exec(c, a, b, n),
        BinaryOp::Or => compile_or_exec(c, a, b, n),
    }
}

spec fn regs_rel(r: Result<Vec<usize>, LangError>, s: Result<(CompV, Seq<usize>), LangErrorV>, c: Comp) -> bool {
    match (r, s) {
        (Ok(d), Ok((c2, d2))) => comp_view(c) == c2 && d@ == d2,
        (Err(e), Err(f)) => e@ == f,
        _ => false,
    }
}

proof fn lemma_compile_exprs_stops(x: CtxV, c: CompV, es: Seq<ExprV>, k: nat, n: usize)
    requires
        k <= es.len(),
        compile_exprs(x, c, es, k, n) is Err,
    ensures
        compile_exprs(x, c, es, es.len(), n) == compile_exprs(x, c, es, k, n),
    decreases es.len() - k,
{
    if k < es.len() {
        lemma_compile_exprs_stops(x, c, es, k + 1, n);
    }
}

fn compile_exprs_exec(x: &Ctx, c: &mut Comp, es: &Vec<Expr>, n: usize) -> (r: Result<Vec<usize>, LangError>)
    ensures
        regs_rel(r, compile_exprs(ctx_view(*x), comp_view(*old(c)), exprs_view(es@, es@.len()), es@.len(), n), *final(c)),
    decreases es, 1nat,
{
    let ghost ev = exprs_view(es@, es@.len());
    let ghost c0 = comp_view(*c);
    proof {
        lemma_exprs_view_prefix(es@, es@.len());
    }
    let mut regs: Vec<usize> = Vec::new();
    let mut i: usize = 0;
    while i < es.len()
        invariant
            i <= es.len(),
            ev == exprs_view(es@, es@.len()),
            ev.len() == es.len(),
            c0 == comp_view(*old(c)),
            forall|j: int| 0 <= j < es.len() ==> #[trigger] ev[j] == expr_view(es@[j]),
            compile_exprs(ctx_view(*x), c0, ev, i as nat, n) == Ok::<(CompV, Seq<usize>), LangErrorV>((comp_view(*c), regs@)),
        decreases es.len() - i,
    {
        assert(ev[i as int] == expr_view(es@[i as int]));
        let ghost before = comp_view(*c);
        match compile_expr_exec(x, c, &es[i], n) {
            Ok(r) => {
                regs.push(r);
            },
            Err(e) => {
                assert(compile_expr(ctx_view(*x), before, ev[i as int], n) == Err::<(CompV, usize), LangErrorV>(e@));
                assert(compile_exprs(ctx_view(*x), c0, ev, (i + 1) as nat, n) == Err::<(CompV, Seq<usize>), LangErrorV>(e@));
                proof {
                    lemma_compile_exprs_stops(ctx_view(*x), c0, ev, (i + 1) as nat, n);
                }
                assert(compile_exprs(ctx_view(*x), c0, ev, ev.len(), n) == Err::<(CompV, Seq<usize>), LangErrorV>(e@));
                assert(c0 == comp_view(*old(c)));
                assert(ev.len() == es@.len());
                return Err(e);
            },
        }
        i = i + 1;
    }
    Ok(regs)
}

fn compile_expr_exec(x: &Ctx, c: &mut Comp, e: &Expr, n: usize) -> (r: Result<usize, LangError>)
    ensures
        reg_rel(r, compile_expr(ctx_view(*x), comp_view(*old(c)), expr_view(*e), n), *final(c)),
    decreases e, 2nat,
{
    match e {
        Expr::Literal(v) => load_exec(c, crate::value::clone_value(v), n),
        Expr::Var(name) => match label_get(&c.vars, name) {
            Some(r) => Ok(r),
            None => Err(line_fail(n, crate::syntax::msg_with("unknown variable ", name))),
        },
        Expr::Not(_) => compile_unary_exec(x, c, e, n),
        Expr::Binary(..) => compile_binary_exec(x, c, e, n),
        _ => compile_call_exec(x, c, e, n),
    }
}

fn compile_unary_exec(x: &Ctx, c: &mut Comp, e: &Expr, n: usize) -> (r: Result<usize, LangError>)
    requires
        *e is Not,
    ensures
        reg_rel(r, compile_expr(ctx_view(*x), comp_view(*old(c)), expr_view(*e), n), *final(c)),
    decreases e, 1nat,
{
    match e {
        Expr::Not(inner) => {
            let r = match compile_expr_exec(x, c, inner, n) {
                Ok(r) => r,
                Err(err) => return Err(err),
            };
            compile_not_exec(c, r, n)
        },
        _ => Err(line_fail(n, String::new())),
    }
}

fn compile_binary_exec(x: &Ctx, c: &mut Comp, e: &Expr, n: usize) -> (r: Result<usize, LangError>)
    requires
        *e is Binary,
    ensures
        reg_rel(r, compile_expr(ctx_view(*x), comp_view(*old(c)), expr_view(*e), n), *final(c)),
    decreases e, 1nat,
{
    match e {
        Expr::Binary(op, l, r) => {
            let a = match compile_expr_exec(x, c, l, n) {
                Ok(a) => a,
                Err(err) => return Err(err),
            };
            let b = match compile_expr_exec(x, c, r, n) {
                Ok(b) => b,
                Err(err) => return Err(err),
            };
            let dst = match fresh_reg_exec(c, n) {
                Ok(d) => d,
                Err(err) => return Err(err),
            };
            compile_op_exec(c, *op, dst, a, b, n)
        },
        _ => Err(line_fail(n, String::new())),
    }
}

fn compile_call_exec(x: &Ctx, c: &mut Comp, e: &Expr, n: usize) -> (r: Result<usize, LangError>)
    requires
        *e is Array || *e is CapCall || *e is Call,
    ensures
        reg_rel(r, compile_expr(ctx_view(*x), comp_view(*old(c)), expr_view(*e), n), *final(c)),
    decreases e, 1nat,
{
    match e {
        Expr::Array(items) => {
            proof {
                lemma_exprs_view_prefix(items@, items@.len());
            }
            let regs = match compile_exprs_exec(x, c, items, n) {
                Ok(rs) => rs,
                Err(err) => return Err(err),
            };
            let dst = match fresh_reg_exec(c, n) {
                Ok(d) => d,
                Err(err) => return Err(err),
            };
            push_ins_exec(c, n, Instruction::ArrayNew { dst, items: regs });
            Ok(dst)
        },
        Expr::CapCall(name, args) => {
            proof {
                lemma_exprs_view_prefix(args@, args@.len());
            }
            if !contains_chars(&x.caps, name) {
                let mut m = crate::syntax::msg_with("capability ", name);
                m.append(" was not declared");
                return Err(line_fail(n, m));
            }
            let regs = match compile_exprs_exec(x, c, args, n) {
                Ok(rs) => rs,
                Err(err) => return Err(err),
            };
            let dst = match fresh_reg_exec(c, n) {
                Ok(d) => d,
                Err(err) => return Err(err),
            };
            push_ins_exec(c, n, Instruction::CapCall { dst, capability: crate::syntax::string_of_chars(name), args: regs });
            Ok(dst)
        },
        Expr::Call(name, args) => {
            proof {
                lemma_exprs_view_prefix(args@, args@.len());
            }
            if !contains_chars(&x.fnames, name) {
                return Err(line_fail(n, crate::syntax::msg_with("unknown function ", name)));
            }
            let regs = match compile_exprs_exec(x, c, args, n) {
                Ok(rs) => rs,
                Err(err) => return Err(err),
            };
            let dst = match fresh_reg_exec(c, n) {
                Ok(d) => d,
                Err(err) => return Err(err),
            };
            push_ins_exec(c, n, Instruction::Call { dst, function: crate::syntax::string_of_chars(name), args: regs });
            Ok(dst)
        },
        _ => Err(line_fail(n, String::new())),
    }
}

fn stmt_returns_exec(s: &Stmt) -> (r: bool)
    ensures
        r == stmt_returns(stmt_view(*s)),
    decreases s, 0nat,
{
    match s {
        Stmt::Return(l, e) => {
            assert(stmt_view(*s) == StmtV::Return(*l, expr_view(*e)));
            assert(stmt_returns(StmtV::Return(*l, expr_view(*e))));
            true
        },
        Stmt::If(l, c, tb, eb) => {
            proof {
                lemma_stmts_view_prefix(eb@, eb@.len());
                lemma_stmts_view_prefix(tb@, tb@.len());
            }
            assert(stmt_view(*s) == StmtV::If(*l, expr_view(*c), stmts_view(tb@, tb@.len()), stmts_view(eb@, eb@.len())));
            eb.len() > 0 && block_returns_exec(tb) && block_returns_exec(eb)
        },
        Stmt::Let(l, nm, e) => {
            assert(stmt_view(*s) == StmtV::Let(*l, nm@, expr_view(*e)));
            false
        },
        Stmt::Expr(l, e) => {
            assert(stmt_view(*s) == StmtV::Expr(*l, expr_view(*e)));
            false
        },
        Stmt::While(l, c, b) => {
            assert(stmt_view(*s) == StmtV::While(*l, expr_view(*c), stmts_view(b@, b@.len())));
            false
        },
    }
}

fn block_returns_exec(b: &Vec<Stmt>) -> (r: bool)
    ensures
        r == block_returns(stmts_view(b@, b@.len()), b@.len()),
    decreases b, 1nat,
{
    proof {
        lemma_stmts_view_prefix(b@, b@.len());
    }
    if b.len() == 0 {
        false
    } else {
        stmt_returns_exec(&b[b.len() - 1])
    }
}

proof fn lemma_compile_block_stops(x: CtxV, c: CompV, b: Seq<StmtV>, k: nat)
    requires
        k <= b.len(),
        compile_block(x, c, b, k) is Err,
    ensures
        compile_block(x, c, b, b.len()) == compile_block(x, c, b, k),
    decreases b.len() - k,
{
    if k < b.len() {
        lemma_compile_block_stops(x, c, b, k + 1);
    }
}

fn compile_block_exec(x: &Ctx, c: &mut Comp, b: &Vec<Stmt>) -> (r: Result<(), LangError>)
    ensures
        unit_rel(r, compile_block(ctx_view(*x), comp_view(*old(c)), stmts_view(b@, b@.len()), b@.len()), *final(c)),
    decreases b, 1nat,
{
    let ghost bv = stmts_view(b@, b@.len());
    let ghost c0 = comp_view(*c);
    proof {
        lemma_stmts_view_prefix(b@, b@.len());
    }
    let mut i: usize = 0;
    while i < b.len()
        invariant
            i <= b.len(),
            bv == stmts_view(b@, b@.len()),
            bv.len() == b.len(),
            c0 == comp_view(*old(c)),
            forall|j: int| 0 <= j < b.len() ==> #[trigger] bv[j] == stmt_view(b@[j]),
            compile_block(ctx_view(*x), c0, bv, i as nat) == Ok::<CompV, LangErrorV>(comp_view(*c)),
        decreases b.len() - i,
    {
        assert(bv[i as int] == stmt_view(b@[i as int]));
        match compile_stmt_exec(x, c, &b[i]) {
            Ok(()) => {},
            Err(e) => {
                proof {
                    lemma_compile_block_stops(ctx_view(*x), c0, bv, (i + 1) as nat);
                }
                return Err(e);
            },
        }
        i = i + 1;
    }
    Ok(())
}

fn compile_stmt_exec(x: &Ctx, c: &mut Comp, s: &Stmt) -> (r: Result<(), LangError>)
    ensures
        unit_rel(r, compile_stmt(ctx_view(*x), comp_view(*old(c)), stmt_view(*s)), *final(c)),
    decreases s, 2nat,
{
    match s {
        Stmt::Let(n, name, e) => {
            let r = match compile_expr_exec(x, c, e, *n) {
                Ok(r) => r,
                Err(err) => return Err(err),
            };
            match label_get(&c.vars, name) {
                Some(existing) => {
                    push_ins_exec(c, *n, Instruction::Move { dst: existing, src: r });
                },
                None => {
                    label_put(&mut c.vars, copy_chars(name), r);
                },
            }
            Ok(())
        },
        Stmt::Expr(n, e) => match compile_expr_exec(x, c, e, *n) {
            Ok(_) => Ok(()),
            Err(err) => Err(err),
        },
        Stmt::Return(n, e) => {
            let r = match compile_expr_exec(x, c, e, *n) {
                Ok(r) => r,
                Err(err) => return Err(err),
            };
            push_ins_exec(c, *n, Instruction::Ret { src: r });
            Ok(())
        },
        Stmt::If(..) => compile_if_exec(x, c, s),
        Stmt::While(..) => compile_while_exec(x, c, s),
    }
}

fn compile_if_exec(x: &Ctx, c: &mut Comp, s: &Stmt) -> (r: Result<(), LangError>)
    requires
        *s is If,
    ensures
        unit_rel(r, compile_stmt(ctx_view(*x), comp_view(*old(c)), stmt_view(*s)), *final(c)),
    decreases s, 1nat,
{
    match s {
        Stmt::If(n, cond, tb, eb) => {
            let n = *n;
            proof {
                lemma_stmts_view_prefix(tb@, tb@.len());
                lemma_stmts_view_prefix(eb@, eb@.len());
            }
            let before = clone_vars(&c.vars);
            let r = match compile_expr_exec(x, c, cond, n) {
                Ok(r) => r,
                Err(err) => return Err(err),
            };
            let j1 = c.code.len();
            push_ins_exec(c, n, Instruction::JumpIf { cond: r, target: 0 });
            match compile_block_exec(x, c, eb) {
                Ok(()) => {},
                Err(err) => return Err(err),
            }
            c.vars = clone_vars(&before);
            let j2 = c.code.len();
            let ends = block_returns_exec(eb);
            if !ends {
                push_ins_exec(c, n, Instruction::Jump { target: 0 });
            }
            let then_start = c.code.len();
            patch_exec(c, j1, then_start);
            match compile_block_exec(x, c, tb) {
                Ok(()) => {},
                Err(err) => return Err(err),
            }
            c.vars = before;
            if !ends {
                let end = c.code.len();
                patch_exec(c, j2, end);
            }
            Ok(())
        },
        _ => Err(line_fail(0, String::new())),
    }
}

fn compile_while_exec(x: &Ctx, c: &mut Comp, s: &Stmt) -> (r: Result<(), LangError>)
    requires
        *s is While,
    ensures
        unit_rel(r, compile_stmt(ctx_view(*x), comp_view(*old(c)), stmt_view(*s)), *final(c)),
    decreases s, 1nat,
{
    match s {
        Stmt::While(n, cond, body) => {
            let n = *n;
            proof {
                lemma_stmts_view_prefix(body@, body@.len());
            }
            let before = clone_vars(&c.vars);
            let start = c.code.len();
            let r = match compile_expr_exec(x, c, cond, n) {
                Ok(r) => r,
                Err(err) => return Err(err),
            };
            let j1 = c.code.len();
            push_ins_exec(c, n, Instruction::JumpIf { cond: r, target: 0 });
            let j2 = c.code.len();
            push_ins_exec(c, n, Instruction::Jump { target: 0 });
            let body_start = c.code.len();
            patch_exec(c, j1, body_start);
            match compile_block_exec(x, c, body) {
                Ok(()) => {},
                Err(err) => return Err(err),
            }
            c.vars = before;
            push_ins_exec(c, n, Instruction::Jump { target: start });
            let end = c.code.len();
            patch_exec(c, j2, end);
            Ok(())
        },
        _ => Err(line_fail(0, String::new())),
    }
}

// ---------------------------------------------------------------------------------------
// Finishing functions and the module

proof fn lemma_param_vars_stops(ps: Seq<Seq<char>>, k: int)
    requires
        0 <= k <= ps.len(),
        param_vars(ps, k) is Err,
    ensures
        param_vars(ps, ps.len() as int) == param_vars(ps, k),
    decreases ps.len() - k,
{
    if k < ps.len() {
        lemma_param_vars_stops(ps, k + 1);
    }
}

fn param_vars_exec(ps: &Vec<Vec<char>>) -> (r: Result<Vec<(Vec<char>, usize)>, LangError>)
    ensures
        match r {
            Ok(v) => param_vars(chars_view(ps@), ps.len() as int) == Ok::<Seq<(Seq<char>, usize)>, LangErrorV>(labels_view(v@)),
            Err(e) => param_vars(chars_view(ps@), ps.len() as int) == Err::<Seq<(Seq<char>, usize)>, LangErrorV>(e@),
        },
{
    let ghost pv = chars_view(ps@);
    let mut vs: Vec<(Vec<char>, usize)> = Vec::new();
    assert(labels_view(vs@) =~= Seq::<(Seq<char>, usize)>::empty());
    let mut i: usize = 0;
    while i < ps.len()
        invariant
            i <= ps.len(),
            pv == chars_view(ps@),
            param_vars(pv, i as int) == Ok::<Seq<(Seq<char>, usize)>, LangErrorV>(labels_view(vs@)),
        decreases ps.len() - i,
    {
        assert(pv[i as int] == ps@[i as int]@);
        if !is_valid_ident_exec(&ps[i]) {
            proof {
                lemma_param_vars_stops(pv, i + 1);
            }
            return Err(line_fail(0, crate::syntax::msg_with("invalid identifier ", &ps[i])));
        }
        if label_get(&vs, &ps[i]).is_some() {
            proof {
                lemma_param_vars_stops(pv, i + 1);
            }
            return Err(line_fail(0, crate::syntax::msg_with("duplicate parameter ", &ps[i])));
        }
        label_put(&mut vs, copy_chars(&ps[i]), i);
        i = i + 1;
    }
    Ok(vs)
}

fn remap_exec(code: &Vec<Instruction>, local: &Vec<Value>, mc: &mut Vec<Value>) -> (r: Vec<Instruction>)
    ensures
        (instructions_view(r@), crate::value::values_view(final(mc)@)) == remap(
            instructions_view(code@),
            crate::value::values_view(local@),
            crate::value::values_view(old(mc)@),
            code.len() as int,
        ),
{
    let ghost cv = instructions_view(code@);
    let ghost lv = crate::value::values_view(local@);
    let ghost m0 = crate::value::values_view(mc@);
    proof {
        crate::value::lemma_values_view(local@);
    }
    let mut out: Vec<Instruction> = Vec::new();
    let mut i: usize = 0;
    while i < code.len()
        invariant
            i <= code.len(),
            cv == instructions_view(code@),
            lv == crate::value::values_view(local@),
            lv.len() == local.len(),
            forall|j: int| 0 <= j < local.len() ==> #[trigger] lv[j] == local@[j]@,
            (instructions_view(out@), crate::value::values_view(mc@)) == remap(cv, lv, m0, i as int),
        decreases code.len() - i,
    {
        assert(cv[i as int] == code@[i as int]@);
        let ghost before = instructions_view(out@);
        let ins = match &code[i] {
            Instruction::Const { dst, constant } => {
                if *constant < local.len() {
                    let k = crate::assembler::intern_exec(mc, crate::value::clone_value(&local[*constant]));
                    Instruction::Const { dst: *dst, constant: k }
                } else {
                    code[i].clone()
                }
            },
            other => other.clone(),
        };
        out.push(ins);
        assert(instructions_view(out@) =~= before.push(ins@));
        i = i + 1;
    }
    out
}

fn finish_exec(c: Comp, name: Vec<char>, arity: usize, mc: &mut Vec<Value>) -> (r: Result<Function, LangError>)
    ensures
        match r {
            Ok(f) => finish(comp_view(c), name@, arity, crate::value::values_view(old(mc)@)) == Ok::<(FunctionV, Seq<ValueV>), LangErrorV>(
                (f@, crate::value::values_view(final(mc)@)),
            ),
            Err(e) => finish(comp_view(c), name@, arity, crate::value::values_view(old(mc)@)) == Err::<(FunctionV, Seq<ValueV>), LangErrorV>(e@),
        },
{
    let mut c = c;
    let ends = c.code.len() > 0 && match &c.code[c.code.len() - 1] {
        Instruction::Ret { .. } => true,
        _ => false,
    };
    if !ends {
        let dst = match load_exec(&mut c, Value::Nil, 0) {
            Ok(d) => d,
            Err(e) => return Err(e),
        };
        push_ins_exec(&mut c, 0, Instruction::Ret { src: dst });
    }
    let code = remap_exec(&c.code, &c.consts, mc);
    let registers = if c.next == 0 { 1 } else { c.next };
    Ok(Function { name: crate::syntax::string_of_chars(&name), registers, arity, code, source_lines: c.lines })
}

fn compile_fn_exec(x: &Ctx, f: &SrcFn, mc: &mut Vec<Value>) -> (r: Result<Function, LangError>)
    ensures
        match r {
            Ok(g) => compile_fn(ctx_view(*x), srcfn_view(*f), crate::value::values_view(old(mc)@)) == Ok::<(FunctionV, Seq<ValueV>), LangErrorV>(
                (g@, crate::value::values_view(final(mc)@)),
            ),
            Err(e) => compile_fn(ctx_view(*x), srcfn_view(*f), crate::value::values_view(old(mc)@)) == Err::<(FunctionV, Seq<ValueV>), LangErrorV>(e@),
        },
{
    let vs = match param_vars_exec(&f.params) {
        Ok(v) => v,
        Err(e) => return Err(e),
    };
    let mut c = Comp { consts: Vec::new(), vars: vs, next: f.params.len(), code: Vec::new(), lines: Vec::new() };
    proof {
        lemma_stmts_view_prefix(f.body@, f.body@.len());
    }
    assert(comp_view(c).lines =~= Seq::<Option<usize>>::empty());
    assert(comp_view(c).consts =~= Seq::<ValueV>::empty());
    assert(comp_view(c).code =~= Seq::<crate::bytecode::InstructionV>::empty());
    match compile_block_exec(x, &mut c, &f.body) {
        Ok(()) => {},
        Err(e) => return Err(e),
    }
    finish_exec(c, copy_chars(&f.name), f.params.len(), mc)
}

// ---------------------------------------------------------------------------------------
// Writing assembly text

fn type_str(t: ValueType) -> (r: &'static str)
    ensures
        r@ == type_text(t),
{
    match t {
        ValueType::Nil => "nil",
        ValueType::Bool => "bool",
        ValueType::I64 => "i64",
        ValueType::F64 => "f64",
        ValueType::String => "string",
        ValueType::Array => "array",
        ValueType::Function => "function",
        ValueType::Capability => "capability",
        ValueType::Any => "any",
        ValueType::AnyVariadic => "any...",
    }
}

fn push_types(out: &mut String, ps: &Vec<ValueType>)
    ensures
        final(out)@ == old(out)@ + types_text(ps@, ps.len() as int),
{
    let ghost o = out@;
    let mut i: usize = 0;
    while i < ps.len()
        invariant
            i <= ps.len(),
            out@ == o + types_text(ps@, i as int),
        decreases ps.len() - i,
    {
        if i > 0 {
            out.append(", ");
        }
        out.append(type_str(ps[i]));
        proof {
            reveal_strlit(", ");
        }
        assert(out@ =~= o + types_text(ps@, i + 1));
        i = i + 1;
    }
}

fn push_escaped(out: &mut String, s: &str)
    ensures
        final(out)@ == old(out)@ + escape(s@),
{
    let cs = crate::syntax::chars_of(s);
    let ghost o = out@;
    let mut i: usize = 0;
    assert(cs@.subrange(0, 0) =~= Seq::<char>::empty());
    while i < cs.len()
        invariant
            i <= cs.len(),
            cs@ == s@,
            out@ == o + escape(cs@.subrange(0, i as int)),
        decreases cs.len() - i,
    {
        let c = cs[i];
        if c == '\\' {
            crate::syntax::push_char(out, '\\');
            crate::syntax::push_char(out, '\\');
        } else if c == '"' {
            crate::syntax::push_char(out, '\\');
            crate::syntax::push_char(out, '"');
        } else {
            crate::syntax::push_char(out, c);
        }
        assert(cs@.subrange(0, i + 1).drop_last() =~= cs@.subrange(0, i as int));
        assert(out@ =~= o + escape(cs@.subrange(0, i + 1)));
        i = i + 1;
    }
    assert(cs@.subrange(0, i as int) =~= s@);
}

fn push_regs(out: &mut String, rs: &Vec<usize>)
    ensures
        final(out)@ == old(out)@ + regs_text(rs@),
{
    let ghost o = out@;
    let mut i: usize = 0;
    while i < rs.len()
        invariant
            i <= rs.len(),
            out@ == o + reg_list(rs@, i as int),
        decreases rs.len() - i,
    {
        out.append(", r");
        crate::text::push_decimal(out, rs[i]);
        assert(out@ =~= o + reg_list(rs@, i + 1));
        i = i + 1;
    }
}

fn push_float(out: &mut String, fl: &Vec<(String, Option<(u64, String)>)>, b: u64)
    ensures
        final(out)@ == old(out)@ + float_text(lang_floats_view(fl@), b),
{
    let ghost fv = lang_floats_view(fl@);
    let mut i: usize = 0;
    assert(fv.subrange(0, fv.len() as int) =~= fv);
    while i < fl.len()
        invariant
            i <= fl.len(),
            fv == lang_floats_view(fl@),
            float_text(fv, b) == float_text(fv.subrange(i as int, fv.len() as int), b),
            out@ == old(out)@,
        decreases fl.len() - i,
    {
        let ghost rest = fv.subrange(i as int, fv.len() as int);
        assert(rest.drop_first() =~= fv.subrange(i + 1, fv.len() as int));
        assert(rest[0] == fv[i as int]);
        match &fl[i].1 {
            Some((bits, t)) => {
                if *bits == b {
                    out.append(t.as_str());
                    return;
                }
            },
            None => {},
        }
        i = i + 1;
    }
    assert(fv.subrange(i as int, fv.len() as int) =~= Seq::<(Seq<char>, Option<(u64, Seq<char>)>)>::empty());
    assert(out@ =~= old(out)@ + Seq::<char>::empty());
}

fn push_literal(out: &mut String, v: &Value, fl: &Vec<(String, Option<(u64, String)>)>)
    ensures
        final(out)@ == old(out)@ + literal_text(v@, lang_floats_view(fl@)),
{
    match v {
        Value::Nil => out.append("nil"),
        Value::Bool(b) => if *b {
            out.append("true")
        } else {
            out.append("false")
        },
        Value::I64(i) => crate::text::push_signed(out, *i),
        Value::F64(b) => push_float(out, fl, *b),
        Value::String(t) => {
            let ghost o = out@;
            out.append("\"");
            push_escaped(out, t.as_str());
            out.append("\"");
            assert(out@ =~= o + ("\""@ + escape(t@) + "\""@));
        },
        _ => out.append("\"\""),
    }
}

fn push_r3(out: &mut String, op: &str, a: usize, b: usize, c: usize)
    ensures
        final(out)@ == old(out)@ + r3(op@, a, b, c),
{
    let ghost o = out@;
    out.append(op);
    out.append(" r");
    crate::text::push_decimal(out, a);
    out.append(", r");
    crate::text::push_decimal(out, b);
    out.append(", r");
    crate::text::push_decimal(out, c);
    assert(out@ =~= o + r3(op@, a, b, c));
}

fn push_ins_text(out: &mut String, i: &Instruction, consts: &Vec<Value>, fl: &Vec<(String, Option<(u64, String)>)>)
    ensures
        final(out)@ == old(out)@ + ins_text(i@, crate::value::values_view(consts@), lang_floats_view(fl@)),
{
    let ghost o = out@;
    proof {
        crate::value::lemma_values_view(consts@);
    }
    match i {
        Instruction::Const { dst, constant } => {
            out.append("const r");
            crate::text::push_decimal(out, *dst);
            out.append(", ");
            if *constant < consts.len() {
                push_literal(out, &consts[*constant], fl);
            }
            assert(out@ =~= o + ins_text(i@, crate::value::values_view(consts@), lang_floats_view(fl@)));
        },
        Instruction::Add { dst, lhs, rhs } => push_r3(out, "add", *dst, *lhs, *rhs),
        Instruction::Sub { dst, lhs, rhs } => push_r3(out, "sub", *dst, *lhs, *rhs),
        Instruction::Mul { dst, lhs, rhs } => push_r3(out, "mul", *dst, *lhs, *rhs),
        Instruction::Div { dst, lhs, rhs } => push_r3(out, "div", *dst, *lhs, *rhs),
        Instruction::Eq { dst, lhs, rhs } => push_r3(out, "eq", *dst, *lhs, *rhs),
        Instruction::Lt { dst, lhs, rhs } => push_r3(out, "lt", *dst, *lhs, *rhs),
        Instruction::ArrayGet { dst, array, index } => push_r3(out, "array_get", *dst, *array, *index),
        Instruction::ArraySet { array, index, value } => push_r3(out, "array_set", *array, *index, *value),
        Instruction::CapCall { dst, capability, args } => {
            out.append("cap_call r");
            crate::text::push_decimal(out, *dst);
            out.append(", ");
            out.append(capability.as_str());
            push_regs(out, args);
            assert(out@ =~= o + ins_text(i@, crate::value::values_view(consts@), lang_floats_view(fl@)));
        },
        Instruction::Call { dst, function, args } => {
            out.append("call r");
            crate::text::push_decimal(out, *dst);
            out.append(", ");
            out.append(function.as_str());
            push_regs(out, args);
            assert(out@ =~= o + ins_text(i@, crate::value::values_view(consts@), lang_floats_view(fl@)));
        },
        Instruction::ArrayNew { dst, items } => {
            out.append("array_new r");
            crate::text::push_decimal(out, *dst);
            push_regs(out, items);
            assert(out@ =~= o + ins_text(i@, crate::value::values_view(consts@), lang_floats_view(fl@)));
        },
        Instruction::Ret { src } => {
            out.append("ret r");
            crate::text::push_decimal(out, *src);
            assert(out@ =~= o + ins_text(i@, crate::value::values_view(consts@), lang_floats_view(fl@)));
        },
        Instruction::Move { dst, src } => {
            out.append("move r");
            crate::text::push_decimal(out, *dst);
            out.append(", r");
            crate::text::push_decimal(out, *src);
            assert(out@ =~= o + ins_text(i@, crate::value::values_view(consts@), lang_floats_view(fl@)));
        },
        Instruction::Jump { target } => {
            out.append("jump ");
            crate::text::push_decimal(out, *target);
            assert(out@ =~= o + ins_text(i@, crate::value::values_view(consts@), lang_floats_view(fl@)));
        },
        Instruction::JumpIf { cond, target } => {
            out.append("jump_if r");
            crate::text::push_decimal(out, *cond);
            out.append(", ");
            crate::text::push_decimal(out, *target);
            assert(out@ =~= o + ins_text(i@, crate::value::values_view(consts@), lang_floats_view(fl@)));
        },
    }
}

fn push_fn(out: &mut String, f: &Function, consts: &Vec<Value>, fl: &Vec<(String, Option<(u64, String)>)>)
    ensures
        final(out)@ == old(out)@ + fn_text(f@, crate::value::values_view(consts@), lang_floats_view(fl@)),
{
    let ghost o = out@;
    let ghost cv = crate::value::values_view(consts@);
    let ghost flv = lang_floats_view(fl@);
    out.append(".fn ");
    out.append(f.name.as_str());
    out.append(" r");
    crate::text::push_decimal(out, f.registers);
    if f.arity > 0 {
        out.append(" arity=");
        crate::text::push_decimal(out, f.arity);
    }
    out.append("\n");
    let ghost head = out@;
    let ghost code = f@.code;
    let mut i: usize = 0;
    while i < f.code.len()
        invariant
            i <= f.code.len(),
            code == f@.code,
            code.len() == f.code.len(),
            cv == crate::value::values_view(consts@),
            flv == lang_floats_view(fl@),
            out@ == head + code_text(code, cv, flv, i as int),
        decreases f.code.len() - i,
    {
        assert(code[i as int] == f.code@[i as int]@);
        out.append("  ");
        push_ins_text(out, &f.code[i], consts, fl);
        out.append("\n");
        assert(out@ =~= head + code_text(code, cv, flv, i + 1));
        i = i + 1;
    }
    out.append(".end\n\n");
    assert(out@ =~= o + fn_text(f@, cv, flv));
}

fn push_cap(out: &mut String, d: &crate::bytecode::CapabilityDecl)
    ensures
        final(out)@ == old(out)@ + cap_text(d@),
{
    let ghost o = out@;
    out.append(".cap ");
    out.append(d.id.as_str());
    out.append("(");
    push_types(out, &d.params);
    out.append(") -> ");
    out.append(type_str(d.return_type));
    match &d.reason {
        Some(r) => {
            out.append(" reason=\"");
            push_escaped(out, r.as_str());
            out.append("\"");
        },
        None => {},
    }
    out.append("\n");
    assert(out@ =~= o + cap_text(d@));
}

/// The assembly text of a module, with the texts of its numbers from the table.
fn casm_exec(m: &crate::bytecode::Module, fl: &Vec<(String, Option<(u64, String)>)>) -> (r: String)
    ensures
        r@ == casm(m@, lang_floats_view(fl@)),
{
    let ghost mv = m@;
    let ghost flv = lang_floats_view(fl@);
    let mut out = String::from_str(".module \"");
    push_escaped(&mut out, m.name.as_str());
    out.append("\"\n");
    let ghost head = out@;
    let mut i: usize = 0;
    while i < m.capabilities.len()
        invariant
            i <= m.capabilities.len(),
            mv == m@,
            mv.capabilities.len() == m.capabilities.len(),
            out@ == head + caps_text(mv.capabilities, i as int),
        decreases m.capabilities.len() - i,
    {
        assert(mv.capabilities[i as int] == m.capabilities@[i as int]@);
        push_cap(&mut out, &m.capabilities[i]);
        assert(out@ =~= head + caps_text(mv.capabilities, i + 1));
        i = i + 1;
    }
    out.append("\n");
    let ghost mid = out@;
    let mut j: usize = 0;
    while j < m.functions.len()
        invariant
            j <= m.functions.len(),
            mv == m@,
            flv == lang_floats_view(fl@),
            mv.functions.len() == m.functions.len(),
            out@ == mid + fns_text(mv.functions, mv.constants, flv, j as int),
        decreases m.functions.len() - j,
    {
        assert(mv.functions[j as int] == m.functions@[j as int]@);
        push_fn(&mut out, &m.functions[j], &m.constants, fl);
        assert(out@ =~= mid + fns_text(mv.functions, mv.constants, flv, j + 1));
        j = j + 1;
    }
    assert(out@ =~= casm(mv, flv));
    out
}

// ---------------------------------------------------------------------------------------
// The compiler

/// A compiled program: the checked module and its assembly text.
#[derive(Debug)]
pub struct CompiledProgram {
    pub module: crate::bytecode::Module,
    pub casm: String,
}

/// The outcome of compiling: the program or the failure, or the request for the reading of a
/// literal with a decimal point that the table did not hold.
#[derive(Debug)]
pub enum Compilation {
    Done(Result<CompiledProgram, LangError>),
    NeedsFloat(String),
}

pub open spec fn compilation_matches(r: Compilation, out: LangOut<(ModuleV, Seq<char>)>) -> bool {
    match (r, out) {
        (Compilation::Done(Ok(p)), LangOut::Done((m, text))) => p.module@ == m && p.casm@ == text,
        (Compilation::Done(Err(e)), LangOut::Fail(f)) => e@ == f,
        (Compilation::NeedsFloat(t), LangOut::Float(u)) => t@ == u,
        _ => false,
    }
}

fn first_duplicate_exec(fs: &Vec<SrcFn>) -> (r: Option<usize>)
    ensures
        match r {
            Some(i) => first_duplicate(srcfns_view(fs@), fs.len() as int) == Some(i as int) && i < fs.len(),
            None => first_duplicate(srcfns_view(fs@), fs.len() as int) is None,
        },
{
    let ghost fv = srcfns_view(fs@);
    let mut k: usize = 0;
    while k < fs.len()
        invariant
            k <= fs.len(),
            fv == srcfns_view(fs@),
            first_duplicate(fv, k as int) is None,
        decreases fs.len() - k,
    {
        let mut j: usize = 0;
        while j < k
            invariant
                j <= k < fs.len(),
                fv == srcfns_view(fs@),
                first_duplicate(fv, k as int) is None,
                forall|m: int| 0 <= m < j ==> #[trigger] fv[m].name != fv[k as int].name,
            decreases k - j,
        {
            assert(fv[j as int].name == fs@[j as int].name@);
            assert(fv[k as int].name == fs@[k as int].name@);
            if crate::syntax::chars_eq(&fs[j].name, &fs[k].name) {
                assert(fv[j as int].name == fv[k as int].name);
                assert(exists|m: int| 0 <= m < k && #[trigger] fv[m].name == fv[k as int].name);
                assert(first_duplicate(fv, k + 1) == Some(k as int));
                proof {
                    lemma_first_duplicate_stops(fv, k as int + 1);
                }
                return Some(k);
            }
            j = j + 1;
        }
        k = k + 1;
    }
    None
}

proof fn lemma_first_duplicate_stops(fs: Seq<SrcFnV>, k: int)
    requires
        0 <= k <= fs.len(),
        first_duplicate(fs, k) is Some,
    ensures
        first_duplicate(fs, fs.len() as int) == first_duplicate(fs, k),
    decreases fs.len() - k,
{
    if k < fs.len() {
        lemma_first_duplicate_stops(fs, k + 1);
    }
}

fn context_exec(p: &ProgState) -> (x: Ctx)
    ensures
        ctx_view(x) == context_of(prog_view(*p)),
{
    let ghost pv = prog_view(*p);
    let mut caps: Vec<Vec<char>> = Vec::new();
    let mut i: usize = 0;
    while i < p.caps.len()
        invariant
            i <= p.caps.len(),
            pv == prog_view(*p),
            chars_view(caps@) == pv.caps.map_values(|d: CapabilityDeclV| d.id).subrange(0, i as int),
        decreases p.caps.len() - i,
    {
        let ghost before = chars_view(caps@);
        let id = crate::syntax::chars_of(p.caps[i].id.as_str());
        assert(pv.caps[i as int] == p.caps@[i as int]@);
        let ghost idv = id@;
        assert(idv == pv.caps[i as int].id);
        caps.push(id);
        assert(chars_view(caps@) =~= before.push(idv));
        assert(chars_view(caps@) =~= pv.caps.map_values(|d: CapabilityDeclV| d.id).subrange(0, i + 1));
        i = i + 1;
    }
    let mut fnames: Vec<Vec<char>> = Vec::new();
    let mut j: usize = 0;
    while j < p.functions.len()
        invariant
            j <= p.functions.len(),
            pv == prog_view(*p),
            chars_view(fnames@) == pv.functions.map_values(|f: SrcFnV| f.name).subrange(0, j as int),
        decreases p.functions.len() - j,
    {
        assert(pv.functions[j as int] == srcfn_view(p.functions@[j as int]));
        let ghost before = chars_view(fnames@);
        let nm = copy_chars(&p.functions[j].name);
        let ghost nv = nm@;
        fnames.push(nm);
        assert(chars_view(fnames@) =~= before.push(nv));
        assert(chars_view(fnames@) =~= pv.functions.map_values(|f: SrcFnV| f.name).subrange(0, j + 1));
        j = j + 1;
    }
    assert(pv.caps.map_values(|d: CapabilityDeclV| d.id).subrange(0, i as int) =~= pv.caps.map_values(|d: CapabilityDeclV| d.id));
    assert(pv.functions.map_values(|f: SrcFnV| f.name).subrange(0, j as int) =~= pv.functions.map_values(|f: SrcFnV| f.name));
    Ctx { caps, fnames }
}

proof fn lemma_compile_fns_stops(x: CtxV, fs: Seq<SrcFnV>, k: int)
    requires
        0 <= k <= fs.len(),
        compile_fns(x, fs, k) is Err,
    ensures
        compile_fns(x, fs, fs.len() as int) == compile_fns(x, fs, k),
    decreases fs.len() - k,
{
    if k < fs.len() {
        lemma_compile_fns_stops(x, fs, k + 1);
    }
}

/// The module of a parsed program, before it is checked.
fn module_exec(p: ProgState, name: Vec<char>) -> (r: Result<crate::bytecode::Module, LangError>)
    ensures
        match r {
            Ok(m) => module_of(prog_view(p), name@) == Ok::<ModuleV, LangErrorV>(m@),
            Err(e) => module_of(prog_view(p), name@) == Err::<ModuleV, LangErrorV>(e@),
        },
{
    let ghost pv = prog_view(p);
    let x = context_exec(&p);
    let mut mc: Vec<Value> = Vec::new();
    let mut fs: Vec<Function> = Vec::new();
    assert(crate::value::values_view(mc@) =~= Seq::<ValueV>::empty());
    assert(crate::bytecode::functions_view(fs@) =~= Seq::<FunctionV>::empty());
    let mut i: usize = 0;
    while i < p.functions.len()
        invariant
            i <= p.functions.len(),
            pv == prog_view(p),
            ctx_view(x) == context_of(pv),
            compile_fns(context_of(pv), pv.functions, i as int) == Ok::<(Seq<FunctionV>, Seq<ValueV>), LangErrorV>(
                (crate::bytecode::functions_view(fs@), crate::value::values_view(mc@)),
            ),
        decreases p.functions.len() - i,
    {
        assert(pv.functions[i as int] == srcfn_view(p.functions@[i as int]));
        match compile_fn_exec(&x, &p.functions[i], &mut mc) {
            Ok(f) => {
                let ghost before = crate::bytecode::functions_view(fs@);
                fs.push(f);
                assert(crate::bytecode::functions_view(fs@) =~= before.push(f@));
            },
            Err(e) => {
                proof {
                    lemma_compile_fns_stops(context_of(pv), pv.functions, i + 1);
                }
                return Err(e);
            },
        }
        i = i + 1;
    }
    let ghost fv = crate::bytecode::functions_view(fs@);
    let mut exports: Vec<(String, usize)> = Vec::new();
    assert(crate::bytecode::exports_view(exports@) =~= all_exports(fv, 0));
    let mut k: usize = 0;
    while k < fs.len()
        invariant
            k <= fs.len(),
            fv == crate::bytecode::functions_view(fs@),
            crate::bytecode::exports_view(exports@) == all_exports(fv, k as int),
        decreases fs.len() - k,
    {
        assert(fv[k as int].name == fs@[k as int].name@);
        crate::codec::insert_export(&mut exports, fs[k].name.clone(), k);
        k = k + 1;
    }
    Ok(crate::bytecode::Module {
        name: crate::syntax::string_of_chars(&name),
        constants: mc,
        capabilities: p.caps,
        functions: fs,
        exports,
    })
}

/// The compiler of the plugin language.
pub struct Compiler;

impl Compiler {
    /// Compiles `source` to a checked module and its assembly text. `floats` gives, for each
    /// literal with a decimal point that has been read as a number, its bits and its text
    /// (`None` where it is no number); a literal that it lacks is handed back to be read.
    pub fn compile(source: &str, floats: &Vec<(String, Option<(u64, String)>)>) -> (r: Compilation)
        ensures
            compilation_matches(r, compile(source@, lang_floats_view(floats@))),
    {
        let p = match program_exec(source, floats) {
            Ok(p) => p,
            Err(POut::Fail(e)) => return Compilation::Done(Err(e)),
            Err(POut::Float(t)) => return Compilation::NeedsFloat(crate::syntax::string_of_chars(&t)),
            Err(POut::Done(())) => return Compilation::Done(Err(LangError::MissingModule)),
        };
        let ghost pv = prog_view(p);
        let name = match &p.name {
            None => return Compilation::Done(Err(LangError::MissingModule)),
            Some(n) => copy_chars(n),
        };
        if p.functions.len() == 0 {
            return Compilation::Done(Err(LangError::MissingFunction));
        }
        match first_duplicate_exec(&p.functions) {
            Some(i) => {
                assert(pv.functions[i as int] == srcfn_view(p.functions@[i as int]));
                let m = crate::syntax::msg_with("duplicate function ", &p.functions[i].name);
                return Compilation::Done(Err(line_fail(p.functions[i].line, m)));
            },
            None => {},
        }
        let x = context_exec(&p);
        let main = crate::syntax::chars_of("main");
        if !contains_chars(&x.fnames, &main) {
            return Compilation::Done(Err(line_fail(0, String::from_str("program must define main"))));
        }
        let module = match module_exec(p, name) {
            Ok(m) => m,
            Err(e) => return Compilation::Done(Err(e)),
        };
        match crate::checks::Verifier::verify(&module) {
            Ok(()) => {},
            Err(e) => return Compilation::Done(Err(LangError::Verify(e))),
        }
        let casm = casm_exec(&module, floats);
        Compilation::Done(Ok(CompiledProgram { module, casm }))
    }
}

} // verus!
