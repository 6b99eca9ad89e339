use vstd::prelude::*;
use crate::checks::{module_wf, verify_module};
use crate::codec::{export_insert, seq_lt};
use crate::lang::{
    BinaryOp, CompV, CtxV, ExprV, FloatTable, StmtV, block_returns, compile_block, compile_expr, compile_exprs, compile_not,
    compile_op, compile_stmt, fresh_reg, load, param_vars, patch, push_ins, remap, LangOut, SrcFnV, all_exports, call_shape, cap_shape, casm, compile, compile_fns, context_of,
    expr_of, first_duplicate, operator_split, lemma_operator_split_at, op_needle, parse_expr, parse_list, parse_sub, program_of,
    strip_parens, wrapped,
};
use crate::syntax::{arg_fold, has_prefix, lemma_trim_len, lines, split_args, trim};
use crate::assembler::{AsmOut, AsmV, BuilderV, asm_fold, asm_line, asm_stripped, assemble, resolve};
use crate::bytecode::{FunctionV, InstructionV};
use crate::value::ValueV;

verus! {

/// What the compiler produces passes the verifier: a compiled module is well formed for the
/// runtime, and its assembly text is the rendering of exactly that module.
pub proof fn compiled_modules_verify(source: Seq<char>, fl: FloatTable)
    requires
        compile(source, fl) is Done,
    ensures
        ({
            let (m, text) = compile(source, fl)->Done_0;
            &&& verify_module(m) is Ok
            &&& module_wf(m)
            &&& text == casm(m, fl)
        }),
{
    let (m, _) = compile(source, fl)->Done_0;
    crate::checks::lemma_verified_module_wf(m);
}

/// Every function of a compiled program is exported under its name: the export table holds
/// the pair of each function's name and index.
#[verifier::rlimit(50)]
pub proof fn compiled_functions_are_exported(source: Seq<char>, fl: FloatTable)
    requires
        compile(source, fl) is Done,
        compile(source, fl)->Done_0.0.functions.len() <= usize::MAX,
    ensures
        ({
            let m = compile(source, fl)->Done_0.0;
            forall|i: int| 0 <= i < m.functions.len() ==> m.exports.contains((#[trigger] m.functions[i].name, i as usize))
        }),
{
    let p = program_of(source, fl)->Done_0;
    let (fs, _) = compile_fns(context_of(p), p.functions, p.functions.len() as int)->Ok_0;
    lemma_compiled_names(context_of(p), p.functions, p.functions.len() as int);
    lemma_first_duplicate_none(p.functions, p.functions.len() as int);
    assert forall|i: int, j: int| 0 <= i < j < fs.len() implies fs[i].name != fs[j].name by {
        assert(fs[i].name == p.functions[i].name);
        assert(fs[j].name == p.functions[j].name);
    }
    lemma_all_exports(fs, fs.len() as int);
}

/// A compiled program has a function `main`, and it is exported under that name.
pub proof fn compiled_modules_export_main(source: Seq<char>, fl: FloatTable)
    requires
        compile(source, fl) is Done,
        compile(source, fl)->Done_0.0.functions.len() <= usize::MAX,
    ensures
        ({
            let m = compile(source, fl)->Done_0.0;
            exists|i: int| 0 <= i < m.functions.len() && m.functions[i].name == "main"@ && #[trigger] m.exports.contains(
                ("main"@, i as usize),
            )
        }),
{
    let p = program_of(source, fl)->Done_0;
    let m = compile(source, fl)->Done_0.0;
    compiled_functions_are_exported(source, fl);
    lemma_compiled_names(context_of(p), p.functions, p.functions.len() as int);
    let names = context_of(p).fnames;
    assert(names.contains("main"@));
    let j = choose|j: int| 0 <= j < names.len() && names[j] == "main"@;
    assert(p.functions[j].name == "main"@);
    assert(m.functions[j].name == "main"@);
    assert(m.exports.contains((m.functions[j].name, j as usize)));
}

/// The compiled functions carry the names of the source functions, in order.
proof fn lemma_compiled_names(x: CtxV, fs: Seq<SrcFnV>, k: int)
    requires
        0 <= k <= fs.len(),
        compile_fns(x, fs, k) is Ok,
    ensures
        compile_fns(x, fs, k)->Ok_0.0.len() == k,
        forall|i: int| 0 <= i < k ==> (#[trigger] compile_fns(x, fs, k)->Ok_0.0[i]).name == fs[i].name,
    decreases k,
{
    if k > 0 {
        lemma_compiled_names(x, fs, k - 1);
    }
}

/// With no duplicate among the first `k` functions, their names are distinct.
proof fn lemma_first_duplicate_none(fs: Seq<SrcFnV>, k: int)
    requires
        0 <= k <= fs.len(),
        first_duplicate(fs, k) is None,
    ensures
        forall|i: int, j: int| 0 <= i < j < k ==> fs[i].name != fs[j].name,
    decreases k,
{
    if k > 0 {
        lemma_first_duplicate_none(fs, k - 1);
        assert forall|i: int, j: int| 0 <= i < j < k implies fs[i].name != fs[j].name by {
            if j == k - 1 {
                if fs[i].name == fs[j].name {
                    assert(exists|m: int| 0 <= m < k - 1 && #[trigger] fs[m].name == fs[k - 1].name);
                }
            }
        }
    }
}

proof fn lemma_insert_holds(es: Seq<(Seq<char>, usize)>, k: Seq<char>, v: usize)
    ensures
        export_insert(es, k, v).contains((k, v)),
        forall|e: (Seq<char>, usize)| es.contains(e) && e.0 != k ==> export_insert(es, k, v).contains(e),
    decreases es.len(),
{
    let r = export_insert(es, k, v);
    if es.len() == 0 {
        assert(r[0] == (k, v));
    } else if seq_lt(es.last().0, k) {
        assert(r[r.len() - 1] == (k, v));
        assert forall|e: (Seq<char>, usize)| es.contains(e) && e.0 != k implies r.contains(e) by {
            let i = choose|i: int| 0 <= i < es.len() && es[i] == e;
            assert(r[i] == e);
        }
    } else if es.last().0 == k {
        assert(r[r.len() - 1] == (k, v));
        assert forall|e: (Seq<char>, usize)| es.contains(e) && e.0 != k implies r.contains(e) by {
            let i = choose|i: int| 0 <= i < es.len() && es[i] == e;
            assert(i != es.len() - 1);
            assert(r[i] == e);
        }
    } else {
        let pre = es.drop_last();
        lemma_insert_holds(pre, k, v);
        let q = export_insert(pre, k, v);
        let j = choose|j: int| 0 <= j < q.len() && q[j] == (k, v);
        assert(r[j] == (k, v));
        assert forall|e: (Seq<char>, usize)| es.contains(e) && e.0 != k implies r.contains(e) by {
            let i = choose|i: int| 0 <= i < es.len() && es[i] == e;
            if i == es.len() - 1 {
                assert(r[r.len() - 1] == e);
            } else {
                assert(pre[i] == e);
                assert(pre.contains(e));
                let m = choose|m: int| 0 <= m < q.len() && q[m] == e;
                assert(r[m] == e);
            }
        }
    }
}

proof fn lemma_all_exports(fs: Seq<FunctionV>, k: int)
    requires
        0 <= k <= fs.len(),
        k <= usize::MAX + 1,
        forall|i: int, j: int| 0 <= i < j < fs.len() ==> fs[i].name != fs[j].name,
    ensures
        forall|i: int| 0 <= i < k ==> all_exports(fs, k).contains((#[trigger] fs[i].name, i as usize)),
    decreases k,
{
    if k > 0 {
        lemma_all_exports(fs, k - 1);
        lemma_insert_holds(all_exports(fs, k - 1), fs[k - 1].name, (k - 1) as usize);
        assert forall|i: int| 0 <= i < k implies all_exports(fs, k).contains((#[trigger] fs[i].name, i as usize)) by {
            if i < k - 1 {
                assert(fs[i].name != fs[k - 1].name);
            }
        }
    }
}

/// Reading an expression needs no deeper nesting than its length: with any depth bound of at
/// least its length, the reading of `s` on line `n` is the same, so the bound never cuts a
/// reading short.
pub proof fn expression_depth_suffices(n: usize, s: Seq<char>, fl: FloatTable, fuel: nat)
    requires
        fuel >= s.len(),
    ensures
        parse_expr(n, s, fl, fuel) == expr_of(n, s, fl),
{
    lemma_fuel(n, s, fl, fuel, s.len());
}

proof fn lemma_strip_parens_len(s: Seq<char>)
    ensures
        strip_parens(s).len() <= s.len(),
    decreases s.len(),
{
    let t = trim(s);
    lemma_trim_len(s);
    if wrapped(t) && t.len() <= s.len() {
        lemma_strip_parens_len(t.subrange(1, t.len() - 1));
    }
}

proof fn lemma_arg_fold_len(t: Seq<char>)
    ensures
        arg_fold(t).cur.len() <= t.len(),
        forall|i: int| 0 <= i < arg_fold(t).args.len() ==> (#[trigger] arg_fold(t).args[i]).len() <= t.len(),
    decreases t.len(),
{
    if t.len() > 0 {
        let pre = t.drop_last();
        lemma_arg_fold_len(pre);
        lemma_trim_len(arg_fold(pre).cur);
    }
}

proof fn lemma_split_args_len(input: Seq<char>)
    ensures
        split_args(input) matches Some(items) ==> forall|i: int| 0 <= i < items.len() ==> (#[trigger] items[i]).len() <= input.len(),
{
    let t = trim(input);
    lemma_trim_len(input);
    if t.len() > 0 {
        lemma_arg_fold_len(t);
        lemma_trim_len(arg_fold(t).cur);
    }
}

proof fn lemma_needles()
    ensures
        forall|op: BinaryOp| #[trigger] op_needle(op).len() >= 3,
{
    reveal_strlit(" or ");
    reveal_strlit(" and ");
    reveal_strlit(" == ");
    reveal_strlit(" != ");
    reveal_strlit(" <= ");
    reveal_strlit(" >= ");
    reveal_strlit(" < ");
    reveal_strlit(" > ");
    reveal_strlit(" + ");
    reveal_strlit(" - ");
    reveal_strlit(" * ");
    reveal_strlit(" / ");
    assert forall|op: BinaryOp| #[trigger] op_needle(op).len() >= 3 by {
        match op {
            BinaryOp::Or => {},
            BinaryOp::And => {},
            BinaryOp::Eq => {},
            BinaryOp::Neq => {},
            BinaryOp::Lte => {},
            BinaryOp::Gte => {},
            BinaryOp::Lt => {},
            BinaryOp::Gt => {},
            BinaryOp::Add => {},
            BinaryOp::Sub => {},
            BinaryOp::Mul => {},
            BinaryOp::Div => {},
        }
    }
}

proof fn lemma_shapes_len(n: usize, s: Seq<char>)
    ensures
        call_shape(s) matches Some((_, inner)) ==> inner.len() < s.len(),
        cap_shape(n, s) matches Ok((_, inner)) ==> inner.len() < s.len(),
{
    crate::syntax::lemma_find_char(s, '(');
}

/// Every part that `parse_expr` reads one level deeper is shorter than `s`.
proof fn lemma_fuel(n: usize, s: Seq<char>, fl: FloatTable, f1: nat, f2: nat)
    requires
        s.len() <= f1,
        s.len() <= f2,
    ensures
        parse_expr(n, s, fl, f1) == parse_expr(n, s, fl, f2),
    decreases s.len(), 2nat, 0nat,
{
    let t = strip_parens(s);
    lemma_strip_parens_len(s);
    lemma_needles();
    reveal_strlit("not ");
    reveal_strlit("cap ");
    match operator_split(t, 0) {
        Some((op, i)) => {
            lemma_operator_split_at(t, 0);
            let l = t.subrange(0, i);
            let r = t.subrange(i + op_needle(op).len(), t.len() as int);
            lemma_sub_fuel(n, l, fl, f1, f2);
            lemma_sub_fuel(n, r, fl, f1, f2);
        },
        None => {
            if has_prefix(t, "not "@) {
                lemma_sub_fuel(n, t.subrange(4, t.len() as int), fl, f1, f2);
            } else if t.len() >= 2 && t[0] == '[' && t.last() == ']' {
                let inner = t.subrange(1, t.len() - 1);
                lemma_split_args_len(inner);
                if let Some(items) = split_args(inner) {
                    lemma_list_fuel(n, items, fl, f1, f2, items.len(), s.len());
                }
            } else if has_prefix(t, "cap "@) {
                let u = trim(t.subrange(4, t.len() as int));
                lemma_trim_len(t.subrange(4, t.len() as int));
                lemma_shapes_len(n, u);
                if let Ok((_, inner)) = cap_shape(n, u) {
                    lemma_split_args_len(inner);
                    if let Some(items) = split_args(inner) {
                        lemma_list_fuel(n, items, fl, f1, f2, items.len(), s.len());
                    }
                }
            } else {
                lemma_shapes_len(n, t);
                if let Some((_, inner)) = call_shape(t) {
                    lemma_split_args_len(inner);
                    if let Some(items) = split_args(inner) {
                        lemma_list_fuel(n, items, fl, f1, f2, items.len(), s.len());
                    }
                }
            }
        },
    }
}

proof fn lemma_sub_fuel(n: usize, x: Seq<char>, fl: FloatTable, f1: nat, f2: nat)
    requires
        x.len() < f1,
        x.len() < f2,
    ensures
        parse_sub(n, x, fl, f1) == parse_sub(n, x, fl, f2),
    decreases x.len(), 3nat, 0nat,
{
    lemma_fuel(n, x, fl, (f1 - 1) as nat, (f2 - 1) as nat);
}

proof fn lemma_list_fuel(n: usize, items: Seq<Seq<char>>, fl: FloatTable, f1: nat, f2: nat, k: nat, b: nat)
    requires
        forall|i: int| 0 <= i < items.len() ==> (#[trigger] items[i]).len() < b,
        b <= f1,
        b <= f2,
    ensures
        parse_list(n, items, fl, f1, k) == parse_list(n, items, fl, f2, k),
    decreases b, 1nat, k,
{
    if k > 0 && k <= items.len() {
        lemma_list_fuel(n, items, fl, f1, f2, (k - 1) as nat, b);
        lemma_sub_fuel(n, items[k - 1], fl, f1, f2);
    }
}

/// Each instruction of a compiled function has its entry in the function's source line map.
pub proof fn compiled_lines_match_code(source: Seq<char>, fl: FloatTable)
    requires
        compile(source, fl) is Done,
    ensures
        ({
            let m = compile(source, fl)->Done_0.0;
            forall|i: int| 0 <= i < m.functions.len() ==> (#[trigger] m.functions[i]).source_lines.len()
                == m.functions[i].code.len()
        }),
{
    let p = program_of(source, fl)->Done_0;
    lemma_fns_lines(context_of(p), p.functions, p.functions.len() as int);
}

pub open spec fn lines_match(c: CompV) -> bool {
    c.code.len() == c.lines.len()
}

proof fn lemma_load_lines(c: CompV, v: ValueV, n: usize)
    requires
        lines_match(c),
    ensures
        load(c, v, n) matches Ok((c2, _)) ==> lines_match(c2),
{
}

proof fn lemma_not_lines(c: CompV, src: usize, n: usize)
    requires
        lines_match(c),
    ensures
        compile_not(c, src, n) matches Ok((c2, _)) ==> lines_match(c2),
{
}

proof fn lemma_op_lines(c: CompV, op: BinaryOp, dst: usize, a: usize, b: usize, n: usize)
    requires
        lines_match(c),
    ensures
        compile_op(c, op, dst, a, b, n) matches Ok((c2, _)) ==> lines_match(c2),
{
    match op {
        BinaryOp::Neq => lemma_not_lines(push_ins(c, n, InstructionV::Eq { dst, lhs: a, rhs: b }), dst, n),
        BinaryOp::Lte => lemma_not_lines(push_ins(c, n, InstructionV::Lt { dst, lhs: b, rhs: a }), dst, n),
        BinaryOp::Gte => lemma_not_lines(push_ins(c, n, InstructionV::Lt { dst, lhs: a, rhs: b }), dst, n),
        _ => {},
    }
}

proof fn lemma_expr_lines(x: CtxV, c: CompV, e: ExprV, n: usize)
    requires
        lines_match(c),
    ensures
        compile_expr(x, c, e, n) matches Ok((c2, _)) ==> lines_match(c2),
    decreases e, 0nat,
{
    match e {
        ExprV::Literal(v) => lemma_load_lines(c, v, n),
        ExprV::Var(_) => {},
        ExprV::Not(inner) => {
            lemma_expr_lines(x, c, *inner, n);
            if let Ok((c1, r)) = compile_expr(x, c, *inner, n) {
                lemma_not_lines(c1, r, n);
            }
        },
        ExprV::Binary(op, l, r) => {
            lemma_expr_lines(x, c, *l, n);
            if let Ok((c1, a)) = compile_expr(x, c, *l, n) {
                lemma_expr_lines(x, c1, *r, n);
                if let Ok((c2, b)) = compile_expr(x, c1, *r, n) {
                    if let Ok((c3, dst)) = fresh_reg(c2, n) {
                        lemma_op_lines(c3, op, dst, a, b, n);
                    }
                }
            }
        },
        ExprV::Array(items) => lemma_exprs_lines(x, c, items, items.len(), n),
        ExprV::CapCall(_, args) => lemma_exprs_lines(x, c, args, args.len(), n),
        ExprV::Call(_, args) => lemma_exprs_lines(x, c, args, args.len(), n),
    }
}

proof fn lemma_exprs_lines(x: CtxV, c: CompV, es: Seq<ExprV>, k: nat, n: usize)
    requires
        lines_match(c),
    ensures
        compile_exprs(x, c, es, k, n) matches Ok((c2, _)) ==> lines_match(c2),
    decreases es, k,
{
    if k > 0 && k <= es.len() {
        lemma_exprs_lines(x, c, es, (k - 1) as nat, n);
        if let Ok((c1, _)) = compile_exprs(x, c, es, (k - 1) as nat, n) {
            lemma_expr_lines(x, c1, es[k - 1], n);
        }
    }
}

proof fn lemma_stmt_lines(x: CtxV, c: CompV, s: StmtV)
    requires
        lines_match(c),
    ensures
        compile_stmt(x, c, s) matches Ok(c2) ==> lines_match(c2),
    decreases s, 0nat,
{
    match s {
        StmtV::Let(n, _, e) => lemma_expr_lines(x, c, e, n),
        StmtV::Expr(n, e) => lemma_expr_lines(x, c, e, n),
        StmtV::Return(n, e) => lemma_expr_lines(x, c, e, n),
        StmtV::If(n, cond, tb, eb) => {
            lemma_expr_lines(x, c, cond, n);
            if let Ok((c1, r)) = compile_expr(x, c, cond, n) {
                let c2 = push_ins(c1, n, InstructionV::JumpIf { cond: r, target: 0 });
                lemma_block_lines(x, c2, eb, eb.len());
                if let Ok(c3) = compile_block(x, c2, eb, eb.len()) {
                    let c4 = CompV { vars: c.vars, ..c3 };
                    let c5 = if block_returns(eb, eb.len()) {
                        c4
                    } else {
                        push_ins(c4, n, InstructionV::Jump { target: 0 })
                    };
                    let c6 = patch(c5, c1.code.len() as int, c5.code.len() as usize);
                    lemma_block_lines(x, c6, tb, tb.len());
                }
            }
        },
        StmtV::While(n, cond, body) => {
            lemma_expr_lines(x, c, cond, n);
            if let Ok((c1, r)) = compile_expr(x, c, cond, n) {
                let c2 = push_ins(c1, n, InstructionV::JumpIf { cond: r, target: 0 });
                let c3 = push_ins(c2, n, InstructionV::Jump { target: 0 });
                let c4 = patch(c3, c1.code.len() as int, c3.code.len() as usize);
                lemma_block_lines(x, c4, body, body.len());
            }
        },
    }
}

proof fn lemma_block_lines(x: CtxV, c: CompV, b: Seq<StmtV>, k: nat)
    requires
        lines_match(c),
    ensures
        compile_block(x, c, b, k) matches Ok(c2) ==> lines_match(c2),
    decreases b, k,
{
    if k > 0 && k <= b.len() {
        lemma_block_lines(x, c, b, (k - 1) as nat);
        if let Ok(c1) = compile_block(x, c, b, (k - 1) as nat) {
            lemma_stmt_lines(x, c1, b[k - 1]);
        }
    }
}

proof fn lemma_remap_len(code: Seq<InstructionV>, local: Seq<ValueV>, mc: Seq<ValueV>, k: int)
    requires
        0 <= k,
    ensures
        remap(code, local, mc, k).0.len() == k,
    decreases k,
{
    if k > 0 {
        lemma_remap_len(code, local, mc, k - 1);
    }
}

proof fn lemma_fns_lines(x: CtxV, fs: Seq<SrcFnV>, k: int)
    requires
        0 <= k,
    ensures
        compile_fns(x, fs, k) matches Ok((done, _)) ==> forall|i: int| 0 <= i < done.len() ==> (#[trigger] done[i]).source_lines.len()
            == done[i].code.len(),
    decreases k,
{
    if k > 0 {
        lemma_fns_lines(x, fs, k - 1);
        if let Ok((done, mc)) = compile_fns(x, fs, k - 1) {
            let f = fs[k - 1];
            if let Ok(vs) = param_vars(f.params, f.params.len() as int) {
                let c0 = CompV {
                    consts: Seq::empty(),
                    vars: vs,
                    next: f.params.len() as usize,
                    code: Seq::empty(),
                    lines: Seq::empty(),
                };
                lemma_block_lines(x, c0, f.body, f.body.len());
                if let Ok(c1) = compile_block(x, c0, f.body, f.body.len()) {
                    lemma_load_lines(c1, ValueV::Nil, 0);
                    let closed = if c1.code.len() > 0 && c1.code.last() is Ret {
                        c1
                    } else {
                        let (c2, dst) = load(c1, ValueV::Nil, 0)->Ok_0;
                        push_ins(c2, 0, InstructionV::Ret { src: dst })
                    };
                    lemma_remap_len(closed.code, closed.consts, mc, closed.code.len() as int);
                }
            }
        }
    }
}

/// Each instruction of an assembled function has its entry in the function's source line map.
pub proof fn assembled_lines_match_code(source: Seq<char>, fl: Seq<(Seq<char>, Option<u64>)>)
    requires
        assemble(source, fl) is Done,
    ensures
        ({
            let m = assemble(source, fl)->Done_0;
            forall|i: int| 0 <= i < m.functions.len() ==> (#[trigger] m.functions[i]).source_lines.len()
                == m.functions[i].code.len()
        }),
{
    let ls = lines(source);
    lemma_asm_fold_lines(ls, ls.len() as int, fl);
}

pub open spec fn asm_lines_match(st: AsmV) -> bool {
    forall|i: int| 0 <= i < st.functions.len() ==> (#[trigger] st.functions[i]).source_lines.len()
        == st.functions[i].code.len()
}

proof fn lemma_resolve_len(b: BuilderV, k: int)
    requires
        0 <= k <= b.pending.len(),
    ensures
        resolve(b, k) matches Ok(code) ==> code.len() == k,
    decreases k,
{
    if k > 0 {
        lemma_resolve_len(b, k - 1);
    }
}

proof fn lemma_asm_fold_lines(ls: Seq<Seq<char>>, k: int, fl: Seq<(Seq<char>, Option<u64>)>)
    requires
        0 <= k <= ls.len(),
    ensures
        asm_fold(ls, k, fl) matches AsmOut::Done(st) ==> asm_lines_match(st),
    decreases k,
{
    if k > 0 {
        lemma_asm_fold_lines(ls, k - 1, fl);
        if let AsmOut::Done(st) = asm_fold(ls, k - 1, fl) {
            reveal(asm_stripped);
            if let Some(b) = st.current {
                lemma_resolve_len(b, b.pending.len() as int);
                if let AsmOut::Done(st2) = asm_line(st, k as usize, ls[k - 1], fl) {
                    assert forall|i: int| 0 <= i < st2.functions.len() implies (#[trigger] st2.functions[i]).source_lines.len()
                        == st2.functions[i].code.len() by {
                        if i < st.functions.len() {
                            assert(st2.functions[i] == st.functions[i]);
                        }
                    }
                }
            }
        }
    }
}

proof fn lemma_remap_keeps_ret(code: Seq<InstructionV>, local: Seq<ValueV>, mc: Seq<ValueV>, k: int)
    requires
        0 < k <= code.len(),
        code[k - 1] is Ret,
    ensures
        remap(code, local, mc, k).0.len() == k,
        remap(code, local, mc, k).0[k - 1] == code[k - 1],
{
    lemma_remap_len(code, local, mc, k);
}

proof fn lemma_finish_ret(c: CompV, name: Seq<char>, arity: usize, mc: Seq<ValueV>)
    ensures
        crate::lang::finish(c, name, arity, mc) matches Ok((f, _)) ==> f.code.len() > 0 && f.code.last() is Ret,
{
    let ends = c.code.len() > 0 && c.code.last() is Ret;
    if ends {
        lemma_remap_keeps_ret(c.code, c.consts, mc, c.code.len() as int);
    } else if let Ok((c1, dst)) = crate::lang::load(c, ValueV::Nil, 0) {
        let c2 = push_ins(c1, 0, InstructionV::Ret { src: dst });
        lemma_remap_keeps_ret(c2.code, c2.consts, mc, c2.code.len() as int);
    }
}

proof fn lemma_fns_ret(x: CtxV, fs: Seq<SrcFnV>, k: int)
    requires
        0 <= k,
    ensures
        compile_fns(x, fs, k) matches Ok((done, _)) ==> forall|i: int| 0 <= i < done.len() ==> (#[trigger] done[i]).code.len()
            > 0 && done[i].code.last() is Ret,
    decreases k,
{
    if k > 0 {
        lemma_fns_ret(x, fs, k - 1);
        if let Ok((done, mc)) = compile_fns(x, fs, k - 1) {
            let f = fs[k - 1];
            if let Ok(vs) = param_vars(f.params, f.params.len() as int) {
                let c0 = CompV {
                    consts: Seq::empty(),
                    vars: vs,
                    next: f.params.len() as usize,
                    code: Seq::empty(),
                    lines: Seq::empty(),
                };
                if let Ok(c1) = compile_block(x, c0, f.body, f.body.len()) {
                    lemma_finish_ret(c1, f.name, f.params.len() as usize, mc);
                }
            }
            if let Ok((all, _)) = compile_fns(x, fs, k) {
                assert forall|i: int| 0 <= i < all.len() implies (#[trigger] all[i]).code.len() > 0 && all[i].code.last() is Ret by {
                    if i < done.len() {
                        assert(all[i] == done[i]);
                    }
                }
            }
        }
    }
}

/// Every function of a compiled program ends in `ret`: a body that does not end in a return
/// gets a final `return nil`.
pub proof fn compiled_functions_end_in_ret(source: Seq<char>, fl: FloatTable)
    requires
        compile(source, fl) is Done,
    ensures
        ({
            let m = compile(source, fl)->Done_0.0;
            forall|i: int| 0 <= i < m.functions.len() ==> (#[trigger] m.functions[i]).code.len() > 0
                && m.functions[i].code.last() is Ret
        }),
{
    let p = program_of(source, fl)->Done_0;
    lemma_fns_ret(context_of(p), p.functions, p.functions.len() as int);
}

} // verus!
