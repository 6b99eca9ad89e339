use vstd::prelude::*;
use crate::bytecode::{CapabilityDeclV, FunctionV, InstructionV, ModuleV, exports_sorted, find_function, is_variadic};
use crate::codec::{export_insert, exports_from, seq_lt};
use crate::value::accepts_type;
use crate::checks::{
    check_caps, check_code, check_decl, check_fn_names, check_function, check_functions, check_instr, early_variadic,
    find_decl, fixed_params, lemma_verified_module_wf, module_wf, verify_module, cap_id_before, fn_name_before,
};

verus! {

/// A call names a function of the module, and a capability call names a declared capability
/// and passes it as many arguments as its signature takes.
pub open spec fn calls_resolved(m: ModuleV, ins: InstructionV) -> bool {
    match ins {
        InstructionV::Call { function, .. } => find_function(m.functions, function) is Some,
        InstructionV::CapCall { capability, args, .. } => find_decl(m.capabilities, capability) matches Some(di) && (
        if is_variadic(m.capabilities[di]) {
            args.len() >= fixed_params(m.capabilities[di])
        } else {
            args.len() == fixed_params(m.capabilities[di])
        }),
        _ => true,
    }
}

/// What the verifier guarantees of one function beyond its operands.
pub open spec fn fn_sound(m: ModuleV, f: FunctionV) -> bool {
    &&& f.registers >= 1
    &&& (f.source_lines.len() == 0 || f.source_lines.len() == f.code.len())
    &&& forall|pc: int| 0 <= pc < f.code.len() ==> calls_resolved(m, #[trigger] f.code[pc])
}

/// A declaration that names a version, and whose variadic marker, if any, comes last.
pub open spec fn decl_sound(d: CapabilityDeclV) -> bool {
    &&& d.id.contains('@')
    &&& !early_variadic(d.params)
    &&& check_decl(d) is Ok
}

/// A module that the verifier accepts: every operand of every instruction exists (see
/// [`module_wf`]), function names and capability ids are each used once, every declaration
/// names a version with a final variadic marker at most, every function has a register and a
/// source map that is empty or covers its code, and every call is resolved with the right
/// number of arguments.
pub proof fn verified_module_is_sound(m: ModuleV)
    requires
        verify_module(m) is Ok,
    ensures
        module_wf(m),
        forall|i: int, j: int| 0 <= i < j < m.functions.len() ==> #[trigger] m.functions[i].name != #[trigger] m.functions[j].name,
        forall|i: int, j: int| 0 <= i < j < m.capabilities.len() ==> #[trigger] m.capabilities[i].id != #[trigger] m.capabilities[j].id,
        forall|i: int| 0 <= i < m.capabilities.len() ==> decl_sound(#[trigger] m.capabilities[i]),
        forall|fi: int| 0 <= fi < m.functions.len() ==> fn_sound(m, #[trigger] m.functions[fi]),
{
    lemma_verified_module_wf(m);
    lemma_caps_sound(m.capabilities, m.capabilities.len() as int);
    lemma_names_distinct(m.functions, m.functions.len() as int);
    lemma_functions_sound(m, m.functions.len() as int);
}

proof fn lemma_caps_sound(caps: Seq<CapabilityDeclV>, n: int)
    requires
        0 <= n <= caps.len(),
        check_caps(caps, n) is Ok,
    ensures
        forall|i: int, j: int| 0 <= i < j < n ==> #[trigger] caps[i].id != #[trigger] caps[j].id,
        forall|i: int| 0 <= i < n ==> decl_sound(#[trigger] caps[i]),
    decreases n,
{
    if n > 0 {
        lemma_caps_sound(caps, n - 1);
        assert(!cap_id_before(caps, n - 1, caps[n - 1].id));
        assert forall|i: int, j: int| 0 <= i < j < n implies #[trigger] caps[i].id != #[trigger] caps[j].id by {
            if j == n - 1 {
                if caps[i].id == caps[j].id {
                    assert(cap_id_before(caps, n - 1, caps[n - 1].id));
                }
            }
        }
        let d = caps[n - 1];
        assert(check_decl(d) is Ok);
        assert(d.id.len() != 0 && d.id.contains('@'));
    }
}

proof fn lemma_names_distinct(fs: Seq<FunctionV>, n: int)
    requires
        0 <= n <= fs.len(),
        check_fn_names(fs, n) is Ok,
    ensures
        forall|i: int, j: int| 0 <= i < j < n ==> #[trigger] fs[i].name != #[trigger] fs[j].name,
    decreases n,
{
    if n > 0 {
        lemma_names_distinct(fs, n - 1);
        assert(!fn_name_before(fs, n - 1, fs[n - 1].name));
        assert forall|i: int, j: int| 0 <= i < j < n implies #[trigger] fs[i].name != #[trigger] fs[j].name by {
            if j == n - 1 {
                if fs[i].name == fs[j].name {
                    assert(fn_name_before(fs, n - 1, fs[n - 1].name));
                }
            }
        }
    }
}

proof fn lemma_instr_resolved(m: ModuleV, f: FunctionV, pc: int, ins: InstructionV, types: Seq<Option<crate::value::ValueType>>)
    requires
        check_instr(m, f, pc, ins, types) is Ok,
    ensures
        calls_resolved(m, ins),
{
}

proof fn lemma_code_resolved(m: ModuleV, f: FunctionV, n: int)
    requires
        0 <= n <= f.code.len(),
        check_code(m, f, n) is Ok,
    ensures
        forall|pc: int| 0 <= pc < n ==> calls_resolved(m, #[trigger] f.code[pc]),
    decreases n,
{
    if n > 0 {
        lemma_code_resolved(m, f, n - 1);
        let types = check_code(m, f, n - 1)->Ok_0;
        lemma_instr_resolved(m, f, n - 1, f.code[n - 1], types);
    }
}

proof fn lemma_functions_sound(m: ModuleV, n: int)
    requires
        0 <= n <= m.functions.len(),
        check_functions(m, n) is Ok,
    ensures
        forall|fi: int| 0 <= fi < n ==> fn_sound(m, #[trigger] m.functions[fi]),
    decreases n,
{
    if n > 0 {
        lemma_functions_sound(m, n - 1);
        let f = m.functions[n - 1];
        assert(check_function(m, f) is Ok);
        lemma_code_resolved(m, f, f.code.len() as int);
    }
}

/// Of two names, one comes first, or they are the same.
pub proof fn names_are_ordered(a: Seq<char>, b: Seq<char>)
    ensures
        seq_lt(a, b) || a == b || seq_lt(b, a),
    decreases a.len(),
{
    if a.len() > 0 && b.len() > 0 {
        if a[0] == b[0] {
            names_are_ordered(a.drop_first(), b.drop_first());
            if a.drop_first() == b.drop_first() {
                assert(a =~= seq![a[0]] + a.drop_first());
                assert(b =~= seq![b[0]] + b.drop_first());
            }
        } else {
            vstd::utf8::char_u32_cast(a[0], a[0] as u32);
            vstd::utf8::char_u32_cast(b[0], b[0] as u32);
            assert((a[0] as u32) != (b[0] as u32));
        }
    } else if a.len() == 0 && b.len() == 0 {
        assert(a =~= b);
    }
}

/// The last entry after an insertion is the inserted one or the last one before it.
proof fn lemma_insert_last(es: Seq<(Seq<char>, usize)>, k: Seq<char>, v: usize)
    ensures
        export_insert(es, k, v).len() > 0,
        export_insert(es, k, v).last() == (k, v) || (es.len() > 0 && export_insert(es, k, v).last() == es.last()),
    decreases es.len(),
{
    if es.len() > 0 && !seq_lt(es.last().0, k) && es.last().0 != k {
        lemma_insert_last(es.drop_last(), k, v);
    }
}

/// Inserting an export keeps an export table in name order.
pub proof fn export_insert_keeps_order(es: Seq<(Seq<char>, usize)>, k: Seq<char>, v: usize)
    requires
        exports_sorted(es),
    ensures
        exports_sorted(export_insert(es, k, v)),
    decreases es.len(),
{
    let r = export_insert(es, k, v);
    if es.len() == 0 {
    } else if seq_lt(es.last().0, k) {
        assert forall|i: int| 0 <= i < r.len() - 1 implies seq_lt(#[trigger] r[i].0, r[i + 1].0) by {
            if i < es.len() - 1 {
                assert(r[i] == es[i] && r[i + 1] == es[i + 1]);
            } else {
                assert(r[i] == es.last());
            }
        }
    } else if es.last().0 == k {
        assert forall|i: int| 0 <= i < r.len() - 1 implies seq_lt(#[trigger] r[i].0, r[i + 1].0) by {
            assert(r[i] == es[i]);
            if i + 1 < r.len() - 1 {
                assert(r[i + 1] == es[i + 1]);
            }
        }
    } else {
        let pre = es.drop_last();
        assert forall|i: int| 0 <= i < pre.len() - 1 implies seq_lt(#[trigger] pre[i].0, pre[i + 1].0) by {
            assert(pre[i] == es[i] && pre[i + 1] == es[i + 1]);
        }
        export_insert_keeps_order(pre, k, v);
        lemma_insert_last(pre, k, v);
        names_are_ordered(es.last().0, k);
        let q = export_insert(pre, k, v);
        if pre.len() > 0 && q.last() == pre.last() {
            assert(pre.last() == es[es.len() - 2]);
        }
        assert(seq_lt(q.last().0, es.last().0));
        assert forall|i: int| 0 <= i < r.len() - 1 implies seq_lt(#[trigger] r[i].0, r[i + 1].0) by {
            assert(r == q.push(es.last()));
            if i < q.len() - 1 {
                assert(r[i] == q[i] && r[i + 1] == q[i + 1]);
            } else {
                assert(r[i] == q.last());
            }
        }
    }
}

/// The export table that the decoder builds is in name order.
pub proof fn decoded_exports_are_ordered(raw: Seq<(Seq<char>, usize)>)
    ensures
        exports_sorted(exports_from(raw)),
    decreases raw.len(),
{
    if raw.len() > 0 {
        decoded_exports_are_ordered(raw.drop_last());
        export_insert_keeps_order(exports_from(raw.drop_last()), raw.last().0, raw.last().1);
    }
}

/// A module that the decoder returns keeps its export table in name order.
pub proof fn decoded_modules_keep_exports_ordered(b: Seq<u8>)
    requires
        crate::codec::dec_module(b) is Ok,
    ensures
        exports_sorted(crate::codec::dec_module(b)->Ok_0.exports),
{
    let m = crate::codec::dec_module(b)->Ok_0;
    let p0 = crate::codec::take(b, 0, 8)->Ok_0;
    let (name, p1) = crate::codec::dec_str(b, p0)->Ok_0;
    let (nc, p2) = crate::codec::dec_num(b, p1)->Ok_0;
    let (constants, p3) = crate::codec::dec_values(b, p2, nc as nat)->Ok_0;
    let (caps, p4) = crate::codec::dec_counted(b, p3, crate::codec::cap_parser())->Ok_0;
    let (fs, p5) = crate::codec::dec_counted(b, p4, crate::codec::fn_parser())->Ok_0;
    let (raw, p6) = crate::codec::dec_counted(b, p5, crate::codec::export_parser())->Ok_0;
    decoded_exports_are_ordered(raw);
}

/// The export table that the compiler builds is in name order.
pub proof fn compiled_exports_are_ordered(fs: Seq<FunctionV>, k: int)
    ensures
        exports_sorted(crate::lang::all_exports(fs, k)),
    decreases k,
{
    if k > 0 {
        compiled_exports_are_ordered(fs, k - 1);
        export_insert_keeps_order(crate::lang::all_exports(fs, k - 1), fs[k - 1].name, (k - 1) as usize);
    }
}

/// A module that the compiler produces keeps its export table in name order.
pub proof fn compiled_modules_keep_exports_ordered(source: Seq<char>, fl: crate::lang::FloatTable)
    requires
        crate::lang::compile(source, fl) is Done,
    ensures
        exports_sorted(crate::lang::compile(source, fl)->Done_0.0.exports),
{
    let p = crate::lang::program_of(source, fl)->Done_0;
    let (fs, _) = crate::lang::compile_fns(crate::lang::context_of(p), p.functions, p.functions.len() as int)->Ok_0;
    compiled_exports_are_ordered(fs, fs.len() as int);
}

proof fn lemma_asm_line_exports(st: crate::assembler::AsmV, n: usize, raw: Seq<char>, fl: Seq<(Seq<char>, Option<u64>)>)
    requires
        exports_sorted(st.exports),
    ensures
        crate::assembler::asm_line(st, n, raw, fl) matches crate::assembler::AsmOut::Done(st2) ==> exports_sorted(st2.exports),
{
    reveal(crate::assembler::asm_stripped);
    let line = crate::syntax::trim(crate::syntax::strip_comment(raw));
    export_insert_keeps_order(st.exports, crate::syntax::trim(crate::syntax::strip_all(line, ".export "@)), usize::MAX);
}

proof fn lemma_asm_fold_exports(ls: Seq<Seq<char>>, k: int, fl: Seq<(Seq<char>, Option<u64>)>)
    ensures
        crate::assembler::asm_fold(ls, k, fl) matches crate::assembler::AsmOut::Done(st) ==> exports_sorted(st.exports),
    decreases k,
{
    if k > 0 {
        lemma_asm_fold_exports(ls, k - 1, fl);
        if let crate::assembler::AsmOut::Done(st) = crate::assembler::asm_fold(ls, k - 1, fl) {
            lemma_asm_line_exports(st, k as usize, ls[k - 1], fl);
        }
    }
}

proof fn lemma_export_pass_exports(fs: Seq<FunctionV>, es: Seq<(Seq<char>, usize)>, k: int)
    requires
        exports_sorted(es),
    ensures
        exports_sorted(crate::assembler::export_pass(fs, es, k)),
    decreases k,
{
    if k > 0 {
        lemma_export_pass_exports(fs, es, k - 1);
        export_insert_keeps_order(crate::assembler::export_pass(fs, es, k - 1), fs[k - 1].name, (k - 1) as usize);
    }
}

proof fn lemma_resolve_keeps_names(fs: Seq<FunctionV>, es: Seq<(Seq<char>, usize)>, k: int)
    requires
        0 <= k <= es.len(),
        crate::assembler::resolve_exports(fs, es, k) is Ok,
    ensures
        crate::assembler::resolve_exports(fs, es, k)->Ok_0.len() == es.len(),
        forall|i: int| 0 <= i < es.len() ==> (#[trigger] crate::assembler::resolve_exports(fs, es, k)->Ok_0[i]).0 == es[i].0,
    decreases k,
{
    if k > 0 {
        lemma_resolve_keeps_names(fs, es, k - 1);
    }
}

/// A module that the assembler produces keeps its export table in name order.
pub proof fn assembled_modules_keep_exports_ordered(source: Seq<char>, fl: Seq<(Seq<char>, Option<u64>)>)
    requires
        crate::assembler::assemble(source, fl) is Done,
    ensures
        exports_sorted(crate::assembler::assemble(source, fl)->Done_0.exports),
{
    let ls = crate::syntax::lines(source);
    lemma_asm_fold_exports(ls, ls.len() as int, fl);
    let st = crate::assembler::asm_fold(ls, ls.len() as int, fl)->Done_0;
    let es = crate::assembler::export_pass(st.functions, st.exports, st.functions.len() as int);
    lemma_export_pass_exports(st.functions, st.exports, st.functions.len() as int);
    lemma_resolve_keeps_names(st.functions, es, es.len() as int);
    let r = crate::assembler::resolve_exports(st.functions, es, es.len() as int)->Ok_0;
    assert forall|i: int| 0 <= i < r.len() - 1 implies seq_lt(#[trigger] r[i].0, r[i + 1].0) by {
        assert(r[i].0 == es[i].0);
        assert(r[i + 1].0 == es[i + 1].0);
    }
}

/// Every argument of every accepted capability call has a type that the declaration takes
/// in its place: in a module that the verifier accepts, at each `cap_call`, an argument whose
/// type is known at that point (as the verifier tracks register types through the code) is
/// accepted by the declared parameter type for its position.
pub proof fn accepted_capability_calls_pass_declared_types(m: ModuleV, fi: int, pc: int)
    requires
        verify_module(m) is Ok,
        0 <= fi < m.functions.len(),
        0 <= pc < m.functions[fi].code.len(),
        m.functions[fi].code[pc] is CapCall,
    ensures
        ({
            let f = m.functions[fi];
            let ins = f.code[pc];
            &&& check_code(m, f, pc) is Ok
            &&& find_decl(m.capabilities, ins->CapCall_capability) is Some
            &&& forall|i: int| #![trigger ins->CapCall_args[i]] 0 <= i < ins->CapCall_args.len() ==> (
                check_code(m, f, pc)->Ok_0[ins->CapCall_args[i] as int] matches Some(t) ==> accepts_type(
                    crate::checks::expected_param(
                        m.capabilities[find_decl(m.capabilities, ins->CapCall_capability)->Some_0],
                        i,
                    ),
                    t,
                ))
        }),
{
    lemma_functions_ok(m, m.functions.len() as int, fi);
    let f = m.functions[fi];
    lemma_code_prefix_ok(m, f, f.code.len() as int, pc);
    let types = check_code(m, f, pc)->Ok_0;
    let ins = f.code[pc];
    let d = m.capabilities[find_decl(m.capabilities, ins->CapCall_capability)->Some_0];
    assert(crate::checks::check_cap_args(f, pc, d, ins->CapCall_args, types) is Ok);
    lemma_no_mismatch(d, ins->CapCall_args, types);
}

proof fn lemma_functions_ok(m: ModuleV, n: int, fi: int)
    requires
        0 <= fi < n <= m.functions.len(),
        check_functions(m, n) is Ok,
    ensures
        check_function(m, m.functions[fi]) is Ok,
    decreases n,
{
    if fi < n - 1 {
        lemma_functions_ok(m, n - 1, fi);
    }
}

proof fn lemma_code_prefix_ok(m: ModuleV, f: FunctionV, n: int, pc: int)
    requires
        0 <= pc < n <= f.code.len(),
        check_code(m, f, n) is Ok,
    ensures
        check_code(m, f, pc) is Ok,
        check_instr(m, f, pc, f.code[pc], check_code(m, f, pc)->Ok_0) is Ok,
    decreases n,
{
    if pc < n - 1 {
        lemma_code_prefix_ok(m, f, n - 1, pc);
    }
}

proof fn lemma_no_mismatch(d: CapabilityDeclV, args: Seq<usize>, types: Seq<Option<crate::value::ValueType>>)
    requires
        crate::checks::first_type_mismatch(d, args, types) is None,
    ensures
        forall|i: int| #![trigger args[i]] 0 <= i < args.len() ==> (types[args[i] as int] matches Some(t) ==> accepts_type(
            crate::checks::expected_param(d, i),
            t,
        )),
    decreases args.len(),
{
    if args.len() > 0 {
        let pre = args.drop_last();
        lemma_no_mismatch(d, pre, types);
        assert forall|i: int| #![trigger args[i]] 0 <= i < args.len() implies (types[args[i] as int] matches Some(t) ==> accepts_type(
            crate::checks::expected_param(d, i),
            t,
        )) by {
            if i < args.len() - 1 {
                assert(pre[i] == args[i]);
            }
        }
    }
}

} // verus!
