use vstd::prelude::*;
use vstd::utf8::{encode_utf8, decode_utf8, valid_utf8, encode_utf8_decode_utf8, encode_utf8_valid_utf8};
use crate::bytecode::{CapabilityDeclV, FunctionV, InstructionV, ModuleV, exports_sorted};
use crate::codec::{DecErr, DecRes, all_ok, cap_dok, cap_parser, concat_map, dec_cap, dec_counted, dec_fn, dec_instr, dec_line, dec_list, dec_module, dec_module_rest, dec_named, dec_three, dec_two, dec_num, dec_opt_str, dec_str, dec_u64, dec_u8, dec_usizes, dec_value, dec_values, enc_cap, enc_export, enc_fn, enc_instr, enc_line, enc_module, enc_num, enc_opt_str, enc_str, enc_usize, enc_usizes, enc_value, enc_values, enc_vt, export_dok, export_parser, exports_from, fits, count_dok, fn_dok, fn_parser, instr_dok, instr_parser, lemma_u32_roundtrip, lemma_u64_roundtrip, line_ok, line_parser, module_magic, module_dok, num_parser, opt_str_dok, seq_lt, str_dok, u64_le, usize_ok, usizes_dok, value_dok, values_dok, vt_parser, vt_tag};
use crate::value::{ValueType, ValueV};

verus! {

/// The bytes `e` stand at position `p` of `b`.
pub open spec fn at(b: Seq<u8>, p: int, e: Seq<u8>) -> bool {
    0 <= p && p + e.len() <= b.len() && b.subrange(p, p + e.len()) == e
}

proof fn lemma_at_split(b: Seq<u8>, p: int, e1: Seq<u8>, e2: Seq<u8>)
    requires
        at(b, p, e1 + e2),
    ensures
        at(b, p, e1),
        at(b, p + e1.len(), e2),
{
    let whole = b.subrange(p, p + e1.len() + e2.len());
    assert(whole == e1 + e2);
    assert(b.subrange(p, p + e1.len()) =~= whole.subrange(0, e1.len() as int));
    assert(whole.subrange(0, e1.len() as int) =~= e1);
    assert(b.subrange(p + e1.len(), p + e1.len() + e2.len()) =~= whole.subrange(e1.len() as int, whole.len() as int));
    assert(whole.subrange(e1.len() as int, whole.len() as int) =~= e2);
}

proof fn lemma_at_index(b: Seq<u8>, p: int, e: Seq<u8>, i: int)
    requires
        at(b, p, e),
        0 <= i < e.len(),
    ensures
        b[p + i] == e[i],
{
    assert(b[p + i] == b.subrange(p, p + e.len())[i]);
}

proof fn lemma_dec_u8(b: Seq<u8>, p: int, x: u8)
    requires
        at(b, p, seq![x]),
        b.len() <= usize::MAX,
    ensures
        dec_u8(b, p) == Ok::<(u8, int), DecErr>((x, p + 1)),
{
    lemma_at_index(b, p, seq![x], 0);
}

proof fn lemma_dec_num(b: Seq<u8>, p: int, n: int)
    requires
        at(b, p, enc_num(n)),
        fits(n),
        b.len() <= usize::MAX,
    ensures
        dec_num(b, p) == Ok::<(usize, int), DecErr>((n as usize, p + 4)),
{
    let e = enc_num(n);
    lemma_at_index(b, p, e, 0);
    lemma_at_index(b, p, e, 1);
    lemma_at_index(b, p, e, 2);
    lemma_at_index(b, p, e, 3);
    lemma_u32_roundtrip(n as u32);
}

proof fn lemma_dec_u64(b: Seq<u8>, p: int, v: u64)
    requires
        at(b, p, u64_le(v)),
        b.len() <= usize::MAX,
    ensures
        dec_u64(b, p) == Ok::<(u64, int), DecErr>((v, p + 8)),
{
    lemma_u64_roundtrip(v, b, p);
}

proof fn lemma_dec_str(b: Seq<u8>, p: int, s: Seq<char>)
    requires
        at(b, p, enc_str(s)),
        str_dok(s),
        b.len() <= usize::MAX,
    ensures
        dec_str(b, p) == Ok::<(Seq<char>, int), DecErr>((s, p + enc_str(s).len())),
{
    let u = encode_utf8(s);
    lemma_at_split(b, p, enc_num(u.len() as int), u);
    lemma_dec_num(b, p, u.len() as int);
    encode_utf8_valid_utf8(s);
    encode_utf8_decode_utf8(s);
}

} // verus!

verus! {

proof fn lemma_enc_values_front(s: Seq<ValueV>)
    requires
        s.len() > 0,
    ensures
        enc_values(s) == enc_value(s[0]) + enc_values(s.drop_first()),
        values_dok(s) == (value_dok(s[0]) && values_dok(s.drop_first())),
    decreases s.len(),
{
    if s.len() == 1 {
        assert(s.drop_last() =~= Seq::<ValueV>::empty());
        assert(s.drop_first() =~= Seq::<ValueV>::empty());
        assert(enc_value(s[0]) + Seq::<u8>::empty() =~= enc_value(s[0]));
    } else {
        lemma_enc_values_front(s.drop_last());
        assert(s.drop_last().drop_first() =~= s.drop_first().drop_last());
        assert(s.drop_first().last() == s.last());
        assert(s.drop_last()[0] == s[0]);
        assert(enc_value(s[0]) + enc_values(s.drop_last().drop_first()) + enc_value(s.last()) =~= enc_value(s[0]) + (
        enc_values(s.drop_first().drop_last()) + enc_value(s.drop_first().last())));
    }
}

proof fn lemma_dec_value(b: Seq<u8>, p: int, v: ValueV)
    requires
        at(b, p, enc_value(v)),
        value_dok(v),
        b.len() <= usize::MAX,
    ensures
        dec_value(b, p) == Ok::<(ValueV, int), DecErr>((v, p + enc_value(v).len())),
    decreases v,
{
    let e = enc_value(v);
    lemma_at_index(b, p, e, 0);
    match v {
        ValueV::Nil => {},
        ValueV::Bool(x) => {
            lemma_at_index(b, p, e, 1);
        },
        ValueV::I64(x) => {
            lemma_at_split(b, p, seq![2u8], u64_le(x as u64));
            lemma_dec_u64(b, p + 1, x as u64);
            assert(((x as u64) as i64) == x) by (bit_vector);
        },
        ValueV::F64(bits) => {
            lemma_at_split(b, p, seq![3u8], u64_le(bits));
            lemma_dec_u64(b, p + 1, bits);
        },
        ValueV::String(s) => {
            lemma_at_split(b, p, seq![4u8], enc_str(s));
            lemma_dec_str(b, p + 1, s);
        },
        ValueV::Array(items) => {
            lemma_at_split(b, p, seq![5u8] + enc_num(items.len() as int), enc_values(items));
            lemma_at_split(b, p, seq![5u8], enc_num(items.len() as int));
            lemma_dec_num(b, p + 1, items.len() as int);
            lemma_dec_values(b, p + 5, items);
        },
        ValueV::Function(s) => {
            lemma_at_split(b, p, seq![6u8], enc_str(s));
            lemma_dec_str(b, p + 1, s);
        },
        ValueV::Capability(s) => {
            lemma_at_split(b, p, seq![7u8], enc_str(s));
            lemma_dec_str(b, p + 1, s);
        },
    }
}

proof fn lemma_dec_values(b: Seq<u8>, p: int, s: Seq<ValueV>)
    requires
        at(b, p, enc_values(s)),
        values_dok(s),
        b.len() <= usize::MAX,
    ensures
        dec_values(b, p, s.len()) == Ok::<(Seq<ValueV>, int), DecErr>((s, p + enc_values(s).len())),
    decreases s,
{
    if s.len() == 0 {
        assert(s =~= Seq::<ValueV>::empty());
    } else {
        lemma_enc_values_front(s);
        lemma_at_split(b, p, enc_value(s[0]), enc_values(s.drop_first()));
        lemma_dec_value(b, p, s[0]);
        lemma_dec_values(b, p + enc_value(s[0]).len(), s.drop_first());
        assert(seq![s[0]] + s.drop_first() =~= s);
    }
}

} // verus!

verus! {

proof fn lemma_concat_map_front<T>(s: Seq<T>, f: spec_fn(T) -> Seq<u8>)
    requires
        s.len() > 0,
    ensures
        concat_map(s, f) == f(s[0]) + concat_map(s.drop_first(), f),
    decreases s.len(),
{
    if s.len() == 1 {
        assert(s.drop_last() =~= Seq::<T>::empty());
        assert(s.drop_first() =~= Seq::<T>::empty());
        assert(f(s[0]) + Seq::<u8>::empty() =~= f(s[0]));
    } else {
        lemma_concat_map_front(s.drop_last(), f);
        assert(s.drop_last().drop_first() =~= s.drop_first().drop_last());
        assert(s.drop_first().last() == s.last());
        assert(s.drop_last()[0] == s[0]);
        assert(f(s[0]) + concat_map(s.drop_last().drop_first(), f) + f(s.last()) =~= f(s[0]) + (concat_map(
            s.drop_first().drop_last(),
            f,
        ) + f(s.drop_first().last())));
    }
}

/// Elementwise decoding is exact wherever `encf(x)` stands, for elements that fit.
pub open spec fn decodes_exactly<T>(b: Seq<u8>, f: spec_fn(Seq<u8>, int) -> DecRes<T>, encf: spec_fn(T) -> Seq<u8>, okf: spec_fn(T) -> bool) -> bool {
    forall|x: T, q: int| #![trigger okf(x), f(b, q)] okf(x) && at(b, q, encf(x)) ==> f(b, q) == Ok::<(T, int), DecErr>((x, q + encf(x).len()))
}

proof fn lemma_dec_list<T>(
    b: Seq<u8>,
    p: int,
    s: Seq<T>,
    f: spec_fn(Seq<u8>, int) -> DecRes<T>,
    encf: spec_fn(T) -> Seq<u8>,
    okf: spec_fn(T) -> bool,
)
    requires
        at(b, p, concat_map(s, encf)),
        all_ok(s, okf),
        decodes_exactly(b, f, encf, okf),
    ensures
        dec_list(b, p, s.len(), f) == Ok::<(Seq<T>, int), DecErr>((s, p + concat_map(s, encf).len())),
    decreases s.len(),
{
    if s.len() == 0 {
        assert(s =~= Seq::<T>::empty());
    } else {
        lemma_concat_map_front(s, encf);
        lemma_at_split(b, p, encf(s[0]), concat_map(s.drop_first(), encf));
        assert(okf(s[0]));
        assert(f(b, p) == Ok::<(T, int), DecErr>((s[0], p + encf(s[0]).len())));
        assert forall|i: int| 0 <= i < s.drop_first().len() implies #[trigger] okf(s.drop_first()[i]) by {
            assert(s.drop_first()[i] == s[i + 1]);
        }
        lemma_dec_list(b, p + encf(s[0]).len(), s.drop_first(), f, encf, okf);
        assert(seq![s[0]] + s.drop_first() =~= s);
    }
}

proof fn lemma_dec_counted<T>(
    b: Seq<u8>,
    p: int,
    s: Seq<T>,
    f: spec_fn(Seq<u8>, int) -> DecRes<T>,
    encf: spec_fn(T) -> Seq<u8>,
    okf: spec_fn(T) -> bool,
)
    requires
        at(b, p, enc_num(s.len() as int) + concat_map(s, encf)),
        count_dok(s.len() as int),
        all_ok(s, okf),
        decodes_exactly(b, f, encf, okf),
        b.len() <= usize::MAX,
    ensures
        dec_counted(b, p, f) == Ok::<(Seq<T>, int), DecErr>((s, p + 4 + concat_map(s, encf).len())),
{
    lemma_at_split(b, p, enc_num(s.len() as int), concat_map(s, encf));
    lemma_dec_num(b, p, s.len() as int);
    lemma_dec_list(b, p + 4, s, f, encf, okf);
}

proof fn lemma_usizes_exact(b: Seq<u8>)
    requires
        b.len() <= usize::MAX,
    ensures
        decodes_exactly(b, num_parser(), |n: usize| enc_usize(n), |n: usize| usize_ok(n)),
{
    assert forall|x: usize, q: int| #![trigger usize_ok(x), num_parser()(b, q)] usize_ok(x) && at(b, q, enc_usize(x)) implies num_parser()(b, q) == Ok::<(usize, int), DecErr>((x, q + enc_usize(x).len())) by {
        lemma_dec_num(b, q, x as int);
    }
}

/// Every value type can be encoded.
pub open spec fn any_value_type(t: ValueType) -> bool {
    true
}

proof fn lemma_vts_exact(b: Seq<u8>)
    requires
        b.len() <= usize::MAX,
    ensures
        decodes_exactly(b, vt_parser(), |t: ValueType| enc_vt(t), |t: ValueType| any_value_type(t)),
{
    assert forall|x: ValueType, q: int| #![trigger any_value_type(x), vt_parser()(b, q)] any_value_type(x) && at(b, q, enc_vt(x)) implies vt_parser()(b, q) == Ok::<(ValueType, int), DecErr>((x, q + enc_vt(x).len())) by {
        lemma_dec_u8(b, q, vt_tag(x));
    }
}

} // verus!

verus! {

proof fn lemma_dec_opt_str(b: Seq<u8>, p: int, o: Option<Seq<char>>)
    requires
        at(b, p, enc_opt_str(o)),
        opt_str_dok(o),
        b.len() <= usize::MAX,
    ensures
        dec_opt_str(b, p) == Ok::<(Option<Seq<char>>, int), DecErr>((o, p + enc_opt_str(o).len())),
{
    match o {
        Some(s) => {
            lemma_at_split(b, p, seq![1u8], enc_str(s));
            lemma_dec_u8(b, p, 1u8);
            lemma_dec_str(b, p + 1, s);
        },
        None => {
            lemma_dec_u8(b, p, 0u8);
        },
    }
}

proof fn lemma_dec_cap(b: Seq<u8>, p: int, d: CapabilityDeclV)
    requires
        at(b, p, enc_cap(d)),
        cap_dok(d),
        b.len() <= usize::MAX,
    ensures
        dec_cap(b, p) == Ok::<(CapabilityDeclV, int), DecErr>((d, p + enc_cap(d).len())),
{
    let e1 = enc_str(d.id);
    let e2 = enc_num(d.params.len() as int) + concat_map(d.params, |t: ValueType| enc_vt(t));
    let e3 = enc_vt(d.return_type);
    let e4 = enc_opt_str(d.reason);
    assert(enc_cap(d) =~= e1 + e2 + e3 + e4);
    lemma_at_split(b, p, e1 + e2 + e3, e4);
    lemma_at_split(b, p, e1 + e2, e3);
    lemma_at_split(b, p, e1, e2);
    lemma_dec_str(b, p, d.id);
    lemma_vts_exact(b);
    assert forall|i: int| 0 <= i < d.params.len() implies #[trigger] any_value_type(d.params[i]) by {}
    lemma_dec_counted(b, p + e1.len(), d.params, vt_parser(), |t: ValueType| enc_vt(t), |t: ValueType| any_value_type(t));
    lemma_dec_u8(b, p + e1.len() + e2.len(), vt_tag(d.return_type));
    lemma_dec_opt_str(b, p + e1.len() + e2.len() + e3.len(), d.reason);
}

proof fn lemma_dec_usizes(b: Seq<u8>, p: int, s: Seq<usize>)
    requires
        at(b, p, enc_usizes(s)),
        usizes_dok(s),
        b.len() <= usize::MAX,
    ensures
        dec_usizes(b, p) == Ok::<(Seq<usize>, int), DecErr>((s, p + enc_usizes(s).len())),
{
    lemma_usizes_exact(b);
    lemma_dec_counted(b, p, s, num_parser(), |n: usize| enc_usize(n), |n: usize| usize_ok(n));
}

proof fn lemma_dec_instr_two(b: Seq<u8>, p: int, t: u8, x: usize, y: usize)
    requires
        at(b, p, seq![t] + enc_usize(x) + enc_usize(y)),
        usize_ok(x) && usize_ok(y),
        b.len() <= usize::MAX,
    ensures
        dec_u8(b, p) == Ok::<(u8, int), DecErr>((t, p + 1)),
        dec_two(b, p + 1) == Ok::<((usize, usize), int), DecErr>(((x, y), p + 9)),
{
    lemma_at_split(b, p, seq![t] + enc_usize(x), enc_usize(y));
    lemma_at_split(b, p, seq![t], enc_usize(x));
    lemma_dec_u8(b, p, t);
    lemma_dec_num(b, p + 1, x as int);
    lemma_dec_num(b, p + 5, y as int);
}

proof fn lemma_dec_instr_three(b: Seq<u8>, p: int, t: u8, x: usize, y: usize, z: usize)
    requires
        at(b, p, seq![t] + enc_usize(x) + enc_usize(y) + enc_usize(z)),
        usize_ok(x) && usize_ok(y) && usize_ok(z),
        b.len() <= usize::MAX,
    ensures
        dec_u8(b, p) == Ok::<(u8, int), DecErr>((t, p + 1)),
        dec_three(b, p + 1) == Ok::<((usize, usize, usize), int), DecErr>(((x, y, z), p + 13)),
{
    lemma_at_split(b, p, seq![t] + enc_usize(x) + enc_usize(y), enc_usize(z));
    lemma_at_split(b, p, seq![t] + enc_usize(x), enc_usize(y));
    lemma_at_split(b, p, seq![t], enc_usize(x));
    lemma_dec_u8(b, p, t);
    lemma_dec_num(b, p + 1, x as int);
    lemma_dec_num(b, p + 5, y as int);
    lemma_dec_num(b, p + 9, z as int);
}

proof fn lemma_dec_instr_named(b: Seq<u8>, p: int, t: u8, x: usize, s: Seq<char>, args: Seq<usize>)
    requires
        at(b, p, seq![t] + enc_usize(x) + enc_str(s) + enc_usizes(args)),
        usize_ok(x) && str_dok(s) && usizes_dok(args),
        b.len() <= usize::MAX,
    ensures
        dec_u8(b, p) == Ok::<(u8, int), DecErr>((t, p + 1)),
        dec_named(b, p + 1) == Ok::<((usize, Seq<char>, Seq<usize>), int), DecErr>(
            ((x, s, args), p + (seq![t] + enc_usize(x) + enc_str(s) + enc_usizes(args)).len()),
        ),
{
    lemma_at_split(b, p, seq![t] + enc_usize(x) + enc_str(s), enc_usizes(args));
    lemma_at_split(b, p, seq![t] + enc_usize(x), enc_str(s));
    lemma_at_split(b, p, seq![t], enc_usize(x));
    lemma_dec_u8(b, p, t);
    lemma_dec_num(b, p + 1, x as int);
    lemma_dec_str(b, p + 5, s);
    lemma_dec_usizes(b, p + 5 + enc_str(s).len(), args);
}

proof fn lemma_dec_instr(b: Seq<u8>, p: int, i: InstructionV)
    requires
        at(b, p, enc_instr(i)),
        instr_dok(i),
        b.len() <= usize::MAX,
    ensures
        dec_instr(b, p) == Ok::<(InstructionV, int), DecErr>((i, p + enc_instr(i).len())),
{
    match i {
        InstructionV::Const { dst, constant } => lemma_dec_instr_two(b, p, 0, dst, constant),
        InstructionV::Move { dst, src } => lemma_dec_instr_two(b, p, 1, dst, src),
        InstructionV::JumpIf { cond, target } => lemma_dec_instr_two(b, p, 9, cond, target),
        InstructionV::Add { dst, lhs, rhs } => lemma_dec_instr_three(b, p, 2, dst, lhs, rhs),
        InstructionV::Sub { dst, lhs, rhs } => lemma_dec_instr_three(b, p, 3, dst, lhs, rhs),
        InstructionV::Mul { dst, lhs, rhs } => lemma_dec_instr_three(b, p, 4, dst, lhs, rhs),
        InstructionV::Div { dst, lhs, rhs } => lemma_dec_instr_three(b, p, 5, dst, lhs, rhs),
        InstructionV::Eq { dst, lhs, rhs } => lemma_dec_instr_three(b, p, 6, dst, lhs, rhs),
        InstructionV::Lt { dst, lhs, rhs } => lemma_dec_instr_three(b, p, 7, dst, lhs, rhs),
        InstructionV::ArrayGet { dst, array, index } => lemma_dec_instr_three(b, p, 14, dst, array, index),
        InstructionV::ArraySet { array, index, value } => lemma_dec_instr_three(b, p, 15, array, index, value),
        InstructionV::Jump { target } => {
            lemma_at_split(b, p, seq![8u8], enc_usize(target));
            lemma_dec_u8(b, p, 8);
            lemma_dec_num(b, p + 1, target as int);
        },
        InstructionV::Ret { src } => {
            lemma_at_split(b, p, seq![11u8], enc_usize(src));
            lemma_dec_u8(b, p, 11);
            lemma_dec_num(b, p + 1, src as int);
        },
        InstructionV::Call { dst, function, args } => lemma_dec_instr_named(b, p, 10, dst, function, args),
        InstructionV::CapCall { dst, capability, args } => lemma_dec_instr_named(b, p, 12, dst, capability, args),
        InstructionV::ArrayNew { dst, items } => {
            lemma_at_split(b, p, seq![13u8] + enc_usize(dst), enc_usizes(items));
            lemma_at_split(b, p, seq![13u8], enc_usize(dst));
            lemma_dec_u8(b, p, 13);
            lemma_dec_num(b, p + 1, dst as int);
            lemma_dec_usizes(b, p + 5, items);
        },
    }
}

} // verus!

verus! {

proof fn lemma_dec_line(b: Seq<u8>, p: int, l: Option<usize>)
    requires
        at(b, p, enc_line(l)),
        line_ok(l),
        b.len() <= usize::MAX,
    ensures
        dec_line(b, p) == Ok::<(Option<usize>, int), DecErr>((l, p + enc_line(l).len())),
{
    match l {
        Some(n) => {
            lemma_at_split(b, p, seq![1u8], enc_usize(n));
            lemma_dec_u8(b, p, 1u8);
            lemma_dec_num(b, p + 1, n as int);
        },
        None => {
            lemma_dec_u8(b, p, 0u8);
        },
    }
}

proof fn lemma_dec_fn(b: Seq<u8>, p: int, f: FunctionV)
    requires
        at(b, p, enc_fn(f)),
        fn_dok(f),
        b.len() <= usize::MAX,
    ensures
        dec_fn(b, p) == Ok::<(FunctionV, int), DecErr>((f, p + enc_fn(f).len())),
{
    let e1 = enc_str(f.name);
    let e2 = enc_usize(f.registers) + enc_usize(f.arity);
    let e3 = enc_num(f.code.len() as int) + concat_map(f.code, |i: InstructionV| enc_instr(i));
    let e4 = enc_num(f.source_lines.len() as int) + concat_map(f.source_lines, |l: Option<usize>| enc_line(l));
    assert(enc_fn(f) =~= e1 + e2 + e3 + e4);
    lemma_at_split(b, p, e1 + e2 + e3, e4);
    lemma_at_split(b, p, e1 + e2, e3);
    lemma_at_split(b, p, e1, e2);
    lemma_at_split(b, p + e1.len(), enc_usize(f.registers), enc_usize(f.arity));
    lemma_dec_str(b, p, f.name);
    lemma_dec_num(b, p + e1.len(), f.registers as int);
    lemma_dec_num(b, p + e1.len() + 4, f.arity as int);
    assert forall|x: InstructionV, q: int| #![trigger instr_dok(x), instr_parser()(b, q)] instr_dok(x) && at(b, q, enc_instr(x)) implies instr_parser()(b, q) == Ok::<(InstructionV, int), DecErr>((x, q + enc_instr(x).len())) by {
        lemma_dec_instr(b, q, x);
    }
    assert(decodes_exactly(b, instr_parser(), |i: InstructionV| enc_instr(i), |i: InstructionV| instr_dok(i)));
    lemma_dec_counted(b, p + e1.len() + e2.len(), f.code, instr_parser(), |i: InstructionV| enc_instr(i), |i: InstructionV| instr_dok(i));
    assert forall|x: Option<usize>, q: int| #![trigger line_ok(x), line_parser()(b, q)] line_ok(x) && at(b, q, enc_line(x)) implies line_parser()(b, q) == Ok::<(Option<usize>, int), DecErr>((x, q + enc_line(x).len())) by {
        lemma_dec_line(b, q, x);
    }
    assert(decodes_exactly(b, line_parser(), |l: Option<usize>| enc_line(l), |l: Option<usize>| line_ok(l)));
    lemma_dec_counted(b, p + e1.len() + e2.len() + e3.len(), f.source_lines, line_parser(), |l: Option<usize>| enc_line(l), |l: Option<usize>| line_ok(l));
}


proof fn lemma_exports_from_sorted(es: Seq<(Seq<char>, usize)>)
    requires
        exports_sorted(es),
    ensures
        exports_from(es) == es,
    decreases es.len(),
{
    if es.len() > 0 {
        let pre = es.drop_last();
        assert forall|i: int| 0 <= i < pre.len() - 1 implies seq_lt(#[trigger] pre[i].0, pre[i + 1].0) by {
            assert(pre[i] == es[i]);
            assert(pre[i + 1] == es[i + 1]);
        }
        lemma_exports_from_sorted(pre);
        if pre.len() == 0 {
            assert(seq![(es.last().0, es.last().1)] =~= es);
        } else {
            assert(pre.last() == es[es.len() - 2]);
            assert(seq_lt(es[es.len() - 2].0, es[es.len() - 1].0));
            assert(pre.push((es.last().0, es.last().1)) =~= es);
        }
    }
}

proof fn lemma_caps_exact(b: Seq<u8>)
    requires
        b.len() <= usize::MAX,
    ensures
        decodes_exactly(b, cap_parser(), |d: CapabilityDeclV| enc_cap(d), |d: CapabilityDeclV| cap_dok(d)),
{
    assert forall|x: CapabilityDeclV, q: int| #![trigger cap_dok(x), cap_parser()(b, q)] cap_dok(x) && at(b, q, enc_cap(x)) implies cap_parser()(b, q) == Ok::<(CapabilityDeclV, int), DecErr>((x, q + enc_cap(x).len())) by {
        lemma_dec_cap(b, q, x);
    }
}

proof fn lemma_fns_exact(b: Seq<u8>)
    requires
        b.len() <= usize::MAX,
    ensures
        decodes_exactly(b, fn_parser(), |f: FunctionV| enc_fn(f), |f: FunctionV| fn_dok(f)),
{
    assert forall|x: FunctionV, q: int| #![trigger fn_dok(x), fn_parser()(b, q)] fn_dok(x) && at(b, q, enc_fn(x)) implies fn_parser()(b, q) == Ok::<(FunctionV, int), DecErr>((x, q + enc_fn(x).len())) by {
        lemma_dec_fn(b, q, x);
    }
}

proof fn lemma_exports_exact(b: Seq<u8>)
    requires
        b.len() <= usize::MAX,
    ensures
        decodes_exactly(b, export_parser(), |e: (Seq<char>, usize)| enc_export(e), |e: (Seq<char>, usize)| export_dok(e)),
{
    assert forall|x: (Seq<char>, usize), q: int| #![trigger export_dok(x), export_parser()(b, q)] export_dok(x) && at(b, q, enc_export(x)) implies export_parser()(b, q) == Ok::<((Seq<char>, usize), int), DecErr>((x, q + enc_export(x).len())) by {
        lemma_at_split(b, q, enc_str(x.0), enc_usize(x.1));
        lemma_dec_str(b, q, x.0);
        lemma_dec_num(b, q + enc_str(x.0).len(), x.1 as int);
    }
}

proof fn lemma_at_join(b: Seq<u8>, p: int, e1: Seq<u8>, e2: Seq<u8>)
    requires
        at(b, p, e1),
        at(b, p + e1.len(), e2),
    ensures
        at(b, p, e1 + e2),
{
    assert forall|i: int| 0 <= i < e1.len() + e2.len() implies #[trigger] b.subrange(p, p + e1.len() + e2.len())[i] == (e1 + e2)[i] by {
        if i < e1.len() {
            lemma_at_index(b, p, e1, i);
        } else {
            lemma_at_index(b, p + e1.len(), e2, i - e1.len());
        }
    }
    assert(b.subrange(p, p + e1.len() + e2.len()) =~= e1 + e2);
}

proof fn lemma_dec_module_rest(b: Seq<u8>, p3: int, m: ModuleV)
    requires
        at(b, p3, enc_num(m.capabilities.len() as int) + concat_map(m.capabilities, |d: CapabilityDeclV| enc_cap(d))),
        at(b, p3 + 4 + concat_map(m.capabilities, |d: CapabilityDeclV| enc_cap(d)).len(),
            enc_num(m.functions.len() as int) + concat_map(m.functions, |f: FunctionV| enc_fn(f))),
        at(b, p3 + 4 + concat_map(m.capabilities, |d: CapabilityDeclV| enc_cap(d)).len() + 4
            + concat_map(m.functions, |f: FunctionV| enc_fn(f)).len(),
            enc_num(m.exports.len() as int) + concat_map(m.exports, |e: (Seq<char>, usize)| enc_export(e))),
        p3 + 4 + concat_map(m.capabilities, |d: CapabilityDeclV| enc_cap(d)).len() + 4
            + concat_map(m.functions, |f: FunctionV| enc_fn(f)).len() + 4
            + concat_map(m.exports, |e: (Seq<char>, usize)| enc_export(e)).len() <= b.len(),
        module_dok(m),
        b.len() <= usize::MAX,
    ensures
        p3 + 4 + concat_map(m.capabilities, |d: CapabilityDeclV| enc_cap(d)).len() + 4
            + concat_map(m.functions, |f: FunctionV| enc_fn(f)).len() + 4
            + concat_map(m.exports, |e: (Seq<char>, usize)| enc_export(e)).len() == b.len() ==> exports_sorted(m.exports)
            ==> dec_module_rest(b, p3, m.name, m.constants) == Ok::<ModuleV, DecErr>(m),
        p3 + 4 + concat_map(m.capabilities, |d: CapabilityDeclV| enc_cap(d)).len() + 4
            + concat_map(m.functions, |f: FunctionV| enc_fn(f)).len() + 4
            + concat_map(m.exports, |e: (Seq<char>, usize)| enc_export(e)).len() < b.len()
            ==> dec_module_rest(b, p3, m.name, m.constants) == Err::<ModuleV, DecErr>(DecErr::Trailing),
{
    let p4: int = p3 + 4 + concat_map(m.capabilities, |d: CapabilityDeclV| enc_cap(d)).len();
    let p5: int = p4 + 4 + concat_map(m.functions, |f: FunctionV| enc_fn(f)).len();
    lemma_caps_exact(b);
    lemma_dec_counted(b, p3, m.capabilities, cap_parser(), |d: CapabilityDeclV| enc_cap(d), |d: CapabilityDeclV| cap_dok(d));
    lemma_fns_exact(b);
    lemma_dec_counted(b, p4, m.functions, fn_parser(), |f: FunctionV| enc_fn(f), |f: FunctionV| fn_dok(f));
    lemma_exports_exact(b);
    lemma_dec_counted(b, p5, m.exports, export_parser(), |e: (Seq<char>, usize)| enc_export(e), |e: (Seq<char>, usize)| export_dok(e));
    if exports_sorted(m.exports) {
        lemma_exports_from_sorted(m.exports);
    }
}

proof fn lemma_dec_module_parts(b: Seq<u8>, m: ModuleV, p1: int, p2: int, p3: int)
    requires
        8 <= b.len() <= usize::MAX,
        b.subrange(0, 8) == module_magic(),
        dec_str(b, 8) == Ok::<(Seq<char>, int), DecErr>((m.name, p1)),
        dec_num(b, p1) == Ok::<(usize, int), DecErr>((m.constants.len() as usize, p2)),
        m.constants.len() <= crate::codec::MAX_LIST_LEN,
        dec_values(b, p2, m.constants.len()) == Ok::<(Seq<ValueV>, int), DecErr>((m.constants, p3)),
    ensures
        dec_module(b) == dec_module_rest(b, p3, m.name, m.constants),
{
}

#[verifier::rlimit(40)]
proof fn lemma_dec_module_at(b: Seq<u8>, m: ModuleV)
    requires
        at(b, 0, enc_module(m)),
        module_dok(m),
        b.len() <= usize::MAX,
    ensures
        b.len() == enc_module(m).len() ==> exports_sorted(m.exports) ==> dec_module(b) == Ok::<ModuleV, DecErr>(m),
        b.len() > enc_module(m).len() ==> dec_module(b) == Err::<ModuleV, DecErr>(DecErr::Trailing),
{
    let n4 = enc_num(m.capabilities.len() as int);
    let c4 = concat_map(m.capabilities, |d: CapabilityDeclV| enc_cap(d));
    let n5 = enc_num(m.functions.len() as int);
    let c5 = concat_map(m.functions, |f: FunctionV| enc_fn(f));
    let n6 = enc_num(m.exports.len() as int);
    let c6 = concat_map(m.exports, |e: (Seq<char>, usize)| enc_export(e));
    let a0 = module_magic();
    let a1 = a0 + enc_str(m.name);
    let a2 = a1 + enc_num(m.constants.len() as int);
    let a3 = a2 + enc_values(m.constants);
    let a4 = a3 + n4;
    let a5 = a4 + c4;
    let a6 = a5 + n5;
    let a7 = a6 + c5;
    let a8 = a7 + n6;
    assert(enc_module(m) == a8 + c6);
    lemma_at_split(b, 0, a8, c6);
    lemma_at_split(b, 0, a7, n6);
    lemma_at_split(b, 0, a6, c5);
    lemma_at_split(b, 0, a5, n5);
    lemma_at_split(b, 0, a4, c4);
    lemma_at_split(b, 0, a3, n4);
    lemma_at_split(b, 0, a2, enc_values(m.constants));
    lemma_at_split(b, 0, a1, enc_num(m.constants.len() as int));
    lemma_at_split(b, 0, a0, enc_str(m.name));
    lemma_at_join(b, a3.len() as int, n4, c4);
    lemma_at_join(b, a5.len() as int, n5, c5);
    lemma_at_join(b, a7.len() as int, n6, c6);
    let p1: int = 8 + enc_str(m.name).len() as int;
    let p2: int = p1 + 4;
    let p3: int = p2 + enc_values(m.constants).len();
    lemma_dec_str(b, 8, m.name);
    lemma_dec_num(b, p1, m.constants.len() as int);
    lemma_dec_values(b, p2, m.constants);
    lemma_dec_module_rest(b, p3, m);
    lemma_dec_module_parts(b, m, p1, p2, p3);
    assert(p3 + 4 + c4.len() + 4 + c5.len() + 4 + c6.len() == enc_module(m).len());
}

/// Decoding the binary encoding of a module gives the module back, whenever every count,
/// index and string fits the format's 32-bit fields, no list has more than
/// [`crate::codec::MAX_LIST_LEN`] items and no string more than
/// [`crate::codec::MAX_STRING_BYTES`] bytes (the reader refuses longer ones), and the module's export table is in
/// name order, as every module that the decoder, the assembler or the compiler makes keeps
/// it (see [`crate::module_laws`]).
pub proof fn module_binary_roundtrip(m: ModuleV)
    requires
        module_dok(m),
        exports_sorted(m.exports),
        enc_module(m).len() <= usize::MAX,
    ensures
        dec_module(enc_module(m)) == Ok::<ModuleV, DecErr>(m),
{
    let b = enc_module(m);
    assert(at(b, 0, b)) by {
        assert(b.subrange(0, b.len() as int) =~= b);
    }
    lemma_dec_module_at(b, m);
}

/// Bytes after a complete encoding are refused: decoding the encoding of a module followed
/// by any non-empty tail fails with trailing bytes, whenever every count, index and string of
/// the module fits the format's 32-bit fields and the reader's limits.
pub proof fn trailing_bytes_are_refused(m: ModuleV, tail: Seq<u8>)
    requires
        module_dok(m),
        tail.len() > 0,
        enc_module(m).len() + tail.len() <= usize::MAX,
    ensures
        dec_module(enc_module(m) + tail) == Err::<ModuleV, DecErr>(DecErr::Trailing),
        crate::codec::binary_outcome(enc_module(m) + tail) == Err::<ModuleV, crate::error::ChronicleErrorV>(
            crate::error::ChronicleErrorV::Decode("trailing bytes in binary module"@),
        ),
{
    let b = enc_module(m) + tail;
    assert(at(b, 0, enc_module(m))) by {
        assert(b.subrange(0, enc_module(m).len() as int) =~= enc_module(m));
    }
    lemma_dec_module_at(b, m);
    let e = enc_module(m);
    assert(e.subrange(0, 8) =~= module_magic()) by {
        assert(e =~= module_magic() + e.subrange(8, e.len() as int));
    }
    assert(b.subrange(0, 8) =~= e.subrange(0, 8));
}

} // verus!
