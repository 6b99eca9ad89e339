use vstd::prelude::*;
use crate::bytecode::{ModuleV, exports_sorted};
use crate::codec::{
    DecRes, cap_parser, dec_cap, dec_counted, dec_export, dec_fn, dec_instr, dec_line, dec_list, dec_module, dec_named,
    dec_num, dec_opt_str, dec_str, dec_three, dec_two, dec_u64, dec_u8, dec_usizes, dec_value, dec_values, dec_vt,
    enc_module, export_parser, fn_parser, instr_parser, line_parser, module_dok, num_parser, take, u64_at, vt_parser,
};
use crate::error::ChronicleErrorV;

verus! {

/// `a` is a prefix of `b`.
pub open spec fn prefix_of(a: Seq<u8>, b: Seq<u8>) -> bool {
    a.len() <= b.len() && forall|i: int| 0 <= i < a.len() ==> a[i] == b[i]
}

/// A decoder that succeeds on a prefix from a position in it reads only that prefix: it
/// succeeds alike on the whole, and does not move back.
pub open spec fn stable<T>(f: spec_fn(Seq<u8>, int) -> DecRes<T>, a: Seq<u8>, b: Seq<u8>) -> bool {
    forall|q: int| 0 <= q && (#[trigger] f(a, q)) is Ok ==> f(b, q) == f(a, q) && f(a, q)->Ok_0.1 >= q
}

proof fn lemma_u8(a: Seq<u8>, b: Seq<u8>, p: int)
    requires
        prefix_of(a, b),
        0 <= p,
    ensures
        dec_u8(a, p) is Ok ==> dec_u8(b, p) == dec_u8(a, p),
        dec_num(a, p) is Ok ==> dec_num(b, p) == dec_num(a, p),
        dec_u64(a, p) is Ok ==> dec_u64(b, p) == dec_u64(a, p),
        dec_u8(a, p) matches Ok((_, q)) ==> q <= a.len(),
        dec_num(a, p) matches Ok((_, q)) ==> q <= a.len(),
        dec_u64(a, p) matches Ok((_, q)) ==> q <= a.len(),
        dec_u8(a, p) matches Ok((_, q)) ==> q >= p,
        dec_num(a, p) matches Ok((_, q)) ==> q >= p,
        dec_u64(a, p) matches Ok((_, q)) ==> q >= p,
{
    if dec_u64(a, p) is Ok {
        assert(u64_at(a, p) == u64_at(b, p)) by {
            assert(a[p] == b[p] && a[p + 1] == b[p + 1] && a[p + 2] == b[p + 2] && a[p + 3] == b[p + 3]);
            assert(a[p + 4] == b[p + 4] && a[p + 5] == b[p + 5] && a[p + 6] == b[p + 6] && a[p + 7] == b[p + 7]);
        }
    }
    if dec_num(a, p) is Ok {
        assert(a[p] == b[p] && a[p + 1] == b[p + 1] && a[p + 2] == b[p + 2] && a[p + 3] == b[p + 3]);
    }
    if dec_u8(a, p) is Ok {
        assert(a[p] == b[p]);
    }
}

proof fn lemma_str(a: Seq<u8>, b: Seq<u8>, p: int)
    requires
        prefix_of(a, b),
        0 <= p,
    ensures
        dec_str(a, p) is Ok ==> dec_str(b, p) == dec_str(a, p),
        dec_str(a, p) matches Ok((_, q)) ==> q <= a.len() && q >= p,
{
    lemma_u8(a, b, p);
    if let Ok((n, p1)) = dec_num(a, p) {
        if let Ok(q) = take(a, p1, n as int) {
            assert(a.subrange(p1, q) =~= b.subrange(p1, q));
        }
    }
}

proof fn lemma_list<T>(a: Seq<u8>, b: Seq<u8>, p: int, n: nat, f: spec_fn(Seq<u8>, int) -> DecRes<T>)
    requires
        prefix_of(a, b),
        0 <= p,
        stable(f, a, b),
    ensures
        dec_list(a, p, n, f) is Ok ==> dec_list(b, p, n, f) == dec_list(a, p, n, f),
        dec_list(a, p, n, f) matches Ok((_, q)) ==> q >= p,
    decreases n,
{
    if n > 0 {
        if let Ok((x, q)) = f(a, p) {
            lemma_list(a, b, q, (n - 1) as nat, f);
        }
    }
}

proof fn lemma_counted<T>(a: Seq<u8>, b: Seq<u8>, p: int, f: spec_fn(Seq<u8>, int) -> DecRes<T>)
    requires
        prefix_of(a, b),
        0 <= p,
        stable(f, a, b),
    ensures
        dec_counted(a, p, f) is Ok ==> dec_counted(b, p, f) == dec_counted(a, p, f),
        dec_counted(a, p, f) matches Ok((_, q)) ==> q >= p,
{
    lemma_u8(a, b, p);
    if let Ok((n, q)) = dec_num(a, p) {
        lemma_list(a, b, q, n as nat, f);
    }
}

proof fn lemma_value(a: Seq<u8>, b: Seq<u8>, p: int)
    requires
        prefix_of(a, b),
        0 <= p,
    ensures
        dec_value(a, p) is Ok ==> dec_value(b, p) == dec_value(a, p),
        dec_value(a, p) matches Ok((_, q)) ==> q <= a.len() && q >= p,
    decreases a.len() - p, 0int,
{
    lemma_u8(a, b, p);
    if let Ok((tag, p1)) = dec_u8(a, p) {
        lemma_u8(a, b, p1);
        lemma_str(a, b, p1);
        if tag == 5 {
            if let Ok((n, p2)) = dec_num(a, p1) {
                if !(p2 > a.len() || p2 <= p) {
                    lemma_values(a, b, p2, n as nat);
                }
            }
        }
    }
}

proof fn lemma_values(a: Seq<u8>, b: Seq<u8>, p: int, n: nat)
    requires
        prefix_of(a, b),
        0 <= p,
    ensures
        dec_values(a, p, n) is Ok ==> dec_values(b, p, n) == dec_values(a, p, n),
        dec_values(a, p, n) matches Ok((_, q)) ==> q >= p && (p <= a.len() ==> q <= a.len()),
    decreases a.len() - p, 1int,
{
    if n > 0 && p <= a.len() {
        lemma_value(a, b, p);
        if let Ok((v, q)) = dec_value(a, p) {
            if !(q <= p || q > a.len()) {
                lemma_values(a, b, q, (n - 1) as nat);
            }
        }
    }
}

proof fn lemma_small(a: Seq<u8>, b: Seq<u8>, p: int)
    requires
        prefix_of(a, b),
        0 <= p,
    ensures
        dec_vt(a, p) is Ok ==> dec_vt(b, p) == dec_vt(a, p),
        dec_opt_str(a, p) is Ok ==> dec_opt_str(b, p) == dec_opt_str(a, p),
        dec_two(a, p) is Ok ==> dec_two(b, p) == dec_two(a, p),
        dec_three(a, p) is Ok ==> dec_three(b, p) == dec_three(a, p),
        dec_line(a, p) is Ok ==> dec_line(b, p) == dec_line(a, p),
        dec_export(a, p) is Ok ==> dec_export(b, p) == dec_export(a, p),
        dec_vt(a, p) matches Ok((_, q)) ==> q >= p,
        dec_opt_str(a, p) matches Ok((_, q)) ==> q >= p,
        dec_two(a, p) matches Ok((_, q)) ==> q >= p,
        dec_three(a, p) matches Ok((_, q)) ==> q >= p,
        dec_line(a, p) matches Ok((_, q)) ==> q >= p,
        dec_export(a, p) matches Ok((_, q)) ==> q >= p,
{
    lemma_u8(a, b, p);
    lemma_str(a, b, p);
    if let Ok((_, q)) = dec_u8(a, p) {
        lemma_str(a, b, q);
        lemma_u8(a, b, q);
    }
    if let Ok((_, q)) = dec_num(a, p) {
        lemma_u8(a, b, q);
        if let Ok((_, r)) = dec_num(a, q) {
            lemma_u8(a, b, r);
        }
    }
    if let Ok((_, q)) = dec_str(a, p) {
        lemma_u8(a, b, q);
    }
}

proof fn lemma_stable_small(a: Seq<u8>, b: Seq<u8>)
    requires
        prefix_of(a, b),
    ensures
        stable(num_parser(), a, b),
        stable(vt_parser(), a, b),
        stable(line_parser(), a, b),
        stable(export_parser(), a, b),
{
    assert forall|q: int| 0 <= q && (#[trigger] num_parser()(a, q)) is Ok implies num_parser()(b, q) == num_parser()(a, q) && num_parser()(a, q)->Ok_0.1 >= q by {
        lemma_u8(a, b, q);
    }
    assert forall|q: int| 0 <= q && (#[trigger] vt_parser()(a, q)) is Ok implies vt_parser()(b, q) == vt_parser()(a, q) && vt_parser()(a, q)->Ok_0.1 >= q by {
        lemma_small(a, b, q);
    }
    assert forall|q: int| 0 <= q && (#[trigger] line_parser()(a, q)) is Ok implies line_parser()(b, q) == line_parser()(a, q) && line_parser()(a, q)->Ok_0.1 >= q by {
        lemma_small(a, b, q);
    }
    assert forall|q: int| 0 <= q && (#[trigger] export_parser()(a, q)) is Ok implies export_parser()(b, q) == export_parser()(a, q) && export_parser()(a, q)->Ok_0.1 >= q by {
        lemma_small(a, b, q);
    }
}

proof fn lemma_named(a: Seq<u8>, b: Seq<u8>, p: int)
    requires
        prefix_of(a, b),
        0 <= p,
    ensures
        dec_named(a, p) is Ok ==> dec_named(b, p) == dec_named(a, p),
        dec_usizes(a, p) is Ok ==> dec_usizes(b, p) == dec_usizes(a, p),
        dec_named(a, p) matches Ok((_, q)) ==> q >= p,
        dec_usizes(a, p) matches Ok((_, q)) ==> q >= p,
{
    lemma_stable_small(a, b);
    lemma_counted(a, b, p, num_parser());
    lemma_u8(a, b, p);
    if let Ok((_, p1)) = dec_num(a, p) {
        lemma_str(a, b, p1);
        if let Ok((_, p2)) = dec_str(a, p1) {
            lemma_counted(a, b, p2, num_parser());
        }
    }
}

proof fn lemma_instr(a: Seq<u8>, b: Seq<u8>, p: int)
    requires
        prefix_of(a, b),
        0 <= p,
    ensures
        dec_instr(a, p) is Ok ==> dec_instr(b, p) == dec_instr(a, p),
        dec_instr(a, p) matches Ok((_, q)) ==> q >= p,
{
    lemma_u8(a, b, p);
    if let Ok((_, p1)) = dec_u8(a, p) {
        lemma_small(a, b, p1);
        lemma_named(a, b, p1);
        lemma_u8(a, b, p1);
        if let Ok((_, p2)) = dec_num(a, p1) {
            lemma_named(a, b, p2);
        }
    }
}

proof fn lemma_cap(a: Seq<u8>, b: Seq<u8>, p: int)
    requires
        prefix_of(a, b),
        0 <= p,
    ensures
        dec_cap(a, p) is Ok ==> dec_cap(b, p) == dec_cap(a, p),
        dec_cap(a, p) matches Ok((_, q)) ==> q >= p,
{
    lemma_stable_small(a, b);
    lemma_str(a, b, p);
    if let Ok((_, p1)) = dec_str(a, p) {
        lemma_counted(a, b, p1, vt_parser());
        if let Ok((_, p2)) = dec_counted(a, p1, vt_parser()) {
            lemma_small(a, b, p2);
            if let Ok((_, p3)) = dec_vt(a, p2) {
                lemma_small(a, b, p3);
            }
        }
    }
}

proof fn lemma_fn(a: Seq<u8>, b: Seq<u8>, p: int)
    requires
        prefix_of(a, b),
        0 <= p,
    ensures
        dec_fn(a, p) is Ok ==> dec_fn(b, p) == dec_fn(a, p),
        dec_fn(a, p) matches Ok((_, q)) ==> q >= p,
{
    lemma_stable_small(a, b);
    assert forall|q: int| 0 <= q && (#[trigger] instr_parser()(a, q)) is Ok implies instr_parser()(b, q) == instr_parser()(a, q) && instr_parser()(a, q)->Ok_0.1 >= q by {
        lemma_instr(a, b, q);
    }
    lemma_str(a, b, p);
    if let Ok((_, p1)) = dec_str(a, p) {
        lemma_small(a, b, p1);
        if let Ok((_, p2)) = dec_two(a, p1) {
            lemma_counted(a, b, p2, instr_parser());
            if let Ok((_, p3)) = dec_counted(a, p2, instr_parser()) {
                lemma_counted(a, b, p3, line_parser());
            }
        }
    }
}

/// A truncated encoding is refused: decoding any proper prefix of the encoding of a module
/// fails, and from the eighth byte on (past the magic) it fails with a decode error, whenever
/// every count, index and string of the module fits the format's 32-bit fields and the
/// reader's limits, and its export table is in name order.
#[verifier::rlimit(80)]
pub proof fn truncated_encodings_are_refused(m: ModuleV, k: int)
    requires
        module_dok(m),
        exports_sorted(m.exports),
        0 <= k < enc_module(m).len(),
        enc_module(m).len() <= usize::MAX,
    ensures
        dec_module(enc_module(m).subrange(0, k)) is Err,
        k >= 8 ==> crate::codec::binary_outcome(enc_module(m).subrange(0, k)) matches Err(ChronicleErrorV::Decode(_)),
{
    let b = enc_module(m);
    let a = b.subrange(0, k);
    assert(prefix_of(a, b));
    crate::roundtrip::module_binary_roundtrip(m);
    if dec_module(a) is Ok {
        lemma_stable_small(a, b);
        assert forall|q: int| 0 <= q && (#[trigger] cap_parser()(a, q)) is Ok implies cap_parser()(b, q) == cap_parser()(a, q) && cap_parser()(a, q)->Ok_0.1 >= q by {
            lemma_cap(a, b, q);
        }
        assert forall|q: int| 0 <= q && (#[trigger] fn_parser()(a, q)) is Ok implies fn_parser()(b, q) == fn_parser()(a, q) && fn_parser()(a, q)->Ok_0.1 >= q by {
            lemma_fn(a, b, q);
        }
        let p0 = take(a, 0, 8)->Ok_0;
        assert(a.subrange(0, 8) =~= b.subrange(0, 8));
        lemma_str(a, b, p0);
        let (name, p1) = dec_str(a, p0)->Ok_0;
        lemma_u8(a, b, p1);
        let (nc, p2) = dec_num(a, p1)->Ok_0;
        lemma_values(a, b, p2, nc as nat);
        let (constants, p3) = dec_values(a, p2, nc as nat)->Ok_0;
        lemma_counted(a, b, p3, cap_parser());
        let (caps, p4) = dec_counted(a, p3, cap_parser())->Ok_0;
        lemma_counted(a, b, p4, fn_parser());
        let (fs, p5) = dec_counted(a, p4, fn_parser())->Ok_0;
        lemma_counted(a, b, p5, export_parser());
        assert(dec_module(b) is Err);
    }
    if k >= 8 {
        assert(a.subrange(0, 8) =~= b.subrange(0, 8));
        assert(b.subrange(0, 8) =~= crate::codec::module_magic()) by {
            assert(b =~= crate::codec::module_magic() + b.subrange(8, b.len() as int));
        }
    }
}

} // verus!
