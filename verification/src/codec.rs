use vstd::prelude::*;
use vstd::utf8::{encode_utf8, decode_utf8, valid_utf8, encode_utf8_decode_utf8, encode_utf8_valid_utf8};
use crate::bytecode::{CapabilityDeclV, FunctionV, InstructionV, ModuleV};
use crate::value::{ValueType, ValueV};

verus! {

// ---------------------------------------------------------------------------------------
// Byte order

/// The four little-endian bytes of a `u32`.
pub open spec fn u32_le(v: u32) -> Seq<u8> {
    seq![(v & 0xff) as u8, ((v >> 8u32) & 0xff) as u8, ((v >> 16u32) & 0xff) as u8, ((v >> 24u32) & 0xff) as u8]
}

/// The `u32` of four little-endian bytes.
pub open spec fn u32_of(b0: u8, b1: u8, b2: u8, b3: u8) -> u32 {
    (b0 as u32) | ((b1 as u32) << 8u32) | ((b2 as u32) << 16u32) | ((b3 as u32) << 24u32)
}

/// The eight little-endian bytes of a `u64`.
pub open spec fn u64_le(v: u64) -> Seq<u8> {
    seq![
        (v & 0xff) as u8,
        ((v >> 8u64) & 0xff) as u8,
        ((v >> 16u64) & 0xff) as u8,
        ((v >> 24u64) & 0xff) as u8,
        ((v >> 32u64) & 0xff) as u8,
        ((v >> 40u64) & 0xff) as u8,
        ((v >> 48u64) & 0xff) as u8,
        ((v >> 56u64) & 0xff) as u8,
    ]
}

/// The `u64` of eight little-endian bytes starting at `p`.
pub open spec fn u64_at(b: Seq<u8>, p: int) -> u64 {
    (b[p] as u64) | ((b[p + 1] as u64) << 8u64) | ((b[p + 2] as u64) << 16u64) | ((b[p + 3] as u64) << 24u64)
        | ((b[p + 4] as u64) << 32u64) | ((b[p + 5] as u64) << 40u64) | ((b[p + 6] as u64) << 48u64) | ((b[p
        + 7] as u64) << 56u64)
}

pub proof fn lemma_u32_roundtrip(v: u32)
    ensures
        u32_of(u32_le(v)[0], u32_le(v)[1], u32_le(v)[2], u32_le(v)[3]) == v,
{
    let b0 = (v & 0xff) as u8;
    let b1 = ((v >> 8u32) & 0xff) as u8;
    let b2 = ((v >> 16u32) & 0xff) as u8;
    let b3 = ((v >> 24u32) & 0xff) as u8;
    assert((b0 as u32) | ((b1 as u32) << 8u32) | ((b2 as u32) << 16u32) | ((b3 as u32) << 24u32) == v) by (bit_vector)
        requires
            b0 == (v & 0xff) as u8,
            b1 == ((v >> 8u32) & 0xff) as u8,
            b2 == ((v >> 16u32) & 0xff) as u8,
            b3 == ((v >> 24u32) & 0xff) as u8,
    ;
}

pub proof fn lemma_u64_roundtrip(v: u64, b: Seq<u8>, p: int)
    requires
        0 <= p,
        p + 8 <= b.len(),
        b.subrange(p, p + 8) == u64_le(v),
    ensures
        u64_at(b, p) == v,
{
    let b0 = b[p];
    let b1 = b[p + 1];
    let b2 = b[p + 2];
    let b3 = b[p + 3];
    let b4 = b[p + 4];
    let b5 = b[p + 5];
    let b6 = b[p + 6];
    let b7 = b[p + 7];
    assert(b0 == b.subrange(p, p + 8)[0]);
    assert(b1 == b.subrange(p, p + 8)[1]);
    assert(b2 == b.subrange(p, p + 8)[2]);
    assert(b3 == b.subrange(p, p + 8)[3]);
    assert(b4 == b.subrange(p, p + 8)[4]);
    assert(b5 == b.subrange(p, p + 8)[5]);
    assert(b6 == b.subrange(p, p + 8)[6]);
    assert(b7 == b.subrange(p, p + 8)[7]);
    assert((b0 as u64) | ((b1 as u64) << 8u64) | ((b2 as u64) << 16u64) | ((b3 as u64) << 24u64) | ((b4 as u64)
        << 32u64) | ((b5 as u64) << 40u64) | ((b6 as u64) << 48u64) | ((b7 as u64) << 56u64) == v) by (bit_vector)
        requires
            b0 == (v & 0xff) as u8,
            b1 == ((v >> 8u64) & 0xff) as u8,
            b2 == ((v >> 16u64) & 0xff) as u8,
            b3 == ((v >> 24u64) & 0xff) as u8,
            b4 == ((v >> 32u64) & 0xff) as u8,
            b5 == ((v >> 40u64) & 0xff) as u8,
            b6 == ((v >> 48u64) & 0xff) as u8,
            b7 == ((v >> 56u64) & 0xff) as u8,
    ;
}

// ---------------------------------------------------------------------------------------
// Encoding

/// The first bytes of every binary module.
pub open spec fn module_magic() -> Seq<u8> {
    seq![0x43u8, 0x48u8, 0x56u8, 0x4du8, 0x4fu8, 0x44u8, 0x32u8, 0u8]
}

/// The first bytes of a module in the retired binary format.
pub open spec fn old_module_magic() -> Seq<u8> {
    seq![0x43u8, 0x48u8, 0x56u8, 0x4du8, 0x4fu8, 0x44u8, 0x31u8, 0u8]
}

/// Whether a count or index fits the format's 32-bit fields.
pub open spec fn fits(n: int) -> bool {
    0 <= n <= 0xffff_ffff
}

pub open spec fn enc_num(n: int) -> Seq<u8> {
    u32_le(n as u32)
}

pub open spec fn enc_str(s: Seq<char>) -> Seq<u8> {
    enc_num(encode_utf8(s).len() as int) + encode_utf8(s)
}

pub open spec fn str_ok(s: Seq<char>) -> bool {
    fits(encode_utf8(s).len() as int)
}

/// The concatenation of the encodings of the elements, in order.
pub open spec fn concat_map<T>(s: Seq<T>, f: spec_fn(T) -> Seq<u8>) -> Seq<u8>
    decreases s.len(),
{
    if s.len() == 0 {
        Seq::empty()
    } else {
        concat_map(s.drop_last(), f) + f(s.last())
    }
}

pub open spec fn all_ok<T>(s: Seq<T>, p: spec_fn(T) -> bool) -> bool {
    forall|i: int| 0 <= i < s.len() ==> #[trigger] p(s[i])
}

pub open spec fn enc_value(v: ValueV) -> Seq<u8>
    decreases v,
{
    match v {
        ValueV::Nil => seq![0u8],
        ValueV::Bool(b) => seq![1u8, if b { 1u8 } else { 0u8 }],
        ValueV::I64(x) => seq![2u8] + u64_le(x as u64),
        ValueV::F64(bits) => seq![3u8] + u64_le(bits),
        ValueV::String(s) => seq![4u8] + enc_str(s),
        ValueV::Array(items) => seq![5u8] + enc_num(items.len() as int) + enc_values(items),
        ValueV::Function(s) => seq![6u8] + enc_str(s),
        ValueV::Capability(s) => seq![7u8] + enc_str(s),
    }
}

pub open spec fn enc_values(s: Seq<ValueV>) -> Seq<u8>
    decreases s,
{
    if s.len() == 0 {
        Seq::empty()
    } else {
        enc_values(s.drop_last()) + enc_value(s.last())
    }
}

/// Whether every count and string of a value fits the format.
pub open spec fn value_ok(v: ValueV) -> bool
    decreases v,
{
    match v {
        ValueV::String(s) => str_ok(s),
        ValueV::Array(items) => fits(items.len() as int) && values_ok(items),
        ValueV::Function(s) => str_ok(s),
        ValueV::Capability(s) => str_ok(s),
        _ => true,
    }
}

pub open spec fn values_ok(s: Seq<ValueV>) -> bool
    decreases s,
{
    if s.len() == 0 {
        true
    } else {
        values_ok(s.drop_last()) && value_ok(s.last())
    }
}

pub open spec fn vt_tag(t: ValueType) -> u8 {
    match t {
        ValueType::Nil => 0,
        ValueType::Bool => 1,
        ValueType::I64 => 2,
        ValueType::F64 => 3,
        ValueType::String => 4,
        ValueType::Array => 5,
        ValueType::Function => 6,
        ValueType::Capability => 7,
        ValueType::Any => 8,
        ValueType::AnyVariadic => 9,
    }
}

pub open spec fn enc_vt(t: ValueType) -> Seq<u8> {
    seq![vt_tag(t)]
}

pub open spec fn enc_opt_str(o: Option<Seq<char>>) -> Seq<u8> {
    match o {
        Some(s) => seq![1u8] + enc_str(s),
        None => seq![0u8],
    }
}

pub open spec fn opt_str_ok(o: Option<Seq<char>>) -> bool {
    match o {
        Some(s) => str_ok(s),
        None => true,
    }
}

pub open spec fn enc_usize(n: usize) -> Seq<u8> {
    enc_num(n as int)
}

pub open spec fn usize_ok(n: usize) -> bool {
    fits(n as int)
}

pub open spec fn enc_usizes(s: Seq<usize>) -> Seq<u8> {
    enc_num(s.len() as int) + concat_map(s, |n: usize| enc_usize(n))
}

pub open spec fn usizes_ok(s: Seq<usize>) -> bool {
    fits(s.len() as int) && all_ok(s, |n: usize| usize_ok(n))
}

pub open spec fn enc_instr(i: InstructionV) -> Seq<u8> {
    match i {
        InstructionV::Const { dst, constant } => seq![0u8] + enc_usize(dst) + enc_usize(constant),
        InstructionV::Move { dst, src } => seq![1u8] + enc_usize(dst) + enc_usize(src),
        InstructionV::Add { dst, lhs, rhs } => seq![2u8] + enc_usize(dst) + enc_usize(lhs) + enc_usize(rhs),
        InstructionV::Sub { dst, lhs, rhs } => seq![3u8] + enc_usize(dst) + enc_usize(lhs) + enc_usize(rhs),
        InstructionV::Mul { dst, lhs, rhs } => seq![4u8] + enc_usize(dst) + enc_usize(lhs) + enc_usize(rhs),
        InstructionV::Div { dst, lhs, rhs } => seq![5u8] + enc_usize(dst) + enc_usize(lhs) + enc_usize(rhs),
        InstructionV::Eq { dst, lhs, rhs } => seq![6u8] + enc_usize(dst) + enc_usize(lhs) + enc_usize(rhs),
        InstructionV::Lt { dst, lhs, rhs } => seq![7u8] + enc_usize(dst) + enc_usize(lhs) + enc_usize(rhs),
        InstructionV::Jump { target } => seq![8u8] + enc_usize(target),
        InstructionV::JumpIf { cond, target } => seq![9u8] + enc_usize(cond) + enc_usize(target),
        InstructionV::Call { dst, function, args } => seq![10u8] + enc_usize(dst) + enc_str(function) + enc_usizes(args),
        InstructionV::Ret { src } => seq![11u8] + enc_usize(src),
        InstructionV::CapCall { dst, capability, args } => seq![12u8] + enc_usize(dst) + enc_str(capability)
            + enc_usizes(args),
        InstructionV::ArrayNew { dst, items } => seq![13u8] + enc_usize(dst) + enc_usizes(items),
        InstructionV::ArrayGet { dst, array, index } => seq![14u8] + enc_usize(dst) + enc_usize(array) + enc_usize(
            index,
        ),
        InstructionV::ArraySet { array, index, value } => seq![15u8] + enc_usize(array) + enc_usize(index)
            + enc_usize(value),
    }
}

pub open spec fn instr_ok(i: InstructionV) -> bool {
    match i {
        InstructionV::Const { dst, constant } => usize_ok(dst) && usize_ok(constant),
        InstructionV::Move { dst, src } => usize_ok(dst) && usize_ok(src),
        InstructionV::Add { dst, lhs, rhs } | InstructionV::Sub { dst, lhs, rhs } | InstructionV::Mul {
            dst,
            lhs,
            rhs,
        } | InstructionV::Div { dst, lhs, rhs } | InstructionV::Eq { dst, lhs, rhs } | InstructionV::Lt {
            dst,
            lhs,
            rhs,
        } => usize_ok(dst) && usize_ok(lhs) && usize_ok(rhs),
        InstructionV::Jump { target } => usize_ok(target),
        InstructionV::JumpIf { cond, target } => usize_ok(cond) && usize_ok(target),
        InstructionV::Call { dst, function, args } => usize_ok(dst) && str_ok(function) && usizes_ok(args),
        InstructionV::Ret { src } => usize_ok(src),
        InstructionV::CapCall { dst, capability, args } => usize_ok(dst) && str_ok(capability) && usizes_ok(args),
        InstructionV::ArrayNew { dst, items } => usize_ok(dst) && usizes_ok(items),
        InstructionV::ArrayGet { dst, array, index } => usize_ok(dst) && usize_ok(array) && usize_ok(index),
        InstructionV::ArraySet { array, index, value } => usize_ok(array) && usize_ok(index) && usize_ok(value),
    }
}

pub open spec fn enc_cap(d: CapabilityDeclV) -> Seq<u8> {
    enc_str(d.id) + enc_num(d.params.len() as int) + concat_map(d.params, |t: ValueType| enc_vt(t)) + enc_vt(
        d.return_type,
    ) + enc_opt_str(d.reason)
}

pub open spec fn cap_ok(d: CapabilityDeclV) -> bool {
    str_ok(d.id) && fits(d.params.len() as int) && opt_str_ok(d.reason)
}

pub open spec fn enc_line(l: Option<usize>) -> Seq<u8> {
    match l {
        Some(n) => seq![1u8] + enc_usize(n),
        None => seq![0u8],
    }
}

pub open spec fn line_ok(l: Option<usize>) -> bool {
    match l {
        Some(n) => usize_ok(n),
        None => true,
    }
}

pub open spec fn enc_fn(f: FunctionV) -> Seq<u8> {
    enc_str(f.name) + enc_usize(f.registers) + enc_usize(f.arity) + enc_num(f.code.len() as int) + concat_map(
        f.code,
        |i: InstructionV| enc_instr(i),
    ) + enc_num(f.source_lines.len() as int) + concat_map(f.source_lines, |l: Option<usize>| enc_line(l))
}

pub open spec fn fn_ok(f: FunctionV) -> bool {
    str_ok(f.name) && usize_ok(f.registers) && usize_ok(f.arity) && fits(f.code.len() as int) && all_ok(
        f.code,
        |i: InstructionV| instr_ok(i),
    ) && fits(f.source_lines.len() as int) && all_ok(f.source_lines, |l: Option<usize>| line_ok(l))
}

pub open spec fn enc_export(e: (Seq<char>, usize)) -> Seq<u8> {
    enc_str(e.0) + enc_usize(e.1)
}

pub open spec fn export_ok(e: (Seq<char>, usize)) -> bool {
    str_ok(e.0) && usize_ok(e.1)
}

/// The binary encoding of a module.
pub open spec fn enc_module(m: ModuleV) -> Seq<u8> {
    module_magic() + enc_str(m.name) + enc_num(m.constants.len() as int) + enc_values(m.constants) + enc_num(
        m.capabilities.len() as int,
    ) + concat_map(m.capabilities, |d: CapabilityDeclV| enc_cap(d)) + enc_num(m.functions.len() as int)
        + concat_map(m.functions, |f: FunctionV| enc_fn(f)) + enc_num(m.exports.len() as int) + concat_map(
        m.exports,
        |e: (Seq<char>, usize)| enc_export(e),
    )
}

/// Whether every count, index and string of a module fits the format's 32-bit fields.
pub open spec fn module_ok(m: ModuleV) -> bool {
    &&& str_ok(m.name)
    &&& fits(m.constants.len() as int) && values_ok(m.constants)
    &&& fits(m.capabilities.len() as int) && all_ok(m.capabilities, |d: CapabilityDeclV| cap_ok(d))
    &&& fits(m.functions.len() as int) && all_ok(m.functions, |f: FunctionV| fn_ok(f))
    &&& fits(m.exports.len() as int) && all_ok(m.exports, |e: (Seq<char>, usize)| export_ok(e))
}

/// The most items that the reader accepts in one list.
pub const MAX_LIST_LEN: usize = 1000000;

/// The most bytes that the reader accepts in one string.
pub const MAX_STRING_BYTES: usize = 16777216;

/// Whether a list length fits the format and the reader's limit on lists.
pub open spec fn count_dok(n: int) -> bool {
    fits(n) && n <= MAX_LIST_LEN
}

/// Whether a string fits the format and the reader's limit on strings.
pub open spec fn str_dok(s: Seq<char>) -> bool {
    str_ok(s) && encode_utf8(s).len() <= MAX_STRING_BYTES
}

pub open spec fn value_dok(v: ValueV) -> bool
    decreases v,
{
    match v {
        ValueV::String(s) => str_dok(s),
        ValueV::Array(items) => count_dok(items.len() as int) && values_dok(items),
        ValueV::Function(s) => str_dok(s),
        ValueV::Capability(s) => str_dok(s),
        _ => true,
    }
}

pub open spec fn values_dok(s: Seq<ValueV>) -> bool
    decreases s,
{
    if s.len() == 0 {
        true
    } else {
        values_dok(s.drop_last()) && value_dok(s.last())
    }
}

pub open spec fn opt_str_dok(o: Option<Seq<char>>) -> bool {
    match o {
        Some(s) => str_dok(s),
        None => true,
    }
}

pub open spec fn usizes_dok(s: Seq<usize>) -> bool {
    count_dok(s.len() as int) && all_ok(s, |n: usize| usize_ok(n))
}

pub open spec fn instr_dok(i: InstructionV) -> bool {
    match i {
        InstructionV::Const { dst, constant } => usize_ok(dst) && usize_ok(constant),
        InstructionV::Move { dst, src } => usize_ok(dst) && usize_ok(src),
        InstructionV::Add { dst, lhs, rhs } | InstructionV::Sub { dst, lhs, rhs } | InstructionV::Mul {
            dst,
            lhs,
            rhs,
        } | InstructionV::Div { dst, lhs, rhs } | InstructionV::Eq { dst, lhs, rhs } | InstructionV::Lt {
            dst,
            lhs,
            rhs,
        } => usize_ok(dst) && usize_ok(lhs) && usize_ok(rhs),
        InstructionV::Jump { target } => usize_ok(target),
        InstructionV::JumpIf { cond, target } => usize_ok(cond) && usize_ok(target),
        InstructionV::Call { dst, function, args } => usize_ok(dst) && str_dok(function) && usizes_dok(args),
        InstructionV::Ret { src } => usize_ok(src),
        InstructionV::CapCall { dst, capability, args } => usize_ok(dst) && str_dok(capability) && usizes_dok(args),
        InstructionV::ArrayNew { dst, items } => usize_ok(dst) && usizes_dok(items),
        InstructionV::ArrayGet { dst, array, index } => usize_ok(dst) && usize_ok(array) && usize_ok(index),
        InstructionV::ArraySet { array, index, value } => usize_ok(array) && usize_ok(index) && usize_ok(value),
    }
}

pub open spec fn cap_dok(d: CapabilityDeclV) -> bool {
    str_dok(d.id) && count_dok(d.params.len() as int) && opt_str_dok(d.reason)
}

pub open spec fn fn_dok(f: FunctionV) -> bool {
    str_dok(f.name) && usize_ok(f.registers) && usize_ok(f.arity) && count_dok(f.code.len() as int) && all_ok(
        f.code,
        |i: InstructionV| instr_dok(i),
    ) && count_dok(f.source_lines.len() as int) && all_ok(f.source_lines, |l: Option<usize>| line_ok(l))
}

pub open spec fn export_dok(e: (Seq<char>, usize)) -> bool {
    str_dok(e.0) && usize_ok(e.1)
}

/// Whether every count, index and string of a module fits the format, and every list and
/// string the reader's limits.
pub open spec fn module_dok(m: ModuleV) -> bool {
    &&& str_dok(m.name)
    &&& count_dok(m.constants.len() as int) && values_dok(m.constants)
    &&& count_dok(m.capabilities.len() as int) && all_ok(m.capabilities, |d: CapabilityDeclV| cap_dok(d))
    &&& count_dok(m.functions.len() as int) && all_ok(m.functions, |f: FunctionV| fn_dok(f))
    &&& count_dok(m.exports.len() as int) && all_ok(m.exports, |e: (Seq<char>, usize)| export_dok(e))
}

} // verus!

verus! {

use crate::bytecode::{CapabilityDecl, Function, Instruction, Module};
use crate::error::{ChronicleError, ChronicleErrorV};
use crate::value::{Value, lemma_values_view, values_view};
use crate::text::string_of;

/// The failure of a write whose count or index does not fit 32 bits.
pub open spec fn limit_error() -> ChronicleErrorV {
    ChronicleErrorV::Decode("value exceeds binary module u32 limit"@)
}

pub open spec fn wrote(r: Result<(), ChronicleError>, ok: bool, before: Seq<u8>, after: Seq<u8>, enc: Seq<u8>) -> bool {
    &&& (r is Ok <==> ok)
    &&& r is Ok ==> after == before + enc
    &&& r matches Err(e) ==> e@ == limit_error()
}

/// Appends the binary encoding of modules and their parts to a byte buffer.
pub struct BinaryModuleWriter {
    pub bytes: Vec<u8>,
}

pub proof fn lemma_concat_map_push<T>(s: Seq<T>, x: T, f: spec_fn(T) -> Seq<u8>)
    ensures
        concat_map(s.push(x), f) == concat_map(s, f) + f(x),
{
    assert(s.push(x).drop_last() =~= s);
}

pub proof fn lemma_all_ok_prefix<T>(s: Seq<T>, n: int, p: spec_fn(T) -> bool)
    requires
        0 <= n < s.len(),
        all_ok(s.subrange(0, n), p),
        p(s[n]),
    ensures
        all_ok(s.subrange(0, n + 1), p),
{
    assert forall|i: int| 0 <= i < n + 1 implies #[trigger] p(s.subrange(0, n + 1)[i]) by {
        if i < n {
            assert(s.subrange(0, n + 1)[i] == s.subrange(0, n)[i]);
        }
    }
}

impl BinaryModuleWriter {
    pub fn write_u8(&mut self, value: u8)
        ensures
            final(self).bytes@ == old(self).bytes@.push(value),
    {
        self.bytes.push(value);
    }

    fn write_u32(&mut self, v: u32)
        ensures
            final(self).bytes@ == old(self).bytes@ + u32_le(v),
    {
        self.bytes.push((v & 0xff) as u8);
        self.bytes.push(((v >> 8u32) & 0xff) as u8);
        self.bytes.push(((v >> 16u32) & 0xff) as u8);
        self.bytes.push(((v >> 24u32) & 0xff) as u8);
        assert(self.bytes@ =~= old(self).bytes@ + u32_le(v));
    }

    pub fn write_u64(&mut self, v: u64)
        ensures
            final(self).bytes@ == old(self).bytes@ + u64_le(v),
    {
        self.bytes.push((v & 0xff) as u8);
        self.bytes.push(((v >> 8u64) & 0xff) as u8);
        self.bytes.push(((v >> 16u64) & 0xff) as u8);
        self.bytes.push(((v >> 24u64) & 0xff) as u8);
        self.bytes.push(((v >> 32u64) & 0xff) as u8);
        self.bytes.push(((v >> 40u64) & 0xff) as u8);
        self.bytes.push(((v >> 48u64) & 0xff) as u8);
        self.bytes.push(((v >> 56u64) & 0xff) as u8);
        assert(self.bytes@ =~= old(self).bytes@ + u64_le(v));
    }

    /// Appends a count or index as four little-endian bytes, failing above `u32::MAX`.
    pub fn write_usize(&mut self, value: usize) -> (r: Result<(), ChronicleError>)
        ensures
            wrote(r, usize_ok(value), old(self).bytes@, final(self).bytes@, enc_usize(value)),
    {
        if value > 0xffff_ffffusize {
            return Err(ChronicleError::Decode(string_of("value exceeds binary module u32 limit")));
        }
        self.write_u32(value as u32);
        Ok(())
    }

    pub fn write_len(&mut self, value: usize) -> (r: Result<(), ChronicleError>)
        ensures
            wrote(r, fits(value as int), old(self).bytes@, final(self).bytes@, enc_num(value as int)),
    {
        self.write_usize(value)
    }

    fn write_byte_slice(&mut self, b: &[u8])
        ensures
            final(self).bytes@ == old(self).bytes@ + b@,
    {
        let mut i: usize = 0;
        while i < b.len()
            invariant
                i <= b.len(),
                self.bytes@ == old(self).bytes@ + b@.subrange(0, i as int),
            decreases b.len() - i,
        {
            self.bytes.push(b[i]);
            i = i + 1;
            assert(self.bytes@ =~= old(self).bytes@ + b@.subrange(0, i as int));
        }
        assert(b@.subrange(0, i as int) =~= b@);
    }

    /// Appends a string as its UTF-8 byte length followed by its bytes.
    pub fn write_string(&mut self, value: &str) -> (r: Result<(), ChronicleError>)
        ensures
            wrote(r, str_ok(value@), old(self).bytes@, final(self).bytes@, enc_str(value@)),
    {
        let b = value.as_bytes();
        assert(b@ == encode_utf8(value@));
        let r = self.write_len(b.len());
        if r.is_err() {
            return r;
        }
        self.write_byte_slice(b);
        assert(self.bytes@ =~= old(self).bytes@ + enc_str(value@));
        Ok(())
    }

    pub fn write_optional_string(&mut self, value: &Option<String>) -> (r: Result<(), ChronicleError>)
        ensures
            wrote(
                r,
                opt_str_ok(crate::bytecode::opt_string_view(*value)),
                old(self).bytes@,
                final(self).bytes@,
                enc_opt_str(crate::bytecode::opt_string_view(*value)),
            ),
    {
        match value {
            Some(s) => {
                self.write_u8(1);
                let r = self.write_string(s.as_str());
                if r.is_err() {
                    return r;
                }
                assert(self.bytes@ =~= old(self).bytes@ + enc_opt_str(crate::bytecode::opt_string_view(*value)));
                Ok(())
            },
            None => {
                self.write_u8(0);
                assert(self.bytes@ =~= old(self).bytes@ + enc_opt_str(crate::bytecode::opt_string_view(*value)));
                Ok(())
            },
        }
    }

    pub fn write_value_type(&mut self, t: ValueType)
        ensures
            final(self).bytes@ == old(self).bytes@ + enc_vt(t),
    {
        let tag: u8 = match t {
            ValueType::Nil => 0,
            ValueType::Bool => 1,
            ValueType::I64 => 2,
            ValueType::F64 => 3,
            ValueType::String => 4,
            ValueType::Array => 5,
            ValueType::Function => 6,
            ValueType::Capability => 7,
            ValueType::Any => 8,
            ValueType::AnyVariadic => 9,
        };
        self.write_u8(tag);
        assert(self.bytes@ =~= old(self).bytes@ + enc_vt(t));
    }

    /// Appends a value: a tag byte, then its payload; arrays nest.
    pub fn write_value(&mut self, value: &Value) -> (r: Result<(), ChronicleError>)
        ensures
            wrote(r, value_ok(value@), old(self).bytes@, final(self).bytes@, enc_value(value@)),
        decreases value, 1nat,
    {
        match value {
            Value::Nil => {
                self.write_u8(0);
                assert(self.bytes@ =~= old(self).bytes@ + enc_value(value@));
            },
            Value::Bool(b) => {
                self.write_u8(1);
                self.write_u8(if *b { 1 } else { 0 });
                assert(self.bytes@ =~= old(self).bytes@ + enc_value(value@));
            },
            Value::I64(x) => {
                self.write_u8(2);
                self.write_u64(*x as u64);
                assert(self.bytes@ =~= old(self).bytes@ + enc_value(value@));
            },
            Value::F64(bits) => {
                self.write_u8(3);
                self.write_u64(*bits);
                assert(self.bytes@ =~= old(self).bytes@ + enc_value(value@));
            },
            Value::String(s) => {
                self.write_u8(4);
                let r = self.write_string(s.as_str());
                if r.is_err() {
                    return r;
                }
                assert(self.bytes@ =~= old(self).bytes@ + enc_value(value@));
            },
            Value::Array(items) => {
                self.write_u8(5);
                let r = self.write_len(items.len());
                proof {
                    lemma_values_view(items@);
                }
                if r.is_err() {
                    return r;
                }
                let r2 = self.write_values(items);
                if r2.is_err() {
                    return r2;
                }
                assert(self.bytes@ =~= old(self).bytes@ + enc_value(value@));
            },
            Value::Function(s) => {
                self.write_u8(6);
                let r = self.write_string(s.as_str());
                if r.is_err() {
                    return r;
                }
                assert(self.bytes@ =~= old(self).bytes@ + enc_value(value@));
            },
            Value::Capability(s) => {
                self.write_u8(7);
                let r = self.write_string(s.as_str());
                if r.is_err() {
                    return r;
                }
                assert(self.bytes@ =~= old(self).bytes@ + enc_value(value@));
            },
        }
        Ok(())
    }

    /// Appends each value in order, without a count.
    pub fn write_values(&mut self, items: &Vec<Value>) -> (r: Result<(), ChronicleError>)
        ensures
            wrote(r, values_ok(values_view(items@)), old(self).bytes@, final(self).bytes@, enc_values(values_view(items@))),
        decreases items, 0nat,
    {
        proof {
            lemma_values_view(items@);
        }
        let mut i: usize = 0;
        while i < items.len()
            invariant
                i <= items.len(),
                values_view(items@).len() == items.len(),
                forall|j: int| 0 <= j < items.len() ==> #[trigger] values_view(items@)[j] == items@[j]@,
                values_ok(values_view(items@).subrange(0, i as int)),
                self.bytes@ == old(self).bytes@ + enc_values(values_view(items@).subrange(0, i as int)),
            decreases items.len() - i,
        {
            proof {
                vstd::std_specs::vec::axiom_vec_index_decreases(*items, i as int);
            }
            let ghost vs = values_view(items@);
            assert(vs.subrange(0, i + 1).drop_last() =~= vs.subrange(0, i as int));
            let r = self.write_value(&items[i]);
            if r.is_err() {
                proof {
                    lemma_values_ok_prefix_fails(vs, i as int + 1);
                }
                return r;
            }
            i = i + 1;
            assert(self.bytes@ =~= old(self).bytes@ + enc_values(vs.subrange(0, i as int)));
        }
        assert(values_view(items@).subrange(0, i as int) =~= values_view(items@));
        Ok(())
    }
}

/// A failure in a prefix is a failure of the whole sequence.
pub proof fn lemma_values_ok_prefix_fails(vs: Seq<ValueV>, n: int)
    requires
        0 <= n <= vs.len(),
        !values_ok(vs.subrange(0, n)),
    ensures
        !values_ok(vs),
    decreases vs.len() - n,
{
    if n < vs.len() {
        assert(vs.subrange(0, n + 1).drop_last() =~= vs.subrange(0, n));
        lemma_values_ok_prefix_fails(vs, n + 1);
    } else {
        assert(vs.subrange(0, n) =~= vs);
    }
}

} // verus!

verus! {

pub proof fn lemma_all_ok_prefix_fails<T>(s: Seq<T>, n: int, p: spec_fn(T) -> bool)
    requires
        0 <= n < s.len(),
        !p(s[n]),
    ensures
        !all_ok(s, p),
{
}

impl BinaryModuleWriter {
    /// Appends a count followed by each index.
    pub fn write_usize_vec(&mut self, values: &Vec<usize>) -> (r: Result<(), ChronicleError>)
        ensures
            wrote(r, usizes_ok(values@), old(self).bytes@, final(self).bytes@, enc_usizes(values@)),
    {
        let r = self.write_len(values.len());
        if r.is_err() {
            return r;
        }
        let mut i: usize = 0;
        while i < values.len()
            invariant
                i <= values.len(),
                fits(values.len() as int),
                all_ok(values@.subrange(0, i as int), |n: usize| usize_ok(n)),
                self.bytes@ == old(self).bytes@ + enc_num(values.len() as int) + concat_map(
                    values@.subrange(0, i as int),
                    |n: usize| enc_usize(n),
                ),
            decreases values.len() - i,
        {
            let r = self.write_usize(values[i]);
            if r.is_err() {
                proof {
                    lemma_all_ok_prefix_fails(values@, i as int, |n: usize| usize_ok(n));
                }
                return r;
            }
            proof {
                lemma_all_ok_prefix(values@, i as int, |n: usize| usize_ok(n));
                assert(values@.subrange(0, i + 1) =~= values@.subrange(0, i as int).push(values@[i as int]));
                lemma_concat_map_push(values@.subrange(0, i as int), values@[i as int], |n: usize| enc_usize(n));
            }
            i = i + 1;
            assert(self.bytes@ =~= old(self).bytes@ + enc_num(values.len() as int) + concat_map(
                values@.subrange(0, i as int),
                |n: usize| enc_usize(n),
            ));
        }
        assert(values@.subrange(0, i as int) =~= values@);
        assert(self.bytes@ =~= old(self).bytes@ + enc_usizes(values@));
        Ok(())
    }

    fn write_three(&mut self, tag: u8, a: usize, b: usize, c: usize) -> (r: Result<(), ChronicleError>)
        ensures
            wrote(
                r,
                usize_ok(a) && usize_ok(b) && usize_ok(c),
                old(self).bytes@,
                final(self).bytes@,
                seq![tag] + enc_usize(a) + enc_usize(b) + enc_usize(c),
            ),
    {
        self.write_u8(tag);
        let r = self.write_usize(a);
        if r.is_err() {
            return r;
        }
        let r = self.write_usize(b);
        if r.is_err() {
            return r;
        }
        let r = self.write_usize(c);
        if r.is_err() {
            return r;
        }
        assert(self.bytes@ =~= old(self).bytes@ + (seq![tag] + enc_usize(a) + enc_usize(b) + enc_usize(c)));
        Ok(())
    }

    fn write_two(&mut self, tag: u8, a: usize, b: usize) -> (r: Result<(), ChronicleError>)
        ensures
            wrote(r, usize_ok(a) && usize_ok(b), old(self).bytes@, final(self).bytes@, seq![tag] + enc_usize(a) + enc_usize(b)),
    {
        self.write_u8(tag);
        let r = self.write_usize(a);
        if r.is_err() {
            return r;
        }
        let r = self.write_usize(b);
        if r.is_err() {
            return r;
        }
        assert(self.bytes@ =~= old(self).bytes@ + (seq![tag] + enc_usize(a) + enc_usize(b)));
        Ok(())
    }

    fn write_one(&mut self, tag: u8, a: usize) -> (r: Result<(), ChronicleError>)
        ensures
            wrote(r, usize_ok(a), old(self).bytes@, final(self).bytes@, seq![tag] + enc_usize(a)),
    {
        self.write_u8(tag);
        let r = self.write_usize(a);
        if r.is_err() {
            return r;
        }
        assert(self.bytes@ =~= old(self).bytes@ + (seq![tag] + enc_usize(a)));
        Ok(())
    }

    fn write_named(&mut self, tag: u8, a: usize, name: &String, regs: &Vec<usize>) -> (r: Result<(), ChronicleError>)
        ensures
            wrote(
                r,
                usize_ok(a) && str_ok(name@) && usizes_ok(regs@),
                old(self).bytes@,
                final(self).bytes@,
                seq![tag] + enc_usize(a) + enc_str(name@) + enc_usizes(regs@),
            ),
    {
        self.write_u8(tag);
        let r = self.write_usize(a);
        if r.is_err() {
            return r;
        }
        let r = self.write_string(name.as_str());
        if r.is_err() {
            return r;
        }
        let r = self.write_usize_vec(regs);
        if r.is_err() {
            return r;
        }
        assert(self.bytes@ =~= old(self).bytes@ + (seq![tag] + enc_usize(a) + enc_str(name@) + enc_usizes(regs@)));
        Ok(())
    }

    /// Appends an instruction: its tag, then its operands in order.
    pub fn write_instruction(&mut self, instruction: &Instruction) -> (r: Result<(), ChronicleError>)
        ensures
            wrote(r, instr_ok(instruction@), old(self).bytes@, final(self).bytes@, enc_instr(instruction@)),
    {
        match instruction {
            Instruction::Const { dst, constant } => self.write_two(0, *dst, *constant),
            Instruction::Move { dst, src } => self.write_two(1, *dst, *src),
            Instruction::Add { dst, lhs, rhs } => self.write_three(2, *dst, *lhs, *rhs),
            Instruction::Sub { dst, lhs, rhs } => self.write_three(3, *dst, *lhs, *rhs),
            Instruction::Mul { dst, lhs, rhs } => self.write_three(4, *dst, *lhs, *rhs),
            Instruction::Div { dst, lhs, rhs } => self.write_three(5, *dst, *lhs, *rhs),
            Instruction::Eq { dst, lhs, rhs } => self.write_three(6, *dst, *lhs, *rhs),
            Instruction::Lt { dst, lhs, rhs } => self.write_three(7, *dst, *lhs, *rhs),
            Instruction::Jump { target } => self.write_one(8, *target),
            Instruction::JumpIf { cond, target } => self.write_two(9, *cond, *target),
            Instruction::Call { dst, function, args } => self.write_named(10, *dst, function, args),
            Instruction::Ret { src } => self.write_one(11, *src),
            Instruction::CapCall { dst, capability, args } => self.write_named(12, *dst, capability, args),
            Instruction::ArrayNew { dst, items } => {
                self.write_u8(13);
                let r = self.write_usize(*dst);
                if r.is_err() {
                    return r;
                }
                let r = self.write_usize_vec(items);
                if r.is_err() {
                    return r;
                }
                assert(self.bytes@ =~= old(self).bytes@ + enc_instr(instruction@));
                Ok(())
            },
            Instruction::ArrayGet { dst, array, index } => self.write_three(14, *dst, *array, *index),
            Instruction::ArraySet { array, index, value } => self.write_three(15, *array, *index, *value),
        }
    }

    /// Appends a capability declaration.
    pub fn write_capability(&mut self, d: &CapabilityDecl) -> (r: Result<(), ChronicleError>)
        ensures
            wrote(r, cap_ok(d@), old(self).bytes@, final(self).bytes@, enc_cap(d@)),
    {
        let r = self.write_string(d.id.as_str());
        if r.is_err() {
            return r;
        }
        let r = self.write_len(d.params.len());
        if r.is_err() {
            return r;
        }
        let ghost start = self.bytes@;
        let mut i: usize = 0;
        while i < d.params.len()
            invariant
                i <= d.params.len(),
                self.bytes@ == start + concat_map(d@.params.subrange(0, i as int), |t: ValueType| enc_vt(t)),
            decreases d.params.len() - i,
        {
            self.write_value_type(d.params[i]);
            proof {
                assert(d@.params.subrange(0, i + 1) =~= d@.params.subrange(0, i as int).push(d@.params[i as int]));
                lemma_concat_map_push(d@.params.subrange(0, i as int), d@.params[i as int], |t: ValueType| enc_vt(t));
            }
            i = i + 1;
            assert(self.bytes@ =~= start + concat_map(d@.params.subrange(0, i as int), |t: ValueType| enc_vt(t)));
        }
        assert(d@.params.subrange(0, i as int) =~= d@.params);
        self.write_value_type(d.return_type);
        let r = self.write_optional_string(&d.reason);
        if r.is_err() {
            return r;
        }
        assert(self.bytes@ =~= old(self).bytes@ + enc_cap(d@));
        Ok(())
    }

    /// Appends a function: name, register count, arity, code and source line map.
    pub fn write_function(&mut self, f: &Function) -> (r: Result<(), ChronicleError>)
        ensures
            wrote(r, fn_ok(f@), old(self).bytes@, final(self).bytes@, enc_fn(f@)),
    {
        let r = self.write_string(f.name.as_str());
        if r.is_err() {
            return r;
        }
        let r = self.write_usize(f.registers);
        if r.is_err() {
            return r;
        }
        let r = self.write_usize(f.arity);
        if r.is_err() {
            return r;
        }
        let r = self.write_len(f.code.len());
        if r.is_err() {
            return r;
        }
        let ghost start = self.bytes@;
        let ghost code = f@.code;
        let mut i: usize = 0;
        while i < f.code.len()
            invariant
                code == f@.code,
                code.len() == f.code.len(),
                i <= f.code.len(),
                all_ok(code.subrange(0, i as int), |x: InstructionV| instr_ok(x)),
                self.bytes@ == start + concat_map(code.subrange(0, i as int), |x: InstructionV| enc_instr(x)),
            decreases f.code.len() - i,
        {
            assert(code[i as int] == f.code@[i as int]@);
            let r = self.write_instruction(&f.code[i]);
            if r.is_err() {
                proof {
                    lemma_all_ok_prefix_fails(code, i as int, |x: InstructionV| instr_ok(x));
                }
                return r;
            }
            proof {
                lemma_all_ok_prefix(code, i as int, |x: InstructionV| instr_ok(x));
                assert(code.subrange(0, i + 1) =~= code.subrange(0, i as int).push(code[i as int]));
                lemma_concat_map_push(code.subrange(0, i as int), code[i as int], |x: InstructionV| enc_instr(x));
            }
            i = i + 1;
            assert(self.bytes@ =~= start + concat_map(code.subrange(0, i as int), |x: InstructionV| enc_instr(x)));
        }
        assert(code.subrange(0, i as int) =~= code);
        let r = self.write_len(f.source_lines.len());
        if r.is_err() {
            return r;
        }
        let ghost start2 = self.bytes@;
        let ghost lines = f@.source_lines;
        let mut i: usize = 0;
        while i < f.source_lines.len()
            invariant
                lines == f@.source_lines,
                lines.len() == f.source_lines.len(),
                i <= f.source_lines.len(),
                all_ok(lines.subrange(0, i as int), |l: Option<usize>| line_ok(l)),
                self.bytes@ == start2 + concat_map(lines.subrange(0, i as int), |l: Option<usize>| enc_line(l)),
            decreases f.source_lines.len() - i,
        {
            let ghost before = self.bytes@;
            match f.source_lines[i] {
                Some(line) => {
                    self.write_u8(1);
                    let r = self.write_usize(line);
                    if r.is_err() {
                        proof {
                            lemma_all_ok_prefix_fails(lines, i as int, |l: Option<usize>| line_ok(l));
                        }
                        return r;
                    }
                },
                None => self.write_u8(0),
            }
            assert(self.bytes@ =~= before + enc_line(lines[i as int]));
            proof {
                lemma_all_ok_prefix(lines, i as int, |l: Option<usize>| line_ok(l));
                assert(lines.subrange(0, i + 1) =~= lines.subrange(0, i as int).push(lines[i as int]));
                lemma_concat_map_push(lines.subrange(0, i as int), lines[i as int], |l: Option<usize>| enc_line(l));
            }
            i = i + 1;
            assert(self.bytes@ =~= start2 + concat_map(lines.subrange(0, i as int), |l: Option<usize>| enc_line(l)));
        }
        assert(lines.subrange(0, i as int) =~= lines);
        assert(self.bytes@ =~= old(self).bytes@ + enc_fn(f@));
        Ok(())
    }

    fn write_capabilities(&mut self, m: &Module) -> (r: Result<(), ChronicleError>)
        ensures
            wrote(r, fits(m@.capabilities.len() as int) && all_ok(m@.capabilities, |d: CapabilityDeclV| cap_ok(d)), old(self).bytes@, final(self).bytes@, enc_num(m@.capabilities.len() as int) + concat_map(m@.capabilities, |d: CapabilityDeclV| enc_cap(d))),
    {
        let r = self.write_len(m.capabilities.len());
        if r.is_err() {
            return r;
        }
        let ghost start = self.bytes@;
        let ghost caps = m@.capabilities;
        let mut i: usize = 0;
        while i < m.capabilities.len()
            invariant
                caps == m@.capabilities,
                caps.len() == m.capabilities.len(),
                i <= m.capabilities.len(),
                all_ok(caps.subrange(0, i as int), |d: CapabilityDeclV| cap_ok(d)),
                self.bytes@ == start + concat_map(caps.subrange(0, i as int), |d: CapabilityDeclV| enc_cap(d)),
            decreases m.capabilities.len() - i,
        {
            assert(caps[i as int] == m.capabilities@[i as int]@);
            let r = self.write_capability(&m.capabilities[i]);
            if r.is_err() {
                proof {
                    lemma_all_ok_prefix_fails(caps, i as int, |d: CapabilityDeclV| cap_ok(d));
                }
                return r;
            }
            proof {
                lemma_all_ok_prefix(caps, i as int, |d: CapabilityDeclV| cap_ok(d));
                assert(caps.subrange(0, i + 1) =~= caps.subrange(0, i as int).push(caps[i as int]));
                lemma_concat_map_push(caps.subrange(0, i as int), caps[i as int], |d: CapabilityDeclV| enc_cap(d));
            }
            i = i + 1;
            assert(self.bytes@ =~= start + concat_map(caps.subrange(0, i as int), |d: CapabilityDeclV| enc_cap(d)));
        }
        assert(caps.subrange(0, i as int) =~= caps);
        assert(self.bytes@ =~= old(self).bytes@ + (enc_num(m@.capabilities.len() as int) + concat_map(m@.capabilities, |d: CapabilityDeclV| enc_cap(d))));
        Ok(())
    }

    fn write_functions(&mut self, m: &Module) -> (r: Result<(), ChronicleError>)
        ensures
            wrote(r, fits(m@.functions.len() as int) && all_ok(m@.functions, |f: FunctionV| fn_ok(f)), old(self).bytes@, final(self).bytes@, enc_num(m@.functions.len() as int) + concat_map(m@.functions, |f: FunctionV| enc_fn(f))),
    {
        let r = self.write_len(m.functions.len());
        if r.is_err() {
            return r;
        }
        let ghost start = self.bytes@;
        let ghost fs = m@.functions;
        let mut i: usize = 0;
        while i < m.functions.len()
            invariant
                fs == m@.functions,
                fs.len() == m.functions.len(),
                i <= m.functions.len(),
                all_ok(fs.subrange(0, i as int), |f: FunctionV| fn_ok(f)),
                self.bytes@ == start + concat_map(fs.subrange(0, i as int), |f: FunctionV| enc_fn(f)),
            decreases m.functions.len() - i,
        {
            assert(fs[i as int] == m.functions@[i as int]@);
            let r = self.write_function(&m.functions[i]);
            if r.is_err() {
                proof {
                    lemma_all_ok_prefix_fails(fs, i as int, |f: FunctionV| fn_ok(f));
                }
                return r;
            }
            proof {
                lemma_all_ok_prefix(fs, i as int, |f: FunctionV| fn_ok(f));
                assert(fs.subrange(0, i + 1) =~= fs.subrange(0, i as int).push(fs[i as int]));
                lemma_concat_map_push(fs.subrange(0, i as int), fs[i as int], |f: FunctionV| enc_fn(f));
            }
            i = i + 1;
            assert(self.bytes@ =~= start + concat_map(fs.subrange(0, i as int), |f: FunctionV| enc_fn(f)));
        }
        assert(fs.subrange(0, i as int) =~= fs);
        assert(self.bytes@ =~= old(self).bytes@ + (enc_num(m@.functions.len() as int) + concat_map(m@.functions, |f: FunctionV| enc_fn(f))));
        Ok(())
    }

    fn write_exports(&mut self, m: &Module) -> (r: Result<(), ChronicleError>)
        ensures
            wrote(r, fits(m@.exports.len() as int) && all_ok(m@.exports, |e: (Seq<char>, usize)| export_ok(e)), old(self).bytes@, final(self).bytes@, enc_num(m@.exports.len() as int) + concat_map(m@.exports, |e: (Seq<char>, usize)| enc_export(e))),
    {
        let r = self.write_len(m.exports.len());
        if r.is_err() {
            return r;
        }
        let ghost start = self.bytes@;
        let ghost es = m@.exports;
        let mut i: usize = 0;
        while i < m.exports.len()
            invariant
                es == m@.exports,
                es.len() == m.exports.len(),
                i <= m.exports.len(),
                all_ok(es.subrange(0, i as int), |e: (Seq<char>, usize)| export_ok(e)),
                self.bytes@ == start + concat_map(es.subrange(0, i as int), |e: (Seq<char>, usize)| enc_export(e)),
            decreases m.exports.len() - i,
        {
            assert(es[i as int] == (m.exports@[i as int].0@, m.exports@[i as int].1));
            let ghost before = self.bytes@;
            let r = self.write_string(m.exports[i].0.as_str());
            if r.is_err() {
                proof {
                    lemma_all_ok_prefix_fails(es, i as int, |e: (Seq<char>, usize)| export_ok(e));
                }
                return r;
            }
            let r = self.write_usize(m.exports[i].1);
            if r.is_err() {
                proof {
                    lemma_all_ok_prefix_fails(es, i as int, |e: (Seq<char>, usize)| export_ok(e));
                }
                return r;
            }
            assert(self.bytes@ =~= before + enc_export(es[i as int]));
            proof {
                lemma_all_ok_prefix(es, i as int, |e: (Seq<char>, usize)| export_ok(e));
                assert(es.subrange(0, i + 1) =~= es.subrange(0, i as int).push(es[i as int]));
                lemma_concat_map_push(es.subrange(0, i as int), es[i as int], |e: (Seq<char>, usize)| enc_export(e));
            }
            i = i + 1;
            assert(self.bytes@ =~= start + concat_map(es.subrange(0, i as int), |e: (Seq<char>, usize)| enc_export(e)));
        }
        assert(es.subrange(0, i as int) =~= es);
        assert(self.bytes@ =~= old(self).bytes@ + (enc_num(m@.exports.len() as int) + concat_map(m@.exports, |e: (Seq<char>, usize)| enc_export(e))));
        Ok(())
    }

    fn write_header(&mut self, m: &Module) -> (r: Result<(), ChronicleError>)
        ensures
            wrote(
                r,
                str_ok(m@.name) && fits(m@.constants.len() as int) && values_ok(m@.constants),
                old(self).bytes@,
                final(self).bytes@,
                module_magic() + enc_str(m@.name) + enc_num(m@.constants.len() as int) + enc_values(m@.constants),
            ),
    {
        self.write_u8(0x43);
        self.write_u8(0x48);
        self.write_u8(0x56);
        self.write_u8(0x4d);
        self.write_u8(0x4f);
        self.write_u8(0x44);
        self.write_u8(0x32);
        self.write_u8(0);
        assert(self.bytes@ =~= old(self).bytes@ + module_magic());
        let r = self.write_string(m.name.as_str());
        if r.is_err() {
            return r;
        }
        let r = self.write_len(m.constants.len());
        proof {
            lemma_values_view(m.constants@);
        }
        if r.is_err() {
            return r;
        }
        let r = self.write_values(&m.constants);
        if r.is_err() {
            return r;
        }
        assert(self.bytes@ =~= old(self).bytes@ + (module_magic() + enc_str(m@.name) + enc_num(m@.constants.len() as int)
            + enc_values(m@.constants)));
        Ok(())
    }

    /// Appends a whole module: magic, name, constants, capabilities, functions, exports.
    #[verifier::rlimit(30)]
    pub fn write_module(&mut self, m: &Module) -> (r: Result<(), ChronicleError>)
        ensures
            wrote(r, module_ok(m@), old(self).bytes@, final(self).bytes@, enc_module(m@)),
    {
        let r = self.write_header(m);
        if r.is_err() {
            return r;
        }
        let r = self.write_capabilities(m);
        if r.is_err() {
            return r;
        }
        let r = self.write_functions(m);
        if r.is_err() {
            return r;
        }
        let r = self.write_exports(m);
        if r.is_err() {
            return r;
        }
        assert(self.bytes@ =~= old(self).bytes@ + enc_module(m@));
        Ok(())
    }
}

impl Module {
    /// The binary encoding of the module, or the limit failure when a count, index or string
    /// does not fit the format's 32-bit fields.
    pub fn to_bytes(&self) -> (r: Result<Vec<u8>, ChronicleError>)
        ensures
            r is Ok <==> module_ok(self@),
            r matches Ok(b) ==> b@ == enc_module(self@),
            r matches Err(e) ==> e@ == limit_error(),
    {
        let mut writer = BinaryModuleWriter { bytes: Vec::new() };
        let r = writer.write_module(self);
        match r {
            Ok(()) => {
                assert(writer.bytes@ =~= enc_module(self@));
                Ok(writer.bytes)
            },
            Err(e) => Err(e),
        }
    }
}

} // verus!

verus! {

// ---------------------------------------------------------------------------------------
// Decoding

/// Which tagged field a bad tag was found in.
#[derive(Clone, Copy, Debug, PartialEq, Eq, Structural)]
pub enum TagField {
    SourceLine,
    Instruction,
    Bool,
    Value,
    ValueType,
    Option,
}

/// Why a binary module could not be decoded.
pub enum DecErr {
    Overflow,
    End,
    Tag(TagField, u8),
    Utf8(Seq<u8>),
    Magic,
    Trailing,
    ListTooLong,
    StringTooLong,
}

pub type DecRes<T> = Result<(T, int), DecErr>;

/// The text that the standard library gives for the UTF-8 error of `bytes`.
pub uninterp spec fn utf8_error_text(bytes: Seq<u8>) -> Seq<char>;

pub open spec fn tag_text(f: TagField) -> Seq<char> {
    match f {
        TagField::SourceLine => "invalid source line tag "@,
        TagField::Instruction => "unknown instruction tag "@,
        TagField::Bool => "invalid bool tag "@,
        TagField::Value => "unknown value tag "@,
        TagField::ValueType => "unknown value type tag "@,
        TagField::Option => "invalid option tag "@,
    }
}

/// The failure a decoding error is reported as.
pub open spec fn dec_error(e: DecErr) -> ChronicleErrorV {
    match e {
        DecErr::Overflow => ChronicleErrorV::Decode("binary module offset overflow"@),
        DecErr::End => ChronicleErrorV::Decode("unexpected end of binary module"@),
        DecErr::Tag(f, t) => ChronicleErrorV::Decode(tag_text(f) + crate::text::decimal(t as nat)),
        DecErr::Utf8(b) => ChronicleErrorV::Decode(utf8_error_text(b)),
        DecErr::Magic => ChronicleErrorV::Decode("invalid binary module magic"@),
        DecErr::Trailing => ChronicleErrorV::Decode("trailing bytes in binary module"@),
        DecErr::ListTooLong => ChronicleErrorV::Decode("binary module list too long"@),
        DecErr::StringTooLong => ChronicleErrorV::Decode("binary module string too long"@),
    }
}

/// Consuming `n` bytes at `p`: the position after them.
pub open spec fn take(b: Seq<u8>, p: int, n: int) -> Result<int, DecErr> {
    if p + n > usize::MAX {
        Err(DecErr::Overflow)
    } else if p + n > b.len() {
        Err(DecErr::End)
    } else {
        Ok(p + n)
    }
}

pub open spec fn dec_u8(b: Seq<u8>, p: int) -> DecRes<u8> {
    match take(b, p, 1) {
        Ok(q) => Ok((b[p], q)),
        Err(e) => Err(e),
    }
}

pub open spec fn dec_num(b: Seq<u8>, p: int) -> DecRes<usize> {
    match take(b, p, 4) {
        Ok(q) => Ok((u32_of(b[p], b[p + 1], b[p + 2], b[p + 3]) as usize, q)),
        Err(e) => Err(e),
    }
}

pub open spec fn dec_u64(b: Seq<u8>, p: int) -> DecRes<u64> {
    match take(b, p, 8) {
        Ok(q) => Ok((u64_at(b, p), q)),
        Err(e) => Err(e),
    }
}

pub open spec fn dec_str(b: Seq<u8>, p: int) -> DecRes<Seq<char>> {
    match dec_num(b, p) {
        Err(e) => Err(e),
        Ok((n, p1)) => if n > MAX_STRING_BYTES {
            Err(DecErr::StringTooLong)
        } else {
            match take(b, p1, n as int) {
                Err(e) => Err(e),
                Ok(q) => {
                    let bytes = b.subrange(p1, q);
                    if valid_utf8(bytes) {
                        Ok((decode_utf8(bytes), q))
                    } else {
                        Err(DecErr::Utf8(bytes))
                    }
                },
            }
        },
    }
}

/// `n` items decoded one after the other by `f`.
pub open spec fn dec_list<T>(b: Seq<u8>, p: int, n: nat, f: spec_fn(Seq<u8>, int) -> DecRes<T>) -> DecRes<Seq<T>>
    decreases n,
{
    if n == 0 {
        Ok((Seq::empty(), p))
    } else {
        match f(b, p) {
            Err(e) => Err(e),
            Ok((x, q)) => match dec_list(b, q, (n - 1) as nat, f) {
                Err(e) => Err(e),
                Ok((xs, r)) => Ok((seq![x] + xs, r)),
            },
        }
    }
}

/// A count followed by that many items.
pub open spec fn dec_counted<T>(b: Seq<u8>, p: int, f: spec_fn(Seq<u8>, int) -> DecRes<T>) -> DecRes<Seq<T>> {
    match dec_num(b, p) {
        Err(e) => Err(e),
        Ok((n, q)) => if n > MAX_LIST_LEN {
            Err(DecErr::ListTooLong)
        } else {
            dec_list(b, q, n as nat, f)
        },
    }
}

pub open spec fn dec_value(b: Seq<u8>, p: int) -> DecRes<ValueV>
    decreases b.len() - p, 0int,
{
    match dec_u8(b, p) {
        Err(e) => Err(e),
        Ok((tag, p1)) => if tag == 0 {
            Ok((ValueV::Nil, p1))
        } else if tag == 1 {
            match dec_u8(b, p1) {
                Err(e) => Err(e),
                Ok((t, p2)) => if t == 0 {
                    Ok((ValueV::Bool(false), p2))
                } else if t == 1 {
                    Ok((ValueV::Bool(true), p2))
                } else {
                    Err(DecErr::Tag(TagField::Bool, t))
                },
            }
        } else if tag == 2 {
            match dec_u64(b, p1) {
                Err(e) => Err(e),
                Ok((v, p2)) => Ok((ValueV::I64(v as i64), p2)),
            }
        } else if tag == 3 {
            match dec_u64(b, p1) {
                Err(e) => Err(e),
                Ok((v, p2)) => Ok((ValueV::F64(v), p2)),
            }
        } else if tag == 4 {
            match dec_str(b, p1) {
                Err(e) => Err(e),
                Ok((s, p2)) => Ok((ValueV::String(s), p2)),
            }
        } else if tag == 5 {
            match dec_num(b, p1) {
                Err(e) => Err(e),
                Ok((n, p2)) => if n > MAX_LIST_LEN {
                    Err(DecErr::ListTooLong)
                } else if p2 > b.len() || p2 <= p {
                    Err(DecErr::End)
                } else {
                    match dec_values(b, p2, n as nat) {
                        Err(e) => Err(e),
                        Ok((items, p3)) => Ok((ValueV::Array(items), p3)),
                    }
                },
            }
        } else if tag == 6 {
            match dec_str(b, p1) {
                Err(e) => Err(e),
                Ok((s, p2)) => Ok((ValueV::Function(s), p2)),
            }
        } else if tag == 7 {
            match dec_str(b, p1) {
                Err(e) => Err(e),
                Ok((s, p2)) => Ok((ValueV::Capability(s), p2)),
            }
        } else {
            Err(DecErr::Tag(TagField::Value, tag))
        },
    }
}

pub open spec fn dec_values(b: Seq<u8>, p: int, n: nat) -> DecRes<Seq<ValueV>>
    decreases b.len() - p, 1int,
{
    if n == 0 {
        Ok((Seq::empty(), p))
    } else if p > b.len() {
        Err(DecErr::End)
    } else {
        match dec_value(b, p) {
            Err(e) => Err(e),
            Ok((v, q)) => if q <= p || q > b.len() {
                Err(DecErr::End)
            } else {
                match dec_values(b, q, (n - 1) as nat) {
                    Err(e) => Err(e),
                    Ok((vs, r)) => Ok((seq![v] + vs, r)),
                }
            },
        }
    }
}

pub open spec fn vt_of_tag(t: u8) -> Option<ValueType> {
    if t == 0 {
        Some(ValueType::Nil)
    } else if t == 1 {
        Some(ValueType::Bool)
    } else if t == 2 {
        Some(ValueType::I64)
    } else if t == 3 {
        Some(ValueType::F64)
    } else if t == 4 {
        Some(ValueType::String)
    } else if t == 5 {
        Some(ValueType::Array)
    } else if t == 6 {
        Some(ValueType::Function)
    } else if t == 7 {
        Some(ValueType::Capability)
    } else if t == 8 {
        Some(ValueType::Any)
    } else if t == 9 {
        Some(ValueType::AnyVariadic)
    } else {
        None
    }
}

pub open spec fn num_parser() -> spec_fn(Seq<u8>, int) -> DecRes<usize> {
    |b: Seq<u8>, q: int| dec_num(b, q)
}

pub open spec fn vt_parser() -> spec_fn(Seq<u8>, int) -> DecRes<ValueType> {
    |b: Seq<u8>, q: int| dec_vt(b, q)
}

pub open spec fn dec_vt(b: Seq<u8>, p: int) -> DecRes<ValueType> {
    match dec_u8(b, p) {
        Err(e) => Err(e),
        Ok((t, q)) => match vt_of_tag(t) {
            Some(vt) => Ok((vt, q)),
            None => Err(DecErr::Tag(TagField::ValueType, t)),
        },
    }
}

pub open spec fn dec_opt_str(b: Seq<u8>, p: int) -> DecRes<Option<Seq<char>>> {
    match dec_u8(b, p) {
        Err(e) => Err(e),
        Ok((t, q)) => if t == 0 {
            Ok((None, q))
        } else if t == 1 {
            match dec_str(b, q) {
                Err(e) => Err(e),
                Ok((s, r)) => Ok((Some(s), r)),
            }
        } else {
            Err(DecErr::Tag(TagField::Option, t))
        },
    }
}

pub open spec fn dec_cap(b: Seq<u8>, p: int) -> DecRes<CapabilityDeclV> {
    match dec_str(b, p) {
        Err(e) => Err(e),
        Ok((id, p1)) => match dec_counted(b, p1, vt_parser()) {
            Err(e) => Err(e),
            Ok((params, p2)) => match dec_vt(b, p2) {
                Err(e) => Err(e),
                Ok((ret, p3)) => match dec_opt_str(b, p3) {
                    Err(e) => Err(e),
                    Ok((reason, p4)) => Ok((CapabilityDeclV { id, params, return_type: ret, reason }, p4)),
                },
            },
        },
    }
}

pub open spec fn dec_usizes(b: Seq<u8>, p: int) -> DecRes<Seq<usize>> {
    dec_counted(b, p, num_parser())
}

pub open spec fn dec_three(b: Seq<u8>, p: int) -> DecRes<(usize, usize, usize)> {
    match dec_num(b, p) {
        Err(e) => Err(e),
        Ok((x, p1)) => match dec_num(b, p1) {
            Err(e) => Err(e),
            Ok((y, p2)) => match dec_num(b, p2) {
                Err(e) => Err(e),
                Ok((z, p3)) => Ok(((x, y, z), p3)),
            },
        },
    }
}

pub open spec fn dec_two(b: Seq<u8>, p: int) -> DecRes<(usize, usize)> {
    match dec_num(b, p) {
        Err(e) => Err(e),
        Ok((x, p1)) => match dec_num(b, p1) {
            Err(e) => Err(e),
            Ok((y, p2)) => Ok(((x, y), p2)),
        },
    }
}

pub open spec fn dec_named(b: Seq<u8>, p: int) -> DecRes<(usize, Seq<char>, Seq<usize>)> {
    match dec_num(b, p) {
        Err(e) => Err(e),
        Ok((x, p1)) => match dec_str(b, p1) {
            Err(e) => Err(e),
            Ok((s, p2)) => match dec_usizes(b, p2) {
                Err(e) => Err(e),
                Ok((v, p3)) => Ok(((x, s, v), p3)),
            },
        },
    }
}

pub open spec fn make_three(tag: u8, x: (usize, usize, usize)) -> InstructionV {
    if tag == 2 {
        InstructionV::Add { dst: x.0, lhs: x.1, rhs: x.2 }
    } else if tag == 3 {
        InstructionV::Sub { dst: x.0, lhs: x.1, rhs: x.2 }
    } else if tag == 4 {
        InstructionV::Mul { dst: x.0, lhs: x.1, rhs: x.2 }
    } else if tag == 5 {
        InstructionV::Div { dst: x.0, lhs: x.1, rhs: x.2 }
    } else if tag == 6 {
        InstructionV::Eq { dst: x.0, lhs: x.1, rhs: x.2 }
    } else if tag == 7 {
        InstructionV::Lt { dst: x.0, lhs: x.1, rhs: x.2 }
    } else if tag == 14 {
        InstructionV::ArrayGet { dst: x.0, array: x.1, index: x.2 }
    } else {
        InstructionV::ArraySet { array: x.0, index: x.1, value: x.2 }
    }
}

pub open spec fn dec_instr(b: Seq<u8>, p: int) -> DecRes<InstructionV> {
    match dec_u8(b, p) {
        Err(e) => Err(e),
        Ok((tag, p1)) => if tag == 0 || tag == 1 || tag == 9 {
            match dec_two(b, p1) {
                Err(e) => Err(e),
                Ok((x, p2)) => Ok((
                    if tag == 0 {
                        InstructionV::Const { dst: x.0, constant: x.1 }
                    } else if tag == 1 {
                        InstructionV::Move { dst: x.0, src: x.1 }
                    } else {
                        InstructionV::JumpIf { cond: x.0, target: x.1 }
                    },
                    p2,
                )),
            }
        } else if (2 <= tag <= 7) || tag == 14 || tag == 15 {
            match dec_three(b, p1) {
                Err(e) => Err(e),
                Ok((x, p2)) => Ok((make_three(tag, x), p2)),
            }
        } else if tag == 8 || tag == 11 {
            match dec_num(b, p1) {
                Err(e) => Err(e),
                Ok((x, p2)) => Ok((
                    if tag == 8 {
                        InstructionV::Jump { target: x }
                    } else {
                        InstructionV::Ret { src: x }
                    },
                    p2,
                )),
            }
        } else if tag == 10 || tag == 12 {
            match dec_named(b, p1) {
                Err(e) => Err(e),
                Ok((x, p2)) => Ok((
                    if tag == 10 {
                        InstructionV::Call { dst: x.0, function: x.1, args: x.2 }
                    } else {
                        InstructionV::CapCall { dst: x.0, capability: x.1, args: x.2 }
                    },
                    p2,
                )),
            }
        } else if tag == 13 {
            match dec_num(b, p1) {
                Err(e) => Err(e),
                Ok((x, p2)) => match dec_usizes(b, p2) {
                    Err(e) => Err(e),
                    Ok((items, p3)) => Ok((InstructionV::ArrayNew { dst: x, items }, p3)),
                },
            }
        } else {
            Err(DecErr::Tag(TagField::Instruction, tag))
        },
    }
}

pub open spec fn instr_parser() -> spec_fn(Seq<u8>, int) -> DecRes<InstructionV> {
    |b: Seq<u8>, q: int| dec_instr(b, q)
}

pub open spec fn line_parser() -> spec_fn(Seq<u8>, int) -> DecRes<Option<usize>> {
    |b: Seq<u8>, q: int| dec_line(b, q)
}

pub open spec fn dec_line(b: Seq<u8>, p: int) -> DecRes<Option<usize>> {
    match dec_u8(b, p) {
        Err(e) => Err(e),
        Ok((t, q)) => if t == 0 {
            Ok((None, q))
        } else if t == 1 {
            match dec_num(b, q) {
                Err(e) => Err(e),
                Ok((n, r)) => Ok((Some(n), r)),
            }
        } else {
            Err(DecErr::Tag(TagField::SourceLine, t))
        },
    }
}

pub open spec fn dec_fn(b: Seq<u8>, p: int) -> DecRes<FunctionV> {
    match dec_str(b, p) {
        Err(e) => Err(e),
        Ok((name, p1)) => match dec_two(b, p1) {
            Err(e) => Err(e),
            Ok((ra, p2)) => match dec_counted(b, p2, instr_parser()) {
                Err(e) => Err(e),
                Ok((code, p3)) => match dec_counted(b, p3, line_parser()) {
                    Err(e) => Err(e),
                    Ok((lines, p4)) => Ok((
                        FunctionV { name, registers: ra.0, arity: ra.1, code, source_lines: lines },
                        p4,
                    )),
                },
            },
        },
    }
}

pub open spec fn cap_parser() -> spec_fn(Seq<u8>, int) -> DecRes<CapabilityDeclV> {
    |b: Seq<u8>, q: int| dec_cap(b, q)
}

pub open spec fn fn_parser() -> spec_fn(Seq<u8>, int) -> DecRes<FunctionV> {
    |b: Seq<u8>, q: int| dec_fn(b, q)
}

pub open spec fn export_parser() -> spec_fn(Seq<u8>, int) -> DecRes<(Seq<char>, usize)> {
    |b: Seq<u8>, q: int| dec_export(b, q)
}

pub open spec fn dec_export(b: Seq<u8>, p: int) -> DecRes<(Seq<char>, usize)> {
    match dec_str(b, p) {
        Err(e) => Err(e),
        Ok((k, p1)) => match dec_num(b, p1) {
            Err(e) => Err(e),
            Ok((v, p2)) => Ok(((k, v), p2)),
        },
    }
}

/// Lexicographic order of character sequences by code point.
pub open spec fn seq_lt(a: Seq<char>, b: Seq<char>) -> bool
    decreases a.len(),
{
    if a.len() == 0 {
        b.len() > 0
    } else if b.len() == 0 {
        false
    } else if a[0] != b[0] {
        (a[0] as u32) < (b[0] as u32)
    } else {
        seq_lt(a.drop_first(), b.drop_first())
    }
}

/// Inserts an export into a list kept in increasing name order; an entry with the same
/// name is replaced.
pub open spec fn export_insert(es: Seq<(Seq<char>, usize)>, k: Seq<char>, v: usize) -> Seq<(Seq<char>, usize)>
    decreases es.len(),
{
    if es.len() == 0 {
        seq![(k, v)]
    } else if seq_lt(es.last().0, k) {
        es.push((k, v))
    } else if es.last().0 == k {
        es.drop_last().push((k, v))
    } else {
        export_insert(es.drop_last(), k, v).push(es.last())
    }
}

/// The export table that a sequence of decoded entries yields.
pub open spec fn exports_from(raw: Seq<(Seq<char>, usize)>) -> Seq<(Seq<char>, usize)>
    decreases raw.len(),
{
    if raw.len() == 0 {
        Seq::empty()
    } else {
        export_insert(exports_from(raw.drop_last()), raw.last().0, raw.last().1)
    }
}

/// The capabilities, functions and exports of a module after its constants, and the check
/// that nothing follows them.
pub open spec fn dec_module_rest(b: Seq<u8>, p3: int, name: Seq<char>, constants: Seq<ValueV>) -> Result<ModuleV, DecErr> {
    match dec_counted(b, p3, cap_parser()) {
        Err(e) => Err(e),
        Ok((caps, p4)) => match dec_counted(b, p4, fn_parser()) {
            Err(e) => Err(e),
            Ok((fs, p5)) => match dec_counted(b, p5, export_parser()) {
                Err(e) => Err(e),
                Ok((raw, p6)) => if p6 != b.len() {
                    Err(DecErr::Trailing)
                } else {
                    Ok(ModuleV { name, constants, capabilities: caps, functions: fs, exports: exports_from(raw) })
                },
            },
        },
    }
}

/// The module that a byte string decodes to, or why it does not decode.
pub open spec fn dec_module(b: Seq<u8>) -> Result<ModuleV, DecErr> {
    match take(b, 0, 8) {
        Err(e) => Err(e),
        Ok(p0) => if b.subrange(0, 8) != module_magic() {
            Err(DecErr::Magic)
        } else {
            match dec_str(b, p0) {
                Err(e) => Err(e),
                Ok((name, p1)) => match dec_num(b, p1) {
                    Err(e) => Err(e),
                    Ok((nc, p2)) => if nc > MAX_LIST_LEN {
                        Err(DecErr::ListTooLong)
                    } else {
                        match dec_values(b, p2, nc as nat) {
                            Err(e) => Err(e),
                            Ok((constants, p3)) => dec_module_rest(b, p3, name, constants),
                        }
                    },
                },
            }
        },
    }
}

} // verus!

verus! {

/// Decodes the bytes as UTF-8 text (`String::from_utf8`), reporting the standard library's
/// error text on failure.
///
/// Trusted: the contract claims that decoding succeeds exactly on valid UTF-8 and then yields
/// the characters that the bytes encode, and that the error text depends on the bytes alone.
#[verifier::external_body]
fn string_from_utf8(bytes: Vec<u8>) -> (r: Result<String, String>)
    ensures
        match r {
            Ok(s) => valid_utf8(bytes@) && s@ == decode_utf8(bytes@),
            Err(m) => !valid_utf8(bytes@) && m@ == utf8_error_text(bytes@),
        },
{
    String::from_utf8(bytes).map_err(|err| err.to_string())
}


/// Reads the binary encoding of a module, front to back.
pub struct BinaryModuleReader<'a> {
    pub bytes: &'a [u8],
    pub offset: usize,
}

impl<'a> BinaryModuleReader<'a> {
    pub fn new(bytes: &'a [u8]) -> (r: Self)
        ensures
            r.bytes@ == bytes@,
            r.offset == 0,
    {
        BinaryModuleReader { bytes, offset: 0 }
    }

    fn fail(&self, e: Ghost<DecErr>, msg: String) -> (r: ChronicleError)
        requires
            msg@ == match dec_error(e@) {
                ChronicleErrorV::Decode(m) => m,
                _ => Seq::empty(),
            },
            dec_error(e@) is Decode,
        ensures
            r@ == dec_error(e@),
    {
        ChronicleError::Decode(msg)
    }

    /// Consumes `len` bytes and returns the offset where they start.
    pub fn take(&mut self, len: usize) -> (r: Result<usize, ChronicleError>)
        ensures
            final(self).bytes == old(self).bytes,
            match take(old(self).bytes@, old(self).offset as int, len as int) {
                Ok(q) => r == Ok::<usize, ChronicleError>(old(self).offset) && final(self).offset == q,
                Err(e) => r matches Err(x) && x@ == dec_error(e),
            },
    {
        let end = match self.offset.checked_add(len) {
            Some(end) => end,
            None => {
                return Err(ChronicleError::Decode(string_of("binary module offset overflow")));
            },
        };
        if end > self.bytes.len() {
            return Err(ChronicleError::Decode(string_of("unexpected end of binary module")));
        }
        let start = self.offset;
        self.offset = end;
        Ok(start)
    }

    pub fn read_u8(&mut self) -> (r: Result<u8, ChronicleError>)
        ensures
            final(self).bytes == old(self).bytes,
            match dec_u8(old(self).bytes@, old(self).offset as int) {
                Ok((v, q)) => r == Ok::<u8, ChronicleError>(v) && final(self).offset == q,
                Err(e) => r matches Err(x) && x@ == dec_error(e),
            },
    {
        let s = self.take(1)?;
        Ok(self.bytes[s])
    }

    pub fn read_usize(&mut self) -> (r: Result<usize, ChronicleError>)
        ensures
            final(self).bytes == old(self).bytes,
            match dec_num(old(self).bytes@, old(self).offset as int) {
                Ok((v, q)) => r == Ok::<usize, ChronicleError>(v) && final(self).offset == q,
                Err(e) => r matches Err(x) && x@ == dec_error(e),
            },
    {
        let s = self.take(4)?;
        let v: u32 = (self.bytes[s] as u32) | ((self.bytes[s + 1] as u32) << 8u32) | ((self.bytes[s + 2] as u32)
            << 16u32) | ((self.bytes[s + 3] as u32) << 24u32);
        Ok(v as usize)
    }

    fn read_u64(&mut self) -> (r: Result<u64, ChronicleError>)
        ensures
            final(self).bytes == old(self).bytes,
            match dec_u64(old(self).bytes@, old(self).offset as int) {
                Ok((v, q)) => r == Ok::<u64, ChronicleError>(v) && final(self).offset == q,
                Err(e) => r matches Err(x) && x@ == dec_error(e),
            },
    {
        let s = self.take(8)?;
        let b = self.bytes;
        let v: u64 = (b[s] as u64) | ((b[s + 1] as u64) << 8u64) | ((b[s + 2] as u64) << 16u64) | ((b[s + 3] as u64)
            << 24u64) | ((b[s + 4] as u64) << 32u64) | ((b[s + 5] as u64) << 40u64) | ((b[s + 6] as u64) << 48u64)
            | ((b[s + 7] as u64) << 56u64);
        Ok(v)
    }

    pub fn read_string(&mut self) -> (r: Result<String, ChronicleError>)
        ensures
            final(self).bytes == old(self).bytes,
            match dec_str(old(self).bytes@, old(self).offset as int) {
                Ok((v, q)) => r matches Ok(s) && s@ == v && final(self).offset == q,
                Err(e) => r matches Err(x) && x@ == dec_error(e),
            },
    {
        let n = self.read_usize()?;
        if n > MAX_STRING_BYTES {
            return Err(ChronicleError::Decode(string_of("binary module string too long")));
        }
        let s = self.take(n)?;
        let mut bytes: Vec<u8> = Vec::new();
        let mut i: usize = 0;
        while i < n
            invariant
                i <= n,
                s + n <= self.bytes.len(),
                bytes@ == self.bytes@.subrange(s as int, s + i),
            decreases n - i,
        {
            bytes.push(self.bytes[s + i]);
            i = i + 1;
            assert(bytes@ =~= self.bytes@.subrange(s as int, s + i));
        }
        match string_from_utf8(bytes) {
            Ok(text) => Ok(text),
            Err(m) => Err(ChronicleError::Decode(m)),
        }
    }

    pub fn read_value_type(&mut self) -> (r: Result<ValueType, ChronicleError>)
        ensures
            final(self).bytes == old(self).bytes,
            match dec_vt(old(self).bytes@, old(self).offset as int) {
                Ok((v, q)) => r == Ok::<ValueType, ChronicleError>(v) && final(self).offset == q,
                Err(e) => r matches Err(x) && x@ == dec_error(e),
            },
    {
        let t = self.read_u8()?;
        match t {
            0 => Ok(ValueType::Nil),
            1 => Ok(ValueType::Bool),
            2 => Ok(ValueType::I64),
            3 => Ok(ValueType::F64),
            4 => Ok(ValueType::String),
            5 => Ok(ValueType::Array),
            6 => Ok(ValueType::Function),
            7 => Ok(ValueType::Capability),
            8 => Ok(ValueType::Any),
            9 => Ok(ValueType::AnyVariadic),
            _ => Err(ChronicleError::Decode(crate::text::with_decimal("unknown value type tag ", t as usize))),
        }
    }

    pub fn read_optional_string(&mut self) -> (r: Result<Option<String>, ChronicleError>)
        ensures
            final(self).bytes == old(self).bytes,
            match dec_opt_str(old(self).bytes@, old(self).offset as int) {
                Ok((v, q)) => r matches Ok(s) && crate::bytecode::opt_string_view(s) == v && final(self).offset == q,
                Err(e) => r matches Err(x) && x@ == dec_error(e),
            },
    {
        let t = self.read_u8()?;
        match t {
            0 => Ok(None),
            1 => {
                let s = self.read_string()?;
                Ok(Some(s))
            },
            _ => Err(ChronicleError::Decode(crate::text::with_decimal("invalid option tag ", t as usize))),
        }
    }
}

} // verus!

verus! {

impl<'a> BinaryModuleReader<'a> {
    /// Reads one value; arrays nest.
    pub fn read_value(&mut self) -> (r: Result<Value, ChronicleError>)
        ensures
            final(self).bytes == old(self).bytes,
            match dec_value(old(self).bytes@, old(self).offset as int) {
                Ok((v, q)) => r matches Ok(x) && x@ == v && final(self).offset == q,
                Err(e) => r matches Err(x) && x@ == dec_error(e),
            },
        decreases old(self).bytes@.len() - old(self).offset, 0int,
    {
        let tag = self.read_u8()?;
        match tag {
            0 => Ok(Value::Nil),
            1 => {
                let t = self.read_u8()?;
                match t {
                    0 => Ok(Value::Bool(false)),
                    1 => Ok(Value::Bool(true)),
                    _ => Err(ChronicleError::Decode(crate::text::with_decimal("invalid bool tag ", t as usize))),
                }
            },
            2 => {
                let v = self.read_u64()?;
                Ok(Value::I64(v as i64))
            },
            3 => {
                let v = self.read_u64()?;
                Ok(Value::F64(v))
            },
            4 => {
                let s = self.read_string()?;
                Ok(Value::String(s))
            },
            5 => {
                let n = self.read_usize()?;
                if n > MAX_LIST_LEN {
                    return Err(ChronicleError::Decode(string_of("binary module list too long")));
                }
                let items = self.read_values(n)?;
                Ok(Value::Array(items))
            },
            6 => {
                let s = self.read_string()?;
                Ok(Value::Function(s))
            },
            7 => {
                let s = self.read_string()?;
                Ok(Value::Capability(s))
            },
            _ => Err(ChronicleError::Decode(crate::text::with_decimal("unknown value tag ", tag as usize))),
        }
    }

    /// Reads `n` values one after the other.
    pub fn read_values(&mut self, n: usize) -> (r: Result<Vec<Value>, ChronicleError>)
        requires
            old(self).offset <= old(self).bytes@.len(),
        ensures
            final(self).bytes == old(self).bytes,
            match dec_values(old(self).bytes@, old(self).offset as int, n as nat) {
                Ok((v, q)) => r matches Ok(x) && values_view(x@) == v && final(self).offset == q,
                Err(e) => r matches Err(x) && x@ == dec_error(e),
            },
        decreases old(self).bytes@.len() - old(self).offset, 1int,
    {
        let ghost b = self.bytes@;
        let ghost p0 = self.offset as int;
        let mut values: Vec<Value> = Vec::new();
        let mut i: usize = 0;
        while i < n
            invariant
                self.bytes@ == b,
                self.bytes == old(self).bytes,
                b == old(self).bytes@,
                p0 == old(self).offset,
                i <= n,
                p0 <= self.offset <= b.len(),
                i > 0 ==> p0 < self.offset,
                dec_values(b, p0, n as nat) == match dec_values(b, self.offset as int, (n - i) as nat) {
                    Ok((vs, q)) => Ok((values_view(values@) + vs, q)),
                    Err(e) => Err(e),
                },
            decreases n - i,
        {
            let ghost cur = self.offset as int;
            proof {
                lemma_values_view(values@);
            }
            let v = self.read_value();
            match v {
                Err(e) => {
                    return Err(e);
                },
                Ok(v) => {
                    proof {
                        lemma_dec_value_advances(b, cur);
                    }
                    let ghost q = self.offset as int;
                    let ghost before = values@;
                    values.push(v);
                    proof {
                        lemma_values_view(values@);
                        lemma_values_view(before);
                        assert(values@.drop_last() =~= before);
                        assert(values_view(values@) == values_view(before).push(values@.last()@));
                        match dec_values(b, q, (n - i - 1) as nat) {
                            Ok((vs, r)) => {
                                assert(values_view(before) + (seq![values@.last()@] + vs) =~= values_view(values@) + vs);
                            },
                            Err(_) => {},
                        }
                    }
                    i = i + 1;
                },
            }
        }
        proof {
            lemma_values_view(values@);
        }
        assert(values_view(values@) + Seq::<ValueV>::empty() =~= values_view(values@));
        Ok(values)
    }
}

} // verus!

verus! {

/// A successful decoding of a value consumes at least one byte and stays within the input.
pub proof fn lemma_dec_value_advances(b: Seq<u8>, p: int)
    requires
        0 <= p,
        dec_value(b, p) is Ok,
    ensures
        p < dec_value(b, p)->Ok_0.1 <= b.len(),
    decreases b.len() - p, 0int,
{
    let (tag, p1) = dec_u8(b, p)->Ok_0;
    if tag == 5 {
        let (n, p2) = dec_num(b, p1)->Ok_0;
        lemma_dec_values_advances(b, p2, n as nat);
    }
}

/// A successful decoding of values never moves backwards and stays within the input.
pub proof fn lemma_dec_values_advances(b: Seq<u8>, p: int, n: nat)
    requires
        0 <= p <= b.len(),
        dec_values(b, p, n) is Ok,
    ensures
        p <= dec_values(b, p, n)->Ok_0.1 <= b.len(),
    decreases b.len() - p, 1int,
{
    if n > 0 {
        lemma_dec_value_advances(b, p);
        let q = dec_value(b, p)->Ok_0.1;
        lemma_dec_values_advances(b, q, (n - 1) as nat);
    }
}

} // verus!

verus! {

pub open spec fn list_cont<T>(acc: Seq<T>, rest: DecRes<Seq<T>>) -> DecRes<Seq<T>> {
    match rest {
        Ok((xs, q)) => Ok((acc + xs, q)),
        Err(e) => Err(e),
    }
}

pub proof fn lemma_list_cont_step<T>(b: Seq<u8>, p: int, n: nat, f: spec_fn(Seq<u8>, int) -> DecRes<T>, acc: Seq<T>, x: T, q: int)
    requires
        n > 0,
        f(b, p) == Ok::<(T, int), DecErr>((x, q)),
    ensures
        list_cont(acc, dec_list(b, p, n, f)) == list_cont(acc.push(x), dec_list(b, q, (n - 1) as nat, f)),
{
    match dec_list(b, q, (n - 1) as nat, f) {
        Ok((xs, r)) => {
            assert(acc + (seq![x] + xs) =~= acc.push(x) + xs);
        },
        Err(_) => {},
    }
}

impl<'a> BinaryModuleReader<'a> {
    /// Reads a count, then that many indices.
    pub fn read_usize_vec(&mut self) -> (r: Result<Vec<usize>, ChronicleError>)
        ensures
            final(self).bytes == old(self).bytes,
            match dec_usizes(old(self).bytes@, old(self).offset as int) {
                Ok((v, q)) => r matches Ok(x) && x@ == v && final(self).offset == q,
                Err(e) => r matches Err(x) && x@ == dec_error(e),
            },
    {
        let ghost b = self.bytes@;
        let ghost f = num_parser();
        let n = self.read_usize()?;
        if n > MAX_LIST_LEN {
            return Err(ChronicleError::Decode(string_of("binary module list too long")));
        }
        let mut out: Vec<usize> = Vec::new();
        let mut i: usize = 0;
        assert(out@ + Seq::<usize>::empty() =~= out@);
        while i < n
            invariant
                self.bytes@ == b,
                self.bytes == old(self).bytes,
                b == old(self).bytes@,
                i <= n,
                f == num_parser(),
                dec_usizes(b, old(self).offset as int) == list_cont(out@, dec_list(b, self.offset as int, (n - i) as nat, f)),
            decreases n - i,
        {
            let ghost cur = self.offset as int;
            let v = self.read_usize()?;
            proof {
                lemma_list_cont_step(b, cur, (n - i) as nat, f, out@, v, self.offset as int);
            }
            out.push(v);
            i = i + 1;
        }
        assert(out@ + Seq::<usize>::empty() =~= out@);
        Ok(out)
    }

    /// Reads one capability declaration.
    pub fn read_capability(&mut self) -> (r: Result<CapabilityDecl, ChronicleError>)
        ensures
            final(self).bytes == old(self).bytes,
            match dec_cap(old(self).bytes@, old(self).offset as int) {
                Ok((v, q)) => r matches Ok(x) && x@ == v && final(self).offset == q,
                Err(e) => r matches Err(x) && x@ == dec_error(e),
            },
    {
        let ghost b = self.bytes@;
        let ghost f = vt_parser();
        let id = self.read_string()?;
        let ghost p1 = self.offset as int;
        let n = self.read_usize()?;
        if n > MAX_LIST_LEN {
            return Err(ChronicleError::Decode(string_of("binary module list too long")));
        }
        let mut params: Vec<ValueType> = Vec::new();
        let mut i: usize = 0;
        assert(params@ + Seq::<ValueType>::empty() =~= params@);
        while i < n
            invariant
                self.bytes@ == b,
                self.bytes == old(self).bytes,
                b == old(self).bytes@,
                i <= n,
                f == vt_parser(),
                dec_str(b, old(self).offset as int) == Ok::<(Seq<char>, int), DecErr>((id@, p1)),
                dec_counted(b, p1, f) == list_cont(params@, dec_list(b, self.offset as int, (n - i) as nat, f)),
            decreases n - i,
        {
            let ghost cur = self.offset as int;
            let v = self.read_value_type()?;
            proof {
                lemma_list_cont_step(b, cur, (n - i) as nat, f, params@, v, self.offset as int);
            }
            params.push(v);
            i = i + 1;
        }
        assert(params@ + Seq::<ValueType>::empty() =~= params@);
        let return_type = self.read_value_type()?;
        let reason = self.read_optional_string()?;
        Ok(CapabilityDecl { id, params, return_type, reason })
    }

    /// Reads a source line entry: absent, or present with a line number.
    pub fn read_source_line(&mut self) -> (r: Result<Option<usize>, ChronicleError>)
        ensures
            final(self).bytes == old(self).bytes,
            match dec_line(old(self).bytes@, old(self).offset as int) {
                Ok((v, q)) => r == Ok::<Option<usize>, ChronicleError>(v) && final(self).offset == q,
                Err(e) => r matches Err(x) && x@ == dec_error(e),
            },
    {
        let t = self.read_u8()?;
        match t {
            0 => Ok(None),
            1 => {
                let n = self.read_usize()?;
                Ok(Some(n))
            },
            _ => Err(ChronicleError::Decode(crate::text::with_decimal("invalid source line tag ", t as usize))),
        }
    }

    /// Reads one instruction: its tag, then its operands.
    pub fn read_instruction(&mut self) -> (r: Result<Instruction, ChronicleError>)
        ensures
            final(self).bytes == old(self).bytes,
            match dec_instr(old(self).bytes@, old(self).offset as int) {
                Ok((v, q)) => r matches Ok(x) && x@ == v && final(self).offset == q,
                Err(e) => r matches Err(x) && x@ == dec_error(e),
            },
    {
        let tag = self.read_u8()?;
        if tag == 0 || tag == 1 || tag == 9 {
            let a = self.read_usize()?;
            let c = self.read_usize()?;
            if tag == 0 {
                Ok(Instruction::Const { dst: a, constant: c })
            } else if tag == 1 {
                Ok(Instruction::Move { dst: a, src: c })
            } else {
                Ok(Instruction::JumpIf { cond: a, target: c })
            }
        } else if (2 <= tag && tag <= 7) || tag == 14 || tag == 15 {
            let x = self.read_usize()?;
            let y = self.read_usize()?;
            let z = self.read_usize()?;
            if tag == 2 {
                Ok(Instruction::Add { dst: x, lhs: y, rhs: z })
            } else if tag == 3 {
                Ok(Instruction::Sub { dst: x, lhs: y, rhs: z })
            } else if tag == 4 {
                Ok(Instruction::Mul { dst: x, lhs: y, rhs: z })
            } else if tag == 5 {
                Ok(Instruction::Div { dst: x, lhs: y, rhs: z })
            } else if tag == 6 {
                Ok(Instruction::Eq { dst: x, lhs: y, rhs: z })
            } else if tag == 7 {
                Ok(Instruction::Lt { dst: x, lhs: y, rhs: z })
            } else if tag == 14 {
                Ok(Instruction::ArrayGet { dst: x, array: y, index: z })
            } else {
                Ok(Instruction::ArraySet { array: x, index: y, value: z })
            }
        } else if tag == 8 || tag == 11 {
            let x = self.read_usize()?;
            if tag == 8 {
                Ok(Instruction::Jump { target: x })
            } else {
                Ok(Instruction::Ret { src: x })
            }
        } else if tag == 10 || tag == 12 {
            let x = self.read_usize()?;
            let name = self.read_string()?;
            let args = self.read_usize_vec()?;
            if tag == 10 {
                Ok(Instruction::Call { dst: x, function: name, args })
            } else {
                Ok(Instruction::CapCall { dst: x, capability: name, args })
            }
        } else if tag == 13 {
            let x = self.read_usize()?;
            let items = self.read_usize_vec()?;
            Ok(Instruction::ArrayNew { dst: x, items })
        } else {
            Err(ChronicleError::Decode(crate::text::with_decimal("unknown instruction tag ", tag as usize)))
        }
    }
}

} // verus!

verus! {

proof fn lemma_seq_lt_skip(a: Seq<char>, b: Seq<char>, i: int)
    requires
        0 <= i <= a.len(),
        i <= b.len(),
        a.subrange(0, i) == b.subrange(0, i),
    ensures
        seq_lt(a, b) == seq_lt(a.subrange(i, a.len() as int), b.subrange(i, b.len() as int)),
    decreases i,
{
    if i == 0 {
        assert(a.subrange(0, a.len() as int) =~= a);
        assert(b.subrange(0, b.len() as int) =~= b);
    } else {
        assert(a[0] == a.subrange(0, i)[0]);
        assert(b[0] == b.subrange(0, i)[0]);
        assert(a.drop_first().subrange(0, i - 1) =~= a.subrange(1, i));
        assert(b.drop_first().subrange(0, i - 1) =~= b.subrange(1, i));
        assert(a.subrange(1, i) =~= a.subrange(0, i).subrange(1, i));
        assert(b.subrange(1, i) =~= b.subrange(0, i).subrange(1, i));
        lemma_seq_lt_skip(a.drop_first(), b.drop_first(), i - 1);
        assert(a.drop_first().subrange(i - 1, a.len() - 1) =~= a.subrange(i, a.len() as int));
        assert(b.drop_first().subrange(i - 1, b.len() - 1) =~= b.subrange(i, b.len() as int));
    }
}

/// Whether `a` comes before `b` in code point order.
pub fn str_lt(a: &str, b: &str) -> (r: bool)
    ensures
        r == seq_lt(a@, b@),
{
    let n = a.unicode_len();
    let m = b.unicode_len();
    let mut i: usize = 0;
    while i < n && i < m
        invariant
            n == a@.len(),
            m == b@.len(),
            i <= n,
            i <= m,
            a@.subrange(0, i as int) == b@.subrange(0, i as int),
        decreases n - i,
    {
        let x = a.get_char(i);
        let y = b.get_char(i);
        if x != y {
            proof {
                lemma_seq_lt_skip(a@, b@, i as int);
                assert(a@.subrange(i as int, n as int)[0] == x);
                assert(b@.subrange(i as int, m as int)[0] == y);
            }
            return (x as u32) < (y as u32);
        }
        assert(a@.subrange(0, i + 1) =~= a@.subrange(0, i as int).push(x));
        assert(b@.subrange(0, i + 1) =~= b@.subrange(0, i as int).push(y));
        i = i + 1;
    }
    proof {
        lemma_seq_lt_skip(a@, b@, i as int);
    }
    i == n && i < m
}

pub proof fn lemma_export_insert_suffix(es: Seq<(Seq<char>, usize)>, j: int, k: Seq<char>, v: usize)
    requires
        0 <= j <= es.len(),
        forall|i: int| j <= i < es.len() ==> !seq_lt(#[trigger] es[i].0, k) && es[i].0 != k,
    ensures
        export_insert(es, k, v) == export_insert(es.subrange(0, j), k, v) + es.subrange(j, es.len() as int),
    decreases es.len() - j,
{
    if j == es.len() {
        assert(es.subrange(0, j) =~= es);
        assert(export_insert(es, k, v) + Seq::<(Seq<char>, usize)>::empty() =~= export_insert(es, k, v));
    } else {
        assert(es.drop_last().len() == es.len() - 1);
        lemma_export_insert_suffix(es.drop_last(), j, k, v);
        assert(es.drop_last().subrange(0, j) =~= es.subrange(0, j));
        assert(es.drop_last().subrange(j, es.len() - 1).push(es.last()) =~= es.subrange(j, es.len() as int));
        assert(!seq_lt(es[es.len() - 1].0, k) && es[es.len() - 1].0 != k);
    }
}

/// Inserts an export into a list kept in name order, replacing an entry of the same name.
pub fn insert_export(es: &mut Vec<(String, usize)>, k: String, v: usize)
    ensures
        crate::bytecode::exports_view(final(es)@) == export_insert(crate::bytecode::exports_view(old(es)@), k@, v),
{
    let ghost ev = crate::bytecode::exports_view(es@);
    let mut j = es.len();
    while j > 0 && !str_lt(es[j - 1].0.as_str(), k.as_str()) && es[j - 1].0 != k
        invariant
            ev == crate::bytecode::exports_view(es@),
            es@ == old(es)@,
            j <= es.len(),
            forall|i: int| j <= i < ev.len() ==> !seq_lt(#[trigger] ev[i].0, k@) && ev[i].0 != k@,
        decreases j,
    {
        assert(ev[j - 1] == (es@[j - 1].0@, es@[j - 1].1));
        j = j - 1;
    }
    proof {
        lemma_export_insert_suffix(ev, j as int, k@, v);
    }
    if j == 0 {
        es.insert(0, (k, v));
        assert(crate::bytecode::exports_view(es@) =~= seq![(k@, v)] + ev.subrange(0, ev.len() as int));
    } else if str_lt(es[j - 1].0.as_str(), k.as_str()) {
        assert(ev.subrange(0, j as int).last() == ev[j - 1]);
        es.insert(j, (k, v));
        assert(crate::bytecode::exports_view(es@) =~= ev.subrange(0, j as int).push((k@, v)) + ev.subrange(
            j as int,
            ev.len() as int,
        ));
    } else {
        assert(ev.subrange(0, j as int).last() == ev[j - 1]);
        assert(ev[j - 1].0 == k@);
        es.set(j - 1, (k, v));
        assert(crate::bytecode::exports_view(es@) =~= ev.subrange(0, j - 1).push((k@, v)) + ev.subrange(
            j as int,
            ev.len() as int,
        ));
        assert(ev.subrange(0, j as int).drop_last() =~= ev.subrange(0, j - 1));
    }
}

} // verus!

verus! {

impl<'a> BinaryModuleReader<'a> {
    /// Reads one function: name, register count, arity, code and source line map.
    pub fn read_function(&mut self) -> (r: Result<Function, ChronicleError>)
        ensures
            final(self).bytes == old(self).bytes,
            match dec_fn(old(self).bytes@, old(self).offset as int) {
                Ok((v, q)) => r matches Ok(x) && x@ == v && final(self).offset == q,
                Err(e) => r matches Err(x) && x@ == dec_error(e),
            },
    {
        let ghost b = self.bytes@;
        let ghost p0 = self.offset as int;
        let ghost f = instr_parser();
        let ghost g = line_parser();
        let name = self.read_string()?;
        let ghost p1 = self.offset as int;
        let registers = self.read_usize()?;
        let arity = self.read_usize()?;
        let ghost p2 = self.offset as int;
        assert(dec_two(b, p1) == Ok::<((usize, usize), int), DecErr>(((registers, arity), p2)));
        let n = self.read_usize()?;
        if n > MAX_LIST_LEN {
            return Err(ChronicleError::Decode(string_of("binary module list too long")));
        }
        let mut code: Vec<Instruction> = Vec::new();
        let mut i: usize = 0;
        assert(crate::bytecode::instructions_view(code@) + Seq::<InstructionV>::empty() =~= crate::bytecode::instructions_view(code@));
        while i < n
            invariant
                self.bytes@ == b,
                self.bytes == old(self).bytes,
                b == old(self).bytes@,
                p0 == old(self).offset,
                f == instr_parser(),
                dec_str(b, p0) == Ok::<(Seq<char>, int), DecErr>((name@, p1)),
                dec_two(b, p1) == Ok::<((usize, usize), int), DecErr>(((registers, arity), p2)),
                i <= n,
                dec_counted(b, p2, f) == list_cont(
                    crate::bytecode::instructions_view(code@),
                    dec_list(b, self.offset as int, (n - i) as nat, f),
                ),
            decreases n - i,
        {
            let ghost cur = self.offset as int;
            let ins = self.read_instruction()?;
            proof {
                lemma_list_cont_step(b, cur, (n - i) as nat, f, crate::bytecode::instructions_view(code@), ins@, self.offset as int);
            }
            let ghost before = code@;
            code.push(ins);
            assert(crate::bytecode::instructions_view(code@) =~= crate::bytecode::instructions_view(before).push(ins@));
            i = i + 1;
        }
        assert(crate::bytecode::instructions_view(code@) + Seq::<InstructionV>::empty() =~= crate::bytecode::instructions_view(code@));
        let ghost p3 = self.offset as int;
        let m = self.read_usize()?;
        if m > MAX_LIST_LEN {
            return Err(ChronicleError::Decode(string_of("binary module list too long")));
        }
        let mut lines: Vec<Option<usize>> = Vec::new();
        let mut i: usize = 0;
        assert(lines@ + Seq::<Option<usize>>::empty() =~= lines@);
        while i < m
            invariant
                self.bytes@ == b,
                self.bytes == old(self).bytes,
                b == old(self).bytes@,
                p0 == old(self).offset,
                g == line_parser(),
                dec_str(b, p0) == Ok::<(Seq<char>, int), DecErr>((name@, p1)),
                dec_two(b, p1) == Ok::<((usize, usize), int), DecErr>(((registers, arity), p2)),
                dec_counted(b, p2, instr_parser()) == Ok::<(Seq<InstructionV>, int), DecErr>((crate::bytecode::instructions_view(code@), p3)),
                i <= m,
                dec_counted(b, p3, g) == list_cont(lines@, dec_list(b, self.offset as int, (m - i) as nat, g)),
            decreases m - i,
        {
            let ghost cur = self.offset as int;
            let line = self.read_source_line()?;
            proof {
                lemma_list_cont_step(b, cur, (m - i) as nat, g, lines@, line, self.offset as int);
            }
            lines.push(line);
            i = i + 1;
        }
        assert(lines@ + Seq::<Option<usize>>::empty() =~= lines@);
        Ok(Function { name, registers, arity, code, source_lines: lines })
    }

    /// Reads one export: a name and a function index.
    pub fn read_export(&mut self) -> (r: Result<(String, usize), ChronicleError>)
        ensures
            final(self).bytes == old(self).bytes,
            match dec_export(old(self).bytes@, old(self).offset as int) {
                Ok((v, q)) => r matches Ok(x) && (x.0@, x.1) == v && final(self).offset == q,
                Err(e) => r matches Err(x) && x@ == dec_error(e),
            },
    {
        let name = self.read_string()?;
        let index = self.read_usize()?;
        Ok((name, index))
    }
}

} // verus!

verus! {

pub open spec fn caps_view(s: Seq<CapabilityDecl>) -> Seq<CapabilityDeclV> {
    s.map_values(|c: CapabilityDecl| c@)
}

impl<'a> BinaryModuleReader<'a> {
    fn read_capabilities(&mut self) -> (r: Result<Vec<CapabilityDecl>, ChronicleError>)
        ensures
            final(self).bytes == old(self).bytes,
            match dec_counted(old(self).bytes@, old(self).offset as int, cap_parser()) {
                Ok((v, q)) => r matches Ok(x) && caps_view(x@) == v && final(self).offset == q,
                Err(e) => r matches Err(x) && x@ == dec_error(e),
            },
    {
        let ghost b = self.bytes@;
        let ghost f = cap_parser();
        let n = self.read_usize()?;
        if n > MAX_LIST_LEN {
            return Err(ChronicleError::Decode(string_of("binary module list too long")));
        }
        let mut out: Vec<CapabilityDecl> = Vec::new();
        let mut i: usize = 0;
        assert(caps_view(out@) + Seq::<CapabilityDeclV>::empty() =~= caps_view(out@));
        while i < n
            invariant
                self.bytes@ == b,
                self.bytes == old(self).bytes,
                b == old(self).bytes@,
                f == cap_parser(),
                i <= n,
                dec_counted(b, old(self).offset as int, f) == list_cont(caps_view(out@), dec_list(b, self.offset as int, (n - i) as nat, f)),
            decreases n - i,
        {
            let ghost cur = self.offset as int;
            let c = self.read_capability()?;
            proof {
                lemma_list_cont_step(b, cur, (n - i) as nat, f, caps_view(out@), c@, self.offset as int);
            }
            let ghost before = out@;
            out.push(c);
            assert(caps_view(out@) =~= caps_view(before).push(c@));
            i = i + 1;
        }
        assert(caps_view(out@) + Seq::<CapabilityDeclV>::empty() =~= caps_view(out@));
        Ok(out)
    }

    fn read_functions(&mut self) -> (r: Result<Vec<Function>, ChronicleError>)
        ensures
            final(self).bytes == old(self).bytes,
            match dec_counted(old(self).bytes@, old(self).offset as int, fn_parser()) {
                Ok((v, q)) => r matches Ok(x) && crate::bytecode::functions_view(x@) == v && final(self).offset == q,
                Err(e) => r matches Err(x) && x@ == dec_error(e),
            },
    {
        let ghost b = self.bytes@;
        let ghost f = fn_parser();
        let n = self.read_usize()?;
        if n > MAX_LIST_LEN {
            return Err(ChronicleError::Decode(string_of("binary module list too long")));
        }
        let mut out: Vec<Function> = Vec::new();
        let mut i: usize = 0;
        assert(crate::bytecode::functions_view(out@) + Seq::<FunctionV>::empty() =~= crate::bytecode::functions_view(out@));
        while i < n
            invariant
                self.bytes@ == b,
                self.bytes == old(self).bytes,
                b == old(self).bytes@,
                f == fn_parser(),
                i <= n,
                dec_counted(b, old(self).offset as int, f) == list_cont(
                    crate::bytecode::functions_view(out@),
                    dec_list(b, self.offset as int, (n - i) as nat, f),
                ),
            decreases n - i,
        {
            let ghost cur = self.offset as int;
            let c = self.read_function()?;
            proof {
                lemma_list_cont_step(b, cur, (n - i) as nat, f, crate::bytecode::functions_view(out@), c@, self.offset as int);
            }
            let ghost before = out@;
            out.push(c);
            assert(crate::bytecode::functions_view(out@) =~= crate::bytecode::functions_view(before).push(c@));
            i = i + 1;
        }
        assert(crate::bytecode::functions_view(out@) + Seq::<FunctionV>::empty() =~= crate::bytecode::functions_view(out@));
        Ok(out)
    }

    fn read_exports(&mut self) -> (r: Result<Vec<(String, usize)>, ChronicleError>)
        ensures
            final(self).bytes == old(self).bytes,
            match dec_counted(old(self).bytes@, old(self).offset as int, export_parser()) {
                Ok((v, q)) => r matches Ok(x) && crate::bytecode::exports_view(x@) == exports_from(v) && final(self).offset == q,
                Err(e) => r matches Err(x) && x@ == dec_error(e),
            },
    {
        let ghost b = self.bytes@;
        let ghost f = export_parser();
        let n = self.read_usize()?;
        if n > MAX_LIST_LEN {
            return Err(ChronicleError::Decode(string_of("binary module list too long")));
        }
        let ghost mut raw: Seq<(Seq<char>, usize)> = Seq::empty();
        let mut out: Vec<(String, usize)> = Vec::new();
        let mut i: usize = 0;
        assert(raw + Seq::<(Seq<char>, usize)>::empty() =~= raw);
        assert(crate::bytecode::exports_view(out@) =~= exports_from(raw));
        while i < n
            invariant
                self.bytes@ == b,
                self.bytes == old(self).bytes,
                b == old(self).bytes@,
                f == export_parser(),
                i <= n,
                crate::bytecode::exports_view(out@) == exports_from(raw),
                dec_counted(b, old(self).offset as int, f) == list_cont(raw, dec_list(b, self.offset as int, (n - i) as nat, f)),
            decreases n - i,
        {
            let ghost cur = self.offset as int;
            let e = self.read_export()?;
            proof {
                lemma_list_cont_step(b, cur, (n - i) as nat, f, raw, (e.0@, e.1), self.offset as int);
            }
            let ghost before = raw;
            proof {
                raw = raw.push((e.0@, e.1));
                assert(raw.drop_last() =~= before);
            }
            insert_export(&mut out, e.0, e.1);
            i = i + 1;
        }
        assert(raw + Seq::<(Seq<char>, usize)>::empty() =~= raw);
        Ok(out)
    }

    /// Reads a whole module and checks that no bytes follow it.
    #[verifier::rlimit(40)]
    pub fn read_module(&mut self) -> (r: Result<Module, ChronicleError>)
        requires
            old(self).offset == 0,
        ensures
            match dec_module(old(self).bytes@) {
                Ok(m) => r matches Ok(x) && x@ == m,
                Err(e) => r matches Err(x) && x@ == dec_error(e),
            },
    {
        let ghost b = self.bytes@;
        let s = self.take(8)?;
        let bs = self.bytes;
        if !(bs[0] == 0x43 && bs[1] == 0x48 && bs[2] == 0x56 && bs[3] == 0x4d && bs[4] == 0x4f && bs[5] == 0x44
            && bs[6] == 0x32 && bs[7] == 0) {
            assert(b.subrange(0, 8) != module_magic()) by {
                if b.subrange(0, 8) == module_magic() {
                    assert(b[0] == b.subrange(0, 8)[0]);
                    assert(b[1] == b.subrange(0, 8)[1]);
                    assert(b[2] == b.subrange(0, 8)[2]);
                    assert(b[3] == b.subrange(0, 8)[3]);
                    assert(b[4] == b.subrange(0, 8)[4]);
                    assert(b[5] == b.subrange(0, 8)[5]);
                    assert(b[6] == b.subrange(0, 8)[6]);
                    assert(b[7] == b.subrange(0, 8)[7]);
                }
            }
            return Err(ChronicleError::Decode(string_of("invalid binary module magic")));
        }
        assert(b.subrange(0, 8) =~= module_magic());
        let name = self.read_string()?;
        let nc = self.read_usize()?;
        if nc > MAX_LIST_LEN {
            return Err(ChronicleError::Decode(string_of("binary module list too long")));
        }
        let constants = self.read_values(nc)?;
        let capabilities = self.read_capabilities()?;
        let functions = self.read_functions()?;
        let exports = self.read_exports()?;
        if self.offset != self.bytes.len() {
            return Err(ChronicleError::Decode(string_of("trailing bytes in binary module")));
        }
        let m = Module { name, constants, capabilities, functions, exports };
        assert(caps_view(m.capabilities@) == crate::bytecode::capabilities_view(m.capabilities@));
        Ok(m)
    }
}

/// How a byte string presents itself.
pub open spec fn starts_with_bytes(b: Seq<u8>, prefix: Seq<u8>) -> bool {
    prefix.len() <= b.len() && b.subrange(0, prefix.len() as int) == prefix
}

fn starts_with_magic(b: &[u8], legacy: bool) -> (r: bool)
    ensures
        r == starts_with_bytes(b@, if legacy { old_module_magic() } else { module_magic() }),
{
    let ghost m = if legacy { old_module_magic() } else { module_magic() };
    if b.len() < 8 {
        return false;
    }
    let v: u8 = if legacy { 0x31 } else { 0x32 };
    let r = b[0] == 0x43 && b[1] == 0x48 && b[2] == 0x56 && b[3] == 0x4d && b[4] == 0x4f && b[5] == 0x44 && b[6]
        == v && b[7] == 0;
    if r {
        assert(b@.subrange(0, 8) =~= m);
    } else {
        assert(b@.subrange(0, 8) != m) by {
            if b@.subrange(0, 8) == m {
                assert(b@[0] == b@.subrange(0, 8)[0]);
                assert(b@[1] == b@.subrange(0, 8)[1]);
                assert(b@[2] == b@.subrange(0, 8)[2]);
                assert(b@[3] == b@.subrange(0, 8)[3]);
                assert(b@[4] == b@.subrange(0, 8)[4]);
                assert(b@[5] == b@.subrange(0, 8)[5]);
                assert(b@[6] == b@.subrange(0, 8)[6]);
                assert(b@[7] == b@.subrange(0, 8)[7]);
            }
        }
    }
    r
}

/// The outcome of reading bytes that begin with the current or the retired binary magic.
pub open spec fn binary_outcome(b: Seq<u8>) -> Result<ModuleV, ChronicleErrorV> {
    if starts_with_bytes(b, module_magic()) {
        match dec_module(b) {
            Ok(m) => Ok(m),
            Err(e) => Err(dec_error(e)),
        }
    } else {
        Err(ChronicleErrorV::Verify(crate::error::VerifyErrorV {
            kind: crate::error::VerifyErrorKind::UnsupportedBytecodeVersion,
            message: "CHVMOD1 modules are not supported by this runtime; reassemble as CHVMOD2"@,
            function: None,
            pc: None,
        }))
    }
}

impl Module {
    /// Whether the bytes begin with the current or the retired binary magic; other bytes are
    /// left to the JSON decoder of the host application.
    pub fn is_binary_encoding(bytes: &[u8]) -> (r: bool)
        ensures
            r == (starts_with_bytes(bytes@, module_magic()) || starts_with_bytes(bytes@, old_module_magic())),
    {
        starts_with_magic(bytes, false) || starts_with_magic(bytes, true)
    }

    /// Decodes a binary module. Bytes in the retired format are refused with
    /// `UnsupportedBytecodeVersion`.
    pub fn from_binary_bytes(bytes: &[u8]) -> (r: Result<Module, ChronicleError>)
        requires
            starts_with_bytes(bytes@, module_magic()) || starts_with_bytes(bytes@, old_module_magic()),
        ensures
            match binary_outcome(bytes@) {
                Ok(m) => r matches Ok(x) && x@ == m,
                Err(e) => r matches Err(x) && x@ == e,
            },
    {
        if starts_with_magic(bytes, false) {
            let mut reader = BinaryModuleReader::new(bytes);
            reader.read_module()
        } else {
            Err(ChronicleError::Verify(crate::error::VerifyError::new(
                crate::error::VerifyErrorKind::UnsupportedBytecodeVersion,
                "CHVMOD1 modules are not supported by this runtime; reassemble as CHVMOD2",
            )))
        }
    }
}

} // verus!
