use vstd::prelude::*;
use crate::text::{str_eq, string_of};
use crate::value::{Value, ValueV, ValueType, values_view, clone_values, lemma_values_view};

verus! {

/// A typed, versioned capability that a module declares before it may call it.
#[derive(Debug)]
pub struct CapabilityDecl {
    pub id: String,
    pub params: Vec<ValueType>,
    pub return_type: ValueType,
    pub reason: Option<String>,
}

pub struct CapabilityDeclV {
    pub id: Seq<char>,
    pub params: Seq<ValueType>,
    pub return_type: ValueType,
    pub reason: Option<Seq<char>>,
}

pub open spec fn opt_string_view(s: Option<String>) -> Option<Seq<char>> {
    match s {
        Some(s) => Some(s@),
        None => None,
    }
}

impl View for CapabilityDecl {
    type V = CapabilityDeclV;

    open spec fn view(&self) -> CapabilityDeclV {
        CapabilityDeclV {
            id: self.id@,
            params: self.params@,
            return_type: self.return_type,
            reason: opt_string_view(self.reason),
        }
    }
}

/// Whether the last declared parameter is the variadic marker.
pub open spec fn is_variadic(d: CapabilityDeclV) -> bool {
    d.params.len() > 0 && d.params.last() == ValueType::AnyVariadic
}

impl CapabilityDecl {
    /// Whether the capability accepts any number of trailing arguments.
    pub fn is_variadic(&self) -> (r: bool)
        ensures
            r == is_variadic(self@),
    {
        let n = self.params.len();
        n > 0 && self.params[n - 1] == ValueType::AnyVariadic
    }
}

fn clone_option_string(s: &Option<String>) -> (r: Option<String>)
    ensures
        opt_string_view(r) == opt_string_view(*s),
{
    match s {
        Some(s) => Some(s.clone()),
        None => None,
    }
}

fn clone_value_types(v: &Vec<ValueType>) -> (r: Vec<ValueType>)
    ensures
        r@ == v@,
{
    let mut r: Vec<ValueType> = Vec::new();
    let mut i: usize = 0;
    while i < v.len()
        invariant
            i <= v.len(),
            r@ == v@.subrange(0, i as int),
        decreases v.len() - i,
    {
        r.push(v[i]);
        i = i + 1;
    }
    assert(r@ =~= v@);
    r
}

/// A copy of a sequence of register or index operands.
pub fn clone_usizes(v: &Vec<usize>) -> (r: Vec<usize>)
    ensures
        r@ == v@,
{
    let mut r: Vec<usize> = Vec::new();
    let mut i: usize = 0;
    while i < v.len()
        invariant
            i <= v.len(),
            r@ == v@.subrange(0, i as int),
        decreases v.len() - i,
    {
        r.push(v[i]);
        i = i + 1;
    }
    assert(r@ =~= v@);
    r
}

impl Clone for CapabilityDecl {
    fn clone(&self) -> (r: Self)
        ensures
            r@ == self@,
    {
        CapabilityDecl {
            id: self.id.clone(),
            params: clone_value_types(&self.params),
            return_type: self.return_type,
            reason: clone_option_string(&self.reason),
        }
    }
}

/// One bytecode instruction. Register operands index the function's register file.
#[derive(Debug)]
pub enum Instruction {
    Const { dst: usize, constant: usize },
    Move { dst: usize, src: usize },
    Add { dst: usize, lhs: usize, rhs: usize },
    Sub { dst: usize, lhs: usize, rhs: usize },
    Mul { dst: usize, lhs: usize, rhs: usize },
    Div { dst: usize, lhs: usize, rhs: usize },
    Eq { dst: usize, lhs: usize, rhs: usize },
    Lt { dst: usize, lhs: usize, rhs: usize },
    Jump { target: usize },
    JumpIf { cond: usize, target: usize },
    Call { dst: usize, function: String, args: Vec<usize> },
    Ret { src: usize },
    CapCall { dst: usize, capability: String, args: Vec<usize> },
    ArrayNew { dst: usize, items: Vec<usize> },
    ArrayGet { dst: usize, array: usize, index: usize },
    ArraySet { array: usize, index: usize, value: usize },
}

pub enum InstructionV {
    Const { dst: usize, constant: usize },
    Move { dst: usize, src: usize },
    Add { dst: usize, lhs: usize, rhs: usize },
    Sub { dst: usize, lhs: usize, rhs: usize },
    Mul { dst: usize, lhs: usize, rhs: usize },
    Div { dst: usize, lhs: usize, rhs: usize },
    Eq { dst: usize, lhs: usize, rhs: usize },
    Lt { dst: usize, lhs: usize, rhs: usize },
    Jump { target: usize },
    JumpIf { cond: usize, target: usize },
    Call { dst: usize, function: Seq<char>, args: Seq<usize> },
    Ret { src: usize },
    CapCall { dst: usize, capability: Seq<char>, args: Seq<usize> },
    ArrayNew { dst: usize, items: Seq<usize> },
    ArrayGet { dst: usize, array: usize, index: usize },
    ArraySet { array: usize, index: usize, value: usize },
}

impl View for Instruction {
    type V = InstructionV;

    open spec fn view(&self) -> InstructionV {
        match self {
            Instruction::Const { dst, constant } => InstructionV::Const { dst: *dst, constant: *constant },
            Instruction::Move { dst, src } => InstructionV::Move { dst: *dst, src: *src },
            Instruction::Add { dst, lhs, rhs } => InstructionV::Add { dst: *dst, lhs: *lhs, rhs: *rhs },
            Instruction::Sub { dst, lhs, rhs } => InstructionV::Sub { dst: *dst, lhs: *lhs, rhs: *rhs },
            Instruction::Mul { dst, lhs, rhs } => InstructionV::Mul { dst: *dst, lhs: *lhs, rhs: *rhs },
            Instruction::Div { dst, lhs, rhs } => InstructionV::Div { dst: *dst, lhs: *lhs, rhs: *rhs },
            Instruction::Eq { dst, lhs, rhs } => InstructionV::Eq { dst: *dst, lhs: *lhs, rhs: *rhs },
            Instruction::Lt { dst, lhs, rhs } => InstructionV::Lt { dst: *dst, lhs: *lhs, rhs: *rhs },
            Instruction::Jump { target } => InstructionV::Jump { target: *target },
            Instruction::JumpIf { cond, target } => InstructionV::JumpIf { cond: *cond, target: *target },
            Instruction::Call { dst, function, args } => InstructionV::Call {
                dst: *dst,
                function: function@,
                args: args@,
            },
            Instruction::Ret { src } => InstructionV::Ret { src: *src },
            Instruction::CapCall { dst, capability, args } => InstructionV::CapCall {
                dst: *dst,
                capability: capability@,
                args: args@,
            },
            Instruction::ArrayNew { dst, items } => InstructionV::ArrayNew { dst: *dst, items: items@ },
            Instruction::ArrayGet { dst, array, index } => InstructionV::ArrayGet {
                dst: *dst,
                array: *array,
                index: *index,
            },
            Instruction::ArraySet { array, index, value } => InstructionV::ArraySet {
                array: *array,
                index: *index,
                value: *value,
            },
        }
    }
}

/// The mnemonic of an instruction.
pub open spec fn opcode_name(i: InstructionV) -> Seq<char> {
    match i {
        InstructionV::Const { .. } => "const"@,
        InstructionV::Move { .. } => "move"@,
        InstructionV::Add { .. } => "add"@,
        InstructionV::Sub { .. } => "sub"@,
        InstructionV::Mul { .. } => "mul"@,
        InstructionV::Div { .. } => "div"@,
        InstructionV::Eq { .. } => "eq"@,
        InstructionV::Lt { .. } => "lt"@,
        InstructionV::Jump { .. } => "jump"@,
        InstructionV::JumpIf { .. } => "jump_if"@,
        InstructionV::Call { .. } => "call"@,
        InstructionV::Ret { .. } => "ret"@,
        InstructionV::CapCall { .. } => "cap_call"@,
        InstructionV::ArrayNew { .. } => "array_new"@,
        InstructionV::ArrayGet { .. } => "array_get"@,
        InstructionV::ArraySet { .. } => "array_set"@,
    }
}

impl Instruction {
    /// The mnemonic of this instruction, as the assembler spells it.
    pub fn opcode(&self) -> (r: &'static str)
        ensures
            r@ == opcode_name(self@),
    {
        match self {
            Instruction::Const { .. } => "const",
            Instruction::Move { .. } => "move",
            Instruction::Add { .. } => "add",
            Instruction::Sub { .. } => "sub",
            Instruction::Mul { .. } => "mul",
            Instruction::Div { .. } => "div",
            Instruction::Eq { .. } => "eq",
            Instruction::Lt { .. } => "lt",
            Instruction::Jump { .. } => "jump",
            Instruction::JumpIf { .. } => "jump_if",
            Instruction::Call { .. } => "call",
            Instruction::Ret { .. } => "ret",
            Instruction::CapCall { .. } => "cap_call",
            Instruction::ArrayNew { .. } => "array_new",
            Instruction::ArrayGet { .. } => "array_get",
            Instruction::ArraySet { .. } => "array_set",
        }
    }
}

impl Clone for Instruction {
    fn clone(&self) -> (r: Self)
        ensures
            r@ == self@,
    {
        match self {
            Instruction::Const { dst, constant } => Instruction::Const { dst: *dst, constant: *constant },
            Instruction::Move { dst, src } => Instruction::Move { dst: *dst, src: *src },
            Instruction::Add { dst, lhs, rhs } => Instruction::Add { dst: *dst, lhs: *lhs, rhs: *rhs },
            Instruction::Sub { dst, lhs, rhs } => Instruction::Sub { dst: *dst, lhs: *lhs, rhs: *rhs },
            Instruction::Mul { dst, lhs, rhs } => Instruction::Mul { dst: *dst, lhs: *lhs, rhs: *rhs },
            Instruction::Div { dst, lhs, rhs } => Instruction::Div { dst: *dst, lhs: *lhs, rhs: *rhs },
            Instruction::Eq { dst, lhs, rhs } => Instruction::Eq { dst: *dst, lhs: *lhs, rhs: *rhs },
            Instruction::Lt { dst, lhs, rhs } => Instruction::Lt { dst: *dst, lhs: *lhs, rhs: *rhs },
            Instruction::Jump { target } => Instruction::Jump { target: *target },
            Instruction::JumpIf { cond, target } => Instruction::JumpIf { cond: *cond, target: *target },
            Instruction::Call { dst, function, args } => Instruction::Call {
                dst: *dst,
                function: function.clone(),
                args: clone_usizes(args),
            },
            Instruction::Ret { src } => Instruction::Ret { src: *src },
            Instruction::CapCall { dst, capability, args } => Instruction::CapCall {
                dst: *dst,
                capability: capability.clone(),
                args: clone_usizes(args),
            },
            Instruction::ArrayNew { dst, items } => Instruction::ArrayNew { dst: *dst, items: clone_usizes(items) },
            Instruction::ArrayGet { dst, array, index } => Instruction::ArrayGet {
                dst: *dst,
                array: *array,
                index: *index,
            },
            Instruction::ArraySet { array, index, value } => Instruction::ArraySet {
                array: *array,
                index: *index,
                value: *value,
            },
        }
    }
}

/// A function of a module: its register file size, arity, code and source line map.
#[derive(Debug)]
pub struct Function {
    pub name: String,
    pub registers: usize,
    pub arity: usize,
    pub code: Vec<Instruction>,
    pub source_lines: Vec<Option<usize>>,
}

pub struct FunctionV {
    pub name: Seq<char>,
    pub registers: usize,
    pub arity: usize,
    pub code: Seq<InstructionV>,
    pub source_lines: Seq<Option<usize>>,
}

pub open spec fn instructions_view(s: Seq<Instruction>) -> Seq<InstructionV> {
    s.map_values(|i: Instruction| i@)
}

impl View for Function {
    type V = FunctionV;

    open spec fn view(&self) -> FunctionV {
        FunctionV {
            name: self.name@,
            registers: self.registers,
            arity: self.arity,
            code: instructions_view(self.code@),
            source_lines: self.source_lines@,
        }
    }
}

/// A loadable unit: constants, declared capabilities, functions and named exports.
///
/// `exports` lists each exported name with the index of its function, in the order of
/// the names.
#[derive(Debug)]
pub struct Module {
    pub name: String,
    pub constants: Vec<Value>,
    pub capabilities: Vec<CapabilityDecl>,
    pub functions: Vec<Function>,
    pub exports: Vec<(String, usize)>,
}

pub struct ModuleV {
    pub name: Seq<char>,
    pub constants: Seq<ValueV>,
    pub capabilities: Seq<CapabilityDeclV>,
    pub functions: Seq<FunctionV>,
    pub exports: Seq<(Seq<char>, usize)>,
}

pub open spec fn capabilities_view(s: Seq<CapabilityDecl>) -> Seq<CapabilityDeclV> {
    s.map_values(|c: CapabilityDecl| c@)
}

pub open spec fn functions_view(s: Seq<Function>) -> Seq<FunctionV> {
    s.map_values(|f: Function| f@)
}

pub open spec fn exports_view(s: Seq<(String, usize)>) -> Seq<(Seq<char>, usize)> {
    s.map_values(|e: (String, usize)| (e.0@, e.1))
}

impl View for Module {
    type V = ModuleV;

    open spec fn view(&self) -> ModuleV {
        ModuleV {
            name: self.name@,
            constants: values_view(self.constants@),
            capabilities: capabilities_view(self.capabilities@),
            functions: functions_view(self.functions@),
            exports: exports_view(self.exports@),
        }
    }
}


impl Clone for Function {
    fn clone(&self) -> (r: Self)
        ensures
            r@ == self@,
    {
        let mut code: Vec<Instruction> = Vec::new();
        let mut i: usize = 0;
        while i < self.code.len()
            invariant
                i <= self.code.len(),
                code.len() == i,
                forall|j: int| 0 <= j < i ==> (#[trigger] code@[j])@ == self.code@[j]@,
            decreases self.code.len() - i,
        {
            code.push(self.code[i].clone());
            i = i + 1;
        }
        assert(instructions_view(code@) =~= instructions_view(self.code@));
        let mut lines: Vec<Option<usize>> = Vec::new();
        let mut k: usize = 0;
        while k < self.source_lines.len()
            invariant
                k <= self.source_lines.len(),
                lines@ == self.source_lines@.subrange(0, k as int),
            decreases self.source_lines.len() - k,
        {
            lines.push(self.source_lines[k]);
            k = k + 1;
        }
        assert(lines@ =~= self.source_lines@);
        Function { name: self.name.clone(), registers: self.registers, arity: self.arity, code, source_lines: lines }
    }
}

impl Clone for Module {
    fn clone(&self) -> (r: Self)
        ensures
            r@ == self@,
    {
        let constants = crate::value::clone_values(&self.constants);
        let mut caps: Vec<CapabilityDecl> = Vec::new();
        let mut i: usize = 0;
        while i < self.capabilities.len()
            invariant
                i <= self.capabilities.len(),
                caps.len() == i,
                forall|j: int| 0 <= j < i ==> (#[trigger] caps@[j])@ == self.capabilities@[j]@,
            decreases self.capabilities.len() - i,
        {
            caps.push(self.capabilities[i].clone());
            i = i + 1;
        }
        assert(capabilities_view(caps@) =~= capabilities_view(self.capabilities@));
        let mut fs: Vec<Function> = Vec::new();
        let mut i: usize = 0;
        while i < self.functions.len()
            invariant
                i <= self.functions.len(),
                fs.len() == i,
                forall|j: int| 0 <= j < i ==> (#[trigger] fs@[j])@ == self.functions@[j]@,
            decreases self.functions.len() - i,
        {
            fs.push(self.functions[i].clone());
            i = i + 1;
        }
        assert(functions_view(fs@) =~= functions_view(self.functions@));
        let mut es: Vec<(String, usize)> = Vec::new();
        let mut i: usize = 0;
        while i < self.exports.len()
            invariant
                i <= self.exports.len(),
                es.len() == i,
                forall|j: int| 0 <= j < i ==> (#[trigger] es@[j]).0@ == self.exports@[j].0@ && es@[j].1 == self.exports@[j].1,
            decreases self.exports.len() - i,
        {
            es.push((self.exports[i].0.clone(), self.exports[i].1));
            i = i + 1;
        }
        assert(exports_view(es@) =~= exports_view(self.exports@));
        Module { name: self.name.clone(), constants, capabilities: caps, functions: fs, exports: es }
    }
}

/// The index of the first function named `name`.
pub open spec fn find_function(fs: Seq<FunctionV>, name: Seq<char>) -> Option<int>
    decreases fs.len(),
{
    if fs.len() == 0 {
        None
    } else {
        match find_function(fs.drop_last(), name) {
            Some(i) => Some(i),
            None => if fs.last().name == name {
                Some(fs.len() - 1)
            } else {
                None
            },
        }
    }
}

pub proof fn lemma_find_function(fs: Seq<FunctionV>, name: Seq<char>)
    ensures
        match find_function(fs, name) {
            Some(i) => 0 <= i < fs.len() && fs[i].name == name && forall|j: int|
                0 <= j < i ==> #[trigger] fs[j].name != name,
            None => forall|j: int| 0 <= j < fs.len() ==> #[trigger] fs[j].name != name,
        },
    decreases fs.len(),
{
    if fs.len() > 0 {
        lemma_find_function(fs.drop_last(), name);
        assert forall|j: int| 0 <= j < fs.len() - 1 implies #[trigger] fs[j] == fs.drop_last()[j] by {}
    }
}

/// The index of the first export entry named `name`, with its function index.
pub open spec fn find_export(es: Seq<(Seq<char>, usize)>, name: Seq<char>) -> Option<usize>
    decreases es.len(),
{
    if es.len() == 0 {
        None
    } else {
        match find_export(es.drop_last(), name) {
            Some(i) => Some(i),
            None => if es.last().0 == name {
                Some(es.last().1)
            } else {
                None
            },
        }
    }
}

/// The index of the first function named `name`.
pub fn function_position(functions: &Vec<Function>, name: &str) -> (r: Option<usize>)
    ensures
        r == (match find_function(functions_view(functions@), name@) {
            Some(i) => Some(i as usize),
            None => None,
        }),
        r matches Some(i) ==> find_function(functions_view(functions@), name@) == Some(i as int),
        r is None ==> find_function(functions_view(functions@), name@) is None,
{
    let mut i: usize = 0;
    let ghost fs = functions_view(functions@);
    proof {
        lemma_find_function(fs, name@);
    }
    while i < functions.len()
        invariant
            fs == functions_view(functions@),
            fs.len() == functions.len(),
            i <= fs.len(),
            forall|j: int| 0 <= j < i ==> #[trigger] fs[j].name != name@,
            match find_function(fs, name@) {
                Some(k) => 0 <= k < fs.len() && fs[k].name == name@ && forall|j: int|
                    0 <= j < k ==> #[trigger] fs[j].name != name@,
                None => forall|j: int| 0 <= j < fs.len() ==> #[trigger] fs[j].name != name@,
            },
        decreases functions.len() - i,
    {
        assert(fs[i as int] == functions@[i as int]@);
        if str_eq(functions[i].name.as_str(), name) {
            assert(fs[i as int].name == name@);
            return Some(i);
        }
        i = i + 1;
    }
    None
}

/// The function index that `name` is exported under, if any.
pub fn export_lookup(exports: &Vec<(String, usize)>, name: &str) -> (r: Option<usize>)
    ensures
        r == find_export(exports_view(exports@), name@),
{
    let ghost es = exports_view(exports@);
    let mut i: usize = 0;
    let mut found: Option<usize> = None;
    while i < exports.len()
        invariant
            es == exports_view(exports@),
            es.len() == exports.len(),
            i <= es.len(),
            found == find_export(es.subrange(0, i as int), name@),
        decreases exports.len() - i,
    {
        assert(es.subrange(0, i + 1).drop_last() =~= es.subrange(0, i as int));
        if found.is_none() && str_eq(exports[i].0.as_str(), name) {
            found = Some(exports[i].1);
        }
        i = i + 1;
    }
    assert(es.subrange(0, i as int) =~= es);
    found
}

impl Module {
    /// The index of the first function named `name`.
    pub fn function_index(&self, name: &str) -> (r: Option<usize>)
        ensures
            r == (match find_function(self@.functions, name@) {
                Some(i) => Some(i as usize),
                None => None,
            }),
            r matches Some(i) ==> find_function(self@.functions, name@) == Some(i as int),
            r is None ==> find_function(self@.functions, name@) is None,
    {
        function_position(&self.functions, name)
    }

    /// The function index that `name` is exported under, if any.
    pub fn export_index(&self, name: &str) -> (r: Option<usize>)
        ensures
            r == find_export(self@.exports, name@),
    {
        export_lookup(&self.exports, name)
    }
}

/// The built-in capability signatures that the runtime knows.
pub open spec fn builtin_sig(id: Seq<char>) -> Option<CapabilityDeclV> {
    if id == "log.print@1"@ {
        Some(CapabilityDeclV { id, params: seq![ValueType::AnyVariadic], return_type: ValueType::Nil, reason: None })
    } else if id == "clock.now@1"@ {
        Some(CapabilityDeclV { id, params: seq![], return_type: ValueType::I64, reason: None })
    } else if id == "random.u64@1"@ {
        Some(CapabilityDeclV { id, params: seq![], return_type: ValueType::I64, reason: None })
    } else {
        None
    }
}

pub open spec fn opt_decl_view(d: Option<CapabilityDecl>) -> Option<CapabilityDeclV> {
    match d {
        Some(d) => Some(d@),
        None => None,
    }
}

/// The signature of a built-in capability, if `id` names one.
pub fn builtin_signature(id: &str) -> (r: Option<CapabilityDecl>)
    ensures
        opt_decl_view(r) == builtin_sig(id@),
{
    if str_eq(id, "log.print@1") {
        let mut params = Vec::new();
        params.push(ValueType::AnyVariadic);
        assert(params@ =~= seq![ValueType::AnyVariadic]);
        Some(CapabilityDecl { id: string_of(id), params, return_type: ValueType::Nil, reason: None })
    } else if str_eq(id, "clock.now@1") {
        let params = Vec::new();
        assert(params@ =~= Seq::<ValueType>::empty());
        Some(CapabilityDecl { id: string_of(id), params, return_type: ValueType::I64, reason: None })
    } else if str_eq(id, "random.u64@1") {
        let params = Vec::new();
        assert(params@ =~= Seq::<ValueType>::empty());
        Some(CapabilityDecl { id: string_of(id), params, return_type: ValueType::I64, reason: None })
    } else {
        None
    }
}

/// Whether `id` lies in a namespace reserved for built-in capabilities.
/// An export table in name order, each name once: what a module keeps its exports as.
pub open spec fn exports_sorted(es: Seq<(Seq<char>, usize)>) -> bool {
    forall|i: int| 0 <= i < es.len() - 1 ==> crate::codec::seq_lt(#[trigger] es[i].0, es[i + 1].0)
}

} // verus!
