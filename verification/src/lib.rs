use vstd::prelude::*;

pub mod bytecode;
pub mod error;
pub mod policy;
pub mod roundtrip;
pub mod text;
pub mod trace;
pub mod value;
pub mod checks;
pub mod codec;
pub mod digest;
pub mod machine;
pub mod vm;
pub mod replay;
pub mod laws;
pub mod syntax;
pub mod assembler;
pub mod lang;
pub mod compiler;
pub mod debugger;
pub mod audit;
pub mod language_laws;
pub mod module_laws;
pub mod event_laws;
pub mod prefix_laws;
pub mod instruction_laws;
pub mod asm_laws;
pub mod operator_laws;

verus! {
} // verus!
