use chronicle::assembler::{AsmError, Assembler, Assembly};
use chronicle::bytecode::{Instruction, Module};
use chronicle::checks::Verifier;
use chronicle::value::Value;

fn assemble(source: &str) -> Result<Module, AsmError> {
    let mut floats: Vec<(String, Option<u64>)> = Vec::new();
    loop {
        match Assembler::parse(source, &floats) {
            Assembly::Done(r) => return r,
            Assembly::NeedsFloat(t) => {
                let bits = t.parse::<f64>().ok().map(|f| f.to_bits());
                floats.push((t, bits));
            }
        }
    }
}

#[test]
fn parses_module_with_capability_and_label() {
    let source = r#"
          .module "demo"
          .cap log.print@1(any...) -> nil reason="debug output"
          .fn main r3
            const r0, "hello"
            cap_call r1, log.print@1, r0
          done:
            ret r1
          .end
        "#;
    let module = assemble(source).unwrap();
    Verifier::verify(&module).unwrap();
    assert_eq!(module.name, "demo");
    assert_eq!(module.capabilities[0].id, "log.print@1");
    assert!(module.exports.iter().any(|(name, _)| name == "main"));
}

#[test]
fn verifies_undeclared_capability() {
    let source = r#"
          .module "bad-cap"
          .fn main r2
            cap_call r0, log.print
            ret r0
          .end
        "#;
    let module = assemble(source).unwrap();
    assert!(Verifier::verify(&module).is_err());
}

#[test]
fn labels_resolve_to_instruction_indexes() {
    let source = ".module \"l\"\n.fn main r2\n  const r0, true\n  jump_if r0, yes\n  ret r0\nyes:\n  const r1, 7\n  ret r1\n.end\n";
    let module = assemble(source).unwrap();
    let code = &module.functions[0].code;
    assert!(matches!(code[1], Instruction::JumpIf { cond: 0, target: 3 }));
    assert_eq!(module.functions[0].source_lines, vec![Some(3), Some(4), Some(5), Some(7), Some(8)]);
    assert_eq!(module.constants.len(), 2);
}

#[test]
fn constants_are_interned_and_floats_read() {
    let source = ".module \"c\"\n.fn main r3\n  const r0, 2.5\n  const r1, 2.5\n  const r2, \"a,b\"\n  ret r2\n.end\n";
    let module = assemble(source).unwrap();
    assert_eq!(module.constants.len(), 2);
    assert!(matches!(module.constants[0], Value::F64(b) if b == 2.5f64.to_bits()));
    assert!(matches!(&module.constants[1], Value::String(s) if s == "a,b"));
    let first = Assembler::parse(source, &Vec::new());
    assert!(matches!(first, Assembly::NeedsFloat(ref t) if t == "2.5"));
}

#[test]
fn assembly_errors_name_their_line() {
    let cases: [(&str, &str); 7] = [
        (".fn main r1\n  ret r0\n", "line 2: function missing .end"),
        (".fn main r1\n  ret r0\n.end\n", "module is missing .module declaration"),
        (".module \"m\"\n.end\n", "line 2: .end without .fn"),
        (".module \"m\"\n.fn main r0\n", "line 2: register count must be greater than zero"),
        (".module \"m\"\n.fn main r1\n  jump nowhere\n.end\n", "line 3: unknown label nowhere"),
        (".module \"m\"\n.fn main r1\n  frob r0\n.end\n", "line 3: unknown opcode frob"),
        (".module \"m\"\n.export missing\n.fn main r1\n  ret r0\n.end\n", "line 0: export missing does not name a function"),
    ];
    for (source, text) in cases {
        assert_eq!(assemble(source).unwrap_err().to_text(), text);
    }
    assert_eq!(
        assemble(".module \"m\"\n.fn main r1\n  add r0, r0\n.end\n").unwrap_err().to_text(),
        "line 3: add expects 3 operands, got 2"
    );
}

#[test]
fn first_function_is_exported_when_none_is_declared() {
    let source = ".module \"e\"\n.fn helper r1\n  ret r0\n.end\n.fn other r1\n  ret r0\n.end\n";
    let module = assemble(source).unwrap();
    assert_eq!(module.exports, vec![("helper".to_string(), 0)]);
    let source = ".module \"e\"\n.export other\n.fn helper r1\n  ret r0\n.end\n.fn other r1\n  ret r0\n.end\n";
    let module = assemble(source).unwrap();
    assert_eq!(module.exports, vec![("other".to_string(), 1)]);
}
