use chronicle::bytecode::Instruction;
use chronicle::compiler::{Compilation, CompiledProgram, Compiler, LangError};
use chronicle::value::Value;

/// Compiles `source`, reading each literal with a decimal point the way the command line does.
fn compile(source: &str) -> Result<CompiledProgram, LangError> {
    let mut floats: Vec<(String, Option<(u64, String)>)> = Vec::new();
    loop {
        match Compiler::compile(source, &floats) {
            Compilation::Done(r) => return r,
            Compilation::NeedsFloat(t) => {
                let read = t.parse::<f64>().ok().map(|f| (f.to_bits(), f.to_string()));
                floats.push((t, read));
            }
        }
    }
}

#[test]
fn compiles_plugin_language_to_module_and_casm() {
    let source = r#"
          module safe_plugin
          cap log.print@1(any...) -> nil "audit"
          cap clock.now@1() -> i64 "time"
          cap random.u64@1() -> i64 "request id"

          fn main
            let started = "plugin started"
            cap log.print@1(started)
            let now = cap clock.now@1()
            let request = cap random.u64@1()
            let result = [now, request]
            return result
          end
        "#;
    let compiled = compile(source).unwrap();
    assert_eq!(compiled.module.name, "safe_plugin");
    assert!(compiled.casm.contains(".cap log.print@1"));
    assert_eq!(
        compiled.module.functions[0].source_lines.len(),
        compiled.module.functions[0].code.len()
    );
}

#[test]
fn rejects_undeclared_capability() {
    let source = r#"
          module bad
          fn main
            cap log.print@1("hello")
          end
        "#;
    assert!(compile(source).is_err());
}

#[test]
fn compiles_functions_branches_and_loops() {
    let source = r#"
          module language_demo

          fn bump(value)
            return value + 1
          end

          fn main
            let i = 0
            let total = 0
            while i < 4
              let total = total + bump(i)
              let i = i + 1
            end
            if total == 10
              return "ok"
            else
              return "bad"
            end
          end
        "#;
    let compiled = compile(source).unwrap();
    assert_eq!(compiled.module.functions.len(), 2);
    assert!(compiled.casm.contains(".fn bump r"));
    assert!(compiled.casm.contains("arity=1"));
    assert!(compiled.casm.contains("jump_if"));
    assert!(compiled.casm.contains("call r"));
}

#[test]
fn block_local_variables_do_not_leak() {
    let source = r#"
          module scoped
          fn main
            if true
              let hidden = 1
            end
            return hidden
          end
        "#;
    assert!(compile(source).is_err());
}

#[test]
fn compiles_parentheses_boolean_ops_and_print_sugar() {
    let source = r#"
          module ergonomic
          cap log.print@1(any...) -> nil "audit"

          fn main
            let score = 7
            if (score >= 5) and not (score != 7)
              print("accepted", score)
              return score > 6
            else
              print("rejected", score)
              return score <= 6
            end
          end
        "#;
    let compiled = compile(source).unwrap();
    assert!(compiled.casm.contains("cap_call"));
    assert!(compiled.casm.contains("log.print@1"));
    assert!(compiled.casm.contains("lt r"));
    assert!(compiled.casm.contains("eq r"));
}

#[test]
fn compiled_text_is_exact_for_a_small_program() {
    let source = "module tiny\nfn main\n  return 1 + 2\nend\n";
    let compiled = compile(source).unwrap();
    assert_eq!(
        compiled.casm,
        ".module \"tiny\"\n\n.fn main r3\n  const r0, 1\n  const r1, 2\n  add r2, r0, r1\n  ret r2\n.end\n\n"
    );
    assert_eq!(compiled.module.constants.len(), 2);
    assert_eq!(compiled.module.exports, vec![("main".to_string(), 0)]);
    assert_eq!(compiled.module.functions[0].source_lines, vec![Some(3), Some(3), Some(3), Some(3)]);
}

#[test]
fn function_without_return_ends_with_nil() {
    let compiled = compile("module m\nfn main\n  let x = 5\nend\n").unwrap();
    let code = &compiled.module.functions[0].code;
    assert!(matches!(code.last(), Some(Instruction::Ret { src: 1 })));
    assert!(matches!(compiled.module.constants[1], Value::Nil));
    assert_eq!(compiled.module.functions[0].source_lines[2], None);
}

#[test]
fn float_literals_are_read_once_and_rendered() {
    let source = "module f\nfn main\n  return 1.5 + 0.25\nend\n";
    let first = Compiler::compile(source, &Vec::new());
    match first {
        Compilation::NeedsFloat(t) => assert_eq!(t, "1.5"),
        other => panic!("expected a request, got {other:?}"),
    }
    let compiled = compile(source).unwrap();
    assert!(compiled.casm.contains("const r0, 1.5"));
    assert!(compiled.casm.contains("const r1, 0.25"));
    assert!(matches!(compiled.module.constants[0], Value::F64(b) if b == 1.5f64.to_bits()));
}

#[test]
fn missing_module_and_missing_function_are_reported() {
    assert!(matches!(compile("fn main\n  return 1\nend\n"), Err(LangError::MissingModule)));
    assert!(matches!(compile("module empty\n"), Err(LangError::MissingFunction)));
}

#[test]
fn line_errors_name_their_line() {
    let err = compile("module m\nfn main\n  return nope\nend\n").unwrap_err();
    assert_eq!(err.to_text(), "line 3: unknown variable nope");
    let err = compile("module m\nfn main\n  while true\n    return 1\n").unwrap_err();
    assert_eq!(err.to_text(), "line 2: function missing end");
    let err = compile("module m\nfn helper\n  return 1\nend\n").unwrap_err();
    assert_eq!(err.to_text(), "line 0: program must define main");
    let err = compile("module m\nfn main\n  return 1\nend\nfn main\n  return 2\nend\n").unwrap_err();
    assert_eq!(err.to_text(), "line 5: duplicate function main");
    let err = compile("module m\nfn main(a, a)\n  return a\nend\n").unwrap_err();
    assert_eq!(err.to_text(), "line 0: duplicate parameter a");
    let err = compile("module m\nfn main\n  else\nend\n").unwrap_err();
    assert_eq!(err.to_text(), "line 3: else without matching if");
    let err = compile("module m\nwhat\n").unwrap_err();
    assert_eq!(err.to_text(), "line 2: expected module, cap, or fn");
    let err = compile("module m\nfn main\n  return undefined_fn(1)\nend\n").unwrap_err();
    assert_eq!(err.to_text(), "line 3: unknown function undefined_fn");
}

#[test]
fn comments_and_quoted_module_names() {
    let compiled = compile("module \"quoted name\" # the name\n# a comment\nfn main # entry\n  return \"a # b\"\nend\n").unwrap();
    assert_eq!(compiled.module.name, "quoted name");
    assert!(matches!(&compiled.module.constants[0], Value::String(s) if s == "a # b"));
    assert!(compiled.casm.starts_with(".module \"quoted name\"\n"));
}

#[test]
fn verifier_failures_are_reported_as_such() {
    let err = compile("module m\ncap log.print@1(any..., i64) -> nil\nfn main\n  return 1\nend\n").unwrap_err();
    assert!(matches!(err, LangError::Verify(_)));
}

#[test]
fn deeply_parenthesized_expressions_are_read() {
    let compiled = compile("module p\nfn main\n  return ((((((1 + 2))))))\nend\n").unwrap();
    assert!(compiled.casm.contains("add r2, r0, r1"));
}

#[test]
fn every_function_is_exported_under_its_name() {
    let compiled = compile("module e\nfn zeta\n  return 1\nend\nfn main\n  return zeta()\nend\n").unwrap();
    assert_eq!(compiled.module.exports, vec![("main".to_string(), 1), ("zeta".to_string(), 0)]);
}

#[test]
fn names_with_quotes_are_escaped_in_assembly_text() {
    let compiled = compile("module \"say \\\"hi\\\"\"\nfn main\n  return \"back\\\\slash\"\nend\n").unwrap();
    assert_eq!(compiled.module.name, "say \"hi\"");
    assert!(compiled.casm.starts_with(".module \"say \\\"hi\\\"\"\n"));
    assert!(compiled.casm.contains("const r0, \"back\\\\\\\\slash\""));
}

#[test]
fn operators_of_one_level_group_to_the_left() {
    let compiled = compile("module s\nfn main\n  return 10 - 2 - 3\nend\n").unwrap();
    assert_eq!(
        compiled.casm,
        ".module \"s\"\n\n.fn main r5\n  const r0, 10\n  const r1, 2\n  sub r2, r0, r1\n  const r3, 3\n  sub r4, r2, r3\n  ret r4\n.end\n\n"
    );
    let compiled = compile("module s\nfn main\n  return 1 + 2 * 3 - 4\nend\n").unwrap();
    assert!(compiled.casm.contains("mul r3, r1, r2\n  add r4, r0, r3\n  const r5, 4\n  sub r6, r4, r5\n"), "{}", compiled.casm);
}
