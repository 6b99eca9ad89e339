use chronicle::bytecode::{builtin_signature, CapabilityDecl, Function, Instruction, Module};
use chronicle::checks::Verifier;
use chronicle::error::{ChronicleError, PolicyErrorKind, VerifyErrorKind};
use chronicle::machine::{ArithOp, Number, VmLimits};
use chronicle::policy::{CapabilityDecision, HostPolicy, HostRegistry, NegotiationStatus};
use chronicle::trace::{ReplayReport, Trace, TraceEvent};
use chronicle::value::{Value, ValueType};
use chronicle::vm::{HostReply, HostRequest, Step, Vm};

fn number(n: Number) -> f64 {
    match n {
        Number::I64(i) => i as f64,
        Number::F64(b) => f64::from_bits(b),
    }
}

/// What a host answers; the clock and randomness are fixed here so that runs repeat.
fn answer(request: &HostRequest) -> HostReply {
    match request {
        HostRequest::Arith { op, lhs, rhs } => {
            let (a, b) = (number(*lhs), number(*rhs));
            let r = match op {
                ArithOp::Add => a + b,
                ArithOp::Sub => a - b,
                ArithOp::Mul => a * b,
                ArithOp::Div => a / b,
            };
            HostReply::Float(r.to_bits())
        }
        HostRequest::Less { lhs, rhs } => HostReply::Truth(number(*lhs) < number(*rhs)),
        HostRequest::Print { .. } => HostReply::Done,
        HostRequest::Clock => HostReply::Time(Ok(1_700_000_000)),
        HostRequest::Random => HostReply::Time(Ok(12345)),
        HostRequest::Call { capability, args } => {
            if capability == "kv.get@1" && args.len() == 1 {
                HostReply::Returned(Ok(Value::String("stored".to_string())))
            } else {
                HostReply::Returned(Err(format!("no handler registered for {capability}")))
            }
        }
    }
}

fn drive(vm: &mut Vm, entry: &str, live: bool) -> (Result<Value, ChronicleError>, Vec<TraceEvent>) {
    if let Err(e) = vm.start(entry, live) {
        return (Err(e), vm.take_events());
    }
    let mut step = vm.step();
    loop {
        step = match step {
            Step::Running => vm.step(),
            Step::Host(request) => {
                let reply = answer(&request);
                vm.resume(reply)
            }
            Step::Finished(result) => return (result, vm.take_events()),
            Step::Idle => panic!("the machine has no run"),
        };
    }
}

fn run_entry(vm: &mut Vm, entry: &str) -> Result<Value, ChronicleError> {
    drive(vm, entry, true).0
}

fn run_with_trace(vm: &mut Vm, entry: &str) -> Trace {
    let (result, events) = drive(vm, entry, true);
    vm.trace_of(entry, result, events)
}

fn replay(trace: Trace) -> Result<ReplayReport, ChronicleError> {
    let mut vm = Vm::for_replay(&trace)?;
    let (result, events) = drive(&mut vm, &trace.entry, false);
    Vm::check_replay(&trace, result, events)
}

fn policy_grant(name: &str) -> HostPolicy {
    HostPolicy { decisions: vec![(name.into(), CapabilityDecision::Grant)] }
}

fn no_policy() -> HostPolicy {
    HostPolicy { decisions: vec![] }
}

fn cap(id: &str) -> CapabilityDecl {
    builtin_signature(id).unwrap()
}

fn one_function(name: &str, constants: Vec<Value>, capabilities: Vec<CapabilityDecl>, registers: usize, code: Vec<Instruction>) -> Module {
    let source_lines = (1..=code.len()).map(Some).collect();
    Module {
        name: name.into(),
        constants,
        capabilities,
        functions: vec![Function { name: "main".into(), registers, arity: 0, code, source_lines }],
        exports: vec![("main".into(), 0)],
    }
}

#[test]
fn verifies_register_bounds() {
    let module = one_function("bad", vec![Value::I64(1)], vec![], 1, vec![Instruction::Const { dst: 2, constant: 0 }]);
    let err = Verifier::verify(&module).unwrap_err();
    match err {
        ChronicleError::Verify(err) => assert_eq!(err.kind, VerifyErrorKind::RegisterOutOfBounds),
        other => panic!("unexpected error {other:?}"),
    }
}

#[test]
fn runs_and_replays_capability_result() {
    let module = one_function(
        "clock",
        vec![],
        vec![cap("clock.now@1")],
        1,
        vec![
            Instruction::CapCall { dst: 0, capability: "clock.now@1".into(), args: vec![] },
            Instruction::Ret { src: 0 },
        ],
    );
    let mut vm = Vm::new(module, policy_grant("clock.now@1")).unwrap();
    let trace = run_with_trace(&mut vm, "main");
    let report = replay(trace).unwrap();
    assert_eq!(report.events_checked, 2);
}

#[test]
fn instruction_limit_is_recorded_in_trace() {
    let module = one_function(
        "limited",
        vec![Value::I64(1)],
        vec![],
        2,
        vec![
            Instruction::Const { dst: 0, constant: 0 },
            Instruction::Const { dst: 1, constant: 0 },
            Instruction::Ret { src: 1 },
        ],
    );
    let mut vm = Vm::new(module, no_policy()).unwrap().with_limits(VmLimits {
        max_instructions: Some(1),
        max_call_depth: None,
        max_registers: None,
        max_array_items: None,
    });
    let trace = run_with_trace(&mut vm, "main");
    assert_eq!(trace.events.len(), 2);
    assert!(trace.error.unwrap().contains("instruction budget"));
    assert!(trace.events[1].error.as_ref().unwrap().contains("instruction budget"));
}

#[test]
fn denies_missing_policy_capability_before_execution() {
    let module = one_function("denied", vec![], vec![cap("log.print@1")], 1, vec![Instruction::Ret { src: 0 }]);
    assert!(Vm::new(module, no_policy()).is_err());
}

#[test]
fn mock_capability_returns_policy_value() {
    let module = one_function(
        "mock",
        vec![],
        vec![cap("random.u64@1")],
        1,
        vec![
            Instruction::CapCall { dst: 0, capability: "random.u64@1".into(), args: vec![] },
            Instruction::Ret { src: 0 },
        ],
    );
    let policy = HostPolicy { decisions: vec![("random.u64@1".into(), CapabilityDecision::Mock(Value::I64(42)))] };
    let mut vm = Vm::new(module, policy).unwrap();
    assert!(matches!(run_entry(&mut vm, "main").unwrap(), Value::I64(42)));
}

#[test]
fn detects_replay_divergence() {
    let module = one_function(
        "diverge",
        vec![Value::I64(1)],
        vec![],
        1,
        vec![Instruction::Const { dst: 0, constant: 0 }, Instruction::Ret { src: 0 }],
    );
    let mut vm = Vm::new(module, no_policy()).unwrap();
    let mut trace = run_with_trace(&mut vm, "main");
    trace.events[0].opcode = "changed".into();
    let err = replay(trace).unwrap_err();
    match err {
        ChronicleError::Replay(err) => assert_eq!(err.diff.unwrap().index, 0),
        other => panic!("unexpected error {other:?}"),
    }
}

#[test]
fn binary_module_round_trips() {
    let mut decl = cap("log.print@1");
    decl.reason = Some("test".into());
    let module = Module {
        name: "roundtrip".into(),
        constants: vec![
            Value::I64(7),
            Value::String("value".into()),
            Value::Array(vec![Value::Bool(true), Value::Nil]),
        ],
        capabilities: vec![decl],
        functions: vec![Function {
            name: "main".into(),
            registers: 3,
            arity: 0,
            code: vec![
                Instruction::Const { dst: 0, constant: 0 },
                Instruction::Const { dst: 1, constant: 1 },
                Instruction::CapCall { dst: 2, capability: "log.print@1".into(), args: vec![1] },
                Instruction::Ret { src: 0 },
            ],
            source_lines: vec![Some(10), Some(11), Some(12), Some(13)],
        }],
        exports: vec![("main".into(), 0)],
    };
    let bytes = module.to_bytes().unwrap();
    assert!(bytes.starts_with(b"CHVMOD2"));
    let decoded = Module::from_binary_bytes(&bytes).unwrap();
    assert_eq!(format!("{decoded:?}"), format!("{module:?}"));
    Verifier::verify(&decoded).unwrap();
}

#[test]
fn old_binary_version_is_rejected() {
    let mut bytes = b"CHVMOD1".to_vec();
    bytes.extend_from_slice(&[0, 0, 0, 0]);
    assert!(Module::is_binary_encoding(&bytes));
    let err = Module::from_binary_bytes(&bytes).unwrap_err();
    match err {
        ChronicleError::Verify(err) => assert_eq!(err.kind, VerifyErrorKind::UnsupportedBytecodeVersion),
        other => panic!("unexpected error {other:?}"),
    }
}

#[test]
fn truncated_binary_is_rejected() {
    let bytes = b"CHVMOD2".to_vec();
    assert!(Module::from_binary_bytes(&bytes).is_err());
}

#[test]
fn mock_type_mismatch_fails_negotiation() {
    let module = one_function("mock-type", vec![], vec![cap("clock.now@1")], 1, vec![Instruction::Ret { src: 0 }]);
    let policy = HostPolicy { decisions: vec![("clock.now@1".into(), CapabilityDecision::Mock(Value::String("bad".into())))] };
    match Vm::new(module, policy) {
        Err(ChronicleError::Policy(err)) => assert_eq!(err.kind, PolicyErrorKind::MockTypeMismatch),
        Err(other) => panic!("unexpected error {other:?}"),
        Ok(_) => panic!("the mock of the wrong type was accepted"),
    }
}

#[test]
fn assembled_branch_array_program_executes() {
    let source = r#"
          .module "branch-array"
          .fn main r6
            const r0, 1
            const r1, 2
            lt r2, r0, r1
            jump_if r2, yes
            const r3, 99
            ret r3
          yes:
            array_new r4, r0, r1
            array_get r5, r4, r0
            ret r5
          .end
        "#;
    let module = match chronicle::assembler::Assembler::parse(source, &Vec::new()) {
        chronicle::assembler::Assembly::Done(r) => r.unwrap(),
        other => panic!("unexpected {other:?}"),
    };
    Verifier::verify(&module).unwrap();
    let mut vm = Vm::new(module, no_policy()).unwrap();
    assert!(matches!(run_entry(&mut vm, "main").unwrap(), Value::I64(2)));
}

#[test]
fn compiled_language_program_runs_and_replays() {
    let source = r#"
          module language_demo

          fn bump(value)
            return value + 1
          end

          fn main
            let i = 0
            let total = 0
            while i < 4
              let total = total + bump(i)
              let i = i + 1
            end
            if total == 10
              return "ok"
            else
              return "bad"
            end
          end
        "#;
    let compiled = match chronicle::compiler::Compiler::compile(source, &Vec::new()) {
        chronicle::compiler::Compilation::Done(r) => r.unwrap(),
        other => panic!("unexpected {other:?}"),
    };
    let mut vm = Vm::new(compiled.module, no_policy()).unwrap();
    let trace = run_with_trace(&mut vm, "main");
    assert!(matches!(&trace.result, Some(Value::String(s)) if s == "ok"));
    let report = replay(trace).unwrap();
    assert!(report.events_checked > 10);
}

#[test]
fn float_arithmetic_goes_through_the_host() {
    let module = one_function(
        "floats",
        vec![Value::F64(1.5f64.to_bits()), Value::I64(2)],
        vec![],
        3,
        vec![
            Instruction::Const { dst: 0, constant: 0 },
            Instruction::Const { dst: 1, constant: 1 },
            Instruction::Mul { dst: 2, lhs: 0, rhs: 1 },
            Instruction::Ret { src: 2 },
        ],
    );
    let mut vm = Vm::new(module, no_policy()).unwrap();
    assert!(matches!(run_entry(&mut vm, "main").unwrap(), Value::F64(b) if b == 3.0f64.to_bits()));
}

#[test]
fn integer_division_by_zero_is_a_runtime_error() {
    let module = one_function(
        "div",
        vec![Value::I64(1), Value::I64(0)],
        vec![],
        3,
        vec![
            Instruction::Const { dst: 0, constant: 0 },
            Instruction::Const { dst: 1, constant: 1 },
            Instruction::Div { dst: 2, lhs: 0, rhs: 1 },
            Instruction::Ret { src: 2 },
        ],
    );
    let mut vm = Vm::new(module, no_policy()).unwrap();
    let err = run_entry(&mut vm, "main").unwrap_err();
    assert!(matches!(err, ChronicleError::Runtime(_)));
}

#[test]
fn missing_entry_is_reported() {
    let module = one_function("entry", vec![], vec![], 1, vec![Instruction::Ret { src: 0 }]);
    let mut vm = Vm::new(module, no_policy()).unwrap();
    let err = run_entry(&mut vm, "other").unwrap_err();
    assert_eq!(err.to_text(), "runtime error: missing entry export other");
}

/// A host that refuses to be asked for anything but arithmetic.
fn arithmetic_only(request: &HostRequest) -> HostReply {
    match request {
        HostRequest::Arith { .. } | HostRequest::Less { .. } => answer(request),
        other => panic!("replay asked the outside world: {other:?}"),
    }
}

#[test]
fn replay_reads_capabilities_from_the_trace() {
    let module = one_function(
        "clock",
        vec![],
        vec![cap("clock.now@1")],
        1,
        vec![
            Instruction::CapCall { dst: 0, capability: "clock.now@1".into(), args: vec![] },
            Instruction::Ret { src: 0 },
        ],
    );
    let mut vm = Vm::new(module, policy_grant("clock.now@1")).unwrap();
    let trace = run_with_trace(&mut vm, "main");
    let mut replayer = Vm::for_replay(&trace).unwrap();
    replayer.start("main", false).unwrap();
    let mut step = replayer.step();
    let result = loop {
        step = match step {
            Step::Running => replayer.step(),
            Step::Host(request) => {
                let reply = arithmetic_only(&request);
                replayer.resume(reply)
            }
            Step::Finished(result) => break result,
            Step::Idle => panic!("no run"),
        };
    };
    assert!(matches!(result, Ok(Value::I64(1_700_000_000))));
    let events = replayer.take_events();
    let report = Vm::check_replay(&trace, Ok(Value::I64(1_700_000_000)), events).unwrap();
    assert_eq!(report.trace_checksum, trace.checksum);
}

#[test]
fn call_depth_limit_stops_recursion() {
    let module = Module {
        name: "deep".into(),
        constants: vec![],
        capabilities: vec![],
        functions: vec![Function {
            name: "main".into(),
            registers: 1,
            arity: 0,
            code: vec![
                Instruction::Call { dst: 0, function: "main".into(), args: vec![] },
                Instruction::Ret { src: 0 },
            ],
            source_lines: vec![Some(1), Some(2)],
        }],
        exports: vec![("main".into(), 0)],
    };
    let mut vm = Vm::new(module, no_policy()).unwrap().with_limits(VmLimits {
        max_instructions: None,
        max_call_depth: Some(8),
        max_registers: None,
        max_array_items: None,
    });
    let err = run_entry(&mut vm, "main").unwrap_err();
    assert!(matches!(err, ChronicleError::ResourceLimit(_)));
}

#[test]
fn capability_audit_counts_each_capability_in_id_order() {
    let module = one_function(
        "audit",
        vec![],
        vec![cap("random.u64@1"), cap("clock.now@1")],
        3,
        vec![
            Instruction::CapCall { dst: 0, capability: "random.u64@1".into(), args: vec![] },
            Instruction::CapCall { dst: 1, capability: "clock.now@1".into(), args: vec![] },
            Instruction::CapCall { dst: 2, capability: "random.u64@1".into(), args: vec![] },
            Instruction::Ret { src: 2 },
        ],
    );
    let policy = HostPolicy {
        decisions: vec![
            ("clock.now@1".into(), CapabilityDecision::Grant),
            ("random.u64@1".into(), CapabilityDecision::Mock(Value::I64(4))),
        ],
    };
    let mut vm = Vm::new(module, policy).unwrap();
    let trace = run_with_trace(&mut vm, "main");
    let counts = chronicle::audit::capability_audit(&trace.events);
    assert_eq!(counts, vec![("clock.now@1".to_string(), 1, 1, 0), ("random.u64@1".to_string(), 2, 0, 2)]);
}

#[test]
fn binary_strings_keep_their_characters() {
    let module = one_function(
        "naïve ünïcode ✓",
        vec![Value::String("grüße \"quoted\"".into())],
        vec![],
        1,
        vec![Instruction::Const { dst: 0, constant: 0 }, Instruction::Ret { src: 0 }],
    );
    let bytes = module.to_bytes().unwrap();
    let decoded = Module::from_binary_bytes(&bytes).unwrap();
    assert_eq!(decoded.name, "naïve ünïcode ✓");
    assert!(matches!(&decoded.constants[0], Value::String(s) if s == "grüße \"quoted\""));
}

#[test]
fn invalid_utf8_in_a_binary_string_is_a_decode_error() {
    let module = one_function("ab", vec![], vec![], 1, vec![Instruction::Ret { src: 0 }]);
    let mut bytes = module.to_bytes().unwrap();
    let at = bytes.windows(2).position(|w| w == b"ab").unwrap();
    bytes[at] = 0xff;
    let err = Module::from_binary_bytes(&bytes).unwrap_err();
    match err {
        ChronicleError::Decode(text) => assert!(text.contains("utf-8")),
        other => panic!("unexpected error {other:?}"),
    }
}

fn kv_get(params: Vec<ValueType>) -> CapabilityDecl {
    CapabilityDecl { id: "kv.get@1".into(), params, return_type: ValueType::Any, reason: Some("read app-owned plugin state".into()) }
}

fn kv_module() -> Module {
    one_function(
        "kv",
        vec![Value::String("key".into())],
        vec![kv_get(vec![ValueType::String])],
        2,
        vec![
            Instruction::Const { dst: 0, constant: 0 },
            Instruction::CapCall { dst: 1, capability: "kv.get@1".into(), args: vec![0] },
            Instruction::Ret { src: 1 },
        ],
    )
}

#[test]
fn granted_capability_the_host_does_not_register_fails_before_running() {
    match Vm::new(kv_module(), policy_grant("kv.get@1")) {
        Err(ChronicleError::Policy(e)) => {
            assert_eq!(e.kind, PolicyErrorKind::UnsupportedCapabilityVersion);
            assert_eq!(e.capability, "kv.get@1");
        }
        Err(other) => panic!("unexpected error {other:?}"),
        Ok(_) => panic!("the machine was admitted"),
    }
    let report = policy_grant("kv.get@1").negotiate(&kv_module());
    assert_eq!(report.entries[0].status, NegotiationStatus::Unknown);
}

#[test]
fn host_registered_capability_is_called_and_replayed() {
    let mut host = HostRegistry::with_builtins();
    host.insert(kv_get(vec![ValueType::String]));
    assert_eq!(host.capabilities.len(), 4);
    let report = policy_grant("kv.get@1").negotiate_with_host(&kv_module(), &host);
    assert_eq!(report.entries[0].status, NegotiationStatus::Granted);
    let mut vm = Vm::new_with_host(kv_module(), policy_grant("kv.get@1"), &host).unwrap();
    let trace = run_with_trace(&mut vm, "main");
    assert!(matches!(&trace.result, Some(Value::String(s)) if s == "stored"));
    let call = trace.events[1].capability.as_ref().unwrap();
    assert_eq!(call.id, "kv.get@1");
    let report = replay(trace).unwrap();
    assert_eq!(report.events_checked, 3);
}

#[test]
fn host_signature_that_differs_from_the_declaration_fails_before_running() {
    let mut host = HostRegistry::with_builtins();
    host.insert(kv_get(vec![]));
    match Vm::new_with_host(kv_module(), policy_grant("kv.get@1"), &host) {
        Err(ChronicleError::Policy(e)) => assert_eq!(e.capability, "kv.get@1"),
        Err(other) => panic!("unexpected error {other:?}"),
        Ok(_) => panic!("the machine was admitted"),
    }
    let report = policy_grant("kv.get@1").negotiate_with_host(&kv_module(), &host);
    assert_eq!(report.entries[0].status, NegotiationStatus::TypeInvalid);
}

#[test]
fn instruction_limited_trace_replays_as_evidence() {
    let module = one_function(
        "limited",
        vec![Value::I64(1)],
        vec![],
        2,
        vec![
            Instruction::Const { dst: 0, constant: 0 },
            Instruction::Const { dst: 1, constant: 0 },
            Instruction::Ret { src: 1 },
        ],
    );
    let mut vm = Vm::new(module, no_policy()).unwrap().with_limits(VmLimits {
        max_instructions: Some(1),
        max_call_depth: None,
        max_registers: None,
        max_array_items: None,
    });
    let trace = run_with_trace(&mut vm, "main");
    assert_eq!(trace.events.len(), 2);
    assert!(trace.error.as_ref().unwrap().contains("instruction budget"));
    let checksum = trace.checksum;
    let report = replay(trace).unwrap();
    assert_eq!(report.events_checked, 2);
    assert!(report.result.is_none());
    assert_eq!(report.trace_checksum, checksum);
}

#[test]
fn trace_with_a_different_error_text_does_not_replay() {
    let module = one_function(
        "limited",
        vec![Value::I64(1)],
        vec![],
        2,
        vec![Instruction::Const { dst: 0, constant: 0 }, Instruction::Const { dst: 1, constant: 0 }, Instruction::Ret { src: 1 }],
    );
    let mut vm = Vm::new(module, no_policy()).unwrap().with_limits(VmLimits {
        max_instructions: Some(1),
        max_call_depth: None,
        max_registers: None,
        max_array_items: None,
    });
    let mut trace = run_with_trace(&mut vm, "main");
    trace.error = Some("something else".into());
    assert!(matches!(replay(trace), Err(ChronicleError::ResourceLimit(_))));
}

#[test]
fn policy_insert_replaces_an_earlier_decision() {
    let mut policy = HostPolicy::empty();
    policy.insert(&"clock.now@1".to_string(), &CapabilityDecision::Deny);
    policy.insert(&"clock.now@1".to_string(), &CapabilityDecision::Grant);
    assert_eq!(policy.decisions.len(), 1);
    assert!(matches!(policy.decisions[0].1, CapabilityDecision::Grant));
}

fn run_source(source: &str) -> Value {
    let compiled = match chronicle::compiler::Compiler::compile(source, &Vec::new()) {
        chronicle::compiler::Compilation::Done(r) => r.unwrap(),
        other => panic!("unexpected {other:?}"),
    };
    let mut vm = Vm::new(compiled.module, no_policy()).unwrap();
    run_entry(&mut vm, "main").unwrap()
}

#[test]
fn arithmetic_is_left_associative() {
    assert!(matches!(run_source("module a\nfn main\n  return 10 - 2 - 3\nend\n"), Value::I64(5)));
    assert!(matches!(run_source("module a\nfn main\n  return 100 / 10 / 5\nend\n"), Value::I64(2)));
    assert!(matches!(run_source("module a\nfn main\n  return 2 * 3 + 4 * 5 - 6\nend\n"), Value::I64(20)));
    assert!(matches!(run_source("module a\nfn main\n  return 10 - (2 - 3)\nend\n"), Value::I64(11)));
}

#[test]
fn bytes_after_an_encoding_are_refused() {
    let module = one_function("tail", vec![Value::I64(7)], vec![], 1, vec![Instruction::Const { dst: 0, constant: 0 }, Instruction::Ret { src: 0 }]);
    let mut bytes = module.to_bytes().unwrap();
    assert!(Module::from_binary_bytes(&bytes).is_ok());
    bytes.push(0);
    match Module::from_binary_bytes(&bytes) {
        Err(ChronicleError::Decode(text)) => assert_eq!(text, "trailing bytes in binary module"),
        other => panic!("unexpected outcome {other:?}"),
    }
}

#[test]
fn decoded_exports_come_out_in_name_order() {
    let mut module = one_function("order", vec![Value::I64(7)], vec![], 1, vec![Instruction::Const { dst: 0, constant: 0 }, Instruction::Ret { src: 0 }]);
    module.exports = vec![("zeta".into(), 0), ("alpha".into(), 0), ("main".into(), 0)];
    let bytes = module.to_bytes().unwrap();
    let decoded = Module::from_binary_bytes(&bytes).unwrap();
    assert_eq!(
        decoded.exports,
        vec![("alpha".to_string(), 0), ("main".to_string(), 0), ("zeta".to_string(), 0)]
    );
}

#[test]
fn running_an_entry_again_gives_the_same_outcome_and_events() {
    let source = "module again\nfn main\n  let i = 0\n  while i < 3\n    let i = i + 1\n  end\n  return i\nend\n";
    let compiled = match chronicle::compiler::Compiler::compile(source, &Vec::new()) {
        chronicle::compiler::Compilation::Done(r) => r.unwrap(),
        other => panic!("unexpected {other:?}"),
    };
    let module = compiled.module;
    let mut vm = Vm::new(module.clone(), no_policy()).unwrap();
    let (first, first_events) = drive(&mut vm, "main", true);
    let (second, second_events) = drive(&mut vm, "main", true);
    let mut fresh = Vm::new(module, no_policy()).unwrap();
    let (third, third_events) = drive(&mut fresh, "main", true);
    assert!(matches!(first, Ok(Value::I64(3))));
    assert!(matches!(second, Ok(Value::I64(3))));
    assert!(matches!(third, Ok(Value::I64(3))));
    assert_eq!(first_events.len(), second_events.len());
    assert_eq!(first_events.len(), third_events.len());
    for (a, b) in first_events.iter().zip(third_events.iter()) {
        assert_eq!(a.checksum, b.checksum);
        assert_eq!((a.pc, &a.opcode, a.source_line), (b.pc, &b.opcode, b.source_line));
    }
}

#[test]
fn a_budget_the_run_does_not_reach_changes_nothing() {
    let source = "module b\nfn main\n  return 10 - 2 - 3\nend\n";
    let compiled = match chronicle::compiler::Compiler::compile(source, &Vec::new()) {
        chronicle::compiler::Compilation::Done(r) => r.unwrap(),
        other => panic!("unexpected {other:?}"),
    };
    let code_len = compiled.module.functions[0].code.len();
    let mut unlimited = Vm::new(compiled.module.clone(), no_policy()).unwrap();
    let (free, free_events) = drive(&mut unlimited, "main", true);
    let mut limited = Vm::new(compiled.module, no_policy()).unwrap().with_limits(VmLimits {
        max_instructions: Some(code_len),
        max_call_depth: None,
        max_registers: None,
        max_array_items: None,
    });
    let (bounded, bounded_events) = drive(&mut limited, "main", true);
    assert!(matches!(free, Ok(Value::I64(5))));
    assert!(matches!(bounded, Ok(Value::I64(5))));
    assert_eq!(free_events.len(), bounded_events.len());
}

#[test]
fn the_builtin_host_registers_the_three_builtin_capabilities() {
    let host = HostRegistry::with_builtins();
    let ids: Vec<&str> = host.capabilities.iter().map(|d| d.id.as_str()).collect();
    assert_eq!(ids, vec!["log.print@1", "clock.now@1", "random.u64@1"]);
}

#[test]
fn truncated_encodings_are_decode_errors() {
    let module = one_function("cut", vec![Value::String("payload".into())], vec![], 1, vec![Instruction::Const { dst: 0, constant: 0 }, Instruction::Ret { src: 0 }]);
    let bytes = module.to_bytes().unwrap();
    for k in 8..bytes.len() {
        match Module::from_binary_bytes(&bytes[..k]) {
            Err(ChronicleError::Decode(_)) => {}
            Err(other) => panic!("prefix of {k} bytes: unexpected error {other:?}"),
            Ok(_) => panic!("prefix of {k} bytes decoded"),
        }
    }
}

#[test]
fn negotiation_table_holds_each_decision() {
    let module = one_function(
        "table",
        vec![],
        vec![cap("clock.now@1"), cap("random.u64@1")],
        1,
        vec![Instruction::Ret { src: 0 }],
    );
    let policy = HostPolicy {
        decisions: vec![
            ("random.u64@1".into(), CapabilityDecision::Mock(Value::I64(9))),
            ("clock.now@1".into(), CapabilityDecision::Grant),
        ],
    };
    let report = policy.negotiate(&module);
    assert!(report.is_success());
    let table = report.into_capability_table().unwrap();
    assert_eq!(table.len(), 2);
    assert!(table.iter().any(|(id, d)| id == "clock.now@1" && matches!(d, CapabilityDecision::Grant)));
    assert!(table.iter().any(|(id, d)| id == "random.u64@1" && matches!(d, CapabilityDecision::Mock(Value::I64(9)))));
}

#[test]
fn oversized_lengths_are_refused_before_reading() {
    let module = one_function("m", vec![], vec![], 1, vec![Instruction::Ret { src: 0 }]);
    let bytes = module.to_bytes().unwrap();
    let magic = &bytes[..8];

    let mut long_list = magic.to_vec();
    long_list.extend_from_slice(&1u32.to_le_bytes());
    long_list.push(b'm');
    long_list.extend_from_slice(&1_000_001u32.to_le_bytes());
    match Module::from_binary_bytes(&long_list) {
        Err(ChronicleError::Decode(text)) => assert_eq!(text, "binary module list too long"),
        other => panic!("unexpected outcome {other:?}"),
    }

    let mut at_limit = magic.to_vec();
    at_limit.extend_from_slice(&1u32.to_le_bytes());
    at_limit.push(b'm');
    at_limit.extend_from_slice(&1_000_000u32.to_le_bytes());
    match Module::from_binary_bytes(&at_limit) {
        Err(ChronicleError::Decode(text)) => assert_eq!(text, "unexpected end of binary module"),
        other => panic!("unexpected outcome {other:?}"),
    }

    let mut long_string = magic.to_vec();
    long_string.extend_from_slice(&(16 * 1024 * 1024 + 1u32).to_le_bytes());
    match Module::from_binary_bytes(&long_string) {
        Err(ChronicleError::Decode(text)) => assert_eq!(text, "binary module string too long"),
        other => panic!("unexpected outcome {other:?}"),
    }
}
