# chronicle

A replayable sandbox runtime for plugins, written in Verus: a bytecode model, a verifier, a
binary module codec, capability negotiation, a step-wise virtual machine with trace and
replay, an assembler for `.casm` text, a compiler for the `.chr` plugin language, and a trace
debugger's command interpreter. The library's functions carry contracts that Verus proves;
the only parts it believes without proof are the two wrappers around `String::from_utf8` and
`String::push` and the name for the standard library's UTF-8 error text.

## Layout

- `src/value.rs`, `src/bytecode.rs`, `src/trace.rs`, `src/error.rs`: the data model and its
  mathematical views.
- `src/checks.rs`: the module verifier.
- `src/codec.rs`, `src/roundtrip.rs`: the binary module format; the proof that decoding an
  encoded module gives it back, when every count, index and string fits the format's 32-bit
  fields, no list exceeds the reader's 1,000,000 items and no string its 16 MiB, and the
  export table is in name order (as every module that the decoder, the
  assembler and the compiler makes keeps it); and the proof that bytes after a complete
  encoding are refused.
- `src/module_laws.rs`, `src/prefix_laws.rs`: what a module that passes the verifier
  guarantees; that every constructor keeps export tables in name order; and that every
  proper prefix of an encoding is refused.
- `src/policy.rs`: capability negotiation against a host registry: a grant holds only for a
  capability that the host registers with exactly the declared signature.
- `src/machine.rs`, `src/vm.rs`: the machine as a state transformer and its implementation.
  The machine hands floating-point arithmetic, printing, the clock, randomness and the
  host's own capabilities to its host as requests and continues with the host's reply.
- `src/digest.rs`, `src/replay.rs`, `src/laws.rs`, `src/event_laws.rs`: event checksums, the
  replay check, and the laws of the runtime. A trace keeps the limits it was recorded under,
  and its replay runs under them. Replay reproduces a run and the check accepts it when no
  recorded value is a NaN and the run returned, or failed for a reason other than a policy
  decision while the host answered every capability request with a reply of its kind (a
  run stopped by the instruction budget or another limit replays as evidence). Replay asks
  the host for nothing but arithmetic; limits hold; an unreached budget changes nothing;
  runs are repeatable; admission; every recorded event names an instruction of the module.
- `src/syntax.rs`, `src/assembler.rs`: text handling and the assembler.
- `src/lang.rs`, `src/compiler.rs`, `src/language_laws.rs`: the plugin language, its compiler
  and the laws of the compiler (a compiled module passes the verifier, exports `main` and
  every function, and every function ends in `ret`). Binary operators bind in five levels (`or`; `and`;
  comparisons; `+` and `-`; `*` and `/`), and operators of one level group to the left.
- `src/debugger.rs`, `src/audit.rs`: the debugger's commands and the capability audit.
- `app/`: the `chronicle` command line: files, JSON and TOML, the host loop, printing.
- `tests/`: tests on concrete programs, modules and traces.

Numbers with a decimal point are read by the host: the assembler and the compiler hand back a
literal they have not seen yet, and the caller supplies its bits (and, for the compiler, its
text) in a table and asks again.
