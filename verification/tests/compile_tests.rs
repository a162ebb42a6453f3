use frospy::compiler::{compile, make_thunk_ref_enum, main_function, CompilerOptions};

// The emitted text for the empty program, character for character: the
// given runtime text, the block-name enumeration, the dispatch loop, and
// the entry point.
#[test]
fn compile_empty_program_text() {
    let opts = CompilerOptions::default();
    let code = compile(&[], &opts, "HDR;").unwrap();
    let mut expected = String::new();
    for part in [
        "HDR;",
        "#[allow(non_camel_case_types)] #[derive(Clone, Debug, PartialEq)] enum ThunkRef {b0,b1}",
        "fn top_level(env: &mut Env, stack: &mut Stack) {",
        "let mut cur_frame =  Frame{tr: ThunkRef::b0, env: env.clone()};",
        "loop {",
        "match cur_frame.tr {",
        "ThunkRef::b0 => {",
        "stack.push(Value::Thunk { env: cur_frame.env.clone(), fp: ThunkRef::b1 });",
        "{ cur_frame = builtin_force_cc_bare(stack); }",
        "},",
        "ThunkRef::b1 => {",
        "break;",
        "},",
        "}",
        "}",
        "}",
        "\nfn main() {\n    println!(\"Hello, world!\");\n    let mut stack = Vec::new();\n    let mut env = make_env();\n    top_level(&mut env, &mut stack);\n}",
    ] {
        expected.push_str(part);
    }
    assert_eq!(code, expected);
}

#[test]
fn tracing_switches_add_trace_lines() {
    let opts = CompilerOptions {
        tracing_exec: true,
        ..Default::default()
    };
    let code = compile(&[], &opts, "").unwrap();
    assert!(code.contains("eprintln!(\"EXEC {:?}\", cur_frame.tr);"));
    let plain = compile(&[], &CompilerOptions::default(), "").unwrap();
    assert!(!plain.contains("EXEC"));
}

#[test]
fn thunk_ref_enum_lists_every_block() {
    let prog = vec![Vec::new(), Vec::new(), Vec::new()];
    let e = make_thunk_ref_enum(&prog);
    assert_eq!(
        e,
        "#[allow(non_camel_case_types)] #[derive(Clone, Debug, PartialEq)] enum ThunkRef {b0,b1,b2}"
    );
}

#[test]
fn main_function_text() {
    let m = main_function();
    assert!(m.contains("fn main()"));
    assert!(m.contains("top_level(&mut env, &mut stack);"));
}
