use lang::code::CodegenError;
use lang::codegen::{codegen, gen, gen_expr, gen_lval};
use lang::emit::Listing;
use lang::parse::{program, Node};
use lang::tokenize::tokenize;
use lang::{compile, CompileError};
use std::collections::VecDeque;

fn generate(src: &str) -> Result<String, CodegenError> {
    let mut tokens = tokenize(src.chars().collect()).unwrap();
    codegen(program(&mut tokens).unwrap())
}

fn lines(text: &str) -> Vec<&str> {
    text.lines().collect()
}

fn function(name: &str, parameters: Vec<Node>, stack_size: u32, body: Vec<Node>) -> Node {
    Node::ND_FUNCTION {
        name: String::from(name),
        body,
        parameters: VecDeque::from(parameters),
        stack_size,
    }
}

fn bx(node: Node) -> Box<Node> {
    Box::new(node)
}

/// The lines of the body of the only routine in `text`: what stands between
/// the prologue and the epilogue label.
fn body_lines(text: &str) -> Vec<String> {
    let all = lines(text);
    let start = all.iter().position(|l| l.starts_with("  sub rsp, ")).unwrap() + 1;
    let end = all.iter().position(|l| l.starts_with(".L.return.")).unwrap();
    all[start..end].iter().map(|l| l.to_string()).collect()
}

fn net_pushes(code: &[String]) -> i64 {
    let mut depth: i64 = 0;
    for line in code {
        if line.starts_with("  push ") {
            depth += 1;
        }
        if line.starts_with("  pop ") {
            depth -= 1;
        }
    }
    depth
}

fn numbered_labels(text: &str) -> Vec<String> {
    lines(text)
        .iter()
        .filter(|l| l.starts_with(".L") && l.ends_with(':') && !l.starts_with(".L.return."))
        .map(|l| l.to_string())
        .collect()
}

#[test]
fn empty_program_has_no_code() {
    assert_eq!(codegen(Vec::new()), Ok(String::new()));
    assert_eq!(compile(Vec::new()), Ok(String::from(".intel_syntax noprefix\n")));
}

#[test]
fn smallest_function() {
    let expected = "\
.global a
a:
  push rbp
  mov rbp, rsp
  sub rsp, 0
  push 1
  pop rax
  jmp .L.return.a
.L.return.a:
  mov rsp, rbp
  pop rbp
  ret
";
    assert_eq!(generate("a(){ return 1; }").unwrap(), expected);
}

#[test]
fn sum_of_products_code() {
    let expected = "\
.intel_syntax noprefix
.global a
a:
  push rbp
  mov rbp, rsp
  sub rsp, 16
  lea rax, [rbp-16]
  push rax
  push 3
  pop rdi
  pop rax
  mov [rax], rdi
  push rdi
  pop rax
  lea rax, [rbp-8]
  push rax
  push 5
  pop rdi
  pop rax
  mov [rax], rdi
  push rdi
  pop rax
  lea rax, [rbp-16]
  push rax
  pop rax
  mov rax, [rax]
  push rax
  lea rax, [rbp-8]
  push rax
  pop rax
  mov rax, [rax]
  push rax
  push 2
  pop rdi
  pop rax
  imul rax, rdi
  push rax
  pop rdi
  pop rax
  add rax, rdi
  push rax
  pop rax
  jmp .L.return.a
.L.return.a:
  mov rsp, rbp
  pop rbp
  ret
";
    assert_eq!(
        compile("a(){ x=3; y=5; return x+y*2; }".chars().collect()).unwrap(),
        expected
    );
}

#[test]
fn recursive_calls_pass_one_argument_and_align_the_stack() {
    let expected = "\
.intel_syntax noprefix
.global f
f:
  push rbp
  mov rbp, rsp
  sub rsp, 8
  mov [rbp-8], rdi
  lea rax, [rbp-8]
  push rax
  pop rax
  mov rax, [rax]
  push rax
  push 2
  pop rdi
  pop rax
  cmp rax, rdi
  setl al
  movzb rax, al
  push rax
  pop rax
  cmp rax, 0
  je  .Lelse0
  lea rax, [rbp-8]
  push rax
  pop rax
  mov rax, [rax]
  push rax
  pop rax
  jmp .L.return.f
  jmp .Lend0
.Lelse0:
.Lend0:
  lea rax, [rbp-8]
  push rax
  pop rax
  mov rax, [rax]
  push rax
  push 1
  pop rdi
  pop rax
  sub rax, rdi
  push rax
  pop rdi
  mov rax, rsp
  and rax, 15
  jnz .L.call.1
  mov rax, 0
  call f
  jmp .L.end.1
.L.call.1:
  sub rsp, 8
  mov rax, 0
  call f
  add rsp, 8
.L.end.1:
  push rax
  lea rax, [rbp-8]
  push rax
  pop rax
  mov rax, [rax]
  push rax
  push 2
  pop rdi
  pop rax
  sub rax, rdi
  push rax
  pop rdi
  mov rax, rsp
  and rax, 15
  jnz .L.call.2
  mov rax, 0
  call f
  jmp .L.end.2
.L.call.2:
  sub rsp, 8
  mov rax, 0
  call f
  add rsp, 8
.L.end.2:
  push rax
  pop rdi
  pop rax
  add rax, rdi
  push rax
  pop rax
  jmp .L.return.f
.L.return.f:
  mov rsp, rbp
  pop rbp
  ret
";
    assert_eq!(
        compile("f(n){ if(n<2) return n; return f(n-1)+f(n-2); }".chars().collect()).unwrap(),
        expected
    );
}

#[test]
fn endless_for_has_no_test() {
    let expected = "\
.global f
f:
  push rbp
  mov rbp, rsp
  sub rsp, 0
.Lbegin0:
  push 1
  pop rax
  jmp .L.return.f
  jmp  .Lbegin0
.Lend0:
.L.return.f:
  mov rsp, rbp
  pop rbp
  ret
";
    assert_eq!(generate("f(){ for (;;) { return 1; } }").unwrap(), expected);
}

#[test]
fn for_with_all_clauses_discards_initializer_and_increment() {
    let expected_body = vec![
        "  lea rax, [rbp-8]",
        "  push rax",
        "  push 0",
        "  pop rdi",
        "  pop rax",
        "  mov [rax], rdi",
        "  push rdi",
        "  pop rax",
        ".Lbegin0:",
        "  lea rax, [rbp-8]",
        "  push rax",
        "  pop rax",
        "  mov rax, [rax]",
        "  push rax",
        "  push 3",
        "  pop rdi",
        "  pop rax",
        "  cmp rax, rdi",
        "  setl al",
        "  movzb rax, al",
        "  push rax",
        "  pop rax",
        "  cmp rax, 0",
        "  je  .Lend0",
        "  lea rax, [rbp-8]",
        "  push rax",
        "  lea rax, [rbp-8]",
        "  push rax",
        "  pop rax",
        "  mov rax, [rax]",
        "  push rax",
        "  push 1",
        "  pop rdi",
        "  pop rax",
        "  add rax, rdi",
        "  push rax",
        "  pop rdi",
        "  pop rax",
        "  mov [rax], rdi",
        "  push rdi",
        "  pop rax",
        "  jmp  .Lbegin0",
        ".Lend0:",
    ];
    let text = generate("f(){ for (i=0; i<3; i=i+1) {} }").unwrap();
    assert_eq!(body_lines(&text), expected_body);
}

#[test]
fn while_tests_before_every_round() {
    let expected_body = vec![
        ".Lbegin0:",
        "  push 1",
        "  pop rax",
        "  cmp rax, 0",
        "  je  .Lend0",
        "  push 2",
        "  pop rax",
        "  jmp  .Lbegin0",
        ".Lend0:",
    ];
    let text = generate("f(){ while (1) 2; }").unwrap();
    assert_eq!(body_lines(&text), expected_body);
}

#[test]
fn if_with_else_jumps_over_the_alternative() {
    let expected_body = vec![
        "  push 1",
        "  pop rax",
        "  cmp rax, 0",
        "  je  .Lelse0",
        "  push 2",
        "  pop rax",
        "  jmp .Lend0",
        ".Lelse0:",
        "  push 3",
        "  pop rax",
        ".Lend0:",
    ];
    let text = generate("f(){ if (1) 2; else 3; }").unwrap();
    assert_eq!(body_lines(&text), expected_body);
}

#[test]
fn every_operator_has_its_instructions() {
    let op = |src: &str| -> Vec<String> {
        let text = generate(&format!("f(){{ return 6{}3; }}", src)).unwrap();
        let body = body_lines(&text);
        body[4..body.len() - 3].to_vec()
    };
    assert_eq!(op("+"), vec!["  add rax, rdi"]);
    assert_eq!(op("-"), vec!["  sub rax, rdi"]);
    assert_eq!(op("*"), vec!["  imul rax, rdi"]);
    assert_eq!(op("/"), vec!["  cqo", "  idiv rdi"]);
    assert_eq!(op("=="), vec!["  cmp rax, rdi", "  sete al", "  movzb rax, al"]);
    assert_eq!(op("!="), vec!["  cmp rax, rdi", "  setne al", "  movzb rax, al"]);
    assert_eq!(op("<"), vec!["  cmp rax, rdi", "  setl al", "  movzb rax, al"]);
    assert_eq!(op("<="), vec!["  cmp rax, rdi", "  setle al", "  movzb rax, al"]);
    assert_eq!(op(">"), vec!["  cmp rax, rdi", "  setl al", "  movzb rax, al"]);
    assert_eq!(op(">="), vec!["  cmp rax, rdi", "  setle al", "  movzb rax, al"]);
}

#[test]
fn left_operand_is_generated_first() {
    let text = generate("f(){ return 6-3; }").unwrap();
    let body = body_lines(&text);
    assert_eq!(body[0], "  push 6");
    assert_eq!(body[1], "  push 3");
    assert_eq!(body[2], "  pop rdi");
    assert_eq!(body[3], "  pop rax");
    let text = generate("f(){ return 6>3; }").unwrap();
    let body = body_lines(&text);
    assert_eq!(body[0], "  push 3");
    assert_eq!(body[1], "  push 6");
}

#[test]
fn parameters_are_copied_in_order() {
    let text = generate("f(a,b,c,d,e,g){ return a; }").unwrap();
    let all = lines(&text);
    assert_eq!(
        all[5..11].to_vec(),
        vec![
            "  mov [rbp-48], rdi",
            "  mov [rbp-40], rsi",
            "  mov [rbp-32], rdx",
            "  mov [rbp-24], rcx",
            "  mov [rbp-16], r8",
            "  mov [rbp-8], r9",
        ]
    );
    assert_eq!(all[4], "  sub rsp, 48");
}

#[test]
fn arguments_are_popped_last_first() {
    let text = generate("f(){ return g(1,2,3,4,5,6); }").unwrap();
    let body = body_lines(&text);
    assert_eq!(
        body[0..12].to_vec(),
        vec![
            "  push 1",
            "  push 2",
            "  push 3",
            "  push 4",
            "  push 5",
            "  push 6",
            "  pop r9",
            "  pop r8",
            "  pop rcx",
            "  pop rdx",
            "  pop rsi",
            "  pop rdi",
        ]
    );
    assert_eq!(body[12], "  mov rax, rsp");
}

#[test]
fn call_without_arguments_pops_nothing() {
    let text = generate("f(){ return g(); }").unwrap();
    let body = body_lines(&text);
    assert_eq!(
        body,
        vec![
            "  mov rax, rsp",
            "  and rax, 15",
            "  jnz .L.call.0",
            "  mov rax, 0",
            "  call g",
            "  jmp .L.end.0",
            ".L.call.0:",
            "  sub rsp, 8",
            "  mov rax, 0",
            "  call g",
            "  add rsp, 8",
            ".L.end.0:",
            "  push rax",
            "  pop rax",
            "  jmp .L.return.f",
        ]
    );
}

#[test]
fn nested_call_numbers_its_labels_first() {
    let text = generate("f(){ return g(h()); }").unwrap();
    let labels = numbered_labels(&text);
    assert_eq!(labels, vec![".L.call.0:", ".L.end.0:", ".L.call.1:", ".L.end.1:"]);
    let all = lines(&text);
    let first = all.iter().position(|l| *l == "  call h").unwrap();
    let second = all.iter().position(|l| *l == "  call g").unwrap();
    assert!(first < second);
}

#[test]
fn statements_leave_the_stack_balanced() {
    let sources = [
        "f(){ 1; }",
        "f(){ a = 1; }",
        "f(){ return 1; }",
        "f(){ if (1) 2; }",
        "f(){ if (1) 2; else 3; }",
        "f(){ while (1) 2; }",
        "f(){ for (i=0; i<3; i=i+1) i; }",
        "f(){ for (;;) {} }",
        "f(){ { 1; { 2; } if (3) { 4; } } }",
        "f(){ g(1, 2, h(3)); }",
        "f(a){ a = g(a, a) + a * (a - 1) / 2; while (a) if (a == 1) return a; else a = a - 1; }",
    ];
    for src in sources {
        let text = generate(src).unwrap();
        assert_eq!(net_pushes(&body_lines(&text)), 0, "{}", src);
    }
}

#[test]
fn expression_statement_discards_its_value() {
    let text = generate("f(){ 7; }").unwrap();
    assert_eq!(body_lines(&text), vec!["  push 7", "  pop rax"]);
}

#[test]
fn labels_are_unique_across_functions() {
    let src = "f(a){ if (a) return g(a); while (a) a = a - 1; for (;a;) a = h(a, a); return 0; } \
               g(b){ if (b) if (b) b = f(b); else b = 1; return b; } \
               h(c, d){ for (;;) { if (c < d) return c; else return d; } }";
    let text = generate(src).unwrap();
    let labels = numbered_labels(&text);
    assert_eq!(labels.len(), 20);
    for i in 0..labels.len() {
        for j in 0..i {
            assert_ne!(labels[i], labels[j]);
        }
    }
}

#[test]
fn label_numbers_run_through_the_program() {
    let text = generate("f(){ if (1) 2; } g(){ if (3) 4; } h(){ while (5) 6; }").unwrap();
    assert_eq!(
        numbered_labels(&text),
        vec![".Lelse0:", ".Lend0:", ".Lelse1:", ".Lend1:", ".Lbegin2:", ".Lend2:"]
    );
}

#[test]
fn label_numbers_have_several_digits() {
    let mut src = String::from("f(){ ");
    for _ in 0..12 {
        src.push_str("if (1) 2; ");
    }
    src.push('}');
    let text = generate(&src).unwrap();
    assert!(text.contains("  je  .Lelse9\n"));
    assert!(text.contains("  je  .Lelse10\n"));
    assert!(text.contains(".Lelse11:\n.Lend11:\n"));
}

#[test]
fn numbers_are_written_in_decimal() {
    let text = generate("f(){ return 0 + 4294967295 + 1000 + 90; }").unwrap();
    assert!(text.contains("  push 0\n"));
    assert!(text.contains("  push 4294967295\n"));
    assert!(text.contains("  push 1000\n"));
    assert!(text.contains("  push 90\n"));
}

#[test]
fn one_routine_for_each_function() {
    let text = generate("f(){ return 1; } g(){ return f(); } main(){ return g(); }").unwrap();
    let all = lines(&text);
    for name in ["f", "g", "main"] {
        let global = format!(".global {}", name);
        let entry = format!("{}:", name);
        let exit = format!(".L.return.{}:", name);
        assert_eq!(all.iter().filter(|l| **l == global).count(), 1);
        assert_eq!(all.iter().filter(|l| **l == entry).count(), 1);
        assert_eq!(all.iter().filter(|l| **l == exit).count(), 1);
    }
    assert_eq!(all.iter().filter(|l| **l == "  ret").count(), 3);
    let order: Vec<usize> = ["f:", "g:", "main:"]
        .iter()
        .map(|e| all.iter().position(|l| l == e).unwrap())
        .collect();
    assert!(order[0] < order[1] && order[1] < order[2]);
}

#[test]
fn nested_return_jumps_to_the_epilogue() {
    let text = generate("f(a){ while (1) { if (a) { for (;;) { return a; } } } }").unwrap();
    assert_eq!(lines(&text).iter().filter(|l| **l == "  jmp .L.return.f").count(), 1);
}

#[test]
fn compiling_twice_gives_the_same_text() {
    let src = "f(n){ if(n<2) return n; return f(n-1)+f(n-2); } main(){ return f(10); }";
    let first = compile(src.chars().collect());
    let second = compile(src.chars().collect());
    assert!(first.is_ok());
    assert_eq!(first, second);
    let bad = "f(){ 1 = 2; }";
    assert_eq!(compile(bad.chars().collect()), compile(bad.chars().collect()));
}

#[test]
fn assignment_to_a_value_is_an_error() {
    assert_eq!(generate("f(){ 1 = 2; }"), Err(CodegenError::NotAnLvalue));
    assert_eq!(generate("f(){ a + 1 = 2; }"), Err(CodegenError::NotAnLvalue));
    assert_eq!(generate("f(){ g() = 2; }"), Err(CodegenError::NotAnLvalue));
    assert_eq!(generate("f(){ (a = 1) = 2; }"), Err(CodegenError::NotAnLvalue));
    assert_eq!(
        compile("f(){ return 1; } g(){ 1 = 2; }".chars().collect()),
        Err(CompileError::Codegen(CodegenError::NotAnLvalue))
    );
}

#[test]
fn seven_arguments_are_too_many() {
    assert_eq!(generate("f(){ return g(1,2,3,4,5,6,7); }"), Err(CodegenError::TooManyArguments));
    assert!(generate("f(){ return g(1,2,3,4,5,6); }").is_ok());
}

#[test]
fn seven_parameters_are_too_many() {
    assert_eq!(generate("f(a,b,c,d,e,g,h){ return a; }"), Err(CodegenError::TooManyParameters));
}

#[test]
fn errors_in_arguments_come_before_their_count() {
    assert_eq!(generate("f(){ return g(1,2,3,4,5,6,7=8); }"), Err(CodegenError::NotAnLvalue));
}

#[test]
fn misplaced_nodes_are_malformed() {
    let nested = function("f", vec![], 0, vec![function("g", vec![], 0, vec![])]);
    assert_eq!(codegen(vec![nested]), Err(CodegenError::Malformed));
    assert_eq!(codegen(vec![Node::ND_NUM(1)]), Err(CodegenError::Malformed));
    let statement_as_operand = function(
        "f",
        vec![],
        0,
        vec![Node::ND_ADD {
            lhs: bx(Node::ND_BLOCK { stmts: vec![] }),
            rhs: bx(Node::ND_NUM(1)),
        }],
    );
    assert_eq!(codegen(vec![statement_as_operand]), Err(CodegenError::Malformed));
    let nothing_returned =
        function("f", vec![], 0, vec![Node::ND_RETURN { ret: bx(Node::ND_NOTHING) }]);
    assert_eq!(codegen(vec![nothing_returned]), Err(CodegenError::Malformed));
    let number_as_parameter = function("f", vec![Node::ND_NUM(1)], 8, vec![]);
    assert_eq!(codegen(vec![number_as_parameter]), Err(CodegenError::Malformed));
    let while_without_condition = function(
        "f",
        vec![],
        0,
        vec![Node::ND_WHILE { cond: bx(Node::ND_NOTHING), body: bx(Node::ND_NOTHING) }],
    );
    assert_eq!(codegen(vec![while_without_condition]), Err(CodegenError::Malformed));
}

#[test]
fn slot_outside_the_frame_is_an_error() {
    let read =
        function("f", vec![], 8, vec![Node::ND_RETURN { ret: bx(Node::ND_LVAR { offset: 8 }) }]);
    assert_eq!(codegen(vec![read]), Err(CodegenError::SlotOutOfFrame));
    let parameter = function("f", vec![Node::ND_LVAR { offset: 16 }], 8, vec![]);
    assert_eq!(codegen(vec![parameter]), Err(CodegenError::SlotOutOfFrame));
    let inside =
        function("f", vec![], 8, vec![Node::ND_RETURN { ret: bx(Node::ND_LVAR { offset: 0 }) }]);
    assert!(codegen(vec![inside]).is_ok());
}

#[test]
fn lexical_and_syntax_errors_stop_the_compiler() {
    assert!(matches!(compile("f(){ return 1 @ 2; }".chars().collect()), Err(CompileError::Lex(_))));
    assert!(matches!(compile("f(){ return 1 }".chars().collect()), Err(CompileError::Parse(_))));
    assert!(matches!(compile("f(){ 1 = 1; }".chars().collect()), Err(CompileError::Codegen(_))));
    assert!(matches!(compile("f(){ 1 = 1 } @".chars().collect()), Err(CompileError::Lex(_))));
}

#[test]
fn generator_messages_name_the_construct() {
    assert_eq!(
        CodegenError::NotAnLvalue.message(),
        "the left side of an assignment is not a variable"
    );
    assert_eq!(CodegenError::TooManyArguments.message(), "a call passes more than six arguments");
    assert_eq!(
        CodegenError::TooManyParameters.message(),
        "a function takes more than six parameters"
    );
    assert_eq!(
        CodegenError::SlotOutOfFrame.message(),
        "a variable lies outside the frame of its function"
    );
    assert_eq!(
        CodegenError::Malformed.message(),
        "the syntax tree holds a node where none of its kind may stand"
    );
    assert_eq!(
        CodegenError::TooManyLabels.message(),
        "the program needs more labels than can be numbered"
    );
    let e = compile("f(){ return 1 }".chars().collect()).unwrap_err();
    assert_eq!(e.message(), "expected ';', but found another token");
    let e = compile("f(){ return $; }".chars().collect()).unwrap_err();
    assert_eq!(e.message(), "unexpected character '$' at index 12");
    let e = compile("f(){ 1 = 1; }".chars().collect()).unwrap_err();
    assert_eq!(e.message(), "the left side of an assignment is not a variable");
}

#[test]
fn statements_and_expressions_can_be_generated_alone() {
    let fname = String::from("f");
    let mut count: u32 = 7;

    let mut out = Listing::new();
    let sum = Node::ND_ADD { lhs: bx(Node::ND_NUM(1)), rhs: bx(Node::ND_LVAR { offset: 8 }) };
    assert_eq!(gen_expr(&sum, &mut out, &mut count, 16), Ok(()));
    assert_eq!(count, 7);
    assert_eq!(
        out.finish(),
        "  push 1\n  lea rax, [rbp-8]\n  push rax\n  pop rax\n  mov rax, [rax]\n  push rax\n  \
         pop rdi\n  pop rax\n  add rax, rdi\n  push rax\n"
    );

    let mut out = Listing::new();
    let choice = Node::ND_IF {
        cond: bx(Node::ND_NUM(1)),
        cons: bx(Node::ND_RETURN { ret: bx(Node::ND_NUM(2)) }),
        alt: bx(Node::ND_NOTHING),
    };
    assert_eq!(gen(&choice, &mut out, &mut count, &fname, 0), Ok(()));
    assert_eq!(count, 8);
    assert_eq!(
        out.finish(),
        "  push 1\n  pop rax\n  cmp rax, 0\n  je  .Lelse7\n  push 2\n  pop rax\n  \
         jmp .L.return.f\n  jmp .Lend7\n.Lelse7:\n.Lend7:\n"
    );

    let mut out = Listing::new();
    assert_eq!(gen(&Node::ND_NOTHING, &mut out, &mut count, &fname, 0), Ok(()));
    assert_eq!(out.finish(), "");

    let mut out = Listing::new();
    assert_eq!(gen_lval(&Node::ND_LVAR { offset: 0 }, &mut out, 24), Ok(()));
    assert_eq!(out.finish(), "  lea rax, [rbp-24]\n  push rax\n");

    let mut out = Listing::new();
    assert_eq!(gen_lval(&Node::ND_NUM(3), &mut out, 24), Err(CodegenError::NotAnLvalue));
    let mut out = Listing::new();
    assert_eq!(
        gen_lval(&Node::ND_LVAR { offset: 24 }, &mut out, 24),
        Err(CodegenError::SlotOutOfFrame)
    );
}

#[test]
fn labels_run_out_at_the_end_of_32_bits() {
    let fname = String::from("f");
    let last = Node::ND_WHILE { cond: bx(Node::ND_NUM(1)), body: bx(Node::ND_NUM(2)) };

    let mut out = Listing::new();
    let mut count: u32 = u32::MAX - 1;
    assert_eq!(gen(&last, &mut out, &mut count, &fname, 0), Ok(()));
    assert_eq!(count, u32::MAX);
    assert!(out.finish().starts_with(".Lbegin4294967294:\n"));

    let mut out = Listing::new();
    assert_eq!(gen(&last, &mut out, &mut count, &fname, 0), Err(CodegenError::TooManyLabels));
}

#[test]
fn functions_of_one_name_get_a_routine_each() {
    let text = generate("f(){ return 1; } f(){ return 2; }").unwrap();
    let all = lines(&text);
    assert_eq!(all.iter().filter(|l| **l == "f:").count(), 2);
    assert_eq!(all.iter().filter(|l| **l == ".L.return.f:").count(), 2);
    assert_eq!(all.iter().filter(|l| **l == "  push 1").count(), 1);
    assert_eq!(all.iter().filter(|l| **l == "  push 2").count(), 1);
}

#[test]
fn source_may_span_lines() {
    let one_line = compile("main(){a=1;return a;}".chars().collect()).unwrap();
    let spread =
        compile("main ( )\n{\n\ta = 1 ;\r\n\treturn a ;\n}\n".chars().collect()).unwrap();
    assert_eq!(one_line, spread);
    assert!(one_line.starts_with(".intel_syntax noprefix\n.global main\nmain:\n"));
    assert!(one_line.ends_with(".L.return.main:\n  mov rsp, rbp\n  pop rbp\n  ret\n"));
}
