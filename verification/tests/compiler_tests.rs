use ngl::compiler::{Compiler, StopOf};
use ngl::error::ErrorOf;
use ngl::lexer::Lexer;
use ngl::opcode::OpCodeOf;
use ngl::token::{Token, TokenOf};
use ngl::value::Value;

fn tokens(src: &str) -> Vec<Token> {
    let mut lexer = Lexer::new(src);
    lexer.tokenize().expect("lexes")
}

fn compile(src: &str) -> (Compiler, Result<Vec<ngl::opcode::OpCode>, ngl::compiler::Stop>) {
    let ts = tokens(src);
    let mut c = Compiler::new();
    let r = c.compile(&ts);
    (c, r)
}

fn s(t: &str) -> String {
    t.to_string()
}

#[test]
fn new_compiler_is_empty_with_one_scope() {
    let c = Compiler::new();
    assert!(c.instructions.is_empty());
    assert!(c.constants.is_empty());
    assert_eq!(c.scopes.len(), 1);
    assert!(c.scopes[0].is_empty());
    assert_eq!(c.ip, 0);
    assert!(!c.debug_mode);
    assert!(c.current_class.is_none());
}

#[test]
fn add_constant_returns_its_index() {
    let mut c = Compiler::new();
    assert_eq!(c.add_constant(Value::Int(1)), 0);
    assert_eq!(c.add_constant(Value::String(s("a"))), 1);
    assert_eq!(c.constants.len(), 2);
}

#[test]
fn patch_jump_points_a_jump_at_the_next_instruction() {
    let mut c = Compiler::new();
    c.add_instruction(OpCodeOf::JumpIfFalse(0));
    c.add_instruction(OpCodeOf::PushNull);
    c.add_instruction(OpCodeOf::Pop);
    assert!(c.patch_jump(0).is_ok());
    assert_eq!(c.instructions[0], OpCodeOf::JumpIfFalse(3));
    assert_eq!(c.current_pos(), 3);
}

#[test]
fn patch_jump_leaves_other_instructions_alone() {
    let mut c = Compiler::new();
    c.add_instruction(OpCodeOf::PushInt(5));
    assert!(c.patch_jump(0).is_ok());
    assert_eq!(c.instructions[0], OpCodeOf::PushInt(5));
}

#[test]
fn patch_jump_past_the_end_panics() {
    let mut c = Compiler::new();
    assert!(matches!(c.patch_jump(0), Err(StopOf::Panic)));
}

#[test]
fn add_function_and_class_return_indices() {
    let mut c = Compiler::new();
    assert_eq!(c.add_function("f", 2), 0);
    assert_eq!(c.add_function("g", 0), 1);
    assert_eq!(c.functions[0].name, "f");
    assert_eq!(c.functions[0].arity, 2);
    assert_eq!(c.add_class("Point"), 0);
    assert_eq!(c.classes[0].name, "Point");
    assert!(c.classes[0].methods.is_empty());
}

#[test]
fn empty_program_returns_null() {
    let (_, r) = compile("");
    assert_eq!(r.unwrap(), vec![OpCodeOf::PushNull, OpCodeOf::Return]);
}

#[test]
fn let_stores_into_a_local() {
    let (c, r) = compile("let x = 5");
    assert_eq!(
        r.unwrap(),
        vec![OpCodeOf::PushInt(5), OpCodeOf::StoreLocal(0), OpCodeOf::PushNull, OpCodeOf::Return]
    );
    assert_eq!(c.scopes[0], vec![(s("x"), 0)]);
}

#[test]
fn let_without_value_stores_null() {
    let (_, r) = compile("let y");
    assert_eq!(
        r.unwrap(),
        vec![OpCodeOf::PushNull, OpCodeOf::StoreLocal(0), OpCodeOf::PushNull, OpCodeOf::Return]
    );
}

#[test]
fn operators_are_emitted_in_token_order() {
    let (_, r) = compile("print 1 + 2");
    assert_eq!(
        r.unwrap(),
        vec![
            OpCodeOf::PushInt(1),
            OpCodeOf::Add,
            OpCodeOf::PushInt(2),
            OpCodeOf::Print,
            OpCodeOf::PushNull,
            OpCodeOf::Return,
        ]
    );
}

#[test]
fn not_equal_is_equal_then_not() {
    let (_, r) = compile("1 != 2");
    assert_eq!(
        r.unwrap(),
        vec![
            OpCodeOf::PushInt(1),
            OpCodeOf::Eq,
            OpCodeOf::Not,
            OpCodeOf::PushInt(2),
            OpCodeOf::Pop,
            OpCodeOf::PushNull,
            OpCodeOf::Return,
        ]
    );
}

#[test]
fn unknown_name_is_loaded_as_a_global() {
    let (c, r) = compile("x");
    assert_eq!(r.unwrap(), vec![OpCodeOf::LoadGlobal(0), OpCodeOf::Pop, OpCodeOf::PushNull, OpCodeOf::Return]);
    assert!(matches!(&c.constants[0], Value::String(n) if n == "x"));
}

#[test]
fn local_name_is_loaded_from_its_slot_and_assigned() {
    let (_, r) = compile("let a = 1; let b = 2; b = 3");
    assert_eq!(
        r.unwrap(),
        vec![
            OpCodeOf::PushInt(1),
            OpCodeOf::StoreLocal(0),
            OpCodeOf::PushInt(2),
            OpCodeOf::StoreLocal(1),
            OpCodeOf::LoadLocal(1),
            OpCodeOf::PushInt(3),
            OpCodeOf::StoreLocal(1),
            OpCodeOf::Pop,
            OpCodeOf::PushNull,
            OpCodeOf::Return,
        ]
    );
}

#[test]
fn array_element_runs_to_the_closing_bracket() {
    // Commas do not end an element: the three numbers are one element, and
    // the `EOF` after the `]` is a second, empty one.
    let (_, r) = compile("[1, 2, 3]");
    assert_eq!(
        r.unwrap(),
        vec![
            OpCodeOf::PushInt(1),
            OpCodeOf::PushInt(2),
            OpCodeOf::PushInt(3),
            OpCodeOf::NewArray(2),
            OpCodeOf::Pop,
            OpCodeOf::PushNull,
            OpCodeOf::Return,
        ]
    );
}

#[test]
fn field_access_and_method_call() {
    let (c, r) = compile("a.b; a.m(1)");
    assert_eq!(
        r.unwrap(),
        vec![
            OpCodeOf::LoadGlobal(0),
            OpCodeOf::GetField(1),
            OpCodeOf::Pop,
            OpCodeOf::LoadGlobal(2),
            OpCodeOf::CallMethod(3),
            OpCodeOf::Pop,
            OpCodeOf::PushNull,
            OpCodeOf::Return,
        ]
    );
    assert_eq!(c.constants.len(), 4);
}

#[test]
fn new_instance_pushes_the_class_name_index() {
    let (_, r) = compile("new Point(1, 2)");
    assert_eq!(
        r.unwrap(),
        vec![
            OpCodeOf::PushInt(0),
            OpCodeOf::NewInstance(0),
            OpCodeOf::Pop,
            OpCodeOf::PushNull,
            OpCodeOf::Return,
        ]
    );
}

#[test]
fn if_condition_swallows_the_block_and_panics() {
    let (_, r) = compile("if true { print 1 } else { print 2 }");
    assert!(matches!(r, Err(StopOf::Panic)));
}

#[test]
fn if_condition_on_its_own_line() {
    let (_, r) = compile("if x\n{ print 1 }");
    assert_eq!(
        r.unwrap(),
        vec![
            OpCodeOf::LoadGlobal(0),
            OpCodeOf::JumpIfFalse(3),
            OpCodeOf::Jump(3),
            OpCodeOf::PushInt(1),
            OpCodeOf::Pop,
            OpCodeOf::PushNull,
            OpCodeOf::Return,
        ]
    );
}

#[test]
fn while_and_for_blocks_panic_after_their_expression() {
    let (_, r) = compile("while true { break }");
    assert!(matches!(r, Err(StopOf::Panic)));
    let (_, r) = compile("for x in y { print x }");
    assert!(matches!(r, Err(StopOf::Panic)));
}

#[test]
fn for_without_a_name_compiles_nothing() {
    let (_, r) = compile("for 5");
    assert_eq!(
        r.unwrap(),
        vec![OpCodeOf::PushInt(5), OpCodeOf::Pop, OpCodeOf::PushNull, OpCodeOf::Return]
    );
}

#[test]
fn function_body_is_compiled_apart() {
    let (c, r) = compile("fn f(a, b) { return a }");
    assert_eq!(r.unwrap(), vec![OpCodeOf::DefineFunction(0), OpCodeOf::PushNull, OpCodeOf::Return]);
    let f = &c.functions[0];
    assert_eq!(f.name, "f");
    assert_eq!(f.arity, 2);
    assert_eq!(
        f.instructions,
        vec![OpCodeOf::LoadGlobal(0), OpCodeOf::Return, OpCodeOf::PushNull, OpCodeOf::Return]
    );
    assert_eq!(f.locals, 0);
}

#[test]
fn class_methods_take_this_first() {
    let (c, r) = compile("class P { fn get() { return this } }");
    assert_eq!(r.unwrap(), vec![OpCodeOf::DefineClass(0), OpCodeOf::PushNull, OpCodeOf::Return]);
    let class = &c.classes[0];
    assert_eq!(class.name, "P");
    assert_eq!(class.methods.len(), 1);
    assert_eq!(class.methods[0].0, "get");
    let m = &class.methods[0].1;
    assert_eq!(m.arity, 1);
    assert_eq!(m.instructions, vec![OpCodeOf::LoadLocal(0), OpCodeOf::Return, OpCodeOf::PushNull, OpCodeOf::Return]);
    assert_eq!(m.locals, 1);
    assert!(c.current_class.is_none());
}

#[test]
fn try_catch_patches_the_handler() {
    let (_, r) = compile("try { throw 1 } catch { print 2 }");
    assert_eq!(
        r.unwrap(),
        vec![
            OpCodeOf::Try(4),
            OpCodeOf::PushInt(1),
            OpCodeOf::Throw,
            OpCodeOf::EndTry,
            OpCodeOf::PushInt(2),
            OpCodeOf::Print,
            OpCodeOf::PushNull,
            OpCodeOf::Return,
        ]
    );
}

#[test]
fn import_and_foreign_imports_keep_their_text() {
    let (c, r) = compile("import \"lib.ngl\"\nimport_py \"print(1)\"");
    assert_eq!(
        r.unwrap(),
        vec![
            OpCodeOf::PushInt(0),
            OpCodeOf::Import,
            OpCodeOf::PushInt(1),
            OpCodeOf::ImportPy,
            OpCodeOf::PushNull,
            OpCodeOf::Return,
        ]
    );
    assert!(matches!(&c.constants[1], Value::String(t) if t == "print(1)"));
}

#[test]
fn download_keeps_url_and_file() {
    let (c, r) = compile("download \"http://x\" from \"a.ngl\"");
    assert_eq!(
        r.unwrap(),
        vec![
            OpCodeOf::PushInt(0),
            OpCodeOf::PushInt(1),
            OpCodeOf::Download,
            OpCodeOf::PushNull,
            OpCodeOf::Return,
        ]
    );
    assert!(matches!(&c.constants[0], Value::String(t) if t == "http://x"));
    assert!(matches!(&c.constants[1], Value::String(t) if t == "a.ngl"));
}

#[test]
fn let_without_a_name_is_a_syntax_error() {
    let (_, r) = compile("let 5");
    assert!(matches!(r, Err(StopOf::Error(ErrorOf::Syntax(m))) if m == "期望标识符"));
}

#[test]
fn function_without_a_name_is_a_syntax_error() {
    let (_, r) = compile("fn (a) { }");
    assert!(matches!(r, Err(StopOf::Error(ErrorOf::Syntax(m))) if m == "期望函数名"));
}

#[test]
fn class_without_a_name_is_a_syntax_error() {
    let (_, r) = compile("class { }");
    assert!(matches!(r, Err(StopOf::Error(ErrorOf::Syntax(m))) if m == "期望类名"));
}

#[test]
fn statement_that_consumes_nothing_diverges() {
    let (_, r) = compile(")");
    assert!(matches!(r, Err(StopOf::Diverge)));
}

#[test]
fn expression_statement_stops_at_semicolon() {
    let (c, r) = compile("1 + 2; 3");
    assert_eq!(
        r.unwrap(),
        vec![
            OpCodeOf::PushInt(1),
            OpCodeOf::Add,
            OpCodeOf::PushInt(2),
            OpCodeOf::Pop,
            OpCodeOf::PushInt(3),
            OpCodeOf::Pop,
            OpCodeOf::PushNull,
            OpCodeOf::Return,
        ]
    );
    assert_eq!(c.ip, 6);
}

#[test]
fn break_and_continue_outside_a_loop() {
    let mut c = Compiler::new();
    assert!(c.compile_break().is_ok());
    assert!(c.compile_continue().is_ok());
    assert_eq!(c.instructions, vec![OpCodeOf::Jump(0)]);
    assert!(c.break_stack.is_empty());
}

#[test]
fn compile_simple_expr_of_literals() {
    let ts = vec![
        TokenOf::String(s("hi")),
        TokenOf::True,
        TokenOf::Null,
        TokenOf::Float(s("1.5")),
        TokenOf::This,
    ];
    let mut c = Compiler::new();
    assert!(c.compile_simple_expr(&ts).is_ok());
    assert_eq!(
        c.instructions,
        vec![
            OpCodeOf::PushString(s("hi")),
            OpCodeOf::PushBool(true),
            OpCodeOf::PushNull,
            OpCodeOf::PushFloat(s("1.5")),
            OpCodeOf::LoadLocal(0),
        ]
    );
}

#[test]
fn every_compiled_program_ends_with_return() {
    for src in ["let a = 1", "print \"x\"", "fn f() { }", "class C { }", "x = 1"] {
        let (_, r) = compile(src);
        let ops = r.unwrap();
        let n = ops.len();
        assert_eq!(ops[n - 2], OpCodeOf::PushNull);
        assert_eq!(ops[n - 1], OpCodeOf::Return);
    }
}

#[test]
fn syntax_error_leaves_the_compiler_where_it_stood() {
    let (c, r) = compile("let 5");
    assert!(matches!(r, Err(StopOf::Error(ErrorOf::Syntax(_)))));
    assert_eq!(c.ip, 1);
    assert!(c.instructions.is_empty());
    assert!(c.constants.is_empty());
    assert_eq!(c.scopes.len(), 1);
    assert!(c.scopes[0].is_empty());
    let (c, r) = compile("fn 5");
    assert!(matches!(r, Err(StopOf::Error(ErrorOf::Syntax(_)))));
    assert_eq!(c.ip, 1);
    assert!(c.functions.is_empty());
}
