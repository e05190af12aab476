use ngl::compiler::StopOf;
use ngl::error::ErrorOf;
use ngl::shell::{load_program, CommandOf, NGShell};

#[test]
fn new_shell_runs_with_no_history() {
    let sh = NGShell::new();
    assert!(sh.running);
    assert!(sh.history.is_empty());
    assert!(!sh.debug_mode);
}

#[test]
fn blank_line_is_skipped_and_not_kept() {
    let mut sh = NGShell::new();
    assert!(matches!(sh.handle_line("   \n"), CommandOf::Skip));
    assert!(sh.history.is_empty());
}

#[test]
fn exit_and_quit_stop_the_shell() {
    let mut sh = NGShell::new();
    assert!(matches!(sh.handle_line(" exit\n"), CommandOf::Exit));
    assert!(!sh.running);
    assert_eq!(sh.history, vec!["exit".to_string()]);
    let mut sh = NGShell::new();
    assert!(matches!(sh.handle_line("quit"), CommandOf::Exit));
    assert!(!sh.running);
}

#[test]
fn debug_switches_on_and_off() {
    let mut sh = NGShell::new();
    assert!(matches!(sh.handle_line("debug"), CommandOf::Debug(true)));
    assert!(sh.debug_mode);
    assert!(matches!(sh.handle_line("debug"), CommandOf::Debug(false)));
    assert!(!sh.debug_mode);
    assert_eq!(sh.history, vec!["debug".to_string(), "debug".to_string()]);
}

#[test]
fn clear_and_history_commands() {
    let mut sh = NGShell::new();
    assert!(matches!(sh.handle_line("clear"), CommandOf::Clear));
    assert!(matches!(sh.handle_line("history"), CommandOf::History));
    assert_eq!(sh.history.len(), 2);
    assert!(sh.running);
}

#[test]
fn load_names_the_file() {
    let mut sh = NGShell::new();
    assert!(matches!(sh.handle_line("load script.ngl"), CommandOf::Load(f) if f == "script.ngl"));
    assert!(matches!(sh.handle_line("loadx"), CommandOf::Run(c) if c == "loadx"));
}

#[test]
fn other_lines_are_code_to_run() {
    let mut sh = NGShell::new();
    assert!(matches!(sh.handle_line("  print 1 + 2  "), CommandOf::Run(c) if c == "print 1 + 2"));
    assert_eq!(sh.history, vec!["print 1 + 2".to_string()]);
}

#[test]
fn load_program_reports_lexer_errors() {
    assert!(matches!(load_program("let a = $", false), Err(StopOf::Error(ErrorOf::Syntax(m))) if m == "无效字符: '$'"));
}

#[test]
fn load_program_reports_compiler_errors() {
    assert!(matches!(load_program("let 1", false), Err(StopOf::Error(ErrorOf::Syntax(_)))));
    assert!(matches!(load_program("if x { }", false), Err(StopOf::Panic)));
}

#[test]
fn load_program_readies_a_machine() {
    let vm = load_program("fn f() { }", true).ok().expect("loads");
    assert_eq!(vm.ip, 0);
    assert!(vm.debug_mode);
    assert_eq!(vm.functions.len(), 1);
    assert_eq!(vm.instructions.len(), 3);
    assert_eq!(vm.call_stack.len(), 1);
    assert_eq!(vm.globals.len(), 8);
}

fn run_until_request(vm: &mut ngl::vm::VM, max_steps: usize) -> Option<ngl::vm::Step> {
    for _ in 0..max_steps {
        let op = vm.current_op()?;
        match vm.execute_op(&op) {
            ngl::vm::StepOf::Done => {}
            other => return Some(other),
        }
    }
    None
}

#[test]
fn let_then_name_reads_the_local() {
    let mut vm = load_program("let x = 5\nx", false).ok().expect("loads");
    assert!(run_until_request(&mut vm, 4).is_none());
    assert!(matches!(vm.call_stack[0].locals.as_slice(), [ngl::value::Value::Int(5)]));
    assert_eq!(vm.ip, 4);
}

#[test]
fn infix_operator_runs_before_its_right_operand() {
    // `1 + 2` becomes `1`, `+`, `2`: the addition finds one operand.
    let mut vm = load_program("print 1 + 2", false).ok().expect("loads");
    let step = run_until_request(&mut vm, 5);
    assert!(matches!(step, Some(ngl::vm::StepOf::Failed(ErrorOf::Runtime(m))) if m == "栈为空"));
}

#[test]
fn program_end_returns_forever() {
    let mut vm = load_program("", false).ok().expect("loads");
    assert!(run_until_request(&mut vm, 10).is_none());
    assert_eq!(vm.ip, 1);
    assert!(matches!(vm.finish(), ngl::value::Value::Null));
}

#[test]
fn imported_program_starts_from_the_importers_globals() {
    let globals = vec![("a".to_string(), ngl::value::Value::Int(4))];
    let vm = ngl::shell::load_import("print a", &globals).ok().expect("loads");
    assert_eq!(vm.globals.len(), 1);
    assert_eq!(vm.globals[0].0, "a");
    assert!(matches!(vm.globals[0].1, ngl::value::Value::Int(4)));
    assert!(!vm.debug_mode);
    assert_eq!(vm.ip, 0);
    assert!(matches!(ngl::shell::load_import("let 1", &globals), Err(StopOf::Error(_))));
}
