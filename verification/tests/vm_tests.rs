use ngl::error::ErrorOf;
use ngl::opcode::{OpCode, OpCodeOf};
use ngl::shell::load_program;
use ngl::value::{Native, Value};
use ngl::vm::{ArithOp, CompareOp, Number, StepOf, VM};

fn s(t: &str) -> String {
    t.to_string()
}

/// A machine loaded with `ops` and `constants`, ready at the first one.
fn machine(ops: Vec<OpCode>, constants: Vec<Value>) -> VM {
    let mut vm = VM::new();
    vm.start(ops, constants);
    vm
}

/// Runs instructions while they ask nothing of the host; returns the first
/// request, or `None` when `ip` leaves the program.
fn run_plain(vm: &mut VM, max_steps: usize) -> Option<ngl::vm::Step> {
    for _ in 0..max_steps {
        let op = vm.current_op()?;
        match vm.execute_op(&op) {
            StepOf::Done => {}
            other => return Some(other),
        }
    }
    None
}

#[test]
fn new_machine_has_the_builtins_as_globals() {
    let vm = VM::new();
    let names: Vec<&str> = vm.globals.iter().map(|(n, _)| n.as_str()).collect();
    assert_eq!(names, vec!["print", "println", "input", "len", "type", "str", "int", "float"]);
    assert!(matches!(vm.globals[3].1, Value::NativeFunction(Native::Len)));
    assert!(vm.stack.is_empty());
    assert!(vm.call_stack.is_empty());
}

#[test]
fn start_enters_one_frame() {
    let vm = machine(vec![OpCodeOf::PushNull], vec![]);
    assert_eq!(vm.ip, 0);
    assert_eq!(vm.call_stack.len(), 1);
    assert!(vm.call_stack[0].locals.is_empty());
}

#[test]
fn integer_arithmetic() {
    let mut vm = machine(
        vec![OpCodeOf::PushInt(7), OpCodeOf::PushInt(5), OpCodeOf::Sub, OpCodeOf::PushInt(3), OpCodeOf::Mul],
        vec![],
    );
    assert!(run_plain(&mut vm, 5).is_none());
    assert!(matches!(vm.stack.as_slice(), [Value::Int(6)]));
}

#[test]
fn integer_division_truncates_and_remainder_keeps_sign() {
    let mut vm = machine(vec![OpCodeOf::PushInt(-7), OpCodeOf::PushInt(2), OpCodeOf::Div], vec![]);
    assert!(run_plain(&mut vm, 3).is_none());
    assert!(matches!(vm.stack.as_slice(), [Value::Int(-3)]));
    let mut vm = machine(vec![OpCodeOf::PushInt(-7), OpCodeOf::PushInt(2), OpCodeOf::Mod], vec![]);
    assert!(run_plain(&mut vm, 3).is_none());
    assert!(matches!(vm.stack.as_slice(), [Value::Int(-1)]));
}

#[test]
fn division_by_zero_fails() {
    let mut vm = machine(vec![OpCodeOf::PushInt(1), OpCodeOf::PushInt(0), OpCodeOf::Div], vec![]);
    let step = run_plain(&mut vm, 3);
    assert!(matches!(step, Some(StepOf::Failed(ErrorOf::DivisionByZero))));
}

#[test]
fn integer_overflow_is_a_fault() {
    let mut vm = machine(vec![OpCodeOf::PushInt(i64::MAX), OpCodeOf::PushInt(1), OpCodeOf::Add], vec![]);
    assert!(matches!(run_plain(&mut vm, 3), Some(StepOf::Fault)));
}

#[test]
fn string_concatenation_and_repetition() {
    let mut vm = machine(
        vec![
            OpCodeOf::PushString(s("ab")),
            OpCodeOf::PushInt(3),
            OpCodeOf::Add,
            OpCodeOf::PushInt(2),
            OpCodeOf::Mul,
        ],
        vec![],
    );
    assert!(run_plain(&mut vm, 5).is_none());
    assert!(matches!(vm.stack.as_slice(), [Value::String(t)] if t == "ab3ab3"));
}

#[test]
fn float_arithmetic_is_asked_of_the_host() {
    let one = 1.0f64.to_bits();
    let mut vm = machine(vec![OpCodeOf::PushInt(2), OpCodeOf::Add], vec![]);
    vm.stack.push(Value::Float(one));
    // stack: Float(1.0); PushInt(2) then Add gives 1.0 + 2
    let step = run_plain(&mut vm, 2);
    assert!(matches!(step, Some(StepOf::FloatArith(ArithOp::Add, Number::Float(b), Number::Int(2))) if b == one));
    assert_eq!(vm.ip, 2);
}

#[test]
fn comparison_of_integers_and_strings() {
    let mut vm = machine(
        vec![
            OpCodeOf::PushInt(1),
            OpCodeOf::PushInt(2),
            OpCodeOf::Lt,
            OpCodeOf::PushString(s("b")),
            OpCodeOf::PushString(s("a")),
            OpCodeOf::Ge,
        ],
        vec![],
    );
    assert!(run_plain(&mut vm, 6).is_none());
    assert!(matches!(vm.stack.as_slice(), [Value::Bool(true), Value::Bool(true)]));
}

#[test]
fn float_comparison_is_asked_of_the_host() {
    let mut vm = machine(vec![OpCodeOf::PushInt(1), OpCodeOf::Gt], vec![]);
    vm.stack.push(Value::Float(0.5f64.to_bits()));
    let step = run_plain(&mut vm, 2);
    assert!(matches!(step, Some(StepOf::FloatCompare(CompareOp::Greater, Number::Float(_), Number::Int(1)))));
}

#[test]
fn equality_and_its_negation() {
    let mut vm = machine(
        vec![
            OpCodeOf::PushInt(3),
            OpCodeOf::PushInt(3),
            OpCodeOf::Eq,
            OpCodeOf::PushInt(3),
            OpCodeOf::PushInt(3),
            OpCodeOf::Ne,
        ],
        vec![],
    );
    assert!(run_plain(&mut vm, 6).is_none());
    assert!(matches!(vm.stack.as_slice(), [Value::Bool(true), Value::Bool(false)]));
}

#[test]
fn pop_undoes_push() {
    let mut vm = machine(vec![OpCodeOf::PushInt(9), OpCodeOf::Pop], vec![]);
    vm.stack.push(Value::Int(1));
    assert!(run_plain(&mut vm, 2).is_none());
    assert!(matches!(vm.stack.as_slice(), [Value::Int(1)]));
    assert_eq!(vm.ip, 2);
}

#[test]
fn not_twice_gives_truthiness() {
    let mut vm = machine(vec![OpCodeOf::Not, OpCodeOf::Not], vec![]);
    vm.stack.push(Value::String(s("x")));
    assert!(run_plain(&mut vm, 2).is_none());
    assert!(matches!(vm.stack.as_slice(), [Value::Bool(true)]));
}

#[test]
fn operator_on_empty_stack_fails() {
    let mut vm = machine(vec![OpCodeOf::Add], vec![]);
    let step = run_plain(&mut vm, 1);
    assert!(matches!(step, Some(StepOf::Failed(ErrorOf::Runtime(m))) if m == "栈为空"));
}

#[test]
fn locals_are_stored_and_loaded() {
    let mut vm = machine(
        vec![OpCodeOf::PushInt(4), OpCodeOf::StoreLocal(0), OpCodeOf::LoadLocal(0), OpCodeOf::LoadLocal(5)],
        vec![],
    );
    assert!(run_plain(&mut vm, 4).is_none());
    assert!(matches!(vm.stack.as_slice(), [Value::Int(4), Value::Int(4), Value::Null]));
}

#[test]
fn globals_are_loaded_by_name() {
    let mut vm = machine(vec![OpCodeOf::LoadGlobal(0), OpCodeOf::LoadGlobal(1)], vec![Value::String(s("len")), Value::String(s("nope"))]);
    assert!(run_plain(&mut vm, 2).is_none());
    assert!(matches!(vm.stack.as_slice(), [Value::NativeFunction(Native::Len), Value::Null]));
}

#[test]
fn new_array_collects_in_order() {
    let mut vm = machine(vec![OpCodeOf::PushInt(1), OpCodeOf::PushInt(2), OpCodeOf::NewArray(2), OpCodeOf::Len], vec![]);
    assert!(run_plain(&mut vm, 4).is_none());
    assert!(matches!(vm.stack.as_slice(), [Value::Int(2)]));
}

#[test]
fn jump_if_false_jumps_on_a_false_value() {
    let mut vm = machine(
        vec![OpCodeOf::PushBool(false), OpCodeOf::JumpIfFalse(3), OpCodeOf::PushInt(1), OpCodeOf::PushInt(2)],
        vec![],
    );
    assert!(run_plain(&mut vm, 4).is_none());
    assert!(matches!(vm.stack.as_slice(), [Value::Bool(false), Value::Int(2)]));
}

#[test]
fn print_hands_the_value_to_the_host() {
    let mut vm = load_program("print \"hi\"", false).ok().expect("loads");
    let step = run_plain(&mut vm, 5);
    assert!(matches!(step, Some(StepOf::Print(Value::String(t))) if t == "hi"));
}

#[test]
fn calling_a_builtin_asks_the_host() {
    let mut vm = machine(
        vec![OpCodeOf::LoadGlobal(0), OpCodeOf::PushInt(5), OpCodeOf::Call(1)],
        vec![Value::String(s("str"))],
    );
    let step = run_plain(&mut vm, 3);
    assert!(matches!(step, Some(StepOf::CallNative(Native::Str, args)) if matches!(args.as_slice(), [Value::Int(5)])));
    assert_eq!(vm.ip, 4);
}

#[test]
fn uncaught_throw_reports_the_value() {
    let mut vm = machine(vec![OpCodeOf::PushString(s("bad")), OpCodeOf::Throw], vec![]);
    let step = run_plain(&mut vm, 2);
    assert!(matches!(step, Some(StepOf::Uncaught(Value::String(t))) if t == "bad"));
}

#[test]
fn throw_inside_try_goes_back_to_just_after_try() {
    let mut vm = machine(
        vec![OpCodeOf::Try(3), OpCodeOf::PushInt(1), OpCodeOf::Throw, OpCodeOf::PushInt(2)],
        vec![],
    );
    assert!(run_plain(&mut vm, 3).is_none());
    assert_eq!(vm.ip, 1);
    assert_eq!(vm.catch_handler, Some(1));
    assert!(matches!(vm.stack.as_slice(), [Value::Int(1)]));
}

#[test]
fn return_at_top_level_stays_put() {
    let mut vm = machine(vec![OpCodeOf::PushInt(8), OpCodeOf::Return], vec![]);
    let op = vm.current_op().unwrap();
    assert!(matches!(vm.execute_op(&op), StepOf::Done));
    let op = vm.current_op().unwrap();
    assert!(matches!(vm.execute_op(&op), StepOf::Done));
    assert_eq!(vm.ip, 1);
    assert!(matches!(vm.stack.as_slice(), [Value::Int(8)]));
    assert!(matches!(vm.finish(), Value::Int(8)));
}

#[test]
fn foreign_import_leaves_a_message() {
    let mut vm = machine(vec![OpCodeOf::PushInt(0), OpCodeOf::ImportJs], vec![Value::String(s("abc"))]);
    let step = run_plain(&mut vm, 2);
    assert!(matches!(step, Some(StepOf::Foreign(ngl::vm::Language::JavaScript, t)) if t == "abc"));
    assert!(matches!(vm.stack.as_slice(), [Value::String(m)] if m == "JavaScript执行成功: 3"));
}

#[test]
fn import_names_the_file() {
    let mut vm = machine(vec![OpCodeOf::PushInt(0), OpCodeOf::Import], vec![Value::String(s("lib.ngl"))]);
    assert!(matches!(run_plain(&mut vm, 2), Some(StepOf::Import(p)) if p == "lib.ngl"));
}

#[test]
fn download_names_url_and_file() {
    let mut vm = machine(
        vec![OpCodeOf::PushInt(0), OpCodeOf::PushInt(1), OpCodeOf::Download],
        vec![Value::String(s("http://x")), Value::String(s("f.ngl"))],
    );
    assert!(matches!(run_plain(&mut vm, 3), Some(StepOf::Download(u, f)) if u == "http://x" && f == "f.ngl"));
}

#[test]
fn safe_pop_on_empty_stack_is_an_error() {
    let mut vm = VM::new();
    assert!(matches!(vm.safe_pop(), Err(ErrorOf::Runtime(m)) if m == "栈为空"));
    vm.push(Value::Int(3));
    assert!(matches!(vm.safe_pop(), Ok(Value::Int(3))));
}

#[test]
fn operator_helpers_give_results_or_requests() {
    let vm = VM::new();
    assert!(matches!(vm.add_values(Value::Int(2), Value::Int(3)), ngl::vm::ArithOf::Value(Value::Int(5))));
    assert!(matches!(vm.sub_values(Value::Int(2), Value::Int(3)), ngl::vm::ArithOf::Value(Value::Int(-1))));
    assert!(matches!(vm.mul_values(Value::String(s("ab")), Value::Int(1001)), ngl::vm::ArithOf::Failed(ErrorOf::Runtime(_))));
    assert!(matches!(vm.div_values(Value::Int(i64::MIN), Value::Int(-1)), ngl::vm::ArithOf::Overflow));
    assert!(matches!(vm.mod_values(Value::Int(7), Value::Int(0)), ngl::vm::ArithOf::Failed(ErrorOf::DivisionByZero)));
    assert!(matches!(vm.gt(&Value::Int(2), &Value::Int(1)), ngl::vm::CompareOf::Bool(true)));
    assert!(matches!(vm.lt(&Value::Bool(true), &Value::Int(1)), ngl::vm::CompareOf::Failed(ErrorOf::TypeError(_))));
}

#[test]
fn absorb_takes_over_globals_functions_and_classes() {
    let mut vm = VM::new();
    vm.absorb(vec![(s("a"), Value::Int(1))], vec![], vec![]);
    assert_eq!(vm.globals.len(), 1);
    assert_eq!(vm.globals[0].0, "a");
}

/// The integer an operator gave, or `None` where it gave anything else.
fn int_result(r: ngl::vm::Arith) -> Option<i64> {
    match r {
        ngl::vm::ArithOf::Value(Value::Int(i)) => Some(i),
        _ => None,
    }
}

#[test]
fn integer_addition_and_multiplication_commute() {
    let vm = VM::new();
    for (x, y) in [(2i64, 3i64), (-7, 11), (i64::MAX, 1), (i64::MIN, -1)] {
        let xy = int_result(vm.add_values(Value::Int(x), Value::Int(y)));
        assert_eq!(xy, int_result(vm.add_values(Value::Int(y), Value::Int(x))));
        assert_eq!(xy, x.checked_add(y));
        let xy = int_result(vm.mul_values(Value::Int(x), Value::Int(y)));
        assert_eq!(xy, int_result(vm.mul_values(Value::Int(y), Value::Int(x))));
        assert_eq!(xy, x.checked_mul(y));
    }
}

#[test]
fn quotient_and_remainder_fit_together() {
    let vm = VM::new();
    for (x, y) in [(7i64, 2i64), (-7, 2), (7, -2), (-7, -2), (0, 5), (i64::MIN, 1), (i64::MIN, 2)] {
        let q = match vm.div_values(Value::Int(x), Value::Int(y)) {
            ngl::vm::ArithOf::Value(Value::Int(q)) => q,
            _ => panic!("divides"),
        };
        let r = match vm.mod_values(Value::Int(x), Value::Int(y)) {
            ngl::vm::ArithOf::Value(Value::Int(r)) => r,
            _ => panic!("divides"),
        };
        assert_eq!(q as i128 * y as i128 + r as i128, x as i128);
        assert!(r.unsigned_abs() < y.unsigned_abs());
        assert!(r == 0 || (r > 0) == (x > 0));
    }
}

#[test]
fn instruction_runs_on_a_machine_without_a_program() {
    let mut vm = VM::new();
    vm.stack = vec![Value::Int(7), Value::Int(2)];
    assert!(matches!(vm.execute_op(&OpCodeOf::Sub), StepOf::Done));
    assert!(matches!(vm.stack.as_slice(), [Value::Int(5)]));
    assert_eq!(vm.ip, 1);
}

#[test]
fn store_then_load_gives_the_value_back_with_null_below() {
    let mut vm = machine(vec![OpCodeOf::StoreLocal(2), OpCodeOf::LoadLocal(2)], vec![]);
    vm.stack.push(Value::Int(9));
    assert!(run_plain(&mut vm, 2).is_none());
    assert!(matches!(vm.stack.as_slice(), [Value::Int(9), Value::Int(9)]));
    assert!(matches!(vm.call_stack[0].locals.as_slice(), [Value::Null, Value::Null, Value::Int(9)]));
}

#[test]
fn starting_again_forgets_the_earlier_run() {
    let mut vm = machine(vec![OpCodeOf::PushInt(1), OpCodeOf::Try(0)], vec![]);
    assert!(run_plain(&mut vm, 2).is_none());
    vm.start(vec![OpCodeOf::PushNull], vec![Value::Int(3)]);
    assert_eq!(vm.ip, 0);
    assert!(vm.stack.is_empty());
    assert_eq!(vm.call_stack.len(), 1);
    assert!(vm.catch_handler.is_none());
    assert!(vm.error.is_none());
    assert_eq!(vm.globals.len(), 8);
}
