//! The stack machine.
//!
//! `VM::execute_op` performs one instruction. What an instruction needs from
//! outside the machine (printing, reading a line, files, the network, and
//! floating-point arithmetic) it hands back as a `Step` for the host to carry
//! out; everything else it does itself.
use vstd::prelude::*;

use crate::error::{Error, ErrorOf, SpecError};
use crate::text::{parse_int, parse_int_spec};
use crate::opcode::{
    classes_view, functions_view, methods_view, ClassInfo, ClassModel, FunctionInfo,
    FunctionModel, OpCode, OpCodeOf, SpecOp,
};
use crate::value::{
    byte_len, copy_value, fields_view, find_field, find_field_index, float_is_zero,
    int_text, int_to_text, is_zero_bits, lemma_find_field_from_range,
    lemma_object_view, lemma_object_view_all, lemma_values_view_drop_last,
    lemma_values_view_push, nat_text, negated_bits, repeat_text, repeated, set_field,
    string_less, text_byte_len, text_less, truthy, type_name_of, value_eq, values_equal,
    values_view, concat_text, uint_to_text, Native, SpecValue, Value,
};

verus! {

broadcast use vstd::string::group_string_axioms;

// ---------------------------------------------------------------------------
// Requests to the host.
// ---------------------------------------------------------------------------

/// A number taking part in floating-point work.
#[derive(Debug, PartialEq, Eq, Structural, Clone, Copy)]
pub enum Number {
    Int(i64),
    /// IEEE-754 binary64 bits.
    Float(u64),
}

/// A floating-point operation; both operands are taken as `f64`.
#[derive(Debug, PartialEq, Eq, Structural, Clone, Copy)]
pub enum ArithOp {
    Add,
    Sub,
    Mul,
    Div,
    Rem,
}

/// A floating-point comparison: `a > b`, `a < b`, `!(a < b)`, `!(a > b)`.
#[derive(Debug, PartialEq, Eq, Structural, Clone, Copy)]
pub enum CompareOp {
    Greater,
    Less,
    NotLess,
    NotGreater,
}

/// The foreign languages a program can hand code to.
#[derive(Debug, PartialEq, Eq, Structural, Clone, Copy)]
pub enum Language {
    Python,
    JavaScript,
    Rust,
}

/// What one instruction asks of the host once the machine has done its part.
/// For each request that yields a value, the host pushes that value on the
/// stack; the instruction pointer has already moved on.
#[derive(Debug)]
pub enum StepOf<V, L, S> {
    /// Nothing is asked.
    Done,
    /// Print the text of the value.
    Print(V),
    /// Print the text of the value, if any, then a line break.
    PrintLine(Option<V>),
    /// Read a line; push it, trimmed, as a string.
    ReadLine,
    /// Push the float that the text denotes (0.0 where it denotes none).
    ParseFloat(S),
    /// Push the float result of the operation.
    FloatArith(ArithOp, Number, Number),
    /// Push the boolean result of the comparison.
    FloatCompare(CompareOp, Number, Number),
    /// Push the float (given by its bits) converted to an integer.
    FloatToInt(u64),
    /// Push the integer converted to a float.
    IntToFloat(i64),
    /// Push the text of the value as a string.
    Render(V),
    /// Run the file at the path and take over its globals, functions and
    /// classes; a missing file is `FileNotFound`.
    Import(S),
    /// Announce the foreign code (its result is already on the stack).
    Foreign(Language, S),
    /// Download the URL to the file; push the message that comes back.
    Download(S, S),
    /// Call the built-in function on the arguments; push its result.
    CallNative(Native, L),
    /// Show the depth of the stack and of the call stack.
    Debug(usize, usize),
    /// The instruction fails with the error.
    Failed(ErrorOf<S>),
    /// The value was thrown with no handler: fails with a run-time error
    /// whose message is the text of the value.
    Uncaught(V),
    /// The instruction overflows an integer: a panic.
    Fault,
}

pub type Step = StepOf<Value, Vec<Value>, String>;

pub type SpecStep = StepOf<SpecValue, Seq<SpecValue>, Seq<char>>;

impl View for StepOf<Value, Vec<Value>, String> {
    type V = StepOf<SpecValue, Seq<SpecValue>, Seq<char>>;

    open spec fn view(&self) -> SpecStep {
        match self {
            StepOf::Done => StepOf::Done,
            StepOf::Print(v) => StepOf::Print(v@),
            StepOf::PrintLine(v) => StepOf::PrintLine(
                match v {
                    Some(x) => Some(x@),
                    None => None,
                },
            ),
            StepOf::ReadLine => StepOf::ReadLine,
            StepOf::ParseFloat(s) => StepOf::ParseFloat(s@),
            StepOf::FloatArith(o, a, b) => StepOf::FloatArith(*o, *a, *b),
            StepOf::FloatCompare(o, a, b) => StepOf::FloatCompare(*o, *a, *b),
            StepOf::FloatToInt(f) => StepOf::FloatToInt(*f),
            StepOf::IntToFloat(i) => StepOf::IntToFloat(*i),
            StepOf::Render(v) => StepOf::Render(v@),
            StepOf::Import(s) => StepOf::Import(s@),
            StepOf::Foreign(l, s) => StepOf::Foreign(*l, s@),
            StepOf::Download(u, f) => StepOf::Download(u@, f@),
            StepOf::CallNative(n, args) => StepOf::CallNative(*n, values_view(args@)),
            StepOf::Debug(a, b) => StepOf::Debug(*a, *b),
            StepOf::Failed(e) => StepOf::Failed(e@),
            StepOf::Uncaught(v) => StepOf::Uncaught(v@),
            StepOf::Fault => StepOf::Fault,
        }
    }
}

// ---------------------------------------------------------------------------
// The operators.
// ---------------------------------------------------------------------------

/// The outcome of an arithmetic operator.
pub enum ArithOf<V, S> {
    Value(V),
    Float(ArithOp, Number, Number),
    Failed(ErrorOf<S>),
    Overflow,
}

pub type Arith = ArithOf<Value, String>;

pub type SpecArith = ArithOf<SpecValue, Seq<char>>;

impl View for ArithOf<Value, String> {
    type V = ArithOf<SpecValue, Seq<char>>;

    open spec fn view(&self) -> SpecArith {
        match self {
            ArithOf::Value(v) => ArithOf::Value(v@),
            ArithOf::Float(o, a, b) => ArithOf::Float(*o, *a, *b),
            ArithOf::Failed(e) => ArithOf::Failed(e@),
            ArithOf::Overflow => ArithOf::Overflow,
        }
    }
}

/// The outcome of `>` or `<`.
pub enum CompareOf<S> {
    Bool(bool),
    Float(Number, Number),
    Failed(ErrorOf<S>),
}

pub type Compare = CompareOf<String>;

impl View for CompareOf<String> {
    type V = CompareOf<Seq<char>>;

    open spec fn view(&self) -> CompareOf<Seq<char>> {
        match self {
            CompareOf::Bool(b) => CompareOf::Bool(*b),
            CompareOf::Float(a, b) => CompareOf::Float(*a, *b),
            CompareOf::Failed(e) => CompareOf::Failed(e@),
        }
    }
}

pub open spec fn in_i64(x: int) -> bool {
    i64::MIN <= x <= i64::MAX
}

/// The number of a value that takes part in floating-point work.
pub open spec fn as_number(v: SpecValue) -> Option<Number> {
    match v {
        SpecValue::Int(i) => Some(Number::Int(i)),
        SpecValue::Float(f) => Some(Number::Float(f)),
        _ => None,
    }
}

/// Whether the two operands are numbers and at least one is a float.
pub open spec fn float_pair(a: SpecValue, b: SpecValue) -> bool {
    as_number(a) is Some && as_number(b) is Some && (a is Float || b is Float)
}

/// `a + b`.
pub open spec fn add_spec(a: SpecValue, b: SpecValue) -> SpecArith {
    match (a, b) {
        (SpecValue::Int(x), SpecValue::Int(y)) => if in_i64(x + y) {
            ArithOf::Value(SpecValue::Int((x + y) as i64))
        } else {
            ArithOf::Overflow
        },
        (SpecValue::String(x), SpecValue::String(y)) => ArithOf::Value(SpecValue::String(x + y)),
        (SpecValue::String(x), SpecValue::Int(y)) => ArithOf::Value(SpecValue::String(x + int_text(y as int))),
        (SpecValue::Int(x), SpecValue::String(y)) => ArithOf::Value(SpecValue::String(int_text(x as int) + y)),
        _ => if float_pair(a, b) {
            ArithOf::Float(ArithOp::Add, as_number(a)->0, as_number(b)->0)
        } else {
            ArithOf::Failed(ErrorOf::TypeError("加法类型不匹配"@))
        },
    }
}

/// `a - b`.
pub open spec fn sub_spec(a: SpecValue, b: SpecValue) -> SpecArith {
    match (a, b) {
        (SpecValue::Int(x), SpecValue::Int(y)) => if in_i64(x - y) {
            ArithOf::Value(SpecValue::Int((x - y) as i64))
        } else {
            ArithOf::Overflow
        },
        _ => if float_pair(a, b) {
            ArithOf::Float(ArithOp::Sub, as_number(a)->0, as_number(b)->0)
        } else {
            ArithOf::Failed(ErrorOf::TypeError("减法类型不匹配"@))
        },
    }
}

/// A string repeated `n` times, for `n` from 0 to 1000.
pub open spec fn repeat_spec(s: Seq<char>, n: i64) -> SpecArith {
    if n < 0 || n > 1000 {
        ArithOf::Failed(ErrorOf::Runtime("字符串重复次数超出范围"@))
    } else {
        ArithOf::Value(SpecValue::String(repeated(s, n as nat)))
    }
}

/// `a * b`.
pub open spec fn mul_spec(a: SpecValue, b: SpecValue) -> SpecArith {
    match (a, b) {
        (SpecValue::Int(x), SpecValue::Int(y)) => if in_i64(x * y) {
            ArithOf::Value(SpecValue::Int((x * y) as i64))
        } else {
            ArithOf::Overflow
        },
        (SpecValue::String(s), SpecValue::Int(n)) => repeat_spec(s, n),
        (SpecValue::Int(n), SpecValue::String(s)) => repeat_spec(s, n),
        _ => if float_pair(a, b) {
            ArithOf::Float(ArithOp::Mul, as_number(a)->0, as_number(b)->0)
        } else {
            ArithOf::Failed(ErrorOf::TypeError("乘法类型不匹配"@))
        },
    }
}

/// Whether a number operand is zero.
pub open spec fn number_is_zero(n: Number) -> bool {
    match n {
        Number::Int(i) => i == 0,
        Number::Float(f) => is_zero_bits(f),
    }
}

/// `a / b`: integer division truncates toward zero.
pub open spec fn div_spec(a: SpecValue, b: SpecValue) -> SpecArith {
    match (a, b) {
        (SpecValue::Int(x), SpecValue::Int(y)) => if y == 0 {
            ArithOf::Failed(ErrorOf::DivisionByZero)
        } else {
            match x.checked_div(y) {
                Some(q) => ArithOf::Value(SpecValue::Int(q)),
                None => ArithOf::Overflow,
            }
        },
        _ => if float_pair(a, b) {
            if number_is_zero(as_number(b)->0) {
                ArithOf::Failed(ErrorOf::DivisionByZero)
            } else {
                ArithOf::Float(ArithOp::Div, as_number(a)->0, as_number(b)->0)
            }
        } else {
            ArithOf::Failed(ErrorOf::TypeError("除法类型不匹配"@))
        },
    }
}

/// `a % b`: the remainder has the sign of `a`; floats only with floats.
pub open spec fn rem_spec(a: SpecValue, b: SpecValue) -> SpecArith {
    match (a, b) {
        (SpecValue::Int(x), SpecValue::Int(y)) => if y == 0 {
            ArithOf::Failed(ErrorOf::DivisionByZero)
        } else {
            match x.checked_rem(y) {
                Some(r) => ArithOf::Value(SpecValue::Int(r)),
                None => ArithOf::Overflow,
            }
        },
        (SpecValue::Float(x), SpecValue::Float(y)) => if is_zero_bits(y) {
            ArithOf::Failed(ErrorOf::DivisionByZero)
        } else {
            ArithOf::Float(ArithOp::Rem, Number::Float(x), Number::Float(y))
        },
        _ => ArithOf::Failed(ErrorOf::TypeError("取模类型不匹配"@)),
    }
}

/// The operator of an arithmetic instruction.
pub open spec fn arith_spec(op: ArithOp, a: SpecValue, b: SpecValue) -> SpecArith {
    match op {
        ArithOp::Add => add_spec(a, b),
        ArithOp::Sub => sub_spec(a, b),
        ArithOp::Mul => mul_spec(a, b),
        ArithOp::Div => div_spec(a, b),
        ArithOp::Rem => rem_spec(a, b),
    }
}

/// `a > b` (`greater`) or `a < b`.
pub open spec fn compare_spec(greater: bool, a: SpecValue, b: SpecValue) -> CompareOf<Seq<char>> {
    match (a, b) {
        (SpecValue::Int(x), SpecValue::Int(y)) => CompareOf::Bool(if greater { x > y } else { x < y }),
        (SpecValue::String(x), SpecValue::String(y)) => CompareOf::Bool(
            if greater { text_less(y, x) } else { text_less(x, y) },
        ),
        _ => if float_pair(a, b) {
            CompareOf::Float(as_number(a)->0, as_number(b)->0)
        } else {
            CompareOf::Failed(ErrorOf::TypeError("比较类型不匹配"@))
        },
    }
}

// ---------------------------------------------------------------------------
// The machine as specifications see it.
// ---------------------------------------------------------------------------

/// A call frame.
#[derive(Debug)]
pub struct CallFrame {
    pub ip: usize,
    pub locals: Vec<Value>,
    pub function: usize,
    pub stack_start: usize,
    pub instance: Option<usize>,
}

pub struct FrameModel {
    pub ip: usize,
    pub locals: Seq<SpecValue>,
    pub function: usize,
    pub stack_start: usize,
    pub instance: Option<usize>,
}

impl View for CallFrame {
    type V = FrameModel;

    open spec fn view(&self) -> FrameModel {
        FrameModel {
            ip: self.ip,
            locals: values_view(self.locals@),
            function: self.function,
            stack_start: self.stack_start,
            instance: self.instance,
        }
    }
}

pub open spec fn frames_view(fs: Seq<CallFrame>) -> Seq<FrameModel> {
    fs.map_values(|f: CallFrame| f@)
}

/// The machine as specifications see it.
pub struct VMModel {
    pub stack: Seq<SpecValue>,
    pub globals: Seq<(Seq<char>, SpecValue)>,
    pub functions: Seq<FunctionModel>,
    pub classes: Seq<ClassModel>,
    pub instructions: Seq<SpecOp>,
    pub constants: Seq<SpecValue>,
    pub ip: usize,
    pub call_stack: Seq<FrameModel>,
    pub debug_mode: bool,
    pub error: Option<Seq<char>>,
    pub catch_handler: Option<usize>,
}

/// The stack machine.
pub struct VM {
    pub stack: Vec<Value>,
    /// Global variables by name, in the order they were first set.
    pub globals: Vec<(String, Value)>,
    pub functions: Vec<FunctionInfo>,
    pub classes: Vec<ClassInfo>,
    pub instructions: Vec<OpCode>,
    pub constants: Vec<Value>,
    pub ip: usize,
    pub call_stack: Vec<CallFrame>,
    pub debug_mode: bool,
    pub error: Option<String>,
    pub catch_handler: Option<usize>,
}

impl View for VM {
    type V = VMModel;

    open spec fn view(&self) -> VMModel {
        VMModel {
            stack: values_view(self.stack@),
            globals: fields_view(self.globals@),
            functions: functions_view(self.functions@),
            classes: classes_view(self.classes@),
            instructions: crate::opcode::ops_view(self.instructions@),
            constants: values_view(self.constants@),
            ip: self.ip,
            call_stack: frames_view(self.call_stack@),
            debug_mode: self.debug_mode,
            error: match self.error {
                Some(s) => Some(s@),
                None => None,
            },
            catch_handler: self.catch_handler,
        }
    }
}

pub open spec fn stack_empty_error() -> SpecError {
    ErrorOf::Runtime("栈为空"@)
}

impl VMModel {
    pub open spec fn with_stack(self, stack: Seq<SpecValue>) -> VMModel {
        VMModel { stack, ..self }
    }

    pub open spec fn with_ip(self, ip: usize) -> VMModel {
        VMModel { ip, ..self }
    }

    /// Moves to the next instruction.
    pub open spec fn next(self) -> VMModel {
        self.with_ip((self.ip + 1) as usize)
    }

    pub open spec fn push(self, v: SpecValue) -> VMModel {
        self.with_stack(self.stack.push(v))
    }

    pub open spec fn popped(self) -> VMModel {
        self.with_stack(self.stack.drop_last())
    }

    /// The string constant at `idx`, if there is one.
    pub open spec fn string_constant(self, idx: int) -> Option<Seq<char>> {
        if 0 <= idx < self.constants.len() {
            match self.constants[idx] {
                SpecValue::String(s) => Some(s),
                _ => None,
            }
        } else {
            None
        }
    }
}


/// The operands of a binary instruction have been popped (`b` first, then
/// `a`); what the instruction does with them.
pub open spec fn binary_result(m: VMModel, op: SpecOp, a: SpecValue, b: SpecValue) -> (VMModel, SpecStep) {
    let arith = |o: ArithOp|
        match arith_spec(o, a, b) {
            ArithOf::Value(v) => (m.push(v).next(), StepOf::Done),
            ArithOf::Float(fo, x, y) => (m.next(), StepOf::FloatArith(fo, x, y)),
            ArithOf::Failed(e) => (m, StepOf::Failed(e)),
            ArithOf::Overflow => (m, StepOf::Fault),
        };
    let cmp = |greater: bool, negate: bool, fop: CompareOp|
        match compare_spec(greater, a, b) {
            CompareOf::Bool(r) => (m.push(SpecValue::Bool(if negate { !r } else { r })).next(), StepOf::Done),
            CompareOf::Float(x, y) => (m.next(), StepOf::FloatCompare(fop, x, y)),
            CompareOf::Failed(e) => (m, StepOf::Failed(e)),
        };
    match op {
        OpCodeOf::Add => arith(ArithOp::Add),
        OpCodeOf::Sub => arith(ArithOp::Sub),
        OpCodeOf::Mul => arith(ArithOp::Mul),
        OpCodeOf::Div => arith(ArithOp::Div),
        OpCodeOf::Mod => arith(ArithOp::Rem),
        OpCodeOf::Eq => (m.push(SpecValue::Bool(value_eq(a, b))).next(), StepOf::Done),
        OpCodeOf::Ne => (m.push(SpecValue::Bool(!value_eq(a, b))).next(), StepOf::Done),
        OpCodeOf::Gt => cmp(true, false, CompareOp::Greater),
        OpCodeOf::Lt => cmp(false, false, CompareOp::Less),
        OpCodeOf::Ge => cmp(false, true, CompareOp::NotLess),
        OpCodeOf::Le => cmp(true, true, CompareOp::NotGreater),
        OpCodeOf::And => (m.push(SpecValue::Bool(truthy(a) && truthy(b))).next(), StepOf::Done),
        OpCodeOf::Or => (m.push(SpecValue::Bool(truthy(a) || truthy(b))).next(), StepOf::Done),
        _ => (m, StepOf::Done),
    }
}

/// The instructions that pop two operands.
pub open spec fn is_binary(op: SpecOp) -> bool {
    match op {
        OpCodeOf::Add | OpCodeOf::Sub | OpCodeOf::Mul | OpCodeOf::Div | OpCodeOf::Mod
        | OpCodeOf::Eq | OpCodeOf::Ne | OpCodeOf::Gt | OpCodeOf::Lt | OpCodeOf::Ge
        | OpCodeOf::Le | OpCodeOf::And | OpCodeOf::Or => true,
        _ => false,
    }
}

/// A binary instruction: pops `b`, then `a` (an empty stack is an error),
/// then applies the operator.
pub open spec fn step_binary(m: VMModel, op: SpecOp) -> (VMModel, SpecStep) {
    if m.stack.len() == 0 {
        (m, StepOf::Failed(stack_empty_error()))
    } else if m.stack.len() == 1 {
        (m.popped(), StepOf::Failed(stack_empty_error()))
    } else {
        let b = m.stack.last();
        let a = m.stack.drop_last().last();
        binary_result(m.popped().popped(), op, a, b)
    }
}


// ---------------------------------------------------------------------------
// The operators, run.
// ---------------------------------------------------------------------------

fn type_error(msg: &str) -> (e: Error)
    ensures
        e@ == ErrorOf::<Seq<char>>::TypeError(msg@),
{
    Error::TypeError(msg.to_owned())
}

fn number_of(v: &Value) -> (n: Option<Number>)
    ensures
        n == as_number(v@),
{
    match v {
        Value::Int(i) => Some(Number::Int(*i)),
        Value::Float(f) => Some(Number::Float(*f)),
        _ => None,
    }
}

/// The operands are numbers and at least one is a float: the numbers.
fn float_operands(a: &Value, b: &Value) -> (r: Option<(Number, Number)>)
    ensures
        match r {
            Some((x, y)) => float_pair(a@, b@) && x == as_number(a@)->0 && y == as_number(b@)->0,
            None => !float_pair(a@, b@),
        },
{
    let is_float = match a {
        Value::Float(_) => true,
        _ => match b {
            Value::Float(_) => true,
            _ => false,
        },
    };
    match number_of(a) {
        Some(x) => match number_of(b) {
            Some(y) => if is_float {
                Some((x, y))
            } else {
                None
            },
            None => None,
        },
        None => None,
    }
}

fn repeat_values(s: &String, n: i64) -> (r: Arith)
    ensures
        r@ == repeat_spec(s@, n),
{
    if n < 0 || n > 1000 {
        ArithOf::Failed(Error::Runtime("字符串重复次数超出范围".to_owned()))
    } else {
        ArithOf::Value(Value::String(repeat_text(s, n as usize)))
    }
}

impl VM {
    /// Pops the top of the stack; an empty stack is a run-time error.
    pub fn safe_pop(&mut self) -> (r: Result<Value, Error>)
        ensures
            match r {
                Ok(v) => old(self)@.stack.len() > 0 && v@ == old(self)@.stack.last()
                    && final(self)@ == old(self)@.popped(),
                Err(e) => old(self)@.stack.len() == 0 && e@ == stack_empty_error()
                    && final(self)@ == old(self)@,
            },
    {
        let ghost before = self.stack@;
        match self.stack.pop() {
            Some(v) => {
                proof {
                    lemma_values_view_drop_last(before);
                }
                Ok(v)
            },
            None => Err(Error::Runtime("栈为空".to_owned())),
        }
    }

    /// `a + b`.
    pub fn add_values(&self, a: Value, b: Value) -> (r: Arith)
        ensures
            r@ == add_spec(a@, b@),
    {
        match (&a, &b) {
            (Value::Int(x), Value::Int(y)) => match x.checked_add(*y) {
                Some(z) => ArithOf::Value(Value::Int(z)),
                None => ArithOf::Overflow,
            },
            (Value::String(x), Value::String(y)) => ArithOf::Value(Value::String(concat_text(x, y))),
            (Value::String(x), Value::Int(y)) => ArithOf::Value(Value::String(concat_text(x, &int_to_text(*y)))),
            (Value::Int(x), Value::String(y)) => ArithOf::Value(Value::String(concat_text(&int_to_text(*x), y))),
            _ => match float_operands(&a, &b) {
                Some((x, y)) => ArithOf::Float(ArithOp::Add, x, y),
                None => ArithOf::Failed(type_error("加法类型不匹配")),
            },
        }
    }

    /// `a - b`.
    pub fn sub_values(&self, a: Value, b: Value) -> (r: Arith)
        ensures
            r@ == sub_spec(a@, b@),
    {
        match (&a, &b) {
            (Value::Int(x), Value::Int(y)) => match x.checked_sub(*y) {
                Some(z) => ArithOf::Value(Value::Int(z)),
                None => ArithOf::Overflow,
            },
            _ => match float_operands(&a, &b) {
                Some((x, y)) => ArithOf::Float(ArithOp::Sub, x, y),
                None => ArithOf::Failed(type_error("减法类型不匹配")),
            },
        }
    }

    /// `a * b`; a string times an integer from 0 to 1000 repeats it.
    pub fn mul_values(&self, a: Value, b: Value) -> (r: Arith)
        ensures
            r@ == mul_spec(a@, b@),
    {
        match (&a, &b) {
            (Value::Int(x), Value::Int(y)) => match x.checked_mul(*y) {
                Some(z) => ArithOf::Value(Value::Int(z)),
                None => ArithOf::Overflow,
            },
            (Value::String(s), Value::Int(n)) => repeat_values(s, *n),
            (Value::Int(n), Value::String(s)) => repeat_values(s, *n),
            _ => match float_operands(&a, &b) {
                Some((x, y)) => ArithOf::Float(ArithOp::Mul, x, y),
                None => ArithOf::Failed(type_error("乘法类型不匹配")),
            },
        }
    }

    /// `a / b`; dividing by zero is an error.
    pub fn div_values(&self, a: Value, b: Value) -> (r: Arith)
        ensures
            r@ == div_spec(a@, b@),
    {
        match (&a, &b) {
            (Value::Int(x), Value::Int(y)) => {
                if *y == 0 {
                    return ArithOf::Failed(Error::DivisionByZero);
                }
                match x.checked_div(*y) {
                    Some(q) => ArithOf::Value(Value::Int(q)),
                    None => ArithOf::Overflow,
                }
            },
            _ => match float_operands(&a, &b) {
                Some((x, y)) => {
                    let zero = match y {
                        Number::Int(i) => i == 0,
                        Number::Float(f) => float_is_zero(f),
                    };
                    if zero {
                        ArithOf::Failed(Error::DivisionByZero)
                    } else {
                        ArithOf::Float(ArithOp::Div, x, y)
                    }
                },
                None => ArithOf::Failed(type_error("除法类型不匹配")),
            },
        }
    }

    /// `a % b`; by zero is an error.
    pub fn mod_values(&self, a: Value, b: Value) -> (r: Arith)
        ensures
            r@ == rem_spec(a@, b@),
    {
        match (&a, &b) {
            (Value::Int(x), Value::Int(y)) => {
                if *y == 0 {
                    return ArithOf::Failed(Error::DivisionByZero);
                }
                match x.checked_rem(*y) {
                    Some(q) => ArithOf::Value(Value::Int(q)),
                    None => ArithOf::Overflow,
                }
            },
            (Value::Float(x), Value::Float(y)) => {
                if float_is_zero(*y) {
                    ArithOf::Failed(Error::DivisionByZero)
                } else {
                    ArithOf::Float(ArithOp::Rem, Number::Float(*x), Number::Float(*y))
                }
            },
            _ => ArithOf::Failed(type_error("取模类型不匹配")),
        }
    }

    fn compare(&self, greater: bool, a: &Value, b: &Value) -> (r: Compare)
        ensures
            r@ == compare_spec(greater, a@, b@),
    {
        match (a, b) {
            (Value::Int(x), Value::Int(y)) => CompareOf::Bool(if greater { *x > *y } else { *x < *y }),
            (Value::String(x), Value::String(y)) => CompareOf::Bool(
                if greater { string_less(y, x) } else { string_less(x, y) },
            ),
            _ => match float_operands(a, b) {
                Some((x, y)) => CompareOf::Float(x, y),
                None => CompareOf::Failed(type_error("比较类型不匹配")),
            },
        }
    }

    /// `a > b`.
    pub fn gt(&self, a: &Value, b: &Value) -> (r: Compare)
        ensures
            r@ == compare_spec(true, a@, b@),
    {
        self.compare(true, a, b)
    }

    /// `a < b`.
    pub fn lt(&self, a: &Value, b: &Value) -> (r: Compare)
        ensures
            r@ == compare_spec(false, a@, b@),
    {
        self.compare(false, a, b)
    }

    fn push_value(&mut self, v: Value)
        ensures
            final(self)@ == old(self)@.push(v@),
    {
        let ghost before = self.stack@;
        self.stack.push(v);
        proof {
            lemma_values_view_push(before, v);
        }
    }

    fn finish_arith(&mut self, r: Arith) -> (s: Step)
        requires
            old(self).ip < usize::MAX,
        ensures
            (final(self)@, s@) == (match r@ {
                ArithOf::Value(v) => (old(self)@.push(v).next(), SpecStep::Done),
                ArithOf::Float(fo, x, y) => (old(self)@.next(), SpecStep::FloatArith(fo, x, y)),
                ArithOf::Failed(e) => (old(self)@, StepOf::Failed(e)),
                ArithOf::Overflow => (old(self)@, StepOf::Fault),
            }),
    {
        match r {
            ArithOf::Value(v) => {
                self.push_value(v);
                self.ip = self.ip + 1;
                StepOf::Done
            },
            ArithOf::Float(fo, x, y) => {
                self.ip = self.ip + 1;
                StepOf::FloatArith(fo, x, y)
            },
            ArithOf::Failed(e) => StepOf::Failed(e),
            ArithOf::Overflow => StepOf::Fault,
        }
    }

    fn finish_compare(&mut self, r: Compare, negate: bool, fop: CompareOp) -> (s: Step)
        requires
            old(self).ip < usize::MAX,
        ensures
            (final(self)@, s@) == (match r@ {
                CompareOf::Bool(b) => (old(self)@.push(SpecValue::Bool(if negate { !b } else { b })).next(), SpecStep::Done),
                CompareOf::Float(x, y) => (old(self)@.next(), StepOf::FloatCompare(fop, x, y)),
                CompareOf::Failed(e) => (old(self)@, StepOf::Failed(e)),
            }),
    {
        match r {
            CompareOf::Bool(b) => {
                self.push_value(Value::Bool(if negate { !b } else { b }));
                self.ip = self.ip + 1;
                StepOf::Done
            },
            CompareOf::Float(x, y) => {
                self.ip = self.ip + 1;
                StepOf::FloatCompare(fop, x, y)
            },
            CompareOf::Failed(e) => StepOf::Failed(e),
        }
    }

    fn exec_binary(&mut self, op: &OpCode) -> (r: Step)
        requires
            is_binary(op@),
            old(self).ip < usize::MAX,
        ensures
            (final(self)@, r@) == step_binary(old(self)@, op@),
    {
        let b = match self.safe_pop() {
            Ok(v) => v,
            Err(e) => return StepOf::Failed(e),
        };
        let a = match self.safe_pop() {
            Ok(v) => v,
            Err(e) => return StepOf::Failed(e),
        };
        match op {
            OpCodeOf::Add => {
                let r = self.add_values(a, b);
                self.finish_arith(r)
            },
            OpCodeOf::Sub => {
                let r = self.sub_values(a, b);
                self.finish_arith(r)
            },
            OpCodeOf::Mul => {
                let r = self.mul_values(a, b);
                self.finish_arith(r)
            },
            OpCodeOf::Div => {
                let r = self.div_values(a, b);
                self.finish_arith(r)
            },
            OpCodeOf::Mod => {
                let r = self.mod_values(a, b);
                self.finish_arith(r)
            },
            OpCodeOf::Eq => {
                let e = values_equal(&a, &b);
                self.push_value(Value::Bool(e));
                self.ip = self.ip + 1;
                StepOf::Done
            },
            OpCodeOf::Ne => {
                let e = values_equal(&a, &b);
                self.push_value(Value::Bool(!e));
                self.ip = self.ip + 1;
                StepOf::Done
            },
            OpCodeOf::Gt => {
                let r = self.gt(&a, &b);
                self.finish_compare(r, false, CompareOp::Greater)
            },
            OpCodeOf::Lt => {
                let r = self.lt(&a, &b);
                self.finish_compare(r, false, CompareOp::Less)
            },
            OpCodeOf::Ge => {
                let r = self.lt(&a, &b);
                self.finish_compare(r, true, CompareOp::NotLess)
            },
            OpCodeOf::Le => {
                let r = self.gt(&a, &b);
                self.finish_compare(r, true, CompareOp::NotGreater)
            },
            OpCodeOf::And => {
                let t = a.is_truthy() && b.is_truthy();
                self.push_value(Value::Bool(t));
                self.ip = self.ip + 1;
                StepOf::Done
            },
            _ => {
                let t = a.is_truthy() || b.is_truthy();
                self.push_value(Value::Bool(t));
                self.ip = self.ip + 1;
                StepOf::Done
            },
        }
    }
}


// ---------------------------------------------------------------------------
// One instruction, as specifications see it.
// ---------------------------------------------------------------------------

/// The last `k` values of `s` (all of them when there are fewer).
pub open spec fn top_values(s: Seq<SpecValue>, k: int) -> Seq<SpecValue> {
    if k >= s.len() { s } else { s.subrange(s.len() - k, s.len() as int) }
}

/// `s` without its last `k` values.
pub open spec fn below_top(s: Seq<SpecValue>, k: int) -> Seq<SpecValue> {
    if k >= s.len() { Seq::empty() } else { s.subrange(0, s.len() - k) }
}

/// The index of the first method named `name`.
pub open spec fn find_method_from(ms: Seq<(Seq<char>, FunctionModel)>, name: Seq<char>, i: int) -> Option<int>
    decreases ms.len() - i,
{
    if i < 0 || i >= ms.len() {
        None
    } else if ms[i].0 == name {
        Some(i)
    } else {
        find_method_from(ms, name, i + 1)
    }
}

/// The method of class `ci` named `name`, if both exist.
pub open spec fn class_method(m: VMModel, ci: int, name: Seq<char>) -> Option<FunctionModel> {
    if 0 <= ci < m.classes.len() {
        match find_method_from(m.classes[ci].methods, name, 0) {
            Some(j) => Some(m.classes[ci].methods[j].1),
            None => None,
        }
    } else {
        None
    }
}

/// The index of the first class named `name` at or after `i`.
pub open spec fn find_class_from(cs: Seq<ClassModel>, name: Seq<char>, i: int) -> Option<int>
    decreases cs.len() - i,
{
    if i < 0 || i >= cs.len() {
        None
    } else if cs[i].name == name {
        Some(i)
    } else {
        find_class_from(cs, name, i + 1)
    }
}

/// The value of a field, or `null`.
pub open spec fn field_or_null(fs: Seq<(Seq<char>, SpecValue)>, k: Seq<char>) -> SpecValue {
    match find_field(fs, k) {
        Some(j) => fs[j].1,
        None => SpecValue::Null,
    }
}

/// The message of an out-of-range index.
pub open spec fn index_message(i: i64) -> Seq<char> {
    "索引越界: "@ + int_text(i as int)
}

/// The value that a foreign-code import leaves on the stack.
pub open spec fn foreign_result(lang: Language, code: Seq<char>) -> Seq<char> {
    let head = match lang {
        Language::Python => "Python执行成功: "@,
        Language::JavaScript => "JavaScript执行成功: "@,
        Language::Rust => "Rust执行成功: "@,
    };
    head + nat_text((byte_len(code) as usize) as nat)
}

/// The bits of `1.0`.
pub open spec fn one_bits() -> u64 {
    0x3ff0_0000_0000_0000u64
}

impl VMModel {
    /// With the last call frame replaced.
    pub open spec fn with_last_frame(self, f: FrameModel) -> VMModel {
        VMModel { call_stack: self.call_stack.update(self.call_stack.len() - 1, f), ..self }
    }

    /// With the top of the stack replaced.
    pub open spec fn with_top(self, v: SpecValue) -> VMModel {
        self.with_stack(self.stack.update(self.stack.len() - 1, v))
    }
}

/// The instructions that pop a constant's index and hand the constant to the
/// host: `Import` and the three foreign imports.
pub open spec fn step_import(m: VMModel, op: SpecOp) -> (VMModel, SpecStep) {
    if m.stack.len() == 0 {
        (m.next(), StepOf::Done)
    } else {
        let m1 = m.popped();
        match m.stack.last() {
            SpecValue::Int(i) => match m.string_constant((i as usize) as int) {
                Some(text) => match op {
                    OpCodeOf::Import => (m1.next(), StepOf::Import(text)),
                    OpCodeOf::ImportPy => (m1.push(SpecValue::String(foreign_result(Language::Python, text))).next(), StepOf::Foreign(Language::Python, text)),
                    OpCodeOf::ImportJs => (m1.push(SpecValue::String(foreign_result(Language::JavaScript, text))).next(), StepOf::Foreign(Language::JavaScript, text)),
                    _ => (m1.push(SpecValue::String(foreign_result(Language::Rust, text))).next(), StepOf::Foreign(Language::Rust, text)),
                },
                None => (m1.next(), StepOf::Done),
            },
            _ => (m1.next(), StepOf::Done),
        }
    }
}

/// `Download`: pops the file name's and then the URL's constant index.
pub open spec fn step_download(m: VMModel) -> (VMModel, SpecStep) {
    if m.stack.len() == 0 {
        (m.next(), StepOf::Done)
    } else {
        let m1 = m.popped();
        match m.stack.last() {
            SpecValue::Int(fi) => if m1.stack.len() == 0 {
                (m1.next(), StepOf::Done)
            } else {
                let m2 = m1.popped();
                match m1.stack.last() {
                    SpecValue::Int(ui) => match (m.string_constant((ui as usize) as int), m.string_constant((fi as usize) as int)) {
                        (Some(url), Some(file)) => (m2.next(), StepOf::Download(url, file)),
                        _ => (m2.next(), StepOf::Done),
                    },
                    _ => (m2.next(), StepOf::Done),
                }
            },
            _ => (m1.next(), StepOf::Done),
        }
    }
}

/// `Call(arity)`: pops up to `arity` arguments, then the function.
pub open spec fn step_call(m: VMModel, arity: usize) -> (VMModel, SpecStep) {
    let args = top_values(m.stack, arity as int);
    let m1 = m.with_stack(below_top(m.stack, arity as int));
    if m1.stack.len() == 0 {
        (m1.next(), StepOf::Done)
    } else {
        let m2 = m1.popped();
        match m1.stack.last() {
            SpecValue::Function(fi) => if fi < m.functions.len() {
                if args.len() != m.functions[fi as int].arity {
                    (m2, StepOf::Failed(ErrorOf::ArityError))
                } else {
                    let frame = FrameModel { ip: 0, locals: args, function: fi, stack_start: m2.stack.len() as usize, instance: None };
                    (VMModel { call_stack: m2.call_stack.push(frame), ..m2 }.next(), StepOf::Done)
                }
            } else {
                (m2.next(), StepOf::Done)
            },
            SpecValue::NativeFunction(n) => if m2.ip + 2 > usize::MAX {
                (m2.next(), StepOf::Fault)
            } else {
                (m2.with_ip((m2.ip + 2) as usize), StepOf::CallNative(n, args))
            },
            _ => (m2, StepOf::Failed(ErrorOf::TypeError("不能调用非函数"@))),
        }
    }
}

/// `CallMethod(idx)`: pops the instance, then up to the method's arity (less
/// the instance) arguments, and enters the method.
pub open spec fn step_call_method(m: VMModel, idx: usize) -> (VMModel, SpecStep) {
    match m.string_constant(idx as int) {
        Some(name) => if m.stack.len() == 0 {
            (m.next(), StepOf::Done)
        } else {
            let inst = m.stack.last();
            let m1 = m.popped();
            match inst {
                SpecValue::Instance(ci, _) => match class_method(m, ci as int, name) {
                    Some(method) => if method.arity == 0 {
                        (m1, StepOf::Fault)
                    } else {
                        let k = (method.arity - 1) as int;
                        let args = top_values(m1.stack, k).push(inst);
                        let m2 = m1.with_stack(below_top(m1.stack, k));
                        let frame = FrameModel {
                            ip: 0,
                            locals: args,
                            function: m.functions.len() as usize,
                            stack_start: m2.stack.len() as usize,
                            instance: Some(ci),
                        };
                        (VMModel {
                            functions: m2.functions.push(method),
                            call_stack: m2.call_stack.push(frame),
                            ..m2
                        }.next(), StepOf::Done)
                    },
                    None => (m1.next(), StepOf::Done),
                },
                _ => (m1, StepOf::Failed(ErrorOf::MethodError("只能调用实例的方法"@))),
            }
        },
        None => (m.next(), StepOf::Done),
    }
}

/// `GetField(idx)`: pops an object or instance and pushes the field; a
/// method of an instance's class is copied to the end of the functions.
pub open spec fn step_get_field(m: VMModel, idx: usize) -> (VMModel, SpecStep) {
    match m.string_constant(idx as int) {
        Some(field) => if m.stack.len() == 0 {
            (m.next(), StepOf::Done)
        } else {
            let m1 = m.popped();
            match m.stack.last() {
                SpecValue::Object(o) => (m1.push(field_or_null(o, field)).next(), StepOf::Done),
                SpecValue::Instance(ci, fs) => match find_field(fs, field) {
                    Some(j) => (m1.push(fs[j].1).next(), StepOf::Done),
                    None => match class_method(m, ci as int, field) {
                        Some(method) => (VMModel { functions: m1.functions.push(method), ..m1 }.push(SpecValue::Function(m1.functions.len() as usize)).next(), StepOf::Done),
                        None => (m1.push(SpecValue::Null).next(), StepOf::Done),
                    },
                },
                _ => (m1.push(SpecValue::Null).next(), StepOf::Done),
            }
        },
        None => (m.next(), StepOf::Done),
    }
}

/// `SetField(idx)` (objects and instances) and `SetProperty(idx)`
/// (instances): pops the value and sets the field of the value below.
pub open spec fn step_set_field(m: VMModel, idx: usize, objects: bool) -> (VMModel, SpecStep) {
    match m.string_constant(idx as int) {
        Some(field) => if m.stack.len() == 0 {
            (m.next(), StepOf::Done)
        } else {
            let v = m.stack.last();
            let m1 = m.popped();
            if m1.stack.len() == 0 {
                (m1.next(), StepOf::Done)
            } else {
                match m1.stack.last() {
                    SpecValue::Object(o) => if objects {
                        (m1.with_top(SpecValue::Object(set_field(o, field, v))).next(), StepOf::Done)
                    } else {
                        (m1.next(), StepOf::Done)
                    },
                    SpecValue::Instance(c, fs) => (m1.with_top(SpecValue::Instance(c, set_field(fs, field, v))).next(), StepOf::Done),
                    _ => (m1.next(), StepOf::Done),
                }
            }
        },
        None => (m.next(), StepOf::Done),
    }
}

/// `GetIndex`: pops the index and pushes the element of the array below it.
pub open spec fn step_get_index(m: VMModel) -> (VMModel, SpecStep) {
    if m.stack.len() == 0 {
        (m, StepOf::Failed(stack_empty_error()))
    } else {
        let idx = m.stack.last();
        let m1 = m.popped();
        if m1.stack.len() > 0 && m1.stack.last() is Array && idx is Int {
            let arr = m1.stack.last()->Array_0;
            let i = idx->Int_0;
            if i >= 0 && ((i as usize) as int) < arr.len() {
                (m1.push(arr[(i as usize) as int]).next(), StepOf::Done)
            } else {
                (m1, StepOf::Failed(ErrorOf::IndexError(index_message(i))))
            }
        } else {
            (m1.next(), StepOf::Done)
        }
    }
}

/// `SetIndex`: pops the value, then the index, and sets the element of the
/// array below them.
pub open spec fn step_set_index(m: VMModel) -> (VMModel, SpecStep) {
    if m.stack.len() == 0 {
        (m, StepOf::Failed(stack_empty_error()))
    } else if m.stack.len() == 1 {
        (m.popped(), StepOf::Failed(stack_empty_error()))
    } else {
        let value = m.stack.last();
        let idx = m.stack.drop_last().last();
        let m1 = m.popped().popped();
        if m1.stack.len() > 0 && m1.stack.last() is Array && idx is Int {
            let arr = m1.stack.last()->Array_0;
            let i = idx->Int_0;
            if i >= 0 && ((i as usize) as int) < arr.len() {
                (m1.with_top(SpecValue::Array(arr.update((i as usize) as int, value))).next(), StepOf::Done)
            } else {
                (m1, StepOf::Failed(ErrorOf::IndexError(index_message(i))))
            }
        } else {
            (m1.next(), StepOf::Done)
        }
    }
}

/// `StoreLocal(idx)`: copies the top of the stack into the local, growing
/// the locals with `null` as needed.
pub open spec fn step_store_local(m: VMModel, idx: usize) -> (VMModel, SpecStep) {
    if m.call_stack.len() > 0 && m.stack.len() > 0 {
        let f = m.call_stack.last();
        if idx >= f.locals.len() && idx + 1 > usize::MAX {
            (m, StepOf::Fault)
        } else {
            let grown = if idx >= f.locals.len() {
                f.locals + Seq::new((idx + 1 - f.locals.len()) as nat, |k: int| SpecValue::Null)
            } else {
                f.locals
            };
            (m.with_last_frame(FrameModel { locals: grown.update(idx as int, m.stack.last()), ..f }).next(), StepOf::Done)
        }
    } else {
        (m.next(), StepOf::Done)
    }
}

/// One instruction.
pub open spec fn step(m: VMModel, op: SpecOp) -> (VMModel, SpecStep) {
    if is_binary(op) {
        step_binary(m, op)
    } else {
        match op {
            OpCodeOf::PushInt(i) => (m.push(SpecValue::Int(i)).next(), StepOf::Done),
            OpCodeOf::PushFloat(text) => (m.next(), StepOf::ParseFloat(text)),
            OpCodeOf::PushString(s) => (m.push(SpecValue::String(s)).next(), StepOf::Done),
            OpCodeOf::PushBool(b) => (m.push(SpecValue::Bool(b)).next(), StepOf::Done),
            OpCodeOf::PushNull => (m.push(SpecValue::Null).next(), StepOf::Done),
            OpCodeOf::Pop => (if m.stack.len() > 0 { m.popped() } else { m }.next(), StepOf::Done),
            OpCodeOf::Dup => (if m.stack.len() > 0 { m.push(m.stack.last()) } else { m }.next(), StepOf::Done),
            OpCodeOf::Neg => if m.stack.len() == 0 {
                (m, StepOf::Failed(stack_empty_error()))
            } else {
                match m.stack.last() {
                    SpecValue::Int(i) => if i == i64::MIN {
                        (m.popped(), StepOf::Fault)
                    } else {
                        (m.popped().push(SpecValue::Int((-i) as i64)).next(), StepOf::Done)
                    },
                    SpecValue::Float(f) => (m.popped().push(SpecValue::Float(negated_bits(f))).next(), StepOf::Done),
                    _ => (m.popped(), StepOf::Failed(ErrorOf::TypeError("不能对非数字取负"@))),
                }
            },
            OpCodeOf::Not => if m.stack.len() == 0 {
                (m, StepOf::Failed(stack_empty_error()))
            } else {
                (m.popped().push(SpecValue::Bool(!truthy(m.stack.last()))).next(), StepOf::Done)
            },
            OpCodeOf::LoadLocal(idx) => if m.call_stack.len() > 0 {
                let f = m.call_stack.last();
                (m.push(if idx < f.locals.len() { f.locals[idx as int] } else { SpecValue::Null }).next(), StepOf::Done)
            } else {
                (m.next(), StepOf::Done)
            },
            OpCodeOf::StoreLocal(idx) => step_store_local(m, idx),
            OpCodeOf::LoadGlobal(idx) => match m.string_constant(idx as int) {
                Some(name) => (m.push(field_or_null(m.globals, name)).next(), StepOf::Done),
                None => (m.next(), StepOf::Done),
            },
            OpCodeOf::StoreGlobal(idx) => match m.string_constant(idx as int) {
                Some(name) => if m.stack.len() > 0 {
                    (VMModel { globals: set_field(m.globals, name, m.stack.last()), ..m }.next(), StepOf::Done)
                } else {
                    (m.next(), StepOf::Done)
                },
                None => (m.next(), StepOf::Done),
            },
            OpCodeOf::Jump(t) => (m.with_ip(t), StepOf::Done),
            OpCodeOf::JumpIfFalse(t) => if m.stack.len() > 0 && !truthy(m.stack.last()) {
                (m.with_ip(t), StepOf::Done)
            } else {
                (m.next(), StepOf::Done)
            },
            OpCodeOf::JumpIfTrue(t) => if m.stack.len() > 0 && truthy(m.stack.last()) {
                (m.with_ip(t), StepOf::Done)
            } else {
                (m.next(), StepOf::Done)
            },
            OpCodeOf::Loop(t) => (m.with_ip(t), StepOf::Done),
            OpCodeOf::Call(arity) => step_call(m, arity),
            OpCodeOf::Return => if m.stack.len() == 0 {
                (m, StepOf::Failed(stack_empty_error()))
            } else if m.call_stack.len() > 1 {
                (VMModel { call_stack: m.call_stack.drop_last(), stack: seq![m.stack.last()], ..m }.next(), StepOf::Done)
            } else {
                (m.with_stack(seq![m.stack.last()]), StepOf::Done)
            },
            OpCodeOf::DefineFunction(i) => (m.push(SpecValue::Function(i)).next(), StepOf::Done),
            OpCodeOf::NewArray(size) => (
                m.with_stack(below_top(m.stack, size as int).push(SpecValue::Array(top_values(m.stack, size as int)))).next(),
                StepOf::Done,
            ),
            OpCodeOf::GetIndex => step_get_index(m),
            OpCodeOf::SetIndex => step_set_index(m),
            OpCodeOf::Len => if m.stack.len() > 0 {
                let n: int = match m.stack.last() {
                    SpecValue::String(s) => byte_len(s) as usize as int,
                    SpecValue::Array(a) => a.len() as usize as int,
                    _ => 0,
                };
                (m.popped().push(SpecValue::Int(n as usize as i64)).next(), StepOf::Done)
            } else {
                (m.next(), StepOf::Done)
            },
            OpCodeOf::NewObject => (m.push(SpecValue::Object(Seq::empty())).next(), StepOf::Done),
            OpCodeOf::GetField(idx) => step_get_field(m, idx),
            OpCodeOf::SetField(idx) => step_set_field(m, idx, true),
            OpCodeOf::DefineClass(i) => (m.push(SpecValue::Class(i)).next(), StepOf::Done),
            OpCodeOf::NewInstance(idx) => match m.string_constant(idx as int) {
                Some(name) => match find_class_from(m.classes, name, 0) {
                    Some(ci) => (m.push(SpecValue::Instance(ci as usize, Seq::empty())).next(), StepOf::Done),
                    None => (m.next(), StepOf::Done),
                },
                None => (m.next(), StepOf::Done),
            },
            OpCodeOf::CallMethod(idx) => step_call_method(m, idx),
            OpCodeOf::SetProperty(idx) => step_set_field(m, idx, false),
            OpCodeOf::GetProperty(idx) => match m.string_constant(idx as int) {
                Some(field) => if m.stack.len() > 0 && m.stack.last() is Instance {
                    (m.push(field_or_null(m.stack.last()->Instance_1, field)).next(), StepOf::Done)
                } else {
                    (m.next(), StepOf::Done)
                },
                None => (m.next(), StepOf::Done),
            },
            OpCodeOf::Try(_) => (VMModel { catch_handler: Some((m.ip + 1) as usize), ..m }.next(), StepOf::Done),
            OpCodeOf::EndTry => (VMModel { catch_handler: None, ..m }.next(), StepOf::Done),
            OpCodeOf::Throw => if m.stack.len() == 0 {
                (m.next(), StepOf::Done)
            } else {
                match m.catch_handler {
                    Some(h) => (m.with_ip(h), StepOf::Done),
                    None => (m.popped(), StepOf::Uncaught(m.stack.last())),
                }
            },
            OpCodeOf::Catch => (m.next(), StepOf::Done),
            OpCodeOf::Import | OpCodeOf::ImportPy | OpCodeOf::ImportJs | OpCodeOf::ImportRs => step_import(m, op),
            OpCodeOf::Download => step_download(m),
            OpCodeOf::Print => if m.stack.len() > 0 {
                (m.popped().next(), StepOf::Print(m.stack.last()))
            } else {
                (m.next(), StepOf::Done)
            },
            OpCodeOf::PrintLn => if m.stack.len() > 0 {
                (m.popped().next(), StepOf::PrintLine(Some(m.stack.last())))
            } else {
                (m.next(), StepOf::PrintLine(None))
            },
            OpCodeOf::Input => (m.next(), StepOf::ReadLine),
            OpCodeOf::TypeOf => if m.stack.len() > 0 {
                (m.push(SpecValue::String(type_name_of(m.stack.last()))).next(), StepOf::Done)
            } else {
                (m.next(), StepOf::Done)
            },
            OpCodeOf::ToString => if m.stack.len() > 0 {
                (m.popped().next(), StepOf::Render(m.stack.last()))
            } else {
                (m.next(), StepOf::Done)
            },
            OpCodeOf::ToInt => if m.stack.len() > 0 {
                let m1 = m.popped().next();
                match m.stack.last() {
                    SpecValue::Int(i) => (m1.push(SpecValue::Int(i)), StepOf::Done),
                    SpecValue::Float(f) => (m1, StepOf::FloatToInt(f)),
                    SpecValue::String(s) => (m1.push(SpecValue::Int(
                        match parse_int_spec(s) {
                            Some(v) => v,
                            None => 0,
                        },
                    )), StepOf::Done),
                    SpecValue::Bool(b) => (m1.push(SpecValue::Int(if b { 1 } else { 0 })), StepOf::Done),
                    _ => (m1.push(SpecValue::Int(0)), StepOf::Done),
                }
            } else {
                (m.next(), StepOf::Done)
            },
            OpCodeOf::ToFloat => if m.stack.len() > 0 {
                let m1 = m.popped().next();
                match m.stack.last() {
                    SpecValue::Int(i) => (m1, StepOf::IntToFloat(i)),
                    SpecValue::Float(f) => (m1.push(SpecValue::Float(f)), StepOf::Done),
                    SpecValue::String(s) => (m1, StepOf::ParseFloat(s)),
                    SpecValue::Bool(b) => (m1.push(SpecValue::Float(if b { one_bits() } else { 0 })), StepOf::Done),
                    _ => (m1.push(SpecValue::Float(0)), StepOf::Done),
                }
            } else {
                (m.next(), StepOf::Done)
            },
            OpCodeOf::Debug => (m.next(), StepOf::Debug(m.stack.len() as usize, m.call_stack.len() as usize)),
            _ => (m, StepOf::Done),  // Halt
        }
    }
}


// ---------------------------------------------------------------------------
// One instruction, run.
// ---------------------------------------------------------------------------

pub proof fn lemma_frames_view_push(fs: Seq<CallFrame>, f: CallFrame)
    ensures
        frames_view(fs.push(f)) == frames_view(fs).push(f@),
{
    assert(frames_view(fs.push(f)) =~= frames_view(fs).push(f@));
}

pub proof fn lemma_frames_view_drop_last(fs: Seq<CallFrame>)
    requires
        fs.len() > 0,
    ensures
        frames_view(fs.drop_last()) == frames_view(fs).drop_last(),
        frames_view(fs).last() == fs.last()@,
{
    assert(frames_view(fs.drop_last()) =~= frames_view(fs).drop_last());
}

pub proof fn lemma_functions_view_push(fs: Seq<FunctionInfo>, f: FunctionInfo)
    ensures
        functions_view(fs.push(f)) == functions_view(fs).push(f@),
{
    assert(functions_view(fs.push(f)) =~= functions_view(fs).push(f@));
}

impl VM {
    /// The string constant at `idx`, if there is one.
    fn string_constant(&self, idx: usize) -> (r: Option<String>)
        ensures
            match r {
                Some(s) => self@.string_constant(idx as int) == Some(s@),
                None => self@.string_constant(idx as int) is None,
            },
    {
        if idx < self.constants.len() {
            match &self.constants[idx] {
                Value::String(s) => Some(s.clone()),
                _ => None,
            }
        } else {
            None
        }
    }

    /// Pops the top of the stack, if there is one.
    fn pop_top(&mut self) -> (r: Option<Value>)
        ensures
            match r {
                Some(v) => old(self)@.stack.len() > 0 && v@ == old(self)@.stack.last()
                    && final(self)@ == old(self)@.popped(),
                None => old(self)@.stack.len() == 0 && final(self)@ == old(self)@,
            },
    {
        let ghost before = self.stack@;
        match self.stack.pop() {
            Some(v) => {
                proof {
                    lemma_values_view_drop_last(before);
                }
                Some(v)
            },
            None => None,
        }
    }

    /// A copy of the top of the stack, if there is one.
    fn top_copy(&self) -> (r: Option<Value>)
        ensures
            match r {
                Some(v) => self@.stack.len() > 0 && v@ == self@.stack.last(),
                None => self@.stack.len() == 0,
            },
    {
        if self.stack.len() > 0 {
            Some(copy_value(&self.stack[self.stack.len() - 1]))
        } else {
            None
        }
    }

    fn next(&mut self)
        requires
            old(self).ip < usize::MAX,
        ensures
            final(self)@ == old(self)@.next(),
    {
        self.ip = self.ip + 1;
    }

    fn exec_simple(&mut self, op: &OpCode) -> (r: Step)
        requires
            !is_binary(op@),
            old(self).ip < usize::MAX,
            match op@ {
                OpCodeOf::PushInt(_) | OpCodeOf::PushFloat(_) | OpCodeOf::PushString(_)
                | OpCodeOf::PushBool(_) | OpCodeOf::PushNull | OpCodeOf::Pop | OpCodeOf::Dup
                | OpCodeOf::Neg | OpCodeOf::Not | OpCodeOf::Jump(_) | OpCodeOf::JumpIfFalse(_)
                | OpCodeOf::JumpIfTrue(_) | OpCodeOf::Loop(_) | OpCodeOf::DefineFunction(_)
                | OpCodeOf::DefineClass(_) | OpCodeOf::NewObject | OpCodeOf::Try(_)
                | OpCodeOf::EndTry | OpCodeOf::Catch | OpCodeOf::Halt | OpCodeOf::Debug
                | OpCodeOf::Input | OpCodeOf::Print | OpCodeOf::PrintLn | OpCodeOf::ToString
                | OpCodeOf::TypeOf | OpCodeOf::Throw | OpCodeOf::Return => true,
                _ => false,
            },
        ensures
            (final(self)@, r@) == step(old(self)@, op@),
    {
        match op {
            OpCodeOf::PushInt(i) => {
                self.push_value(Value::Int(*i));
                self.next();
                StepOf::Done
            },
            OpCodeOf::PushFloat(t) => {
                self.next();
                StepOf::ParseFloat(t.clone())
            },
            OpCodeOf::PushString(t) => {
                self.push_value(Value::String(t.clone()));
                self.next();
                StepOf::Done
            },
            OpCodeOf::PushBool(b) => {
                self.push_value(Value::Bool(*b));
                self.next();
                StepOf::Done
            },
            OpCodeOf::PushNull => {
                self.push_value(Value::Null);
                self.next();
                StepOf::Done
            },
            OpCodeOf::Pop => {
                self.pop_top();
                self.next();
                StepOf::Done
            },
            OpCodeOf::Dup => {
                match self.top_copy() {
                    Some(v) => self.push_value(v),
                    None => {},
                }
                self.next();
                StepOf::Done
            },
            OpCodeOf::Neg => {
                let a = match self.safe_pop() {
                    Ok(v) => v,
                    Err(e) => return StepOf::Failed(e),
                };
                match a {
                    Value::Int(i) => {
                        if i == i64::MIN {
                            return StepOf::Fault;
                        }
                        self.push_value(Value::Int(-i));
                    },
                    Value::Float(f) => {
                        self.push_value(Value::Float(f ^ 0x8000_0000_0000_0000u64));
                    },
                    _ => return StepOf::Failed(type_error("不能对非数字取负")),
                }
                self.next();
                StepOf::Done
            },
            OpCodeOf::Not => {
                let a = match self.safe_pop() {
                    Ok(v) => v,
                    Err(e) => return StepOf::Failed(e),
                };
                let t = a.is_truthy();
                self.push_value(Value::Bool(!t));
                self.next();
                StepOf::Done
            },
            OpCodeOf::Jump(t) => {
                self.ip = *t;
                StepOf::Done
            },
            OpCodeOf::Loop(t) => {
                self.ip = *t;
                StepOf::Done
            },
            OpCodeOf::JumpIfFalse(t) => {
                let n = self.stack.len();
                if n > 0 && !self.stack[n - 1].is_truthy() {
                    self.ip = *t;
                } else {
                    self.next();
                }
                StepOf::Done
            },
            OpCodeOf::JumpIfTrue(t) => {
                let n = self.stack.len();
                if n > 0 && self.stack[n - 1].is_truthy() {
                    self.ip = *t;
                } else {
                    self.next();
                }
                StepOf::Done
            },
            OpCodeOf::DefineFunction(i) => {
                self.push_value(Value::Function(*i));
                self.next();
                StepOf::Done
            },
            OpCodeOf::DefineClass(i) => {
                self.push_value(Value::Class(*i));
                self.next();
                StepOf::Done
            },
            OpCodeOf::NewObject => {
                let fs: Vec<(String, Value)> = Vec::new();
                proof {
                    lemma_object_view(fs);
                    assert(fields_view(fs@) =~= Seq::<(Seq<char>, SpecValue)>::empty());
                }
                self.push_value(Value::Object(fs));
                self.next();
                StepOf::Done
            },
            OpCodeOf::Try(_) => {
                self.catch_handler = Some(self.ip + 1);
                self.next();
                StepOf::Done
            },
            OpCodeOf::EndTry => {
                self.catch_handler = None;
                self.next();
                StepOf::Done
            },
            OpCodeOf::Catch => {
                self.next();
                StepOf::Done
            },
            OpCodeOf::Debug => {
                let a = self.stack.len();
                let b = self.call_stack.len();
                self.next();
                StepOf::Debug(a, b)
            },
            OpCodeOf::Input => {
                self.next();
                StepOf::ReadLine
            },
            OpCodeOf::Print => match self.pop_top() {
                Some(v) => {
                    self.next();
                    StepOf::Print(v)
                },
                None => {
                    self.next();
                    StepOf::Done
                },
            },
            OpCodeOf::PrintLn => match self.pop_top() {
                Some(v) => {
                    self.next();
                    StepOf::PrintLine(Some(v))
                },
                None => {
                    self.next();
                    StepOf::PrintLine(None)
                },
            },
            OpCodeOf::ToString => match self.pop_top() {
                Some(v) => {
                    self.next();
                    StepOf::Render(v)
                },
                None => {
                    self.next();
                    StepOf::Done
                },
            },
            OpCodeOf::TypeOf => {
                let n = self.stack.len();
                if n > 0 {
                    let name = self.stack[n - 1].value_type_name();
                    self.push_value(Value::String(name.to_owned()));
                }
                self.next();
                StepOf::Done
            },
            OpCodeOf::Throw => match self.pop_top() {
                Some(v) => match self.catch_handler {
                    Some(h) => {
                        self.ip = h;
                        self.push_value(v);
                        proof {
                            assert(self@.stack =~= old(self)@.stack);
                        }
                        StepOf::Done
                    },
                    None => StepOf::Uncaught(v),
                },
                None => {
                    self.next();
                    StepOf::Done
                },
            },
            OpCodeOf::Return => {
                let result = match self.safe_pop() {
                    Ok(v) => v,
                    Err(e) => return StepOf::Failed(e),
                };
                if self.call_stack.len() > 1 {
                    let ghost frames = self.call_stack@;
                    self.call_stack.pop();
                    proof {
                        lemma_frames_view_drop_last(frames);
                    }
                    self.stack.clear();
                    self.push_value(result);
                    proof {
                        assert(values_view(self.stack@) =~= seq![result@]);
                    }
                    self.next();
                    StepOf::Done
                } else {
                    self.stack.clear();
                    self.push_value(result);
                    proof {
                        assert(values_view(self.stack@) =~= seq![result@]);
                    }
                    StepOf::Done
                }
            },
            _ => StepOf::Done,
        }
    }
}


/// The fields with `k` set to `v`, run.
pub fn set_field_value(fs: &mut Vec<(String, Value)>, k: String, v: Value)
    ensures
        fields_view(final(fs)@) == set_field(fields_view(old(fs)@), k@, v@),
{
    let ghost before = fs@;
    match find_field_index(fs, &k) {
        Some(j) => {
            proof {
                lemma_find_field_from_range(fields_view(before), k@, 0);
            }
            fs.set(j, (k, v));
            proof {
                assert(fields_view(fs@) =~= fields_view(before).update(j as int, (k@, v@)));
            }
        },
        None => {
            let ghost kv = k@;
            let ghost vv = v@;
            fs.push((k, v));
            proof {
                assert(fields_view(fs@) =~= fields_view(before).push((kv, vv)));
            }
        },
    }
}

/// A copy of the value of the field named `k`, or `null`.
fn field_copy(fs: &Vec<(String, Value)>, k: &String) -> (r: Value)
    ensures
        r@ == field_or_null(fields_view(fs@), k@),
{
    match find_field_index(fs, k) {
        Some(j) => {
            proof {
                lemma_find_field_from_range(fields_view(fs@), k@, 0);
            }
            copy_value(&fs[j].1)
        },
        None => Value::Null,
    }
}

impl VM {
    fn find_class(&self, name: &String) -> (r: Option<usize>)
        ensures
            match r {
                Some(i) => find_class_from(self@.classes, name@, 0) == Some(i as int),
                None => find_class_from(self@.classes, name@, 0) is None,
            },
    {
        let mut i: usize = 0;
        while i < self.classes.len()
            invariant
                i <= self.classes.len(),
                find_class_from(self@.classes, name@, i as int) == find_class_from(self@.classes, name@, 0),
            decreases self.classes.len() - i,
        {
            if self.classes[i].name == *name {
                return Some(i);
            }
            i = i + 1;
        }
        None
    }

    fn exec_load_local(&mut self, idx: usize) -> (r: Step)
        requires
            old(self).ip < usize::MAX,
        ensures
            (final(self)@, r@) == step(old(self)@, OpCodeOf::LoadLocal(idx)),
    {
        let n = self.call_stack.len();
        if n > 0 {
            proof {
                lemma_frames_view_drop_last(self.call_stack@);
            }
            let v = if idx < self.call_stack[n - 1].locals.len() {
                copy_value(&self.call_stack[n - 1].locals[idx])
            } else {
                Value::Null
            };
            self.push_value(v);
        }
        self.next();
        StepOf::Done
    }

    fn exec_load_global(&mut self, idx: usize) -> (r: Step)
        requires
            old(self).ip < usize::MAX,
        ensures
            (final(self)@, r@) == step(old(self)@, OpCodeOf::LoadGlobal(idx)),
    {
        match self.string_constant(idx) {
            Some(name) => {
                let v = field_copy(&self.globals, &name);
                self.push_value(v);
            },
            None => {},
        }
        self.next();
        StepOf::Done
    }

    fn exec_store_global(&mut self, idx: usize) -> (r: Step)
        requires
            old(self).ip < usize::MAX,
        ensures
            (final(self)@, r@) == step(old(self)@, OpCodeOf::StoreGlobal(idx)),
    {
        match self.string_constant(idx) {
            Some(name) => match self.top_copy() {
                Some(v) => set_field_value(&mut self.globals, name, v),
                None => {},
            },
            None => {},
        }
        self.next();
        StepOf::Done
    }

    fn exec_len(&mut self) -> (r: Step)
        requires
            old(self).ip < usize::MAX,
        ensures
            (final(self)@, r@) == step(old(self)@, OpCodeOf::Len),
    {
        match self.pop_top() {
            Some(v) => {
                proof {
                    lemma_object_view_all(v);
                }
                let n: usize = match &v {
                    Value::String(s) => text_byte_len(s),
                    Value::Array(a) => a.len(),
                    _ => 0,
                };
                self.push_value(Value::Int(n as i64));
            },
            None => {},
        }
        self.next();
        StepOf::Done
    }

    fn exec_new_instance(&mut self, idx: usize) -> (r: Step)
        requires
            old(self).ip < usize::MAX,
        ensures
            (final(self)@, r@) == step(old(self)@, OpCodeOf::NewInstance(idx)),
    {
        match self.string_constant(idx) {
            Some(name) => match self.find_class(&name) {
                Some(i) => {
                    let fs: Vec<(String, Value)> = Vec::new();
                    proof {
                        lemma_object_view(fs);
                        assert(fields_view(fs@) =~= Seq::<(Seq<char>, SpecValue)>::empty());
                    }
                    self.push_value(Value::Instance(i, fs));
                },
                None => {},
            },
            None => {},
        }
        self.next();
        StepOf::Done
    }

    fn exec_get_property(&mut self, idx: usize) -> (r: Step)
        requires
            old(self).ip < usize::MAX,
        ensures
            (final(self)@, r@) == step(old(self)@, OpCodeOf::GetProperty(idx)),
    {
        match self.string_constant(idx) {
            Some(field) => {
                let n = self.stack.len();
                if n > 0 {
                    proof {
                        lemma_object_view_all(self.stack@[n - 1]);
                    }
                    let found = match &self.stack[n - 1] {
                        Value::Instance(_, fs) => Some(field_copy(fs, &field)),
                        _ => None,
                    };
                    match found {
                        Some(v) => self.push_value(v),
                        None => {},
                    }
                }
            },
            None => {},
        }
        self.next();
        StepOf::Done
    }

    fn exec_to_int(&mut self) -> (r: Step)
        requires
            old(self).ip < usize::MAX,
        ensures
            (final(self)@, r@) == step(old(self)@, OpCodeOf::ToInt),
    {
        match self.pop_top() {
            Some(v) => {
                self.next();
                match v {
                    Value::Int(i) => self.push_value(Value::Int(i)),
                    Value::Float(f) => return StepOf::FloatToInt(f),
                    Value::String(s) => {
                        let n = match parse_int(s.as_str()) {
                            Some(x) => x,
                            None => 0,
                        };
                        self.push_value(Value::Int(n));
                    },
                    Value::Bool(b) => self.push_value(Value::Int(if b { 1 } else { 0 })),
                    _ => self.push_value(Value::Int(0)),
                }
            },
            None => self.next(),
        }
        StepOf::Done
    }

    fn exec_to_float(&mut self) -> (r: Step)
        requires
            old(self).ip < usize::MAX,
        ensures
            (final(self)@, r@) == step(old(self)@, OpCodeOf::ToFloat),
    {
        match self.pop_top() {
            Some(v) => {
                self.next();
                match v {
                    Value::Int(i) => return StepOf::IntToFloat(i),
                    Value::Float(f) => self.push_value(Value::Float(f)),
                    Value::String(s) => return StepOf::ParseFloat(s),
                    Value::Bool(b) => self.push_value(Value::Float(if b { 0x3ff0_0000_0000_0000u64 } else { 0 })),
                    _ => self.push_value(Value::Float(0)),
                }
            },
            None => self.next(),
        }
        StepOf::Done
    }
}


impl VM {
    /// Removes the last `k` values of the stack (all of them when there are
    /// fewer) and returns them in stack order.
    fn take_top(&mut self, k: usize) -> (r: Vec<Value>)
        ensures
            values_view(r@) == top_values(old(self)@.stack, k as int),
            final(self)@ == old(self)@.with_stack(below_top(old(self)@.stack, k as int)),
    {
        let n = self.stack.len();
        let start = if k >= n { 0 } else { n - k };
        let mut r: Vec<Value> = Vec::new();
        let mut i = start;
        while i < n
            invariant
                start <= i <= n,
                n == self.stack.len(),
                self@ == old(self)@,
                values_view(r@) == values_view(self.stack@.subrange(start as int, i as int)),
            decreases n - i,
        {
            let c = copy_value(&self.stack[i]);
            let ghost old_r = r@;
            r.push(c);
            proof {
                lemma_values_view_push(old_r, c);
                assert(self.stack@.subrange(start as int, i + 1) =~= self.stack@.subrange(start as int, i as int).push(self.stack@[i as int]));
                lemma_values_view_push(self.stack@.subrange(start as int, i as int), self.stack@[i as int]);
            }
            i = i + 1;
        }
        let ghost before = self.stack@;
        self.stack.truncate(start);
        proof {
            assert(values_view(r@) =~= top_values(old(self)@.stack, k as int));
            assert(values_view(self.stack@) =~= below_top(old(self)@.stack, k as int));
        }
        r
    }

    fn exec_store_local(&mut self, idx: usize) -> (r: Step)
        requires
            old(self).ip < usize::MAX,
        ensures
            (final(self)@, r@) == step(old(self)@, OpCodeOf::StoreLocal(idx)),
    {
        let nf = self.call_stack.len();
        if nf > 0 {
            match self.top_copy() {
                Some(v) => {
                    let ghost frames = self.call_stack@;
                    proof {
                        lemma_frames_view_drop_last(frames);
                    }
                    let len = self.call_stack[nf - 1].locals.len();
                    if idx >= len && idx == usize::MAX {
                        return StepOf::Fault;
                    }
                    let mut frame = self.call_stack.pop().unwrap();
                    let ghost old_frame = frame@;
                    proof {
                        assert(frame == frames.last());
                    }
                    let ghost old_locals = values_view(frame.locals@);
                    while frame.locals.len() <= idx
                        invariant
                            len <= frame.locals.len(),
                            frame.locals.len() > len ==> frame.locals.len() <= idx + 1,
                            idx < usize::MAX || idx < len,
                            values_view(frame.locals@) == old_locals + Seq::new((frame.locals.len() - len) as nat, |k: int| SpecValue::Null),
                            old_locals.len() == len,
                            frame.ip == old_frame.ip,
                            frame.function == old_frame.function,
                            frame.stack_start == old_frame.stack_start,
                            frame.instance == old_frame.instance,
                        decreases idx + 1 - frame.locals.len(),
                    {
                        let ghost before = frame.locals@;
                        frame.locals.push(Value::Null);
                        proof {
                            lemma_values_view_push(before, Value::Null);
                            assert(values_view(frame.locals@) =~= old_locals + Seq::new((frame.locals.len() - len) as nat, |k: int| SpecValue::Null));
                        }
                    }
                    let ghost grown = values_view(frame.locals@);
                    frame.locals.set(idx, v);
                    proof {
                        assert(values_view(frame.locals@) =~= grown.update(idx as int, v@));
                        if idx >= len {
                            assert(grown =~= old_locals + Seq::new((idx + 1 - len) as nat, |k: int| SpecValue::Null));
                        } else {
                            assert(grown =~= old_locals);
                        }
                    }
                    proof {
                        let f = old(self)@.call_stack.last();
                        assert(f == old_frame);
                        let spec_grown = if idx >= f.locals.len() {
                            f.locals + Seq::new((idx + 1 - f.locals.len()) as nat, |k: int| SpecValue::Null)
                        } else {
                            f.locals
                        };
                        assert(grown =~= spec_grown);
                        assert(frame@ == FrameModel { locals: spec_grown.update(idx as int, old(self)@.stack.last()), ..f });
                    }
                    let ghost popped_frames = self.call_stack@;
                    self.call_stack.push(frame);
                    proof {
                        lemma_frames_view_push(popped_frames, frame);
                        assert(frames_view(self.call_stack@) =~= frames_view(frames).update(frames.len() - 1, frame@));
                    }
                },
                None => {},
            }
        }
        self.next();
        StepOf::Done
    }

    fn exec_new_array(&mut self, size: usize) -> (r: Step)
        requires
            old(self).ip < usize::MAX,
        ensures
            (final(self)@, r@) == step(old(self)@, OpCodeOf::NewArray(size)),
    {
        let arr = self.take_top(size);
        proof {
            lemma_object_view_all(Value::Array(arr));
        }
        self.push_value(Value::Array(arr));
        self.next();
        StepOf::Done
    }

    fn exec_get_index(&mut self) -> (r: Step)
        requires
            old(self).ip < usize::MAX,
        ensures
            (final(self)@, r@) == step(old(self)@, OpCodeOf::GetIndex),
    {
        let idx = match self.safe_pop() {
            Ok(v) => v,
            Err(e) => return StepOf::Failed(e),
        };
        let n = self.stack.len();
        if n > 0 {
            proof {
                lemma_object_view_all(self.stack@[n - 1]);
            }
            let got: Option<Result<Value, Error>> = match (&self.stack[n - 1], &idx) {
                (Value::Array(arr), Value::Int(i)) => {
                    if *i >= 0 && (*i as usize) < arr.len() {
                        Some(Ok(copy_value(&arr[*i as usize])))
                    } else {
                        Some(Err(Error::IndexError(index_text(*i))))
                    }
                },
                _ => None,
            };
            match got {
                Some(Ok(v)) => self.push_value(v),
                Some(Err(e)) => return StepOf::Failed(e),
                None => {},
            }
        }
        self.next();
        StepOf::Done
    }

    fn exec_set_index(&mut self) -> (r: Step)
        requires
            old(self).ip < usize::MAX,
        ensures
            (final(self)@, r@) == step(old(self)@, OpCodeOf::SetIndex),
    {
        let value = match self.safe_pop() {
            Ok(v) => v,
            Err(e) => return StepOf::Failed(e),
        };
        let idx = match self.safe_pop() {
            Ok(v) => v,
            Err(e) => return StepOf::Failed(e),
        };
        let n = self.stack.len();
        if n > 0 {
            proof {
                lemma_object_view_all(self.stack@[n - 1]);
            }
            let fits: Option<bool> = match (&self.stack[n - 1], &idx) {
                (Value::Array(arr), Value::Int(i)) => Some(*i >= 0 && (*i as usize) < arr.len()),
                _ => None,
            };
            match fits {
                Some(true) => {
                    let ghost before = self.stack@;
                    let top = self.stack.pop().unwrap();
                    proof {
                        lemma_values_view_drop_last(before);
                    }
                    match (top, idx) {
                        (Value::Array(mut arr), Value::Int(i)) => {
                            let ghost old_arr = values_view(arr@);
                            arr.set(i as usize, value);
                            proof {
                                assert(values_view(arr@) =~= old_arr.update((i as usize) as int, value@));
                                lemma_object_view_all(Value::Array(arr));
                            }
                            self.push_value(Value::Array(arr));
                            proof {
                                assert(self@.stack =~= values_view(before).update(before.len() - 1, values_view(self.stack@).last()));
                            }
                        },
                        _ => {},
                    }
                },
                Some(false) => {
                    match idx {
                        Value::Int(i) => return StepOf::Failed(Error::IndexError(index_text(i))),
                        _ => {},
                    }
                },
                None => {},
            }
        }
        self.next();
        StepOf::Done
    }
}

/// The message of an out-of-range index.
fn index_text(i: i64) -> (s: String)
    ensures
        s@ == index_message(i),
{
    let head = "索引越界: ".to_owned();
    concat_text(&head, &int_to_text(i))
}


impl VM {
    /// The index of the method named `name` of class `ci`, if both exist.
    fn find_method(&self, ci: usize, name: &String) -> (r: Option<usize>)
        ensures
            match r {
                Some(j) => ci < self@.classes.len()
                    && find_method_from(self@.classes[ci as int].methods, name@, 0) == Some(j as int)
                    && j < self.classes@[ci as int].methods@.len()
                    && class_method(self@, ci as int, name@) == Some(self.classes@[ci as int].methods@[j as int].1@),
                None => class_method(self@, ci as int, name@) is None,
            },
    {
        if ci >= self.classes.len() {
            return None;
        }
        let ghost ms = self@.classes[ci as int].methods;
        proof {
            assert(ms == methods_view(self.classes@[ci as int].methods@));
        }
        let mut j: usize = 0;
        while j < self.classes[ci].methods.len()
            invariant
                ci < self.classes.len(),
                ms == methods_view(self.classes@[ci as int].methods@),
                j <= self.classes@[ci as int].methods@.len(),
                find_method_from(ms, name@, j as int) == find_method_from(ms, name@, 0),
            decreases self.classes@[ci as int].methods@.len() - j,
        {
            if self.classes[ci].methods[j].0 == *name {
                return Some(j);
            }
            j = j + 1;
        }
        None
    }

    fn push_function(&mut self, f: FunctionInfo)
        ensures
            final(self)@ == (VMModel { functions: old(self)@.functions.push(f@), ..old(self)@ }),
    {
        let ghost before = self.functions@;
        self.functions.push(f);
        proof {
            lemma_functions_view_push(before, f);
        }
    }

    fn exec_get_field(&mut self, idx: usize) -> (r: Step)
        requires
            old(self).ip < usize::MAX,
        ensures
            (final(self)@, r@) == step(old(self)@, OpCodeOf::GetField(idx)),
    {
        match self.string_constant(idx) {
            Some(field) => match self.pop_top() {
                Some(obj) => {
                    proof {
                        lemma_object_view_all(obj);
                    }
                    match &obj {
                        Value::Object(o) => {
                            let v = field_copy(o, &field);
                            self.push_value(v);
                        },
                        Value::Instance(ci, fs) => {
                            match find_field_index(fs, &field) {
                                Some(j) => {
                                    proof {
                                        lemma_find_field_from_range(fields_view(fs@), field@, 0);
                                    }
                                    let v = copy_value(&fs[j].1);
                                    self.push_value(v);
                                },
                                None => match self.find_method(*ci, &field) {
                                    Some(j) => {
                                        let method = self.classes[*ci].methods[j].1.copy();
                                        let method_idx = self.functions.len();
                                        self.push_function(method);
                                        self.push_value(Value::Function(method_idx));
                                    },
                                    None => self.push_value(Value::Null),
                                },
                            }
                        },
                        _ => self.push_value(Value::Null),
                    }
                },
                None => {},
            },
            None => {},
        }
        self.next();
        StepOf::Done
    }

    #[verifier::spinoff_prover]
    fn exec_set_field(&mut self, idx: usize, objects: bool) -> (r: Step)
        requires
            old(self).ip < usize::MAX,
        ensures
            (final(self)@, r@) == step_set_field(old(self)@, idx, objects),
    {
        match self.string_constant(idx) {
            Some(field) => match self.pop_top() {
                Some(v) => {
                    let ghost m1 = self@;
                    match self.pop_top() {
                        Some(top) => {
                            proof {
                                lemma_object_view_all(top);
                            }
                            let ghost top_view = top@;
                            let ghost vv = v@;
                            let ghost fv = field@;
                            let replaced = match top {
                                Value::Object(mut o) => {
                                    let ghost ov = fields_view(o@);
                                    if objects {
                                        set_field_value(&mut o, field, v);
                                    }
                                    proof {
                                        lemma_object_view(o);
                                    }
                                    Value::Object(o)
                                },
                                Value::Instance(c, mut fs) => {
                                    set_field_value(&mut fs, field, v);
                                    proof {
                                        lemma_object_view(fs);
                                    }
                                    Value::Instance(c, fs)
                                },
                                other => other,
                            };
                            proof {
                                assert(replaced@ == match top_view {
                                    SpecValue::Object(o) => if objects {
                                        SpecValue::Object(set_field(o, fv, vv))
                                    } else {
                                        top_view
                                    },
                                    SpecValue::Instance(c, fs) => SpecValue::Instance(c, set_field(fs, fv, vv)),
                                    _ => top_view,
                                });
                            }
                            self.push_value(replaced);
                            proof {
                                assert(self@.stack =~= m1.stack.update(m1.stack.len() - 1, replaced@));
                                if replaced@ == m1.stack.last() {
                                    assert(m1.stack.update(m1.stack.len() - 1, replaced@) =~= m1.stack);
                                }
                            }
                        },
                        None => {},
                    }
                },
                None => {},
            },
            None => {},
        }
        self.next();
        StepOf::Done
    }

    fn exec_call(&mut self, arity: usize) -> (r: Step)
        requires
            old(self).ip < usize::MAX,
        ensures
            (final(self)@, r@) == step(old(self)@, OpCodeOf::Call(arity)),
    {
        let args = self.take_top(arity);
        match self.pop_top() {
            Some(func) => match func {
                Value::Function(fi) => {
                    if fi < self.functions.len() {
                        if args.len() != self.functions[fi].arity {
                            return StepOf::Failed(Error::ArityError);
                        }
                        let frame = CallFrame {
                            ip: 0,
                            locals: args,
                            function: fi,
                            stack_start: self.stack.len(),
                            instance: None,
                        };
                        let ghost before = self.call_stack@;
                        self.call_stack.push(frame);
                        proof {
                            lemma_frames_view_push(before, frame);
                        }
                        self.next();
                        StepOf::Done
                    } else {
                        self.next();
                        StepOf::Done
                    }
                },
                Value::NativeFunction(n) => {
                    self.next();
                    if self.ip == usize::MAX {
                        return StepOf::Fault;
                    }
                    self.next();
                    StepOf::CallNative(n, args)
                },
                _ => StepOf::Failed(type_error("不能调用非函数")),
            },
            None => {
                self.next();
                StepOf::Done
            },
        }
    }

    fn exec_call_method(&mut self, idx: usize) -> (r: Step)
        requires
            old(self).ip < usize::MAX,
        ensures
            (final(self)@, r@) == step(old(self)@, OpCodeOf::CallMethod(idx)),
    {
        let ghost m = self@;
        match self.string_constant(idx) {
            Some(name) => match self.pop_top() {
                Some(inst) => {
                    let ci = match &inst {
                        Value::Instance(ci, _) => *ci,
                        _ => return StepOf::Failed(Error::MethodError("只能调用实例的方法".to_owned())),
                    };
                    match self.find_method(ci, &name) {
                        Some(j) => {
                            let arity = self.classes[ci].methods[j].1.arity;
                            if arity == 0 {
                                return StepOf::Fault;
                            }
                            let mut args = self.take_top(arity - 1);
                            let ghost before_args = args@;
                            args.push(inst);
                            proof {
                                lemma_values_view_push(before_args, inst);
                            }
                            let method = self.classes[ci].methods[j].1.copy();
                            let frame = CallFrame {
                                ip: 0,
                                locals: args,
                                function: self.functions.len(),
                                stack_start: self.stack.len(),
                                instance: Some(ci),
                            };
                            self.push_function(method);
                            let ghost before = self.call_stack@;
                            self.call_stack.push(frame);
                            proof {
                                lemma_frames_view_push(before, frame);
                            }
                            self.next();
                            StepOf::Done
                        },
                        None => {
                            self.next();
                            StepOf::Done
                        },
                    }
                },
                None => {
                    self.next();
                    StepOf::Done
                },
            },
            None => {
                self.next();
                StepOf::Done
            },
        }
    }
}


/// The importers of foreign code. The code is announced by the host; what an
/// import leaves on the stack is a message with the code's length in bytes.
pub struct ForeignImporter;

fn foreign_message(head: &str, code: &String) -> (s: String)
    ensures
        s@ == head@ + nat_text((byte_len(code@) as usize) as nat),
{
    let n = text_byte_len(code);
    let digits = uint_to_text(n as u64);
    concat_text(&head.to_owned(), &digits)
}

impl ForeignImporter {
    /// The value a Python import leaves.
    pub fn import_python(code: &String) -> (r: Result<Value, Error>)
        ensures
            r matches Ok(v) && v@ == SpecValue::String(foreign_result(Language::Python, code@)),
    {
        Ok(Value::String(foreign_message("Python执行成功: ", code)))
    }

    /// The value a JavaScript import leaves.
    pub fn import_javascript(code: &String) -> (r: Result<Value, Error>)
        ensures
            r matches Ok(v) && v@ == SpecValue::String(foreign_result(Language::JavaScript, code@)),
    {
        Ok(Value::String(foreign_message("JavaScript执行成功: ", code)))
    }

    /// The value a Rust import leaves.
    pub fn import_rust(code: &String) -> (r: Result<Value, Error>)
        ensures
            r matches Ok(v) && v@ == SpecValue::String(foreign_result(Language::Rust, code@)),
    {
        Ok(Value::String(foreign_message("Rust执行成功: ", code)))
    }
}


impl VM {
    fn exec_import(&mut self, op: &OpCode) -> (r: Step)
        requires
            old(self).ip < usize::MAX,
            match op@ {
                OpCodeOf::Import | OpCodeOf::ImportPy | OpCodeOf::ImportJs | OpCodeOf::ImportRs => true,
                _ => false,
            },
        ensures
            (final(self)@, r@) == step_import(old(self)@, op@),
    {
        let ghost m = self@;
        match self.pop_top() {
            Some(Value::Int(i)) => match self.string_constant(i as usize) {
                Some(text) => match op {
                    OpCodeOf::Import => {
                        self.next();
                        StepOf::Import(text)
                    },
                    OpCodeOf::ImportPy => {
                        let v = ForeignImporter::import_python(&text).unwrap();
                        self.push_value(v);
                        self.next();
                        StepOf::Foreign(Language::Python, text)
                    },
                    OpCodeOf::ImportJs => {
                        let v = ForeignImporter::import_javascript(&text).unwrap();
                        self.push_value(v);
                        self.next();
                        StepOf::Foreign(Language::JavaScript, text)
                    },
                    _ => {
                        let v = ForeignImporter::import_rust(&text).unwrap();
                        self.push_value(v);
                        self.next();
                        StepOf::Foreign(Language::Rust, text)
                    },
                },
                None => {
                    self.next();
                    StepOf::Done
                },
            },
            _ => {
                self.next();
                StepOf::Done
            },
        }
    }

    fn exec_download(&mut self) -> (r: Step)
        requires
            old(self).ip < usize::MAX,
        ensures
            (final(self)@, r@) == step_download(old(self)@),
    {
        match self.pop_top() {
            Some(Value::Int(fi)) => match self.pop_top() {
                Some(Value::Int(ui)) => {
                    let url = self.string_constant(ui as usize);
                    let file = self.string_constant(fi as usize);
                    self.next();
                    match (url, file) {
                        (Some(u), Some(f)) => StepOf::Download(u, f),
                        _ => StepOf::Done,
                    }
                },
                _ => {
                    self.next();
                    StepOf::Done
                },
            },
            _ => {
                self.next();
                StepOf::Done
            },
        }
    }

    /// Performs one instruction. What the host must do next is in the
    /// result: see `StepOf`. The instruction pointer must leave room to move
    /// on.
    pub fn execute_op(&mut self, op: &OpCode) -> (r: Step)
        requires
            old(self).ip < usize::MAX,
        ensures
            (final(self)@, r@) == step(old(self)@, op@),
    {
        if is_binary_op(op) {
            return self.exec_binary(op);
        }
        match op {
            OpCodeOf::LoadLocal(idx) => self.exec_load_local(*idx),
            OpCodeOf::StoreLocal(idx) => self.exec_store_local(*idx),
            OpCodeOf::LoadGlobal(idx) => self.exec_load_global(*idx),
            OpCodeOf::StoreGlobal(idx) => self.exec_store_global(*idx),
            OpCodeOf::Call(arity) => self.exec_call(*arity),
            OpCodeOf::NewArray(size) => self.exec_new_array(*size),
            OpCodeOf::GetIndex => self.exec_get_index(),
            OpCodeOf::SetIndex => self.exec_set_index(),
            OpCodeOf::Len => self.exec_len(),
            OpCodeOf::GetField(idx) => self.exec_get_field(*idx),
            OpCodeOf::SetField(idx) => self.exec_set_field(*idx, true),
            OpCodeOf::NewInstance(idx) => self.exec_new_instance(*idx),
            OpCodeOf::CallMethod(idx) => self.exec_call_method(*idx),
            OpCodeOf::SetProperty(idx) => self.exec_set_field(*idx, false),
            OpCodeOf::GetProperty(idx) => self.exec_get_property(*idx),
            OpCodeOf::Import | OpCodeOf::ImportPy | OpCodeOf::ImportJs | OpCodeOf::ImportRs => self.exec_import(op),
            OpCodeOf::Download => self.exec_download(),
            OpCodeOf::ToInt => self.exec_to_int(),
            OpCodeOf::ToFloat => self.exec_to_float(),
            _ => self.exec_simple(op),
        }
    }
}

fn is_binary_op(op: &OpCode) -> (b: bool)
    ensures
        b == is_binary(op@),
{
    match op {
        OpCodeOf::Add | OpCodeOf::Sub | OpCodeOf::Mul | OpCodeOf::Div | OpCodeOf::Mod
        | OpCodeOf::Eq | OpCodeOf::Ne | OpCodeOf::Gt | OpCodeOf::Lt | OpCodeOf::Ge
        | OpCodeOf::Le | OpCodeOf::And | OpCodeOf::Or => true,
        _ => false,
    }
}


/// The globals a machine starts with: the built-in functions by name.
pub open spec fn initial_globals() -> Seq<(Seq<char>, SpecValue)> {
    seq![
        ("print"@, SpecValue::NativeFunction(Native::Print)),
        ("println"@, SpecValue::NativeFunction(Native::PrintLn)),
        ("input"@, SpecValue::NativeFunction(Native::Input)),
        ("len"@, SpecValue::NativeFunction(Native::Len)),
        ("type"@, SpecValue::NativeFunction(Native::Type)),
        ("str"@, SpecValue::NativeFunction(Native::Str)),
        ("int"@, SpecValue::NativeFunction(Native::Int)),
        ("float"@, SpecValue::NativeFunction(Native::Float)),
    ]
}

impl VMModel {
    /// The machine loaded with a program and ready to run it from its first
    /// instruction: empty stack, one frame with no locals, no error and no
    /// handler. Globals, functions, classes and debug mode are kept.
    pub open spec fn started(self, instructions: Seq<SpecOp>, constants: Seq<SpecValue>) -> VMModel {
        VMModel {
            instructions,
            constants,
            ip: 0,
            stack: Seq::empty(),
            call_stack: seq![entry_frame()],
            error: None,
            catch_handler: None,
            ..self
        }
    }
}

/// A frame that starts a program: no locals.
pub open spec fn entry_frame() -> FrameModel {
    FrameModel { ip: 0, locals: Seq::empty(), function: 0, stack_start: 0, instance: None }
}

impl VM {
    /// A machine with no program, whose globals are the built-in functions.
    pub fn new() -> (vm: VM)
        ensures
            vm@.stack.len() == 0,
            vm@.globals == initial_globals(),
            vm@.functions.len() == 0,
            vm@.classes.len() == 0,
            vm@.instructions.len() == 0,
            vm@.constants.len() == 0,
            vm@.ip == 0,
            vm@.call_stack.len() == 0,
            !vm@.debug_mode,
            vm@.error is None,
            vm@.catch_handler is None,
    {
        let mut globals: Vec<(String, Value)> = Vec::new();
        globals.push(("print".to_owned(), Value::NativeFunction(Native::Print)));
        globals.push(("println".to_owned(), Value::NativeFunction(Native::PrintLn)));
        globals.push(("input".to_owned(), Value::NativeFunction(Native::Input)));
        globals.push(("len".to_owned(), Value::NativeFunction(Native::Len)));
        globals.push(("type".to_owned(), Value::NativeFunction(Native::Type)));
        globals.push(("str".to_owned(), Value::NativeFunction(Native::Str)));
        globals.push(("int".to_owned(), Value::NativeFunction(Native::Int)));
        globals.push(("float".to_owned(), Value::NativeFunction(Native::Float)));
        let vm = VM {
            stack: Vec::new(),
            globals,
            functions: Vec::new(),
            classes: Vec::new(),
            instructions: Vec::new(),
            constants: Vec::new(),
            ip: 0,
            call_stack: Vec::new(),
            debug_mode: false,
            error: None,
            catch_handler: None,
        };
        proof {
            assert(vm@.globals =~= initial_globals());
        }
        vm
    }

    /// Loads a program and gets ready to run it from its first instruction:
    /// the stack and call stack are emptied and one frame is entered.
    pub fn start(&mut self, instructions: Vec<OpCode>, constants: Vec<Value>)
        ensures
            final(self)@ == old(self)@.started(crate::opcode::ops_view(instructions@), values_view(constants@)),
    {
        self.instructions = instructions;
        self.constants = constants;
        self.ip = 0;
        self.stack.clear();
        self.call_stack.clear();
        self.error = None;
        self.catch_handler = None;
        let frame = CallFrame { ip: 0, locals: Vec::new(), function: 0, stack_start: 0, instance: None };
        self.call_stack.push(frame);
        proof {
            assert(values_view(self.stack@) =~= Seq::<SpecValue>::empty());
            assert(values_view(frame.locals@) =~= Seq::<SpecValue>::empty());
            assert(frames_view(self.call_stack@) =~= seq![entry_frame()]);
        }
    }

    /// The instruction at `ip`, while there is one.
    pub fn current_op(&self) -> (r: Option<OpCode>)
        ensures
            match r {
                Some(op) => self.ip < self.instructions.len() && op == self.instructions@[self.ip as int],
                None => self.ip >= self.instructions.len(),
            },
    {
        if self.ip < self.instructions.len() {
            Some(self.instructions[self.ip].clone())
        } else {
            None
        }
    }

    /// Pushes a value: what the host does with the result of a request.
    pub fn push(&mut self, v: Value)
        ensures
            final(self)@ == old(self)@.push(v@),
    {
        self.push_value(v)
    }

    /// The result of a finished program: the top of the stack, or `null`.
    pub fn finish(&mut self) -> (v: Value)
        ensures
            if old(self)@.stack.len() > 0 {
                v@ == old(self)@.stack.last() && final(self)@ == old(self)@.popped()
            } else {
                v@ == SpecValue::Null && final(self)@ == old(self)@
            },
    {
        match self.pop_top() {
            Some(v) => v,
            None => Value::Null,
        }
    }

    /// Takes over what a program run for an import left: its globals, and
    /// its functions and classes after the machine's own.
    pub fn absorb(&mut self, globals: Vec<(String, Value)>, functions: Vec<FunctionInfo>, classes: Vec<ClassInfo>)
        ensures
            final(self)@ == (VMModel {
                globals: fields_view(globals@),
                functions: old(self)@.functions + functions_view(functions@),
                classes: old(self)@.classes + classes_view(classes@),
                ..old(self)@
            }),
    {
        self.globals = globals;
        let mut functions = functions;
        let mut classes = classes;
        let ghost f0 = self.functions@;
        let ghost c0 = self.classes@;
        let ghost fadd = functions@;
        let ghost cadd = classes@;
        self.functions.append(&mut functions);
        self.classes.append(&mut classes);
        proof {
            assert(functions_view(self.functions@) =~= functions_view(f0) + functions_view(fadd));
            assert(classes_view(self.classes@) =~= classes_view(c0) + classes_view(cadd));
        }
    }
}

} // verus!
