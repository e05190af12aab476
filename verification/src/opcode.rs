//! The bytecode: instructions, compiled functions and classes.
use vstd::prelude::*;

use crate::value::{copy_value, lemma_values_view_push, values_view, SpecValue, Value};

verus! {

/// One instruction of the stack machine. `S` carries text: a `String` in
/// running code, its characters in specifications. A floating-point literal
/// is kept as its source text.
#[derive(Debug, PartialEq)]
pub enum OpCodeOf<S> {
    PushInt(i64), PushFloat(S), PushString(S), PushBool(bool), PushNull,
    Pop, Dup,
    Add, Sub, Mul, Div, Mod, Neg,
    Eq, Ne, Gt, Lt, Ge, Le,
    And, Or, Not,
    LoadLocal(usize), StoreLocal(usize),
    LoadGlobal(usize), StoreGlobal(usize),
    Jump(usize), JumpIfFalse(usize), JumpIfTrue(usize), Loop(usize),
    Call(usize), Return, DefineFunction(usize),
    NewArray(usize), GetIndex, SetIndex, Len,
    NewObject, GetField(usize), SetField(usize),
    DefineClass(usize), NewInstance(usize), CallMethod(usize), SetProperty(usize), GetProperty(usize),
    Try(usize), EndTry, Throw, Catch,
    Import, ImportPy, ImportJs, ImportRs,
    Download,
    Print, PrintLn, Input, TypeOf, ToString, ToInt, ToFloat,
    Debug,
    Halt,
}

pub type OpCode = OpCodeOf<String>;

pub type SpecOp = OpCodeOf<Seq<char>>;

impl View for OpCodeOf<String> {
    type V = OpCodeOf<Seq<char>>;

    open spec fn view(&self) -> OpCodeOf<Seq<char>> {
        match self {
            OpCodeOf::PushInt(x) => OpCodeOf::PushInt(*x),
            OpCodeOf::PushFloat(x) => OpCodeOf::PushFloat(x@),
            OpCodeOf::PushString(x) => OpCodeOf::PushString(x@),
            OpCodeOf::PushBool(x) => OpCodeOf::PushBool(*x),
            OpCodeOf::PushNull => OpCodeOf::PushNull,
            OpCodeOf::Pop => OpCodeOf::Pop,
            OpCodeOf::Dup => OpCodeOf::Dup,
            OpCodeOf::Add => OpCodeOf::Add,
            OpCodeOf::Sub => OpCodeOf::Sub,
            OpCodeOf::Mul => OpCodeOf::Mul,
            OpCodeOf::Div => OpCodeOf::Div,
            OpCodeOf::Mod => OpCodeOf::Mod,
            OpCodeOf::Neg => OpCodeOf::Neg,
            OpCodeOf::Eq => OpCodeOf::Eq,
            OpCodeOf::Ne => OpCodeOf::Ne,
            OpCodeOf::Gt => OpCodeOf::Gt,
            OpCodeOf::Lt => OpCodeOf::Lt,
            OpCodeOf::Ge => OpCodeOf::Ge,
            OpCodeOf::Le => OpCodeOf::Le,
            OpCodeOf::And => OpCodeOf::And,
            OpCodeOf::Or => OpCodeOf::Or,
            OpCodeOf::Not => OpCodeOf::Not,
            OpCodeOf::LoadLocal(x) => OpCodeOf::LoadLocal(*x),
            OpCodeOf::StoreLocal(x) => OpCodeOf::StoreLocal(*x),
            OpCodeOf::LoadGlobal(x) => OpCodeOf::LoadGlobal(*x),
            OpCodeOf::StoreGlobal(x) => OpCodeOf::StoreGlobal(*x),
            OpCodeOf::Jump(x) => OpCodeOf::Jump(*x),
            OpCodeOf::JumpIfFalse(x) => OpCodeOf::JumpIfFalse(*x),
            OpCodeOf::JumpIfTrue(x) => OpCodeOf::JumpIfTrue(*x),
            OpCodeOf::Loop(x) => OpCodeOf::Loop(*x),
            OpCodeOf::Call(x) => OpCodeOf::Call(*x),
            OpCodeOf::Return => OpCodeOf::Return,
            OpCodeOf::DefineFunction(x) => OpCodeOf::DefineFunction(*x),
            OpCodeOf::NewArray(x) => OpCodeOf::NewArray(*x),
            OpCodeOf::GetIndex => OpCodeOf::GetIndex,
            OpCodeOf::SetIndex => OpCodeOf::SetIndex,
            OpCodeOf::Len => OpCodeOf::Len,
            OpCodeOf::NewObject => OpCodeOf::NewObject,
            OpCodeOf::GetField(x) => OpCodeOf::GetField(*x),
            OpCodeOf::SetField(x) => OpCodeOf::SetField(*x),
            OpCodeOf::DefineClass(x) => OpCodeOf::DefineClass(*x),
            OpCodeOf::NewInstance(x) => OpCodeOf::NewInstance(*x),
            OpCodeOf::CallMethod(x) => OpCodeOf::CallMethod(*x),
            OpCodeOf::SetProperty(x) => OpCodeOf::SetProperty(*x),
            OpCodeOf::GetProperty(x) => OpCodeOf::GetProperty(*x),
            OpCodeOf::Try(x) => OpCodeOf::Try(*x),
            OpCodeOf::EndTry => OpCodeOf::EndTry,
            OpCodeOf::Throw => OpCodeOf::Throw,
            OpCodeOf::Catch => OpCodeOf::Catch,
            OpCodeOf::Import => OpCodeOf::Import,
            OpCodeOf::ImportPy => OpCodeOf::ImportPy,
            OpCodeOf::ImportJs => OpCodeOf::ImportJs,
            OpCodeOf::ImportRs => OpCodeOf::ImportRs,
            OpCodeOf::Download => OpCodeOf::Download,
            OpCodeOf::Print => OpCodeOf::Print,
            OpCodeOf::PrintLn => OpCodeOf::PrintLn,
            OpCodeOf::Input => OpCodeOf::Input,
            OpCodeOf::TypeOf => OpCodeOf::TypeOf,
            OpCodeOf::ToString => OpCodeOf::ToString,
            OpCodeOf::ToInt => OpCodeOf::ToInt,
            OpCodeOf::ToFloat => OpCodeOf::ToFloat,
            OpCodeOf::Debug => OpCodeOf::Debug,
            OpCodeOf::Halt => OpCodeOf::Halt,
        }
    }
}

impl Clone for OpCodeOf<String> {
    fn clone(&self) -> (r: Self)
        ensures
            r == *self,
    {
        match self {
            OpCodeOf::PushInt(x) => OpCodeOf::PushInt(*x),
            OpCodeOf::PushFloat(x) => OpCodeOf::PushFloat(x.clone()),
            OpCodeOf::PushString(x) => OpCodeOf::PushString(x.clone()),
            OpCodeOf::PushBool(x) => OpCodeOf::PushBool(*x),
            OpCodeOf::PushNull => OpCodeOf::PushNull,
            OpCodeOf::Pop => OpCodeOf::Pop,
            OpCodeOf::Dup => OpCodeOf::Dup,
            OpCodeOf::Add => OpCodeOf::Add,
            OpCodeOf::Sub => OpCodeOf::Sub,
            OpCodeOf::Mul => OpCodeOf::Mul,
            OpCodeOf::Div => OpCodeOf::Div,
            OpCodeOf::Mod => OpCodeOf::Mod,
            OpCodeOf::Neg => OpCodeOf::Neg,
            OpCodeOf::Eq => OpCodeOf::Eq,
            OpCodeOf::Ne => OpCodeOf::Ne,
            OpCodeOf::Gt => OpCodeOf::Gt,
            OpCodeOf::Lt => OpCodeOf::Lt,
            OpCodeOf::Ge => OpCodeOf::Ge,
            OpCodeOf::Le => OpCodeOf::Le,
            OpCodeOf::And => OpCodeOf::And,
            OpCodeOf::Or => OpCodeOf::Or,
            OpCodeOf::Not => OpCodeOf::Not,
            OpCodeOf::LoadLocal(x) => OpCodeOf::LoadLocal(*x),
            OpCodeOf::StoreLocal(x) => OpCodeOf::StoreLocal(*x),
            OpCodeOf::LoadGlobal(x) => OpCodeOf::LoadGlobal(*x),
            OpCodeOf::StoreGlobal(x) => OpCodeOf::StoreGlobal(*x),
            OpCodeOf::Jump(x) => OpCodeOf::Jump(*x),
            OpCodeOf::JumpIfFalse(x) => OpCodeOf::JumpIfFalse(*x),
            OpCodeOf::JumpIfTrue(x) => OpCodeOf::JumpIfTrue(*x),
            OpCodeOf::Loop(x) => OpCodeOf::Loop(*x),
            OpCodeOf::Call(x) => OpCodeOf::Call(*x),
            OpCodeOf::Return => OpCodeOf::Return,
            OpCodeOf::DefineFunction(x) => OpCodeOf::DefineFunction(*x),
            OpCodeOf::NewArray(x) => OpCodeOf::NewArray(*x),
            OpCodeOf::GetIndex => OpCodeOf::GetIndex,
            OpCodeOf::SetIndex => OpCodeOf::SetIndex,
            OpCodeOf::Len => OpCodeOf::Len,
            OpCodeOf::NewObject => OpCodeOf::NewObject,
            OpCodeOf::GetField(x) => OpCodeOf::GetField(*x),
            OpCodeOf::SetField(x) => OpCodeOf::SetField(*x),
            OpCodeOf::DefineClass(x) => OpCodeOf::DefineClass(*x),
            OpCodeOf::NewInstance(x) => OpCodeOf::NewInstance(*x),
            OpCodeOf::CallMethod(x) => OpCodeOf::CallMethod(*x),
            OpCodeOf::SetProperty(x) => OpCodeOf::SetProperty(*x),
            OpCodeOf::GetProperty(x) => OpCodeOf::GetProperty(*x),
            OpCodeOf::Try(x) => OpCodeOf::Try(*x),
            OpCodeOf::EndTry => OpCodeOf::EndTry,
            OpCodeOf::Throw => OpCodeOf::Throw,
            OpCodeOf::Catch => OpCodeOf::Catch,
            OpCodeOf::Import => OpCodeOf::Import,
            OpCodeOf::ImportPy => OpCodeOf::ImportPy,
            OpCodeOf::ImportJs => OpCodeOf::ImportJs,
            OpCodeOf::ImportRs => OpCodeOf::ImportRs,
            OpCodeOf::Download => OpCodeOf::Download,
            OpCodeOf::Print => OpCodeOf::Print,
            OpCodeOf::PrintLn => OpCodeOf::PrintLn,
            OpCodeOf::Input => OpCodeOf::Input,
            OpCodeOf::TypeOf => OpCodeOf::TypeOf,
            OpCodeOf::ToString => OpCodeOf::ToString,
            OpCodeOf::ToInt => OpCodeOf::ToInt,
            OpCodeOf::ToFloat => OpCodeOf::ToFloat,
            OpCodeOf::Debug => OpCodeOf::Debug,
            OpCodeOf::Halt => OpCodeOf::Halt,
        }
    }
}

/// The views of a sequence of instructions.
pub open spec fn ops_view(ops: Seq<OpCode>) -> Seq<SpecOp> {
    ops.map_values(|o: OpCode| o@)
}

/// A compiled function or method.
#[derive(Debug)]
pub struct FunctionInfo {
    pub name: String,
    pub arity: usize,
    pub instructions: Vec<OpCode>,
    pub constants: Vec<Value>,
    pub locals: usize,
}

/// A compiled function as specifications see it.
pub struct FunctionModel {
    pub name: Seq<char>,
    pub arity: usize,
    pub instructions: Seq<SpecOp>,
    pub constants: Seq<SpecValue>,
    pub locals: usize,
}

impl View for FunctionInfo {
    type V = FunctionModel;

    open spec fn view(&self) -> FunctionModel {
        FunctionModel {
            name: self.name@,
            arity: self.arity,
            instructions: ops_view(self.instructions@),
            constants: values_view(self.constants@),
            locals: self.locals,
        }
    }
}

/// The views of a sequence of functions.
pub open spec fn functions_view(fs: Seq<FunctionInfo>) -> Seq<FunctionModel> {
    fs.map_values(|f: FunctionInfo| f@)
}

/// A compiled class: its methods by name (no name twice) and its fields.
#[derive(Debug)]
pub struct ClassInfo {
    pub name: String,
    pub methods: Vec<(String, FunctionInfo)>,
    pub fields: Vec<String>,
}

/// A compiled class as specifications see it.
pub struct ClassModel {
    pub name: Seq<char>,
    pub methods: Seq<(Seq<char>, FunctionModel)>,
    pub fields: Seq<Seq<char>>,
}

/// The views of named methods.
pub open spec fn methods_view(ms: Seq<(String, FunctionInfo)>) -> Seq<(Seq<char>, FunctionModel)> {
    ms.map_values(|m: (String, FunctionInfo)| (m.0@, m.1@))
}

impl View for ClassInfo {
    type V = ClassModel;

    open spec fn view(&self) -> ClassModel {
        ClassModel {
            name: self.name@,
            methods: methods_view(self.methods@),
            fields: self.fields@.map_values(|f: String| f@),
        }
    }
}

/// The views of a sequence of classes.
pub open spec fn classes_view(cs: Seq<ClassInfo>) -> Seq<ClassModel> {
    cs.map_values(|c: ClassInfo| c@)
}

/// A copy of a sequence of instructions.
pub fn copy_ops(ops: &Vec<OpCode>) -> (r: Vec<OpCode>)
    ensures
        r@ == ops@,
{
    let mut r: Vec<OpCode> = Vec::new();
    let mut i: usize = 0;
    while i < ops.len()
        invariant
            i <= ops.len(),
            r@ == ops@.take(i as int),
        decreases ops.len() - i,
    {
        r.push(ops[i].clone());
        i = i + 1;
        proof {
            assert(r@ =~= ops@.take(i as int));
        }
    }
    proof {
        assert(ops@.take(ops.len() as int) =~= ops@);
    }
    r
}

/// A copy of a sequence of values.
pub fn copy_values(vs: &Vec<Value>) -> (r: Vec<Value>)
    ensures
        values_view(r@) == values_view(vs@),
{
    let mut r: Vec<Value> = Vec::new();
    let mut i: usize = 0;
    while i < vs.len()
        invariant
            i <= vs.len(),
            values_view(r@) == values_view(vs@.take(i as int)),
        decreases vs.len() - i,
    {
        let c = copy_value(&vs[i]);
        let ghost old_r = r@;
        r.push(c);
        proof {
            lemma_values_view_push(old_r, c);
            assert(vs@.take(i + 1) =~= vs@.take(i as int).push(vs@[i as int]));
            lemma_values_view_push(vs@.take(i as int), vs@[i as int]);
        }
        i = i + 1;
    }
    proof {
        assert(vs@.take(vs.len() as int) =~= vs@);
    }
    r
}

impl FunctionInfo {
    /// A copy of the function.
    pub fn copy(&self) -> (r: FunctionInfo)
        ensures
            r@ == self@,
    {
        let instructions = copy_ops(&self.instructions);
        let constants = copy_values(&self.constants);
        proof {
            assert(ops_view(instructions@) =~= ops_view(self.instructions@));
        }
        FunctionInfo {
            name: self.name.clone(),
            arity: self.arity,
            instructions,
            constants,
            locals: self.locals,
        }
    }
}

} // verus!
