//! The compiler: turns tokens into instructions for the stack machine.
//!
//! Compilation is single-pass and follows the token stream closely. Where the
//! token stream runs out in the middle of a construct that expects one more
//! token, compilation panics; where a statement consumes no token, it never
//! ends. Both are told apart from language errors by `Stop`.
use vstd::prelude::*;

use crate::error::ErrorOf;
use crate::opcode::{
    classes_view, functions_view, methods_view, ops_view, ClassInfo, ClassModel, FunctionInfo,
    FunctionModel, OpCode, OpCodeOf, SpecOp,
};
use crate::token::{tokens_view, SpecToken, Token, TokenOf};
use crate::value::{values_view, SpecValue, Value};

verus! {

broadcast use vstd::string::group_string_axioms;

/// Why compilation stops short of a program.
#[derive(Debug)]
pub enum StopOf<S> {
    /// A syntax error of the program.
    Error(ErrorOf<S>),
    /// An index past the end of the tokens or of the instructions: a panic.
    Panic,
    /// A statement that consumes no token: compilation would never end.
    Diverge,
}

pub type Stop = StopOf<String>;

pub type SpecStop = StopOf<Seq<char>>;

impl View for StopOf<String> {
    type V = StopOf<Seq<char>>;

    open spec fn view(&self) -> SpecStop {
        match self {
            StopOf::Error(e) => StopOf::Error(e@),
            StopOf::Panic => StopOf::Panic,
            StopOf::Diverge => StopOf::Diverge,
        }
    }
}

/// One scope: variable names and their local slots, no name twice.
pub type ScopeModel = Seq<(Seq<char>, usize)>;

/// The compiler as specifications see it.
pub struct CompilerModel {
    pub instructions: Seq<SpecOp>,
    pub constants: Seq<SpecValue>,
    pub scopes: Seq<ScopeModel>,
    pub functions: Seq<FunctionModel>,
    pub classes: Seq<ClassModel>,
    pub ip: int,
    pub loop_stack: Seq<usize>,
    pub break_stack: Seq<usize>,
    pub continue_stack: Seq<usize>,
    pub try_stack: Seq<usize>,
    pub debug_mode: bool,
    pub current_class: Option<usize>,
}

/// What compiling comes to: the compiler after it, or why it stopped and
/// the compiler at that point.
pub type Outcome = Result<CompilerModel, (SpecStop, CompilerModel)>;

/// A panic, with the compiler as it was when it came.
pub open spec fn panic(st: CompilerModel) -> Outcome {
    Err((StopOf::Panic, st))
}

/// A syntax error, with the compiler as it was when it came.
pub open spec fn syntax(st: CompilerModel, msg: Seq<char>) -> Outcome {
    Err((StopOf::Error(ErrorOf::Syntax(msg)), st))
}

/// The token at `p`, if any.
pub open spec fn tok(ts: Seq<SpecToken>, p: int) -> Option<SpecToken> {
    if 0 <= p < ts.len() {
        Some(ts[p])
    } else {
        None
    }
}

/// The token at `p` is `t` (a token without text).
pub open spec fn tok_is(ts: Seq<SpecToken>, p: int, t: SpecToken) -> bool {
    tok(ts, p) == Some(t)
}

// ---------------------------------------------------------------------------
// Scopes.
// ---------------------------------------------------------------------------

/// The slot of `name` in one scope.
pub open spec fn scope_get_from(s: ScopeModel, name: Seq<char>, i: int) -> Option<int>
    decreases s.len() - i,
{
    if i < 0 || i >= s.len() {
        None
    } else if s[i].0 == name {
        Some(i)
    } else {
        scope_get_from(s, name, i + 1)
    }
}

/// The scope with `name` bound to `v`: rebound in place, or added.
pub open spec fn scope_insert(s: ScopeModel, name: Seq<char>, v: usize) -> ScopeModel {
    match scope_get_from(s, name, 0) {
        Some(j) => s.update(j, (name, v)),
        None => s.push((name, v)),
    }
}

/// The slot of `name` in the innermost scope that binds it.
pub open spec fn lookup(scopes: Seq<ScopeModel>, name: Seq<char>) -> Option<usize>
    decreases scopes.len(),
{
    if scopes.len() == 0 {
        None
    } else {
        match scope_get_from(scopes.last(), name, 0) {
            Some(j) => Some(scopes.last()[j].1),
            None => lookup(scopes.drop_last(), name),
        }
    }
}

impl CompilerModel {
    pub open spec fn emit(self, op: SpecOp) -> CompilerModel {
        CompilerModel { instructions: self.instructions.push(op), ..self }
    }

    pub open spec fn emit2(self, a: SpecOp, b: SpecOp) -> CompilerModel {
        self.emit(a).emit(b)
    }

    /// The position of the next instruction.
    pub open spec fn pos(self) -> usize {
        self.instructions.len() as usize
    }

    /// With a constant added (its index is the number of constants before).
    pub open spec fn add_const(self, v: SpecValue) -> CompilerModel {
        CompilerModel { constants: self.constants.push(v), ..self }
    }

    pub open spec fn at_ip(self, ip: int) -> CompilerModel {
        CompilerModel { ip, ..self }
    }

    pub open spec fn advance(self) -> CompilerModel {
        self.at_ip(self.ip + 1)
    }

    pub open spec fn push_scope(self, s: ScopeModel) -> CompilerModel {
        CompilerModel { scopes: self.scopes.push(s), ..self }
    }

    /// Without the innermost scope; unchanged without a scope.
    pub open spec fn pop_scope(self) -> CompilerModel {
        CompilerModel { scopes: if self.scopes.len() > 0 { self.scopes.drop_last() } else { self.scopes }, ..self }
    }

    /// Binds `name` in the innermost scope to the next free slot of that
    /// scope; panics without a scope.
    pub open spec fn declare(self, name: Seq<char>) -> Result<(CompilerModel, usize), (SpecStop, CompilerModel)> {
        if self.scopes.len() == 0 {
            Err((StopOf::Panic, self))
        } else {
            let s = self.scopes.last();
            let idx = s.len() as usize;
            Ok((CompilerModel { scopes: self.scopes.update(self.scopes.len() - 1, scope_insert(s, name, idx)), ..self }, idx))
        }
    }
}

/// Points the jump at `pos` to the next instruction; panics when there is no
/// instruction at `pos`.
pub open spec fn patch(st: CompilerModel, pos: usize) -> Outcome {
    if pos < st.instructions.len() {
        let target = st.instructions.len() as usize;
        let patched = match st.instructions[pos as int] {
            OpCodeOf::Jump(_) => OpCodeOf::Jump(target),
            OpCodeOf::JumpIfFalse(_) => OpCodeOf::JumpIfFalse(target),
            OpCodeOf::JumpIfTrue(_) => OpCodeOf::JumpIfTrue(target),
            OpCodeOf::Loop(_) => OpCodeOf::Loop(target),
            OpCodeOf::Try(_) => OpCodeOf::Try(target),
            other => other,
        };
        Ok(CompilerModel { instructions: st.instructions.update(pos as int, patched), ..st })
    } else {
        panic(st)
    }
}

// ---------------------------------------------------------------------------
// Expressions.
// ---------------------------------------------------------------------------

pub open spec fn is_opener(t: SpecToken) -> bool {
    t is LParen || t is LBrace || t is LBracket
}

pub open spec fn is_closer(t: SpecToken) -> bool {
    t is RParen || t is RBrace || t is RBracket
}

/// Where the expression that starts at `p` ends: at a `;` or line break
/// outside brackets, at a closing bracket that closes nothing, or at the end.
pub open spec fn expr_end(ts: Seq<SpecToken>, p: int, depth: int) -> Result<int, SpecStop>
    decreases ts.len() - p,
{
    if p < 0 || p >= ts.len() {
        Ok(p)
    } else {
        let t = ts[p];
        if (t is Semicolon || t is Newline) && depth == 0 {
            Ok(p)
        } else if is_opener(t) {
            if depth + 1 > i32::MAX {
                Err(StopOf::Panic)
            } else {
                expr_end(ts, p + 1, depth + 1)
            }
        } else if is_closer(t) && depth - 1 < 0 {
            Ok(p)
        } else if is_closer(t) {
            expr_end(ts, p + 1, depth - 1)
        } else {
            expr_end(ts, p + 1, depth)
        }
    }
}

/// From a `(` at `k`: the position of the `)` that closes it, or the end.
pub open spec fn paren_end(xs: Seq<SpecToken>, k: int, depth: int) -> Result<int, SpecStop>
    decreases xs.len() - k,
{
    if k < 0 || k >= xs.len() {
        Ok(k)
    } else if xs[k] is LParen {
        if depth + 1 > i32::MAX {
            Err(StopOf::Panic)
        } else {
            paren_end(xs, k + 1, depth + 1)
        }
    } else if xs[k] is RParen && depth - 1 == 0 {
        Ok(k)
    } else if xs[k] is RParen {
        paren_end(xs, k + 1, depth - 1)
    } else {
        paren_end(xs, k + 1, depth)
    }
}

/// Where an array element that starts at `k` ends: at a `]` outside nested
/// brackets, or at the end.
pub open spec fn elem_end(xs: Seq<SpecToken>, k: int, depth: int) -> Result<int, SpecStop>
    decreases xs.len() - k,
{
    if k < 0 || k >= xs.len() {
        Ok(k)
    } else if xs[k] is RBracket && depth == 0 {
        Ok(k)
    } else if xs[k] is LBracket {
        if depth + 1 > i32::MAX {
            Err(StopOf::Panic)
        } else {
            elem_end(xs, k + 1, depth + 1)
        }
    } else if xs[k] is RBracket {
        elem_end(xs, k + 1, depth - 1)
    } else {
        elem_end(xs, k + 1, depth)
    }
}

pub proof fn lemma_elem_end(xs: Seq<SpecToken>, k: int, depth: int)
    requires
        0 <= k,
    ensures
        elem_end(xs, k, depth) matches Ok(e) ==> k <= e && (k <= xs.len() ==> e <= xs.len()),
    decreases xs.len() - k,
{
    if 0 <= k < xs.len() {
        if xs[k] is RBracket && depth == 0 {
        } else if xs[k] is LBracket {
            if depth + 1 <= i32::MAX {
                lemma_elem_end(xs, k + 1, depth + 1);
            }
        } else if xs[k] is RBracket {
            lemma_elem_end(xs, k + 1, depth - 1);
        } else {
            lemma_elem_end(xs, k + 1, depth);
        }
    }
}

pub proof fn lemma_paren_end(xs: Seq<SpecToken>, k: int, depth: int)
    requires
        0 <= k,
    ensures
        paren_end(xs, k, depth) matches Ok(e) ==> k <= e && (k <= xs.len() ==> e <= xs.len()),
    decreases xs.len() - k,
{
    if 0 <= k < xs.len() {
        if xs[k] is LParen {
            if depth + 1 <= i32::MAX {
                lemma_paren_end(xs, k + 1, depth + 1);
            }
        } else if xs[k] is RParen && depth - 1 == 0 {
        } else if xs[k] is RParen {
            lemma_paren_end(xs, k + 1, depth - 1);
        } else {
            lemma_paren_end(xs, k + 1, depth);
        }
    }
}

pub proof fn lemma_expr_end(ts: Seq<SpecToken>, p: int, depth: int)
    requires
        0 <= p,
    ensures
        expr_end(ts, p, depth) matches Ok(e) ==> p <= e && (p <= ts.len() ==> e <= ts.len()),
    decreases ts.len() - p,
{
    if 0 <= p < ts.len() {
        let t = ts[p];
        if (t is Semicolon || t is Newline) && depth == 0 {
        } else if is_opener(t) {
            if depth + 1 <= i32::MAX {
                lemma_expr_end(ts, p + 1, depth + 1);
            }
        } else if is_closer(t) && depth - 1 < 0 {
        } else if is_closer(t) {
            lemma_expr_end(ts, p + 1, depth - 1);
        } else {
            lemma_expr_end(ts, p + 1, depth);
        }
    }
}

/// The instructions of a token that stands for one or two instructions.
pub open spec fn simple_ops(t: SpecToken) -> Option<Seq<SpecOp>> {
    match t {
        TokenOf::Integer(n) => Some(seq![OpCodeOf::PushInt(n)]),
        TokenOf::Float(f) => Some(seq![OpCodeOf::PushFloat(f)]),
        TokenOf::String(s) => Some(seq![OpCodeOf::PushString(s)]),
        TokenOf::True => Some(seq![OpCodeOf::PushBool(true)]),
        TokenOf::False => Some(seq![OpCodeOf::PushBool(false)]),
        TokenOf::Null => Some(seq![OpCodeOf::PushNull]),
        TokenOf::This => Some(seq![OpCodeOf::LoadLocal(0)]),
        TokenOf::Plus => Some(seq![OpCodeOf::Add]),
        TokenOf::Minus => Some(seq![OpCodeOf::Sub]),
        TokenOf::Multiply => Some(seq![OpCodeOf::Mul]),
        TokenOf::Divide => Some(seq![OpCodeOf::Div]),
        TokenOf::Modulo => Some(seq![OpCodeOf::Mod]),
        TokenOf::Equal => Some(seq![OpCodeOf::Eq]),
        TokenOf::NotEqual => Some(seq![OpCodeOf::Eq, OpCodeOf::Not]),
        TokenOf::Greater => Some(seq![OpCodeOf::Gt]),
        TokenOf::Less => Some(seq![OpCodeOf::Lt]),
        TokenOf::GreaterEqual => Some(seq![OpCodeOf::Ge]),
        TokenOf::LessEqual => Some(seq![OpCodeOf::Le]),
        TokenOf::And => Some(seq![OpCodeOf::And]),
        TokenOf::Or => Some(seq![OpCodeOf::Or]),
        TokenOf::Not => Some(seq![OpCodeOf::Not]),
        _ => None,
    }
}

/// Compiling the tokens of an expression from position `i`: each token in
/// turn, left to right, with no precedence between operators.
pub open spec fn simple_expr(xs: Seq<SpecToken>, i: int, st: CompilerModel) -> Outcome
    decreases xs.len(), 1int, xs.len() - i,
{
    if i < 0 || i >= xs.len() {
        Ok(st)
    } else {
        let t = xs[i];
        if simple_ops(t) is Some {
            simple_expr(xs, i + 1, CompilerModel { instructions: st.instructions + simple_ops(t)->0, ..st })
        } else {
            match t {
                TokenOf::Identifier(name) => match lookup(st.scopes, name) {
                    Some(idx) => simple_expr(xs, i + 1, st.emit(OpCodeOf::LoadLocal(idx))),
                    None => simple_expr(
                        xs,
                        i + 1,
                        st.add_const(SpecValue::String(name)).emit(OpCodeOf::LoadGlobal(st.constants.len() as usize)),
                    ),
                },
                TokenOf::LBracket => match array_elems(xs, i + 1, 0, st) {
                    Ok((st2, j, count)) => if i <= j < xs.len() {
                        simple_expr(xs, j + 1, st2.emit(OpCodeOf::NewArray(count as usize)))
                    } else if j >= i {
                        Ok(st2.emit(OpCodeOf::NewArray(count as usize)))
                    } else {
                        panic(st2)  // cannot happen: the elements end after the bracket
                    },
                    Err(e) => Err(e),
                },
                TokenOf::Dot => match tok(xs, i + 1) {
                    Some(TokenOf::Identifier(field)) => {
                        let idx = st.constants.len() as usize;
                        let st1 = st.add_const(SpecValue::String(field));
                        if tok_is(xs, i + 2, TokenOf::LParen) {
                            match paren_end(xs, i + 2, 0) {
                                Ok(j) => if i <= j < xs.len() {
                                    simple_expr(xs, j + 1, st1.emit(OpCodeOf::CallMethod(idx)))
                                } else if j >= i {
                                    Ok(st1.emit(OpCodeOf::CallMethod(idx)))
                                } else {
                                    panic(st1)  // cannot happen
                                },
                                Err(e) => Err((e, st1)),
                            }
                        } else {
                            simple_expr(xs, i + 2, st1.emit(OpCodeOf::GetField(idx)))
                        }
                    },
                    _ => if i + 2 <= xs.len() {
                        simple_expr(xs, i + 2, st)
                    } else {
                        Ok(st)
                    },
                },
                TokenOf::Assign => if i > 0 && xs[i - 1] is Identifier && lookup(st.scopes, xs[i - 1]->Identifier_0) is Some {
                    if i + 1 < xs.len() {
                        match simple_expr(xs.subrange(i + 1, xs.len() as int), 0, st) {
                            Ok(st2) => Ok(st2.emit(OpCodeOf::StoreLocal(lookup(st.scopes, xs[i - 1]->Identifier_0)->0))),
                            Err(e) => Err(e),
                        }
                    } else {
                        simple_expr(xs, i + 1, st)
                    }
                } else {
                    simple_expr(xs, i + 1, st)
                },
                TokenOf::New => match tok(xs, i + 1) {
                    Some(TokenOf::Identifier(class_name)) => {
                        let idx = st.constants.len() as usize;
                        let st1 = st.add_const(SpecValue::String(class_name)).emit2(
                            OpCodeOf::PushInt(idx as i64),
                            OpCodeOf::NewInstance(idx),
                        );
                        if tok_is(xs, i + 2, TokenOf::LParen) {
                            match paren_end(xs, i + 2, 0) {
                                Ok(j) => if i <= j < xs.len() {
                                    simple_expr(xs, j + 1, st1)
                                } else if j >= i {
                                    Ok(st1)
                                } else {
                                    panic(st1)  // cannot happen
                                },
                                Err(e) => Err((e, st1)),
                            }
                        } else if i + 3 <= xs.len() {
                            simple_expr(xs, i + 3, st1)
                        } else {
                            Ok(st1)
                        }
                    },
                    _ => if i + 2 <= xs.len() {
                        simple_expr(xs, i + 2, st)
                    } else {
                        Ok(st)
                    },
                },
                _ => simple_expr(xs, i + 1, st),
            }
        }
    }
}

/// The elements of an array literal from position `i` (after the `[`),
/// each compiled in turn: the state after them, the position where they
/// stop (a `]` or the end), and how many were compiled.
pub open spec fn array_elems(xs: Seq<SpecToken>, i: int, count: nat, st: CompilerModel) -> Result<(CompilerModel, int, nat), (SpecStop, CompilerModel)>
    decreases xs.len(), 0int, xs.len() - i,
{
    if i < 1 || i >= xs.len() || xs[i] is RBracket {
        Ok((st, i, count))
    } else if xs[i] is Comma {
        array_elems(xs, i + 1, count, st)
    } else {
        match elem_end(xs, i, 0) {
            Ok(e) => if i <= e <= xs.len() {
                if e > i {
                    match simple_expr(xs.subrange(i, e), 0, st) {
                        Ok(st2) => if e < xs.len() {
                            array_elems(xs, e + 1, count + 1, st2)
                        } else {
                            Ok((st2, e, count + 1))
                        },
                        Err(x) => Err(x),
                    }
                } else if e < xs.len() {
                    array_elems(xs, e + 1, count, st)
                } else {
                    Ok((st, e, count))
                }
            } else {
                Err((StopOf::Panic, st))  // cannot happen
            },
            Err(x) => Err((x, st)),
        }
    }
}

/// Compiling the expression at `ip`.
pub open spec fn c_expression(ts: Seq<SpecToken>, st: CompilerModel) -> Outcome {
    match expr_end(ts, st.ip, 0) {
        Ok(e) => if st.ip <= e <= ts.len() {
            simple_expr(ts.subrange(st.ip, e), 0, st.at_ip(e))
        } else {
            panic(st)  // cannot happen
        },
        Err(x) => Err((x, st)),
    }
}


// ---------------------------------------------------------------------------
// Statements.
// ---------------------------------------------------------------------------

/// A stack without its last entry; unchanged when empty.
pub open spec fn pop_or_keep(s: Seq<usize>) -> Seq<usize> {
    if s.len() > 0 { s.drop_last() } else { s }
}

impl CompilerModel {
    /// Enters a loop that starts at `start`.
    pub open spec fn enter_loop(self, start: usize) -> CompilerModel {
        CompilerModel {
            loop_stack: self.loop_stack.push(start),
            break_stack: self.break_stack.push(0),
            continue_stack: self.continue_stack.push(start),
            ..self
        }
    }

    /// Leaves the innermost loop.
    pub open spec fn leave_loop(self) -> CompilerModel {
        CompilerModel {
            loop_stack: pop_or_keep(self.loop_stack),
            break_stack: pop_or_keep(self.break_stack),
            continue_stack: pop_or_keep(self.continue_stack),
            ..self
        }
    }

    /// Starts compiling a body of its own: no instructions, no constants,
    /// and the one scope given.
    pub open spec fn begin_body(self, scope: ScopeModel) -> CompilerModel {
        CompilerModel { instructions: Seq::empty(), constants: Seq::empty(), scopes: seq![scope], ..self }
    }

    /// Goes back to the instructions, constants and scopes of `outer`.
    pub open spec fn end_body(self, outer: CompilerModel) -> CompilerModel {
        CompilerModel { instructions: outer.instructions, constants: outer.constants, scopes: outer.scopes, ..self }
    }

    /// The number of variables of the innermost scope (0 without one).
    pub open spec fn locals_count(self) -> usize {
        if self.scopes.len() > 0 { self.scopes.last().len() as usize } else { 0 }
    }
}

/// The methods with `name` bound to `f`: replaced in place, or added.
pub open spec fn method_insert(ms: Seq<(Seq<char>, FunctionModel)>, name: Seq<char>, f: FunctionModel) -> Seq<(Seq<char>, FunctionModel)> {
    match crate::vm::find_method_from(ms, name, 0) {
        Some(j) => ms.update(j, (name, f)),
        None => ms.push((name, f)),
    }
}

/// After a statement: skips one `;`, then one line break.
pub open spec fn skip_terminator(ts: Seq<SpecToken>, st: CompilerModel) -> Outcome {
    if st.ip < ts.len() {
        let st1 = if ts[st.ip] is Semicolon { st.advance() } else { st };
        match tok(ts, st1.ip) {
            Some(t) => Ok(if t is Newline { st1.advance() } else { st1 }),
            None => panic(st1),
        }
    } else {
        Ok(st)
    }
}

/// A parameter list `(a, b, ...)`, if there is one: the state after it and
/// the number of parameters.
pub open spec fn c_params(ts: Seq<SpecToken>, st: CompilerModel) -> Result<(CompilerModel, usize), (SpecStop, CompilerModel)> {
    if tok_is(ts, st.ip, TokenOf::LParen) {
        match param_names(ts, st.advance(), 0) {
            Ok((st1, arity)) => Ok((if tok_is(ts, st1.ip, TokenOf::RParen) { st1.advance() } else { st1 }, arity)),
            Err(e) => Err(e),
        }
    } else {
        Ok((st, 0))
    }
}

/// Names separated by commas; each counts one parameter.
pub open spec fn param_names(ts: Seq<SpecToken>, st: CompilerModel, arity: usize) -> Result<(CompilerModel, usize), (SpecStop, CompilerModel)>
    decreases ts.len() - st.ip,
{
    if st.ip < ts.len() && ts[st.ip] is Identifier {
        if arity + 1 > usize::MAX {
            Err((StopOf::Panic, st))
        } else {
            let st1 = st.advance();
            let st2 = if tok_is(ts, st1.ip, TokenOf::Comma) { st1.advance() } else { st1 };
            param_names(ts, st2, (arity + 1) as usize)
        }
    } else {
        Ok((st, arity))
    }
}

/// `let name = expr` or `let name`.
pub open spec fn c_let(ts: Seq<SpecToken>, st: CompilerModel) -> Outcome {
    match tok(ts, st.ip) {
        Some(TokenOf::Identifier(name)) => {
            let st1 = st.advance();
            if tok_is(ts, st1.ip, TokenOf::Assign) {
                match c_expression(ts, st1.advance()) {
                    Ok(st2) => match st2.declare(name) {
                        Ok((st3, idx)) => Ok(st3.emit(OpCodeOf::StoreLocal(idx))),
                        Err(e) => Err(e),
                    },
                    Err(e) => Err(e),
                }
            } else {
                match st1.declare(name) {
                    Ok((st2, idx)) => Ok(st2.emit2(OpCodeOf::PushNull, OpCodeOf::StoreLocal(idx))),
                    Err(e) => Err(e),
                }
            }
        },
        _ => syntax(st, "期望标识符"@),
    }
}

/// An expression followed by one instruction (`print`, `println`, `throw`).
pub open spec fn c_expr_then(ts: Seq<SpecToken>, st: CompilerModel, op: SpecOp) -> Outcome {
    match c_expression(ts, st) {
        Ok(st1) => Ok(st1.emit(op)),
        Err(e) => Err(e),
    }
}

/// `return expr`.
pub open spec fn c_return(ts: Seq<SpecToken>, st: CompilerModel) -> Outcome {
    if st.ip < ts.len() {
        c_expr_then(ts, st, OpCodeOf::Return)
    } else {
        Ok(st.emit2(OpCodeOf::PushNull, OpCodeOf::Return))
    }
}

/// `break`: a jump, recorded as the innermost loop's break.
pub open spec fn c_break(st: CompilerModel) -> CompilerModel {
    let st1 = if st.break_stack.len() > 0 {
        CompilerModel { break_stack: st.break_stack.update(st.break_stack.len() - 1, st.pos()), ..st }
    } else {
        st
    };
    st1.emit(OpCodeOf::Jump(0))
}

/// `continue`: a jump to the start of the innermost loop.
pub open spec fn c_continue(st: CompilerModel) -> CompilerModel {
    if st.continue_stack.len() > 0 {
        st.emit(OpCodeOf::Jump(st.continue_stack.last()))
    } else {
        st
    }
}

/// `import "path"` and the foreign imports: the text as a constant, its
/// index, and the instruction.
pub open spec fn c_import(ts: Seq<SpecToken>, st: CompilerModel, op: SpecOp) -> Outcome {
    match tok(ts, st.ip) {
        None => panic(st),
        Some(TokenOf::String(path)) => {
            let idx = st.constants.len() as usize;
            Ok(st.advance().add_const(SpecValue::String(path)).emit2(OpCodeOf::PushInt(idx as i64), op))
        },
        Some(_) => Ok(st),
    }
}

/// `download "url" from "file"`.
pub open spec fn c_download(ts: Seq<SpecToken>, st: CompilerModel) -> Outcome {
    match tok(ts, st.ip) {
        None => panic(st),
        Some(t) => {
            let url = match t {
                TokenOf::String(u) => u,
                _ => Seq::empty(),
            };
            let st1 = if t is String { st.advance() } else { st };
            let file_part: Result<(Seq<char>, CompilerModel), (SpecStop, CompilerModel)> = if tok_is(ts, st1.ip, TokenOf::From) {
                let st2 = st1.advance();
                match tok(ts, st2.ip) {
                    None => Err((StopOf::Panic, st2)),
                    Some(TokenOf::String(f)) => Ok((f, st2.advance())),
                    Some(_) => Ok((Seq::empty(), st2)),
                }
            } else {
                Ok((Seq::empty(), st1))
            };
            match file_part {
                Ok((file, st3)) => {
                    let ui = st3.constants.len() as usize;
                    let fi = (st3.constants.len() + 1) as usize;
                    Ok(st3.add_const(SpecValue::String(url)).add_const(SpecValue::String(file))
                        .emit(OpCodeOf::PushInt(ui as i64)).emit(OpCodeOf::PushInt(fi as i64)).emit(OpCodeOf::Download))
                },
                Err(e) => Err(e),
            }
        },
    }
}

/// Whether the position is inside the tokens, at or after `from`.
pub open spec fn between(ts: Seq<SpecToken>, from: int, st: CompilerModel) -> bool {
    from <= st.ip <= ts.len()
}

/// One statement at `ip`, followed by an optional `;` and line break.
pub open spec fn c_stmt(ts: Seq<SpecToken>, st: CompilerModel) -> Outcome
    decreases ts.len() - st.ip, 0int,
{
    if st.ip >= ts.len() {
        Ok(st)
    } else {
        let st1 = st.advance();
        let r = match ts[st.ip] {
            TokenOf::Let => c_let(ts, st1),
            TokenOf::Print => c_expr_then(ts, st1, OpCodeOf::Print),
            TokenOf::PrintLn => c_expr_then(ts, st1, OpCodeOf::PrintLn),
            TokenOf::If => c_if(ts, st1),
            TokenOf::While => c_while(ts, st1),
            TokenOf::For => c_for(ts, st1),
            TokenOf::Function => c_function(ts, st1),
            TokenOf::Return => c_return(ts, st1),
            TokenOf::Break => Ok(c_break(st1)),
            TokenOf::Continue => Ok(c_continue(st1)),
            TokenOf::Class => c_class(ts, st1),
            TokenOf::Try => c_try(ts, st1),
            TokenOf::Throw => c_expr_then(ts, st1, OpCodeOf::Throw),
            TokenOf::Import => c_import(ts, st1, OpCodeOf::Import),
            TokenOf::ImportPy => c_import(ts, st1, OpCodeOf::ImportPy),
            TokenOf::ImportJs => c_import(ts, st1, OpCodeOf::ImportJs),
            TokenOf::ImportRs => c_import(ts, st1, OpCodeOf::ImportRs),
            TokenOf::Download => c_download(ts, st1),
            _ => c_expr_then(ts, st, OpCodeOf::Pop),
        };
        match r {
            Ok(st2) => skip_terminator(ts, st2),
            Err(e) => Err(e),
        }
    }
}

/// The token that ends a block: `EOF` for a whole program, `}` otherwise.
pub open spec fn block_end(at_eof: bool) -> SpecToken {
    if at_eof { TokenOf::EOF } else { TokenOf::RBrace }
}

/// Statements up to the token `end` or the end of the tokens. A statement
/// that consumes nothing would be compiled again and again: `Diverge`.
pub open spec fn c_block(ts: Seq<SpecToken>, st: CompilerModel, end: SpecToken) -> Outcome
    decreases ts.len() - st.ip, 1int,
{
    if st.ip < ts.len() && ts[st.ip] != end {
        match c_stmt(ts, st) {
            Ok(st1) => if st.ip < st1.ip <= ts.len() {
                c_block(ts, st1, end)
            } else if st1.ip == st.ip {
                Err((StopOf::Diverge, st1))
            } else {
                panic(st1)  // cannot happen: statements move forward within the tokens
            },
            Err(e) => Err(e),
        }
    } else {
        Ok(st)
    }
}

/// A braced block `{ ... }` where a `{` stands, in a scope of its own when
/// `scoped`; nothing where another token stands; a panic at the end.
pub open spec fn c_braced(ts: Seq<SpecToken>, st: CompilerModel, scoped: bool) -> Outcome
    decreases ts.len() - st.ip, 2int,
{
    match tok(ts, st.ip) {
        None => panic(st),
        Some(t) => if t is LBrace {
            let st1 = st.advance();
            let st2 = if scoped { st1.push_scope(Seq::empty()) } else { st1 };
            match c_block(ts, st2, TokenOf::RBrace) {
                Ok(st3) => {
                    let st4 = if scoped { st3.pop_scope() } else { st3 };
                    Ok(if tok_is(ts, st4.ip, TokenOf::RBrace) { st4.advance() } else { st4 })
                },
                Err(e) => Err(e),
            }
        } else {
            Ok(st)
        },
    }
}

/// `if cond { ... } else { ... }`.
pub open spec fn c_if(ts: Seq<SpecToken>, st: CompilerModel) -> Outcome
    decreases ts.len() - st.ip, 3int,
{
    match c_expression(ts, st) {
        Ok(st1) => if between(ts, st.ip, st1) {
            let jump_false = st1.pos();
            match c_braced(ts, st1.emit(OpCodeOf::JumpIfFalse(0)), true) {
                Ok(st2) => if between(ts, st1.ip, st2) {
                    let jump_end = st2.pos();
                    match patch(st2.emit(OpCodeOf::Jump(0)), jump_false) {
                        Ok(st3) => {
                            let els = if tok_is(ts, st3.ip, TokenOf::Else) {
                                c_braced(ts, st3.advance(), true)
                            } else {
                                Ok(st3)
                            };
                            match els {
                                Ok(st4) => patch(st4, jump_end),
                                Err(e) => Err(e),
                            }
                        },
                        Err(e) => Err(e),
                    }
                } else {
                    panic(st2)  // cannot happen
                },
                Err(e) => Err(e),
            }
        } else {
            panic(st1)  // cannot happen
        },
        Err(e) => Err(e),
    }
}

/// `while cond { ... }`.
pub open spec fn c_while(ts: Seq<SpecToken>, st: CompilerModel) -> Outcome
    decreases ts.len() - st.ip, 3int,
{
    let loop_start = st.pos();
    let st0 = st.enter_loop(loop_start);
    match c_expression(ts, st0) {
        Ok(st1) => if between(ts, st.ip, st1) {
            let jump_false = st1.pos();
            match c_braced(ts, st1.emit(OpCodeOf::JumpIfFalse(0)), true) {
                Ok(st2) => match patch(st2.emit(OpCodeOf::Loop(loop_start)), jump_false) {
                    Ok(st3) => {
                        let brk = if st3.break_stack.len() > 0 && st3.break_stack.last() > 0 {
                            patch(st3, st3.break_stack.last())
                        } else {
                            Ok(st3)
                        };
                        match brk {
                            Ok(st4) => Ok(st4.leave_loop()),
                            Err(e) => Err(e),
                        }
                    },
                    Err(e) => Err(e),
                },
                Err(e) => Err(e),
            }
        } else {
            panic(st1)  // cannot happen
        },
        Err(e) => Err(e),
    }
}

/// The instructions of a `for` loop from its index check to its body.
pub open spec fn for_head(st: CompilerModel, arr: usize, idx: usize) -> CompilerModel {
    st.emit(OpCodeOf::LoadLocal(idx)).emit(OpCodeOf::LoadLocal(arr)).emit(OpCodeOf::Len).emit(OpCodeOf::Lt)
}

/// `for x in expr { ... }`: hidden locals hold the array and the index.
pub open spec fn c_for(ts: Seq<SpecToken>, st: CompilerModel) -> Outcome
    decreases ts.len() - st.ip, 3int,
{
    match tok(ts, st.ip) {
        None => syntax(st, "期望标识符"@),
        Some(TokenOf::Identifier(var)) => {
            let st1 = st.advance();
            if tok_is(ts, st1.ip, TokenOf::In) {
                match c_expression(ts, st1.advance()) {
                    Ok(st2) => if between(ts, st.ip, st2) {
                        match st2.declare("__for_arr"@) {
                            Ok((st3, arr)) => match st3.emit2(OpCodeOf::StoreLocal(arr), OpCodeOf::PushInt(0)).declare("__for_idx"@) {
                                Ok((st4, idx)) => {
                                    let st5 = st4.emit(OpCodeOf::StoreLocal(idx));
                                    let loop_start = st5.pos();
                                    let st6 = for_head(st5.enter_loop(loop_start), arr, idx);
                                    let jump_end = st6.pos();
                                    let st7 = st6.emit(OpCodeOf::JumpIfFalse(0)).emit(OpCodeOf::LoadLocal(arr))
                                        .emit(OpCodeOf::LoadLocal(idx)).emit(OpCodeOf::GetIndex);
                                    match st7.declare(var) {
                                        Ok((st8, vi)) => match c_braced(ts, st8.emit(OpCodeOf::StoreLocal(vi)), true) {
                                            Ok(st9) => {
                                                let st10 = st9.emit(OpCodeOf::LoadLocal(idx)).emit(OpCodeOf::PushInt(1))
                                                    .emit(OpCodeOf::Add).emit(OpCodeOf::StoreLocal(idx)).emit(OpCodeOf::Loop(loop_start));
                                                match patch(st10, jump_end) {
                                                    Ok(st11) => Ok(st11.leave_loop()),
                                                    Err(e) => Err(e),
                                                }
                                            },
                                            Err(e) => Err(e),
                                        },
                                        Err(e) => Err(e),
                                    }
                                },
                                Err(e) => Err(e),
                            },
                            Err(e) => Err(e),
                        }
                    } else {
                        panic(st2)  // cannot happen
                    },
                    Err(e) => Err(e),
                }
            } else {
                Ok(st1)
            }
        },
        Some(_) => Ok(st),
    }
}

/// `fn name(params) { ... }`: the body compiled into a function of its own,
/// then an instruction that defines it.
pub open spec fn c_function(ts: Seq<SpecToken>, st: CompilerModel) -> Outcome
    decreases ts.len() - st.ip, 3int,
{
    match tok(ts, st.ip) {
        Some(TokenOf::Identifier(name)) => match c_params(ts, st.advance()) {
            Ok((st1, arity)) => if between(ts, st.ip, st1) {
                let fi = st1.functions.len() as usize;
                let st2 = CompilerModel {
                    functions: st1.functions.push(FunctionModel { name, arity, instructions: Seq::empty(), constants: Seq::empty(), locals: 0 }),
                    ..st1
                };
                match c_braced(ts, st2.begin_body(Seq::empty()), false) {
                    Ok(st3) => {
                        let st4 = st3.emit2(OpCodeOf::PushNull, OpCodeOf::Return);
                        let st5 = if fi < st4.functions.len() {
                            CompilerModel {
                                functions: st4.functions.update(fi as int, FunctionModel {
                                    instructions: st4.instructions,
                                    constants: st4.constants,
                                    locals: st4.locals_count(),
                                    ..st4.functions[fi as int]
                                }),
                                ..st4
                            }
                        } else {
                            st4
                        };
                        Ok(st5.end_body(st2).emit(OpCodeOf::DefineFunction(fi)))
                    },
                    Err(e) => Err(e),
                }
            } else {
                panic(st1)  // cannot happen
            },
            Err(e) => Err(e),
        },
        _ => syntax(st, "期望函数名"@),
    }
}

/// With `method` bound to `name` in class `ci`, if there is such a class.
pub open spec fn with_method(st: CompilerModel, ci: usize, name: Seq<char>, method: FunctionModel) -> CompilerModel {
    if ci < st.classes.len() {
        CompilerModel {
            classes: st.classes.update(ci as int, ClassModel {
                methods: method_insert(st.classes[ci as int].methods, name, method),
                ..st.classes[ci as int]
            }),
            ..st
        }
    } else {
        st
    }
}

/// A method of class `ci` named `mname`, from its parameter list on: the
/// body is compiled into a function that takes `this` as an extra first
/// local, and the class gets it under that name.
pub open spec fn c_method(ts: Seq<SpecToken>, st: CompilerModel, ci: usize, mname: Seq<char>) -> Outcome
    decreases ts.len() - st.ip, 3int,
{
    match c_params(ts, st) {
        Ok((st2, arity)) => if between(ts, st.ip, st2) {
            match c_braced(ts, st2.begin_body(seq![("this"@, 0usize)]), false) {
                Ok(st3) => if between(ts, st2.ip, st3) {
                    if arity + 1 > usize::MAX {
                        panic(st3)
                    } else {
                        let st4 = st3.emit2(OpCodeOf::PushNull, OpCodeOf::Return);
                        let method = FunctionModel {
                            name: mname,
                            arity: (arity + 1) as usize,
                            instructions: st4.instructions,
                            constants: st4.constants,
                            locals: st4.locals_count(),
                        };
                        Ok(with_method(st4, ci, mname, method).end_body(st2))
                    }
                } else {
                    panic(st3)  // cannot happen
                },
                Err(e) => Err(e),
            }
        } else {
            panic(st2)  // cannot happen
        },
        Err(e) => Err(e),
    }
}

/// The members of a class body up to `}`: methods `fn name(params) { ... }`
/// and other statements.
pub open spec fn c_class_body(ts: Seq<SpecToken>, st: CompilerModel, ci: usize) -> Outcome
    decreases ts.len() - st.ip, 1int,
{
    if st.ip < ts.len() && !(ts[st.ip] is RBrace) {
        if ts[st.ip] is Function {
            let st1 = st.advance();
            match tok(ts, st1.ip) {
                None => panic(st1),
                Some(TokenOf::Identifier(mname)) => match c_method(ts, st1.advance(), ci, mname) {
                    Ok(st2) => if st.ip < st2.ip <= ts.len() {
                        c_class_body(ts, st2, ci)
                    } else {
                        panic(st2)  // cannot happen
                    },
                    Err(e) => Err(e),
                },
                Some(_) => c_class_body(ts, st1, ci),
            }
        } else {
            match c_stmt(ts, st) {
                Ok(st1) => if st.ip < st1.ip <= ts.len() {
                    c_class_body(ts, st1, ci)
                } else if st1.ip == st.ip {
                    Err((StopOf::Diverge, st1))
                } else {
                    panic(st1)  // cannot happen
                },
                Err(e) => Err(e),
            }
        }
    } else {
        Ok(st)
    }
}

/// `class Name { ... }`.
pub open spec fn c_class(ts: Seq<SpecToken>, st: CompilerModel) -> Outcome
    decreases ts.len() - st.ip, 3int,
{
    match tok(ts, st.ip) {
        Some(TokenOf::Identifier(name)) => {
            let st1 = st.advance();
            let ci = st1.classes.len() as usize;
            let st2 = CompilerModel {
                classes: st1.classes.push(ClassModel { name, methods: Seq::empty(), fields: Seq::empty() }),
                current_class: Some(ci),
                ..st1
            };
            let body = match tok(ts, st2.ip) {
                None => panic(st2),
                Some(t) => if t is LBrace {
                    match c_class_body(ts, st2.advance(), ci) {
                        Ok(st3) => Ok(if tok_is(ts, st3.ip, TokenOf::RBrace) { st3.advance() } else { st3 }),
                        Err(e) => Err(e),
                    }
                } else {
                    Ok(st2)
                },
            };
            match body {
                Ok(st4) => Ok(CompilerModel { current_class: None, ..st4 }.emit(OpCodeOf::DefineClass(ci))),
                Err(e) => Err(e),
            }
        },
        _ => syntax(st, "期望类名"@),
    }
}

/// `try { ... } catch { ... }`.
pub open spec fn c_try(ts: Seq<SpecToken>, st: CompilerModel) -> Outcome
    decreases ts.len() - st.ip, 3int,
{
    let try_pos = st.pos();
    match c_braced(ts, st.emit(OpCodeOf::Try(0)), true) {
        Ok(st1) => if between(ts, st.ip, st1) {
            match patch(st1.emit(OpCodeOf::EndTry), try_pos) {
                Ok(st2) => if tok_is(ts, st2.ip, TokenOf::Catch) {
                    c_braced(ts, st2.advance(), true)
                } else {
                    Ok(st2)
                },
                Err(e) => Err(e),
            }
        } else {
            panic(st1)  // cannot happen
        },
        Err(e) => Err(e),
    }
}

/// Compiling a whole program: from the first token to `EOF`, in a fresh
/// scope, ending with `null` returned.
pub open spec fn c_program(ts: Seq<SpecToken>, st: CompilerModel) -> Outcome {
    let st0 = CompilerModel { ip: 0, instructions: Seq::empty(), scopes: seq![Seq::empty()], ..st };
    match c_block(ts, st0, TokenOf::EOF) {
        Ok(st1) => Ok(st1.emit2(OpCodeOf::PushNull, OpCodeOf::Return)),
        Err(e) => Err(e),
    }
}


// ---------------------------------------------------------------------------
// The compiler.
// ---------------------------------------------------------------------------

/// A single-pass compiler from tokens to instructions.
pub struct Compiler {
    pub instructions: Vec<OpCode>,
    pub constants: Vec<Value>,
    /// The scopes, innermost last: variable names and their local slots.
    pub scopes: Vec<Vec<(String, usize)>>,
    pub functions: Vec<FunctionInfo>,
    pub classes: Vec<ClassInfo>,
    pub ip: usize,
    pub loop_stack: Vec<usize>,
    pub break_stack: Vec<usize>,
    pub continue_stack: Vec<usize>,
    pub try_stack: Vec<usize>,
    pub debug_mode: bool,
    pub current_class: Option<usize>,
}

pub open spec fn scope_view(s: Seq<(String, usize)>) -> ScopeModel {
    s.map_values(|e: (String, usize)| (e.0@, e.1))
}

pub open spec fn scopes_view(ss: Seq<Vec<(String, usize)>>) -> Seq<ScopeModel> {
    ss.map_values(|s: Vec<(String, usize)>| scope_view(s@))
}

impl View for Compiler {
    type V = CompilerModel;

    open spec fn view(&self) -> CompilerModel {
        CompilerModel {
            instructions: ops_view(self.instructions@),
            constants: values_view(self.constants@),
            scopes: scopes_view(self.scopes@),
            functions: functions_view(self.functions@),
            classes: classes_view(self.classes@),
            ip: self.ip as int,
            loop_stack: self.loop_stack@,
            break_stack: self.break_stack@,
            continue_stack: self.continue_stack@,
            try_stack: self.try_stack@,
            debug_mode: self.debug_mode,
            current_class: self.current_class,
        }
    }
}

/// A compiler with nothing compiled and one empty scope.
pub open spec fn initial_compiler() -> CompilerModel {
    CompilerModel {
        instructions: Seq::empty(),
        constants: Seq::empty(),
        scopes: seq![Seq::empty()],
        functions: Seq::empty(),
        classes: Seq::empty(),
        ip: 0,
        loop_stack: Seq::empty(),
        break_stack: Seq::empty(),
        continue_stack: Seq::empty(),
        try_stack: Seq::empty(),
        debug_mode: false,
        current_class: None,
    }
}

/// The exec outcome `r`, with the compiler in state `after`, is `o`.
pub open spec fn outcome_is(o: Outcome, r: Result<(), Stop>, after: CompilerModel) -> bool {
    match r {
        Ok(_) => o == Ok::<CompilerModel, (SpecStop, CompilerModel)>(after),
        Err(e) => o == Err::<CompilerModel, (SpecStop, CompilerModel)>((e@, after)),
    }
}

/// A syntax error with the message `msg`.
fn syntax_error(msg: &str) -> (r: Result<(), Stop>)
    ensures
        r is Err,
        r->Err_0@ == StopOf::<Seq<char>>::Error(ErrorOf::Syntax(msg@)),
{
    Err(StopOf::Error(ErrorOf::Syntax(msg.to_owned())))
}

/// The slot of `name` in one scope.
fn scope_find(scope: &Vec<(String, usize)>, name: &String) -> (r: Option<usize>)
    ensures
        match r {
            Some(j) => scope_get_from(scope_view(scope@), name@, 0) == Some(j as int) && j < scope@.len(),
            None => scope_get_from(scope_view(scope@), name@, 0) is None,
        },
{
    let ghost sv = scope_view(scope@);
    let mut i: usize = 0;
    while i < scope.len()
        invariant
            sv == scope_view(scope@),
            i <= scope.len(),
            scope_get_from(sv, name@, i as int) == scope_get_from(sv, name@, 0),
        decreases scope.len() - i,
    {
        if scope[i].0 == *name {
            return Some(i);
        }
        i = i + 1;
    }
    None
}

impl Compiler {
    /// A compiler with nothing compiled and one empty scope.
    pub fn new() -> (c: Compiler)
        ensures
            c@ == initial_compiler(),
    {
        let mut scopes: Vec<Vec<(String, usize)>> = Vec::new();
        scopes.push(Vec::new());
        let c = Compiler {
            instructions: Vec::new(),
            constants: Vec::new(),
            scopes,
            functions: Vec::new(),
            classes: Vec::new(),
            ip: 0,
            loop_stack: Vec::new(),
            break_stack: Vec::new(),
            continue_stack: Vec::new(),
            try_stack: Vec::new(),
            debug_mode: false,
            current_class: None,
        };
        proof {
            assert(c@.instructions =~= Seq::<SpecOp>::empty());
            assert(c@.constants =~= Seq::<SpecValue>::empty());
            assert(scope_view(c.scopes@[0]@) =~= Seq::<(Seq<char>, usize)>::empty());
            assert(c@.scopes =~= seq![Seq::<(Seq<char>, usize)>::empty()]);
            assert(c@.functions =~= Seq::<FunctionModel>::empty());
            assert(c@.classes =~= Seq::<ClassModel>::empty());
        }
        c
    }

    /// Adds a constant; returns its index.
    pub fn add_constant(&mut self, value: Value) -> (idx: usize)
        ensures
            final(self)@ == old(self)@.add_const(value@),
            idx == old(self)@.constants.len(),
    {
        let ghost before = self.constants@;
        self.constants.push(value);
        proof {
            crate::value::lemma_values_view_push(before, value);
        }
        self.constants.len() - 1
    }

    /// Adds an instruction.
    pub fn add_instruction(&mut self, op: OpCode)
        ensures
            final(self)@ == old(self)@.emit(op@),
    {
        let ghost before = self.instructions@;
        self.instructions.push(op);
        proof {
            assert(ops_view(self.instructions@) =~= ops_view(before).push(op@));
        }
    }

    /// The position of the next instruction.
    pub fn current_pos(&self) -> (p: usize)
        ensures
            p == self@.pos(),
    {
        self.instructions.len()
    }

    /// Points the jump at `pos` to the next instruction.
    pub fn patch_jump(&mut self, pos: usize) -> (r: Result<(), Stop>)
        ensures
            outcome_is(patch(old(self)@, pos), r, final(self)@),
            r is Ok ==> final(self).ip == old(self).ip,
    {
        if pos >= self.instructions.len() {
            return Err(StopOf::Panic);
        }
        let target = self.instructions.len();
        let patched = match &self.instructions[pos] {
            OpCodeOf::Jump(_) => OpCodeOf::Jump(target),
            OpCodeOf::JumpIfFalse(_) => OpCodeOf::JumpIfFalse(target),
            OpCodeOf::JumpIfTrue(_) => OpCodeOf::JumpIfTrue(target),
            OpCodeOf::Loop(_) => OpCodeOf::Loop(target),
            OpCodeOf::Try(_) => OpCodeOf::Try(target),
            other => other.clone(),
        };
        let ghost before = self.instructions@;
        self.instructions.set(pos, patched);
        proof {
            assert(ops_view(self.instructions@) =~= ops_view(before).update(pos as int, patched@));
        }
        Ok(())
    }

    /// The slot of `name` in the innermost scope that binds it.
    fn lookup_local(&self, name: &String) -> (r: Option<usize>)
        ensures
            r == lookup(self@.scopes, name@),
    {
        let mut k = self.scopes.len();
        proof {
            assert(self@.scopes.subrange(0, k as int) =~= self@.scopes);
        }
        while k > 0
            invariant
                k <= self.scopes.len(),
                lookup(self@.scopes.subrange(0, k as int), name@) == lookup(self@.scopes, name@),
            decreases k,
        {
            let ghost sub = self@.scopes.subrange(0, k as int);
            proof {
                assert(sub.last() == scope_view(self.scopes@[k - 1]@));
                assert(sub.drop_last() =~= self@.scopes.subrange(0, k - 1));
            }
            match scope_find(&self.scopes[k - 1], name) {
                Some(j) => {
                    return Some(self.scopes[k - 1][j].1);
                },
                None => {},
            }
            k = k - 1;
        }
        None
    }

    /// Binds `name` in the innermost scope to that scope's next free slot.
    fn declare(&mut self, name: String) -> (r: Result<usize, Stop>)
        ensures
            match old(self)@.declare(name@) {
                Ok((m, idx)) => r == Ok::<usize, Stop>(idx) && final(self)@ == m,
                Err((e, m)) => r is Err && r->Err_0@ == e && final(self)@ == m,
            },
    {
        let n = self.scopes.len();
        if n == 0 {
            return Err(StopOf::Panic);
        }
        let mut scope = self.scopes.pop().unwrap();
        let idx = scope.len();
        let ghost old_scope = scope_view(scope@);
        proof {
            assert(old_scope == old(self)@.scopes.last());
        }
        match scope_find(&scope, &name) {
            Some(j) => {
                let ghost nv = name@;
                scope.set(j, (name, idx));
                proof {
                    assert(scope_view(scope@) =~= old_scope.update(j as int, (nv, idx)));
                }
            },
            None => {
                let ghost nv = name@;
                scope.push((name, idx));
                proof {
                    assert(scope_view(scope@) =~= old_scope.push((nv, idx)));
                }
            },
        }
        let ghost popped = self.scopes@;
        self.scopes.push(scope);
        proof {
            assert(scopes_view(self.scopes@) =~= old(self)@.scopes.update(n - 1, scope_view(scope@)));
        }
        Ok(idx)
    }
}


pub proof fn lemma_tokens_view_subrange(ts: Seq<Token>, a: int, b: int)
    requires
        0 <= a <= b <= ts.len(),
    ensures
        tokens_view(ts.subrange(a, b)) == tokens_view(ts).subrange(a, b),
{
    assert(tokens_view(ts.subrange(a, b)) =~= tokens_view(ts).subrange(a, b));
}

/// The tokens from `a` to `b`, copied.
fn copy_tokens(tokens: &[Token], a: usize, b: usize) -> (r: Vec<Token>)
    requires
        a <= b <= tokens.len(),
    ensures
        tokens_view(r@) == tokens_view(tokens@).subrange(a as int, b as int),
        r@.len() == b - a,
{
    let mut r: Vec<Token> = Vec::new();
    let mut i = a;
    while i < b
        invariant
            a <= i <= b <= tokens.len(),
            r@ == tokens@.subrange(a as int, i as int),
        decreases b - i,
    {
        r.push(tokens[i].clone());
        proof {
            assert(r@ =~= tokens@.subrange(a as int, i + 1));
        }
        i = i + 1;
    }
    proof {
        lemma_tokens_view_subrange(tokens@, a as int, b as int);
    }
    r
}

/// From a `(` at `k`: the position of the `)` that closes it, or the end.
fn paren_scan(tokens: &[Token], k: usize) -> (r: Result<usize, Stop>)
    requires
        k < tokens.len(),
        tokens@[k as int]@ is LParen,
    ensures
        match paren_end(tokens_view(tokens@), k as int, 0) {
            Ok(e) => r == Ok::<usize, Stop>(e as usize) && k <= e <= tokens.len(),
            Err(x) => r is Err && r->Err_0@ == x,
        },
{
    let ghost xs = tokens_view(tokens@);
    let mut depth: i64 = 0;
    let mut i = k;
    while i < tokens.len()
        invariant
            k <= i <= tokens.len(),
            xs == tokens_view(tokens@),
            (i == k && depth == 0) || (1 <= depth <= i32::MAX),
            paren_end(xs, i as int, depth as int) == paren_end(xs, k as int, 0),
            xs[k as int] is LParen,
        decreases tokens.len() - i,
    {
        match &tokens[i] {
            TokenOf::LParen => {
                if depth == 0x7fff_ffff {
                    return Err(StopOf::Panic);
                }
                depth = depth + 1;
            },
            TokenOf::RParen => {
                if depth - 1 == 0 {
                    return Ok(i);
                }
                depth = depth - 1;
            },
            _ => {},
        }
        i = i + 1;
    }
    Ok(i)
}

/// From the start of an array element at `k`: the position of the `]` that
/// ends it, or the end.
fn elem_scan(tokens: &[Token], k: usize) -> (r: Result<usize, Stop>)
    requires
        k <= tokens.len(),
    ensures
        match elem_end(tokens_view(tokens@), k as int, 0) {
            Ok(e) => r == Ok::<usize, Stop>(e as usize) && k <= e <= tokens.len(),
            Err(x) => r is Err && r->Err_0@ == x,
        },
{
    let ghost xs = tokens_view(tokens@);
    let mut depth: i64 = 0;
    let mut i = k;
    while i < tokens.len()
        invariant
            k <= i <= tokens.len(),
            xs == tokens_view(tokens@),
            0 <= depth <= i32::MAX,
            elem_end(xs, i as int, depth as int) == elem_end(xs, k as int, 0),
        decreases tokens.len() - i,
    {
        match &tokens[i] {
            TokenOf::RBracket => {
                if depth == 0 {
                    return Ok(i);
                }
                depth = depth - 1;
            },
            TokenOf::LBracket => {
                if depth == 0x7fff_ffff {
                    return Err(StopOf::Panic);
                }
                depth = depth + 1;
            },
            _ => {},
        }
        i = i + 1;
    }
    Ok(i)
}

/// From `k`: where the expression that starts there ends.
fn expr_scan(tokens: &[Token], k: usize) -> (r: Result<usize, Stop>)
    requires
        k <= tokens.len(),
    ensures
        match expr_end(tokens_view(tokens@), k as int, 0) {
            Ok(e) => r == Ok::<usize, Stop>(e as usize) && k <= e <= tokens.len(),
            Err(x) => r is Err && r->Err_0@ == x,
        },
{
    let ghost xs = tokens_view(tokens@);
    let mut depth: i64 = 0;
    let mut i = k;
    while i < tokens.len()
        invariant
            k <= i <= tokens.len(),
            xs == tokens_view(tokens@),
            0 <= depth <= i32::MAX,
            expr_end(xs, i as int, depth as int) == expr_end(xs, k as int, 0),
        decreases tokens.len() - i,
    {
        match &tokens[i] {
            TokenOf::Semicolon | TokenOf::Newline => {
                if depth == 0 {
                    return Ok(i);
                }
            },
            TokenOf::LParen | TokenOf::LBrace | TokenOf::LBracket => {
                if depth == 0x7fff_ffff {
                    return Err(StopOf::Panic);
                }
                depth = depth + 1;
            },
            TokenOf::RParen | TokenOf::RBrace | TokenOf::RBracket => {
                if depth == 0 {
                    return Ok(i);
                }
                depth = depth - 1;
            },
            _ => {},
        }
        i = i + 1;
    }
    Ok(i)
}

impl Compiler {
    /// Emits the instructions of a token that stands for one or two
    /// instructions; emits nothing and answers false for another token.
    fn emit_simple(&mut self, t: &Token) -> (b: bool)
        ensures
            b == (simple_ops(t@) is Some),
            b ==> final(self)@ == (CompilerModel {
                instructions: old(self)@.instructions + simple_ops(t@)->0,
                ..old(self)@
            }),
            !b ==> final(self)@ == old(self)@,
            final(self).ip == old(self).ip,
    {
        let ghost before = self@;
        let op = match t {
            TokenOf::Integer(n) => OpCodeOf::PushInt(*n),
            TokenOf::Float(f) => OpCodeOf::PushFloat(f.clone()),
            TokenOf::String(s) => OpCodeOf::PushString(s.clone()),
            TokenOf::True => OpCodeOf::PushBool(true),
            TokenOf::False => OpCodeOf::PushBool(false),
            TokenOf::Null => OpCodeOf::PushNull,
            TokenOf::This => OpCodeOf::LoadLocal(0),
            TokenOf::Plus => OpCodeOf::Add,
            TokenOf::Minus => OpCodeOf::Sub,
            TokenOf::Multiply => OpCodeOf::Mul,
            TokenOf::Divide => OpCodeOf::Div,
            TokenOf::Modulo => OpCodeOf::Mod,
            TokenOf::Equal => OpCodeOf::Eq,
            TokenOf::NotEqual => {
                self.add_instruction(OpCodeOf::Eq);
                self.add_instruction(OpCodeOf::Not);
                proof {
                    assert(self@.instructions =~= before.instructions + simple_ops(t@)->0);
                }
                return true;
            },
            TokenOf::Greater => OpCodeOf::Gt,
            TokenOf::Less => OpCodeOf::Lt,
            TokenOf::GreaterEqual => OpCodeOf::Ge,
            TokenOf::LessEqual => OpCodeOf::Le,
            TokenOf::And => OpCodeOf::And,
            TokenOf::Or => OpCodeOf::Or,
            TokenOf::Not => OpCodeOf::Not,
            _ => {
                return false;
            },
        };
        self.add_instruction(op);
        proof {
            assert(self@.instructions =~= before.instructions + simple_ops(t@)->0);
        }
        true
    }

    /// Compiles the tokens of an expression, each in turn, left to right,
    /// with no precedence between operators.
    pub fn compile_simple_expr(&mut self, tokens: &[Token]) -> (r: Result<(), Stop>)
        ensures
            outcome_is(simple_expr(tokens_view(tokens@), 0, old(self)@), r, final(self)@),
            r is Ok ==> final(self).ip == old(self).ip,
        decreases tokens.len(), 1int,
    {
        let ghost xs = tokens_view(tokens@);
        let ghost target = simple_expr(xs, 0, self@);
        let ghost ip0 = self.ip;
        let mut i: usize = 0;
        while i < tokens.len()
            invariant
                xs == tokens_view(tokens@),
                i <= tokens.len(),
                simple_expr(xs, i as int, self@) == target,
                target == simple_expr(xs, 0, old(self)@),
                self.ip == ip0,
                ip0 == old(self).ip,
            decreases tokens.len() - i,
        {
            let t = &tokens[i];
            proof {
                assert(xs[i as int] == t@);
            }
            if self.emit_simple(t) {
                i = i + 1;
                continue;
            }
            match t {
                TokenOf::Identifier(name) => {
                    match self.lookup_local(name) {
                        Some(idx) => {
                            self.add_instruction(OpCodeOf::LoadLocal(idx));
                        },
                        None => {
                            let idx = self.add_constant(Value::String(name.clone()));
                            self.add_instruction(OpCodeOf::LoadGlobal(idx));
                        },
                    }
                    i = i + 1;
                },
                TokenOf::LBracket => {
                    let (j, count) = match self.compile_array_elems(tokens, i + 1) {
                        Ok(p) => p,
                        Err(x) => {
                            return Err(x);
                        },
                    };
                    self.add_instruction(OpCodeOf::NewArray(count));
                    if j >= tokens.len() {
                        return Ok(());
                    }
                    i = j + 1;
                },
                TokenOf::Dot => {
                    if i + 1 >= tokens.len() {
                        return Ok(());
                    }
                    match &tokens[i + 1] {
                        TokenOf::Identifier(field) => {
                            let idx = self.add_constant(Value::String(field.clone()));
                            if i + 2 < tokens.len() && matches!(tokens[i + 2], TokenOf::LParen) {
                                let j = match paren_scan(tokens, i + 2) {
                                    Ok(j) => j,
                                    Err(x) => {
                                        return Err(x);
                                    },
                                };
                                self.add_instruction(OpCodeOf::CallMethod(idx));
                                if j >= tokens.len() {
                                    return Ok(());
                                }
                                i = j + 1;
                            } else {
                                self.add_instruction(OpCodeOf::GetField(idx));
                                i = i + 2;
                            }
                        },
                        _ => {
                            i = i + 2;
                        },
                    }
                },
                TokenOf::Assign => {
                    if i > 0 {
                        if let TokenOf::Identifier(name) = &tokens[i - 1] {
                            if let Some(idx) = self.lookup_local(name) {
                                if i + 1 < tokens.len() {
                                    let rest = copy_tokens(tokens, i + 1, tokens.len());
                                    match self.compile_simple_expr(rest.as_slice()) {
                                        Ok(()) => {},
                                        Err(x) => {
                                            return Err(x);
                                        },
                                    }
                                    self.add_instruction(OpCodeOf::StoreLocal(idx));
                                    return Ok(());
                                }
                            }
                        }
                    }
                    i = i + 1;
                },
                TokenOf::New => {
                    if i + 1 >= tokens.len() {
                        return Ok(());
                    }
                    match &tokens[i + 1] {
                        TokenOf::Identifier(class_name) => {
                            let idx = self.add_constant(Value::String(class_name.clone()));
                            self.add_instruction(OpCodeOf::PushInt(idx as i64));
                            self.add_instruction(OpCodeOf::NewInstance(idx));
                            if i + 2 < tokens.len() && matches!(tokens[i + 2], TokenOf::LParen) {
                                let j = match paren_scan(tokens, i + 2) {
                                    Ok(j) => j,
                                    Err(x) => {
                                        return Err(x);
                                    },
                                };
                                if j >= tokens.len() {
                                    return Ok(());
                                }
                                i = j + 1;
                            } else if i + 2 < tokens.len() {
                                i = i + 3;
                            } else {
                                return Ok(());
                            }
                        },
                        _ => {
                            i = i + 2;
                        },
                    }
                },
                _ => {
                    i = i + 1;
                },
            }
        }
        Ok(())
    }

    /// Compiles the elements of an array literal from `start` (after the
    /// `[`): the position where they stop (a `]` or the end) and how many
    /// were compiled.
    fn compile_array_elems(&mut self, tokens: &[Token], start: usize) -> (r: Result<(usize, usize), Stop>)
        requires
            1 <= start <= tokens.len(),
        ensures
            r is Ok ==> array_elems(tokens_view(tokens@), start as int, 0, old(self)@)
                == Ok::<(CompilerModel, int, nat), (SpecStop, CompilerModel)>((final(self)@, r->Ok_0.0 as int, r->Ok_0.1 as nat)),
            r is Ok ==> start <= r->Ok_0.0 <= tokens.len() && final(self).ip == old(self).ip,
            r is Err ==> array_elems(tokens_view(tokens@), start as int, 0, old(self)@)
                == Err::<(CompilerModel, int, nat), (SpecStop, CompilerModel)>((r->Err_0@, final(self)@)),
        decreases tokens.len(), 0int,
    {
        let ghost xs = tokens_view(tokens@);
        let ghost target = array_elems(xs, start as int, 0, self@);
        let ghost ip0 = self.ip;
        let mut i = start;
        let mut count: usize = 0;
        loop
            invariant
                xs == tokens_view(tokens@),
                1 <= start <= i <= tokens.len(),
                count <= i,
                array_elems(xs, i as int, count as nat, self@) == target,
                target == array_elems(xs, start as int, 0, old(self)@),
                self.ip == ip0,
                ip0 == old(self).ip,
            decreases tokens.len() - i,
        {
            proof {
                if i < tokens.len() {
                    assert(xs[i as int] == tokens@[i as int]@);
                }
            }
            if i >= tokens.len() || matches!(tokens[i], TokenOf::RBracket) {
                return Ok((i, count));
            }
            if matches!(tokens[i], TokenOf::Comma) {
                i = i + 1;
                continue;
            }
            let e = match elem_scan(tokens, i) {
                Ok(e) => e,
                Err(x) => {
                    return Err(x);
                },
            };
            if e > i {
                let elem = copy_tokens(tokens, i, e);
                match self.compile_simple_expr(elem.as_slice()) {
                    Ok(()) => {},
                    Err(x) => {
                        return Err(x);
                    },
                }
                count = count + 1;
            }
            if e < tokens.len() {
                i = e + 1;
            } else {
                return Ok((e, count));
            }
        }
    }

    /// Compiles the expression at `ip`: the tokens up to a `;` or line break
    /// outside brackets, or up to a closing bracket that closes nothing.
    fn compile_expression(&mut self, tokens: &[Token]) -> (r: Result<(), Stop>)
        requires
            old(self).ip <= tokens.len(),
        ensures
            outcome_is(c_expression(tokens_view(tokens@), old(self)@), r, final(self)@),
            r is Ok ==> old(self).ip <= final(self).ip <= tokens.len(),
    {
        let start = self.ip;
        let e = match expr_scan(tokens, start) {
            Ok(e) => e,
            Err(x) => {
                return Err(x);
            },
        };
        let expr = copy_tokens(tokens, start, e);
        self.ip = e;
        self.compile_simple_expr(expr.as_slice())
    }
}

impl Compiler {
    /// After a statement: skips one `;`, then one line break.
    fn skip_statement_end(&mut self, tokens: &[Token]) -> (r: Result<(), Stop>)
        requires
            old(self).ip <= tokens.len(),
        ensures
            outcome_is(skip_terminator(tokens_view(tokens@), old(self)@), r, final(self)@),
            r is Ok ==> old(self).ip <= final(self).ip <= tokens.len(),
    {
        let ghost xs = tokens_view(tokens@);
        if self.ip < tokens.len() {
            proof {
                assert(xs[self.ip as int] == tokens@[self.ip as int]@);
            }
            if matches!(tokens[self.ip], TokenOf::Semicolon) {
                self.ip = self.ip + 1;
            }
            if self.ip >= tokens.len() {
                return Err(StopOf::Panic);
            }
            proof {
                assert(xs[self.ip as int] == tokens@[self.ip as int]@);
            }
            if matches!(tokens[self.ip], TokenOf::Newline) {
                self.ip = self.ip + 1;
            }
        }
        Ok(())
    }

    /// `let name = expr` or `let name` (after `let`).
    fn compile_let(&mut self, tokens: &[Token]) -> (r: Result<(), Stop>)
        requires
            old(self).ip <= tokens.len(),
        ensures
            outcome_is(c_let(tokens_view(tokens@), old(self)@), r, final(self)@),
            r is Ok ==> old(self).ip <= final(self).ip <= tokens.len(),
    {
        let ghost xs = tokens_view(tokens@);
        if self.ip >= tokens.len() {
            return syntax_error("期望标识符");
        }
        proof {
            assert(xs[self.ip as int] == tokens@[self.ip as int]@);
        }
        match &tokens[self.ip] {
            TokenOf::Identifier(name) => {
                self.ip = self.ip + 1;
                if self.ip < tokens.len() && matches!(tokens[self.ip], TokenOf::Assign) {
                    proof {
                        assert(xs[self.ip as int] == tokens@[self.ip as int]@);
                    }
                    self.ip = self.ip + 1;
                    match self.compile_expression(tokens) {
                        Ok(()) => {},
                        Err(e) => {
                            return Err(e);
                        },
                    }
                    let idx = match self.declare(name.clone()) {
                        Ok(idx) => idx,
                        Err(e) => {
                            return Err(e);
                        },
                    };
                    self.add_instruction(OpCodeOf::StoreLocal(idx));
                } else {
                    proof {
                        if self.ip < tokens.len() {
                            assert(xs[self.ip as int] == tokens@[self.ip as int]@);
                        }
                    }
                    let idx = match self.declare(name.clone()) {
                        Ok(idx) => idx,
                        Err(e) => {
                            return Err(e);
                        },
                    };
                    self.add_instruction(OpCodeOf::PushNull);
                    self.add_instruction(OpCodeOf::StoreLocal(idx));
                }
                Ok(())
            },
            _ => syntax_error("期望标识符"),
        }
    }

    /// An expression followed by the instruction `op`.
    fn compile_expr_then(&mut self, tokens: &[Token], op: OpCode) -> (r: Result<(), Stop>)
        requires
            old(self).ip <= tokens.len(),
        ensures
            outcome_is(c_expr_then(tokens_view(tokens@), old(self)@, op@), r, final(self)@),
            r is Ok ==> old(self).ip <= final(self).ip <= tokens.len(),
    {
        match self.compile_expression(tokens) {
            Ok(()) => {},
            Err(e) => {
                return Err(e);
            },
        }
        self.add_instruction(op);
        Ok(())
    }

    /// `print expr` (after `print`).
    fn compile_print(&mut self, tokens: &[Token]) -> (r: Result<(), Stop>)
        requires
            old(self).ip <= tokens.len(),
        ensures
            outcome_is(c_expr_then(tokens_view(tokens@), old(self)@, OpCodeOf::Print), r, final(self)@),
            r is Ok ==> old(self).ip <= final(self).ip <= tokens.len(),
    {
        self.compile_expr_then(tokens, OpCodeOf::Print)
    }

    /// `println expr` (after `println`).
    fn compile_println(&mut self, tokens: &[Token]) -> (r: Result<(), Stop>)
        requires
            old(self).ip <= tokens.len(),
        ensures
            outcome_is(c_expr_then(tokens_view(tokens@), old(self)@, OpCodeOf::PrintLn), r, final(self)@),
            r is Ok ==> old(self).ip <= final(self).ip <= tokens.len(),
    {
        self.compile_expr_then(tokens, OpCodeOf::PrintLn)
    }

    /// `throw expr` (after `throw`).
    fn compile_throw(&mut self, tokens: &[Token]) -> (r: Result<(), Stop>)
        requires
            old(self).ip <= tokens.len(),
        ensures
            outcome_is(c_expr_then(tokens_view(tokens@), old(self)@, OpCodeOf::Throw), r, final(self)@),
            r is Ok ==> old(self).ip <= final(self).ip <= tokens.len(),
    {
        self.compile_expr_then(tokens, OpCodeOf::Throw)
    }

    /// `return expr` (after `return`).
    fn compile_return(&mut self, tokens: &[Token]) -> (r: Result<(), Stop>)
        requires
            old(self).ip <= tokens.len(),
        ensures
            outcome_is(c_return(tokens_view(tokens@), old(self)@), r, final(self)@),
            r is Ok ==> old(self).ip <= final(self).ip <= tokens.len(),
    {
        if self.ip < tokens.len() {
            self.compile_expr_then(tokens, OpCodeOf::Return)
        } else {
            self.add_instruction(OpCodeOf::PushNull);
            self.add_instruction(OpCodeOf::Return);
            Ok(())
        }
    }

    /// `break`: a jump, recorded as the innermost loop's break.
    pub fn compile_break(&mut self) -> (r: Result<(), Stop>)
        ensures
            r is Ok,
            final(self)@ == c_break(old(self)@),
    {
        let n = self.break_stack.len();
        if n > 0 {
            let p = self.instructions.len();
            self.break_stack.set(n - 1, p);
        }
        self.add_instruction(OpCodeOf::Jump(0));
        Ok(())
    }

    /// `continue`: a jump to the start of the innermost loop.
    pub fn compile_continue(&mut self) -> (r: Result<(), Stop>)
        ensures
            r is Ok,
            final(self)@ == c_continue(old(self)@),
    {
        let n = self.continue_stack.len();
        if n > 0 {
            let p = self.continue_stack[n - 1];
            self.add_instruction(OpCodeOf::Jump(p));
        }
        Ok(())
    }

    /// A string literal made a constant, then its index and `op`.
    fn compile_import_op(&mut self, tokens: &[Token], op: OpCode) -> (r: Result<(), Stop>)
        requires
            old(self).ip <= tokens.len(),
        ensures
            outcome_is(c_import(tokens_view(tokens@), old(self)@, op@), r, final(self)@),
            r is Ok ==> old(self).ip <= final(self).ip <= tokens.len(),
    {
        let ghost xs = tokens_view(tokens@);
        if self.ip >= tokens.len() {
            return Err(StopOf::Panic);
        }
        proof {
            assert(xs[self.ip as int] == tokens@[self.ip as int]@);
        }
        if let TokenOf::String(path) = &tokens[self.ip] {
            self.ip = self.ip + 1;
            let idx = self.add_constant(Value::String(path.clone()));
            self.add_instruction(OpCodeOf::PushInt(idx as i64));
            self.add_instruction(op);
        }
        Ok(())
    }

    /// `import "path"` (after `import`).
    fn compile_import(&mut self, tokens: &[Token]) -> (r: Result<(), Stop>)
        requires
            old(self).ip <= tokens.len(),
        ensures
            outcome_is(c_import(tokens_view(tokens@), old(self)@, OpCodeOf::Import), r, final(self)@),
            r is Ok ==> old(self).ip <= final(self).ip <= tokens.len(),
    {
        self.compile_import_op(tokens, OpCodeOf::Import)
    }

    /// `import_py "code"` (after the keyword).
    fn compile_import_py(&mut self, tokens: &[Token]) -> (r: Result<(), Stop>)
        requires
            old(self).ip <= tokens.len(),
        ensures
            outcome_is(c_import(tokens_view(tokens@), old(self)@, OpCodeOf::ImportPy), r, final(self)@),
            r is Ok ==> old(self).ip <= final(self).ip <= tokens.len(),
    {
        self.compile_import_op(tokens, OpCodeOf::ImportPy)
    }

    /// `import_js "code"` (after the keyword).
    fn compile_import_js(&mut self, tokens: &[Token]) -> (r: Result<(), Stop>)
        requires
            old(self).ip <= tokens.len(),
        ensures
            outcome_is(c_import(tokens_view(tokens@), old(self)@, OpCodeOf::ImportJs), r, final(self)@),
            r is Ok ==> old(self).ip <= final(self).ip <= tokens.len(),
    {
        self.compile_import_op(tokens, OpCodeOf::ImportJs)
    }

    /// `import_rs "code"` (after the keyword).
    fn compile_import_rs(&mut self, tokens: &[Token]) -> (r: Result<(), Stop>)
        requires
            old(self).ip <= tokens.len(),
        ensures
            outcome_is(c_import(tokens_view(tokens@), old(self)@, OpCodeOf::ImportRs), r, final(self)@),
            r is Ok ==> old(self).ip <= final(self).ip <= tokens.len(),
    {
        self.compile_import_op(tokens, OpCodeOf::ImportRs)
    }

    /// `download "url" from "file"` (after `download`).
    fn compile_download(&mut self, tokens: &[Token]) -> (r: Result<(), Stop>)
        requires
            old(self).ip <= tokens.len(),
        ensures
            outcome_is(c_download(tokens_view(tokens@), old(self)@), r, final(self)@),
            r is Ok ==> old(self).ip <= final(self).ip <= tokens.len(),
    {
        let ghost xs = tokens_view(tokens@);
        if self.ip >= tokens.len() {
            return Err(StopOf::Panic);
        }
        proof {
            assert(xs[self.ip as int] == tokens@[self.ip as int]@);
        }
        let mut url = String::new();
        let mut filename = String::new();
        if let TokenOf::String(u) = &tokens[self.ip] {
            url = u.clone();
            self.ip = self.ip + 1;
        }
        if self.ip < tokens.len() && matches!(tokens[self.ip], TokenOf::From) {
            proof {
                assert(xs[self.ip as int] == tokens@[self.ip as int]@);
            }
            self.ip = self.ip + 1;
            if self.ip >= tokens.len() {
                return Err(StopOf::Panic);
            }
            proof {
                assert(xs[self.ip as int] == tokens@[self.ip as int]@);
            }
            if let TokenOf::String(f) = &tokens[self.ip] {
                filename = f.clone();
                self.ip = self.ip + 1;
            }
        } else {
            proof {
                if self.ip < tokens.len() {
                    assert(xs[self.ip as int] == tokens@[self.ip as int]@);
                }
            }
        }
        let url_idx = self.add_constant(Value::String(url));
        let file_idx = self.add_constant(Value::String(filename));
        self.add_instruction(OpCodeOf::PushInt(url_idx as i64));
        self.add_instruction(OpCodeOf::PushInt(file_idx as i64));
        self.add_instruction(OpCodeOf::Download);
        Ok(())
    }
}

/// The index of the method named `name`, if there is one.
fn method_index(ms: &Vec<(String, FunctionInfo)>, name: &String) -> (r: Option<usize>)
    ensures
        match r {
            Some(j) => crate::vm::find_method_from(methods_view(ms@), name@, 0) == Some(j as int) && j < ms@.len(),
            None => crate::vm::find_method_from(methods_view(ms@), name@, 0) is None,
        },
{
    let ghost mv = methods_view(ms@);
    let mut i: usize = 0;
    while i < ms.len()
        invariant
            mv == methods_view(ms@),
            i <= ms.len(),
            crate::vm::find_method_from(mv, name@, i as int) == crate::vm::find_method_from(mv, name@, 0),
        decreases ms.len() - i,
    {
        if ms[i].0 == *name {
            return Some(i);
        }
        i = i + 1;
    }
    None
}

impl Compiler {
    /// Adds a function with no body yet; returns its index.
    pub fn add_function(&mut self, name: &str, arity: usize) -> (idx: usize)
        ensures
            final(self)@ == (CompilerModel {
                functions: old(self)@.functions.push(FunctionModel {
                    name: name@,
                    arity,
                    instructions: Seq::empty(),
                    constants: Seq::empty(),
                    locals: 0,
                }),
                ..old(self)@
            }),
            idx == old(self)@.functions.len(),
    {
        let f = FunctionInfo { name: name.to_owned(), arity, instructions: Vec::new(), constants: Vec::new(), locals: 0 };
        proof {
            assert(f@.instructions =~= Seq::<SpecOp>::empty());
            assert(f@.constants =~= Seq::<SpecValue>::empty());
        }
        let ghost before = self.functions@;
        self.functions.push(f);
        proof {
            assert(functions_view(self.functions@) =~= functions_view(before).push(f@));
        }
        self.functions.len() - 1
    }

    /// Adds a class with no methods and no fields; returns its index.
    pub fn add_class(&mut self, name: &str) -> (idx: usize)
        ensures
            final(self)@ == (CompilerModel {
                classes: old(self)@.classes.push(ClassModel { name: name@, methods: Seq::empty(), fields: Seq::empty() }),
                ..old(self)@
            }),
            idx == old(self)@.classes.len(),
    {
        let c = ClassInfo { name: name.to_owned(), methods: Vec::new(), fields: Vec::new() };
        proof {
            assert(c@.methods =~= Seq::<(Seq<char>, FunctionModel)>::empty());
            assert(c@.fields =~= Seq::<Seq<char>>::empty());
        }
        let ghost before = self.classes@;
        self.classes.push(c);
        proof {
            assert(classes_view(self.classes@) =~= classes_view(before).push(c@));
        }
        self.classes.len() - 1
    }

    /// The number of variables of the innermost scope (0 without one).
    fn locals_count(&self) -> (n: usize)
        ensures
            n == self@.locals_count(),
    {
        let k = self.scopes.len();
        if k > 0 {
            proof {
                assert(self@.scopes.last() == scope_view(self.scopes@[k - 1]@));
            }
            self.scopes[k - 1].len()
        } else {
            0
        }
    }

    /// Enters a loop that starts at `start`.
    fn enter_loop(&mut self, start: usize)
        ensures
            final(self)@ == old(self)@.enter_loop(start),
    {
        self.loop_stack.push(start);
        self.break_stack.push(0);
        self.continue_stack.push(start);
    }

    /// Leaves the innermost loop.
    fn leave_loop(&mut self)
        ensures
            final(self)@ == old(self)@.leave_loop(),
    {
        let _ = self.loop_stack.pop();
        let _ = self.break_stack.pop();
        let _ = self.continue_stack.pop();
    }

    /// Opens a scope of its own.
    fn push_scope(&mut self)
        ensures
            final(self)@ == old(self)@.push_scope(Seq::empty()),
    {
        let ghost before = self.scopes@;
        self.scopes.push(Vec::new());
        proof {
            assert(scope_view(Seq::<(String, usize)>::empty()) =~= Seq::<(Seq<char>, usize)>::empty());
            assert(scopes_view(self.scopes@) =~= scopes_view(before).push(Seq::empty()));
        }
    }

    /// Closes the innermost scope, if there is one.
    fn pop_scope(&mut self)
        ensures
            final(self)@ == old(self)@.pop_scope(),
    {
        let ghost before = self.scopes@;
        let _ = self.scopes.pop();
        proof {
            if before.len() > 0 {
                assert(scopes_view(self.scopes@) =~= scopes_view(before).drop_last());
            }
        }
    }

    /// A parameter list `(a, b, ...)`, if there is one: the number of
    /// parameters.
    fn compile_params(&mut self, tokens: &[Token]) -> (r: Result<usize, Stop>)
        requires
            old(self).ip <= tokens.len(),
        ensures
            match c_params(tokens_view(tokens@), old(self)@) {
                Ok((m, arity)) => r == Ok::<usize, Stop>(arity) && final(self)@ == m,
                Err((e, m)) => r is Err && r->Err_0@ == e && final(self)@ == m,
            },
            r is Ok ==> old(self).ip <= final(self).ip <= tokens.len(),
    {
        let ghost xs = tokens_view(tokens@);
        if !(self.ip < tokens.len() && matches!(tokens[self.ip], TokenOf::LParen)) {
            proof {
                if self.ip < tokens.len() {
                    assert(xs[self.ip as int] == tokens@[self.ip as int]@);
                }
            }
            return Ok(0);
        }
        proof {
            assert(xs[self.ip as int] == tokens@[self.ip as int]@);
        }
        self.ip = self.ip + 1;
        let ghost target = param_names(xs, self@, 0);
        let ghost ip0 = self.ip;
        let mut arity: usize = 0;
        while self.ip < tokens.len() && matches!(tokens[self.ip], TokenOf::Identifier(_))
            invariant
                xs == tokens_view(tokens@),
                old(self).ip < ip0 <= self.ip <= tokens.len(),
                param_names(xs, self@, arity) == target,
                target == param_names(xs, old(self)@.advance(), 0),
                arity <= self.ip - ip0,
            decreases tokens.len() - self.ip,
        {
            proof {
                assert(xs[self.ip as int] == tokens@[self.ip as int]@);
            }
            arity = arity + 1;
            self.ip = self.ip + 1;
            if self.ip < tokens.len() && matches!(tokens[self.ip], TokenOf::Comma) {
                proof {
                    assert(xs[self.ip as int] == tokens@[self.ip as int]@);
                }
                self.ip = self.ip + 1;
            } else {
                proof {
                    if self.ip < tokens.len() {
                        assert(xs[self.ip as int] == tokens@[self.ip as int]@);
                    }
                }
            }
        }
        proof {
            if self.ip < tokens.len() {
                assert(xs[self.ip as int] == tokens@[self.ip as int]@);
            }
        }
        if self.ip < tokens.len() && matches!(tokens[self.ip], TokenOf::RParen) {
            self.ip = self.ip + 1;
        }
        Ok(arity)
    }
}

impl Compiler {
    /// One statement at `ip`, followed by an optional `;` and line break.
    fn compile_statement(&mut self, tokens: &[Token]) -> (r: Result<(), Stop>)
        requires
            old(self).ip <= tokens.len(),
        ensures
            outcome_is(c_stmt(tokens_view(tokens@), old(self)@), r, final(self)@),
            r is Ok ==> old(self).ip <= final(self).ip <= tokens.len(),
        decreases tokens.len() - old(self).ip, 0int,
    {
        let ghost xs = tokens_view(tokens@);
        if self.ip >= tokens.len() {
            return Ok(());
        }
        proof {
            assert(xs[self.ip as int] == tokens@[self.ip as int]@);
        }
        let r = match &tokens[self.ip] {
            TokenOf::Let => {
                self.ip = self.ip + 1;
                self.compile_let(tokens)
            },
            TokenOf::Print => {
                self.ip = self.ip + 1;
                self.compile_print(tokens)
            },
            TokenOf::PrintLn => {
                self.ip = self.ip + 1;
                self.compile_println(tokens)
            },
            TokenOf::If => {
                self.ip = self.ip + 1;
                self.compile_if(tokens)
            },
            TokenOf::While => {
                self.ip = self.ip + 1;
                self.compile_while(tokens)
            },
            TokenOf::For => {
                self.ip = self.ip + 1;
                self.compile_for(tokens)
            },
            TokenOf::Function => {
                self.ip = self.ip + 1;
                self.compile_function(tokens)
            },
            TokenOf::Return => {
                self.ip = self.ip + 1;
                self.compile_return(tokens)
            },
            TokenOf::Break => {
                self.ip = self.ip + 1;
                self.compile_break()
            },
            TokenOf::Continue => {
                self.ip = self.ip + 1;
                self.compile_continue()
            },
            TokenOf::Class => {
                self.ip = self.ip + 1;
                self.compile_class(tokens)
            },
            TokenOf::Try => {
                self.ip = self.ip + 1;
                self.compile_try(tokens)
            },
            TokenOf::Throw => {
                self.ip = self.ip + 1;
                self.compile_throw(tokens)
            },
            TokenOf::Import => {
                self.ip = self.ip + 1;
                self.compile_import(tokens)
            },
            TokenOf::ImportPy => {
                self.ip = self.ip + 1;
                self.compile_import_py(tokens)
            },
            TokenOf::ImportJs => {
                self.ip = self.ip + 1;
                self.compile_import_js(tokens)
            },
            TokenOf::ImportRs => {
                self.ip = self.ip + 1;
                self.compile_import_rs(tokens)
            },
            TokenOf::Download => {
                self.ip = self.ip + 1;
                self.compile_download(tokens)
            },
            _ => self.compile_expr_then(tokens, OpCodeOf::Pop),
        };
        match r {
            Ok(()) => self.skip_statement_end(tokens),
            Err(e) => Err(e),
        }
    }

    /// Statements up to `EOF` (`at_eof`) or `}`, or to the end of the tokens.
    fn compile_block(&mut self, tokens: &[Token], at_eof: bool) -> (r: Result<(), Stop>)
        requires
            old(self).ip <= tokens.len(),
        ensures
            outcome_is(c_block(tokens_view(tokens@), old(self)@, block_end(at_eof)), r, final(self)@),
            r is Ok ==> old(self).ip <= final(self).ip <= tokens.len(),
        decreases tokens.len() - old(self).ip, 1int,
    {
        let ghost xs = tokens_view(tokens@);
        let ghost end = block_end(at_eof);
        loop
            invariant
                xs == tokens_view(tokens@),
                end == block_end(at_eof),
                old(self).ip <= self.ip <= tokens.len(),
                c_block(xs, self@, end) == c_block(xs, old(self)@, end),
            decreases tokens.len() - self.ip,
        {
            if self.ip >= tokens.len() {
                return Ok(());
            }
            proof {
                assert(xs[self.ip as int] == tokens@[self.ip as int]@);
            }
            let at_end = if at_eof {
                matches!(tokens[self.ip], TokenOf::EOF)
            } else {
                matches!(tokens[self.ip], TokenOf::RBrace)
            };
            if at_end {
                return Ok(());
            }
            let before = self.ip;
            match self.compile_statement(tokens) {
                Ok(()) => {},
                Err(e) => {
                    return Err(e);
                },
            }
            if self.ip == before {
                return Err(StopOf::Diverge);
            }
        }
    }

    /// A braced block where a `{` stands, in a scope of its own when
    /// `scoped`; nothing where another token stands.
    #[verifier::rlimit(40)]
    fn compile_braced(&mut self, tokens: &[Token], scoped: bool) -> (r: Result<(), Stop>)
        requires
            old(self).ip <= tokens.len(),
        ensures
            outcome_is(c_braced(tokens_view(tokens@), old(self)@, scoped), r, final(self)@),
            r is Ok ==> old(self).ip <= final(self).ip <= tokens.len(),
        decreases tokens.len() - old(self).ip, 2int,
    {
        let ghost xs = tokens_view(tokens@);
        if self.ip >= tokens.len() {
            return Err(StopOf::Panic);
        }
        proof {
            assert(xs[self.ip as int] == tokens@[self.ip as int]@);
        }
        if !matches!(tokens[self.ip], TokenOf::LBrace) {
            return Ok(());
        }
        self.ip = self.ip + 1;
        if scoped {
            self.push_scope();
        }
        match self.compile_block(tokens, false) {
            Ok(()) => {},
            Err(e) => {
                return Err(e);
            },
        }
        if scoped {
            self.pop_scope();
        }
        if self.ip < tokens.len() && matches!(tokens[self.ip], TokenOf::RBrace) {
            proof {
                assert(xs[self.ip as int] == tokens@[self.ip as int]@);
            }
            self.ip = self.ip + 1;
        } else {
            proof {
                if self.ip < tokens.len() {
                    assert(xs[self.ip as int] == tokens@[self.ip as int]@);
                }
            }
        }
        Ok(())
    }

    /// `if cond { ... } else { ... }` (after `if`).
    fn compile_if(&mut self, tokens: &[Token]) -> (r: Result<(), Stop>)
        requires
            old(self).ip <= tokens.len(),
        ensures
            outcome_is(c_if(tokens_view(tokens@), old(self)@), r, final(self)@),
            r is Ok ==> old(self).ip <= final(self).ip <= tokens.len(),
        decreases tokens.len() - old(self).ip, 3int,
    {
        let ghost xs = tokens_view(tokens@);
        match self.compile_expression(tokens) {
            Ok(()) => {},
            Err(e) => {
                return Err(e);
            },
        }
        let jump_false = self.current_pos();
        self.add_instruction(OpCodeOf::JumpIfFalse(0));
        match self.compile_braced(tokens, true) {
            Ok(()) => {},
            Err(e) => {
                return Err(e);
            },
        }
        let jump_end = self.current_pos();
        self.add_instruction(OpCodeOf::Jump(0));
        match self.patch_jump(jump_false) {
            Ok(()) => {},
            Err(e) => {
                return Err(e);
            },
        }
        if self.ip < tokens.len() && matches!(tokens[self.ip], TokenOf::Else) {
            proof {
                assert(xs[self.ip as int] == tokens@[self.ip as int]@);
            }
            self.ip = self.ip + 1;
            match self.compile_braced(tokens, true) {
                Ok(()) => {},
                Err(e) => {
                    return Err(e);
                },
            }
        } else {
            proof {
                if self.ip < tokens.len() {
                    assert(xs[self.ip as int] == tokens@[self.ip as int]@);
                }
            }
        }
        self.patch_jump(jump_end)
    }

    /// `while cond { ... }` (after `while`).
    fn compile_while(&mut self, tokens: &[Token]) -> (r: Result<(), Stop>)
        requires
            old(self).ip <= tokens.len(),
        ensures
            outcome_is(c_while(tokens_view(tokens@), old(self)@), r, final(self)@),
            r is Ok ==> old(self).ip <= final(self).ip <= tokens.len(),
        decreases tokens.len() - old(self).ip, 3int,
    {
        let loop_start = self.current_pos();
        self.enter_loop(loop_start);
        match self.compile_expression(tokens) {
            Ok(()) => {},
            Err(e) => {
                return Err(e);
            },
        }
        let jump_false = self.current_pos();
        self.add_instruction(OpCodeOf::JumpIfFalse(0));
        match self.compile_braced(tokens, true) {
            Ok(()) => {},
            Err(e) => {
                return Err(e);
            },
        }
        self.add_instruction(OpCodeOf::Loop(loop_start));
        match self.patch_jump(jump_false) {
            Ok(()) => {},
            Err(e) => {
                return Err(e);
            },
        }
        let n = self.break_stack.len();
        if n > 0 {
            let p = self.break_stack[n - 1];
            if p > 0 {
                match self.patch_jump(p) {
                    Ok(()) => {},
                    Err(e) => {
                        return Err(e);
                    },
                }
            }
        }
        self.leave_loop();
        Ok(())
    }

    /// `for x in expr { ... }` (after `for`).
    fn compile_for(&mut self, tokens: &[Token]) -> (r: Result<(), Stop>)
        requires
            old(self).ip <= tokens.len(),
        ensures
            outcome_is(c_for(tokens_view(tokens@), old(self)@), r, final(self)@),
            r is Ok ==> old(self).ip <= final(self).ip <= tokens.len(),
        decreases tokens.len() - old(self).ip, 3int,
    {
        let ghost xs = tokens_view(tokens@);
        if self.ip >= tokens.len() {
            return syntax_error("期望标识符");
        }
        proof {
            assert(xs[self.ip as int] == tokens@[self.ip as int]@);
        }
        let var = match &tokens[self.ip] {
            TokenOf::Identifier(v) => v.clone(),
            _ => {
                return Ok(());
            },
        };
        self.ip = self.ip + 1;
        if !(self.ip < tokens.len() && matches!(tokens[self.ip], TokenOf::In)) {
            proof {
                if self.ip < tokens.len() {
                    assert(xs[self.ip as int] == tokens@[self.ip as int]@);
                }
            }
            return Ok(());
        }
        proof {
            assert(xs[self.ip as int] == tokens@[self.ip as int]@);
        }
        self.ip = self.ip + 1;
        match self.compile_expression(tokens) {
            Ok(()) => {},
            Err(e) => {
                return Err(e);
            },
        }
        let arr = match self.declare("__for_arr".to_owned()) {
            Ok(i) => i,
            Err(e) => {
                return Err(e);
            },
        };
        self.add_instruction(OpCodeOf::StoreLocal(arr));
        self.add_instruction(OpCodeOf::PushInt(0));
        let idx = match self.declare("__for_idx".to_owned()) {
            Ok(i) => i,
            Err(e) => {
                return Err(e);
            },
        };
        self.add_instruction(OpCodeOf::StoreLocal(idx));
        let loop_start = self.current_pos();
        self.enter_loop(loop_start);
        self.add_instruction(OpCodeOf::LoadLocal(idx));
        self.add_instruction(OpCodeOf::LoadLocal(arr));
        self.add_instruction(OpCodeOf::Len);
        self.add_instruction(OpCodeOf::Lt);
        let jump_end = self.current_pos();
        self.add_instruction(OpCodeOf::JumpIfFalse(0));
        self.add_instruction(OpCodeOf::LoadLocal(arr));
        self.add_instruction(OpCodeOf::LoadLocal(idx));
        self.add_instruction(OpCodeOf::GetIndex);
        let vi = match self.declare(var) {
            Ok(i) => i,
            Err(e) => {
                return Err(e);
            },
        };
        self.add_instruction(OpCodeOf::StoreLocal(vi));
        match self.compile_braced(tokens, true) {
            Ok(()) => {},
            Err(e) => {
                return Err(e);
            },
        }
        self.add_instruction(OpCodeOf::LoadLocal(idx));
        self.add_instruction(OpCodeOf::PushInt(1));
        self.add_instruction(OpCodeOf::Add);
        self.add_instruction(OpCodeOf::StoreLocal(idx));
        self.add_instruction(OpCodeOf::Loop(loop_start));
        match self.patch_jump(jump_end) {
            Ok(()) => {},
            Err(e) => {
                return Err(e);
            },
        }
        self.leave_loop();
        Ok(())
    }

    /// `try { ... } catch { ... }` (after `try`).
    fn compile_try(&mut self, tokens: &[Token]) -> (r: Result<(), Stop>)
        requires
            old(self).ip <= tokens.len(),
        ensures
            outcome_is(c_try(tokens_view(tokens@), old(self)@), r, final(self)@),
            r is Ok ==> old(self).ip <= final(self).ip <= tokens.len(),
        decreases tokens.len() - old(self).ip, 3int,
    {
        let ghost xs = tokens_view(tokens@);
        let try_pos = self.current_pos();
        self.add_instruction(OpCodeOf::Try(0));
        match self.compile_braced(tokens, true) {
            Ok(()) => {},
            Err(e) => {
                return Err(e);
            },
        }
        self.add_instruction(OpCodeOf::EndTry);
        match self.patch_jump(try_pos) {
            Ok(()) => {},
            Err(e) => {
                return Err(e);
            },
        }
        if self.ip < tokens.len() && matches!(tokens[self.ip], TokenOf::Catch) {
            proof {
                assert(xs[self.ip as int] == tokens@[self.ip as int]@);
            }
            self.ip = self.ip + 1;
            self.compile_braced(tokens, true)
        } else {
            proof {
                if self.ip < tokens.len() {
                    assert(xs[self.ip as int] == tokens@[self.ip as int]@);
                }
            }
            Ok(())
        }
    }
}

impl Compiler {
    /// `fn name(params) { ... }` (after `fn`): the body is compiled into a
    /// function of its own, then an instruction defines it.
    #[verifier::rlimit(40)]
    fn compile_function(&mut self, tokens: &[Token]) -> (r: Result<(), Stop>)
        requires
            old(self).ip <= tokens.len(),
        ensures
            outcome_is(c_function(tokens_view(tokens@), old(self)@), r, final(self)@),
            r is Ok ==> old(self).ip <= final(self).ip <= tokens.len(),
        decreases tokens.len() - old(self).ip, 3int,
    {
        let ghost xs = tokens_view(tokens@);
        if self.ip >= tokens.len() {
            return syntax_error("期望函数名");
        }
        proof {
            assert(xs[self.ip as int] == tokens@[self.ip as int]@);
        }
        let name = match &tokens[self.ip] {
            TokenOf::Identifier(n) => n.clone(),
            _ => {
                return syntax_error("期望函数名");
            },
        };
        self.ip = self.ip + 1;
        let arity = match self.compile_params(tokens) {
            Ok(a) => a,
            Err(e) => {
                return Err(e);
            },
        };
        let fi = self.add_function(name.as_str(), arity);
        let ghost st2 = self@;
        let mut saved_instructions: Vec<OpCode> = Vec::new();
        std::mem::swap(&mut saved_instructions, &mut self.instructions);
        let mut saved_constants: Vec<Value> = Vec::new();
        std::mem::swap(&mut saved_constants, &mut self.constants);
        let mut saved_scopes: Vec<Vec<(String, usize)>> = Vec::new();
        saved_scopes.push(Vec::new());
        std::mem::swap(&mut saved_scopes, &mut self.scopes);
        proof {
            assert(ops_view(self.instructions@) =~= Seq::<SpecOp>::empty());
            assert(values_view(self.constants@) =~= Seq::<SpecValue>::empty());
            assert(scope_view(self.scopes@[0]@) =~= Seq::<(Seq<char>, usize)>::empty());
            assert(scopes_view(self.scopes@) =~= seq![Seq::<(Seq<char>, usize)>::empty()]);
            assert(self@ == st2.begin_body(Seq::empty()));
        }
        match self.compile_braced(tokens, false) {
            Ok(()) => {},
            Err(e) => {
                return Err(e);
            },
        }
        self.add_instruction(OpCodeOf::PushNull);
        self.add_instruction(OpCodeOf::Return);
        let locals = self.locals_count();
        std::mem::swap(&mut saved_instructions, &mut self.instructions);
        std::mem::swap(&mut saved_constants, &mut self.constants);
        self.scopes = saved_scopes;
        if fi < self.functions.len() {
            let f = FunctionInfo {
                name: self.functions[fi].name.clone(),
                arity: self.functions[fi].arity,
                instructions: saved_instructions,
                constants: saved_constants,
                locals,
            };
            let ghost before = self.functions@;
            self.functions.set(fi, f);
            proof {
                assert(functions_view(self.functions@) =~= functions_view(before).update(fi as int, f@));
            }
        }
        self.add_instruction(OpCodeOf::DefineFunction(fi));
        Ok(())
    }

    /// `class Name { ... }` (after `class`).
    fn compile_class(&mut self, tokens: &[Token]) -> (r: Result<(), Stop>)
        requires
            old(self).ip <= tokens.len(),
        ensures
            outcome_is(c_class(tokens_view(tokens@), old(self)@), r, final(self)@),
            r is Ok ==> old(self).ip <= final(self).ip <= tokens.len(),
        decreases tokens.len() - old(self).ip, 3int,
    {
        let ghost xs = tokens_view(tokens@);
        if self.ip >= tokens.len() {
            return syntax_error("期望类名");
        }
        proof {
            assert(xs[self.ip as int] == tokens@[self.ip as int]@);
        }
        let name = match &tokens[self.ip] {
            TokenOf::Identifier(n) => n.clone(),
            _ => {
                return syntax_error("期望类名");
            },
        };
        self.ip = self.ip + 1;
        let ci = self.add_class(name.as_str());
        self.current_class = Some(ci);
        if self.ip >= tokens.len() {
            return Err(StopOf::Panic);
        }
        proof {
            assert(xs[self.ip as int] == tokens@[self.ip as int]@);
        }
        if matches!(tokens[self.ip], TokenOf::LBrace) {
            self.ip = self.ip + 1;
            match self.compile_class_body(tokens, ci) {
                Ok(()) => {},
                Err(e) => {
                    return Err(e);
                },
            }
            if self.ip < tokens.len() && matches!(tokens[self.ip], TokenOf::RBrace) {
                proof {
                    assert(xs[self.ip as int] == tokens@[self.ip as int]@);
                }
                self.ip = self.ip + 1;
            } else {
                proof {
                    if self.ip < tokens.len() {
                        assert(xs[self.ip as int] == tokens@[self.ip as int]@);
                    }
                }
            }
        }
        self.current_class = None;
        self.add_instruction(OpCodeOf::DefineClass(ci));
        Ok(())
    }

    /// The members of a class body up to `}`: methods, which take `this` as
    /// an extra first local, and other statements.
    fn compile_class_body(&mut self, tokens: &[Token], ci: usize) -> (r: Result<(), Stop>)
        requires
            old(self).ip <= tokens.len(),
        ensures
            outcome_is(c_class_body(tokens_view(tokens@), old(self)@, ci), r, final(self)@),
            r is Ok ==> old(self).ip <= final(self).ip <= tokens.len(),
        decreases tokens.len() - old(self).ip, 1int,
    {
        let ghost xs = tokens_view(tokens@);
        loop
            invariant
                xs == tokens_view(tokens@),
                old(self).ip <= self.ip <= tokens.len(),
                c_class_body(xs, self@, ci) == c_class_body(xs, old(self)@, ci),
            decreases tokens.len() - self.ip,
        {
            if self.ip >= tokens.len() {
                return Ok(());
            }
            proof {
                assert(xs[self.ip as int] == tokens@[self.ip as int]@);
            }
            if matches!(tokens[self.ip], TokenOf::RBrace) {
                return Ok(());
            }
            if matches!(tokens[self.ip], TokenOf::Function) {
                self.ip = self.ip + 1;
                if self.ip >= tokens.len() {
                    return Err(StopOf::Panic);
                }
                proof {
                    assert(xs[self.ip as int] == tokens@[self.ip as int]@);
                }
                if let TokenOf::Identifier(mname) = &tokens[self.ip] {
                    self.ip = self.ip + 1;
                    match self.compile_method(tokens, ci, mname) {
                        Ok(()) => {},
                        Err(e) => {
                            return Err(e);
                        },
                    }
                }
            } else {
                let before = self.ip;
                match self.compile_statement(tokens) {
                    Ok(()) => {},
                    Err(e) => {
                        return Err(e);
                    },
                }
                if self.ip == before {
                    return Err(StopOf::Diverge);
                }
            }
        }
    }
}

impl Compiler {
    /// A method of class `ci` named `mname`, from its parameter list on.
    fn compile_method(&mut self, tokens: &[Token], ci: usize, mname: &String) -> (r: Result<(), Stop>)
        requires
            old(self).ip <= tokens.len(),
        ensures
            outcome_is(c_method(tokens_view(tokens@), old(self)@, ci, mname@), r, final(self)@),
            r is Ok ==> old(self).ip <= final(self).ip <= tokens.len(),
        decreases tokens.len() - old(self).ip, 3int,
    {
        let arity = match self.compile_params(tokens) {
            Ok(a) => a,
            Err(e) => {
                return Err(e);
            },
        };
        let ghost st2 = self@;
        let mut saved_instructions: Vec<OpCode> = Vec::new();
        std::mem::swap(&mut saved_instructions, &mut self.instructions);
        let mut saved_constants: Vec<Value> = Vec::new();
        std::mem::swap(&mut saved_constants, &mut self.constants);
        let mut this_scope: Vec<(String, usize)> = Vec::new();
        this_scope.push(("this".to_owned(), 0));
        let mut saved_scopes: Vec<Vec<(String, usize)>> = Vec::new();
        saved_scopes.push(this_scope);
        std::mem::swap(&mut saved_scopes, &mut self.scopes);
        proof {
            assert(ops_view(self.instructions@) =~= Seq::<SpecOp>::empty());
            assert(values_view(self.constants@) =~= Seq::<SpecValue>::empty());
            assert(scope_view(self.scopes@[0]@) =~= seq![("this"@, 0usize)]);
            assert(scopes_view(self.scopes@) =~= seq![seq![("this"@, 0usize)]]);
            assert(self@ == st2.begin_body(seq![("this"@, 0usize)]));
        }
        match self.compile_braced(tokens, false) {
            Ok(()) => {},
            Err(e) => {
                return Err(e);
            },
        }
        if arity == usize::MAX {
            return Err(StopOf::Panic);
        }
        self.add_instruction(OpCodeOf::PushNull);
        self.add_instruction(OpCodeOf::Return);
        let locals = self.locals_count();
        std::mem::swap(&mut saved_instructions, &mut self.instructions);
        std::mem::swap(&mut saved_constants, &mut self.constants);
        self.scopes = saved_scopes;
        let method = FunctionInfo {
            name: mname.clone(),
            arity: arity + 1,
            instructions: saved_instructions,
            constants: saved_constants,
            locals,
        };
        self.install_method(ci, mname.clone(), method);
        Ok(())
    }
}

impl Compiler {
    /// Binds `method` to `name` in class `ci`, if there is such a class.
    fn install_method(&mut self, ci: usize, name: String, method: FunctionInfo)
        ensures
            final(self)@ == with_method(old(self)@, ci, name@, method@),
    {
        if ci < self.classes.len() {
            let ghost before = self.classes@;
            let ghost nv = name@;
            let ghost mv = method@;
            let mut class = self.classes.remove(ci);
            let ghost old_methods = class.methods@;
            proof {
                assert(class == before[ci as int]);
            }
            match method_index(&class.methods, &name) {
                Some(j) => {
                    class.methods.set(j, (name, method));
                    proof {
                        assert(methods_view(class.methods@) =~= methods_view(old_methods).update(j as int, (nv, mv)));
                    }
                },
                None => {
                    class.methods.push((name, method));
                    proof {
                        assert(methods_view(class.methods@) =~= methods_view(old_methods).push((nv, mv)));
                    }
                },
            }
            self.classes.insert(ci, class);
            proof {
                assert(self.classes@ =~= before.update(ci as int, class));
                assert(classes_view(self.classes@) =~= classes_view(before).update(ci as int, class@));
            }
        }
    }
}

impl Compiler {
    /// Compiles a whole program, from the first token to `EOF`, in a fresh
    /// scope; the instructions end by returning `null`. Constants, functions
    /// and classes compiled before are kept.
    pub fn compile(&mut self, tokens: &[Token]) -> (r: Result<Vec<OpCode>, Stop>)
        ensures
            match c_program(tokens_view(tokens@), old(self)@) {
                Ok(st) => r is Ok && final(self)@ == st && ops_view(r->Ok_0@) == st.instructions,
                Err((e, m)) => r is Err && r->Err_0@ == e && final(self)@ == m,
            },
    {
        self.ip = 0;
        self.instructions = Vec::new();
        let mut scopes: Vec<Vec<(String, usize)>> = Vec::new();
        scopes.push(Vec::new());
        self.scopes = scopes;
        proof {
            assert(ops_view(self.instructions@) =~= Seq::<SpecOp>::empty());
            assert(scope_view(self.scopes@[0]@) =~= Seq::<(Seq<char>, usize)>::empty());
            assert(scopes_view(self.scopes@) =~= seq![Seq::<(Seq<char>, usize)>::empty()]);
        }
        match self.compile_block(tokens, true) {
            Ok(()) => {},
            Err(e) => {
                return Err(e);
            },
        }
        self.add_instruction(OpCodeOf::PushNull);
        self.add_instruction(OpCodeOf::Return);
        Ok(crate::opcode::copy_ops(&self.instructions))
    }
}

} // verus!
