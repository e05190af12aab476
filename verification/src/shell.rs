//! The interactive shell: what a line typed at the prompt asks for, and how
//! a piece of source text becomes a machine ready to run it.
use vstd::prelude::*;

use crate::compiler::{c_program, initial_compiler, Compiler, CompilerModel, Stop, StopOf};
use crate::lexer::{lex, str_equal, Lexer};
use crate::text::{chars_of, string_of, trim_text, trimmed};
use crate::value::{copy_value, fields_view, lemma_fields_view_push, Value};
use crate::vm::{entry_frame, initial_globals, VMModel, VM};

verus! {

broadcast use vstd::string::group_string_axioms;

/// What a line typed at the prompt asks for.
#[derive(Debug)]
pub enum CommandOf<S> {
    /// Nothing: the line is blank.
    Skip,
    /// Leave the shell (`exit` or `quit`).
    Exit,
    /// Clear the screen.
    Clear,
    /// Debug mode was switched; it is now on (`true`) or off.
    Debug(bool),
    /// List the lines typed so far.
    History,
    /// Run the file with this name (`load name`).
    Load(S),
    /// Run this code.
    Run(S),
}

pub type Command = CommandOf<String>;

pub type SpecCommand = CommandOf<Seq<char>>;

impl View for CommandOf<String> {
    type V = CommandOf<Seq<char>>;

    open spec fn view(&self) -> SpecCommand {
        match self {
            CommandOf::Skip => CommandOf::Skip,
            CommandOf::Exit => CommandOf::Exit,
            CommandOf::Clear => CommandOf::Clear,
            CommandOf::Debug(b) => CommandOf::Debug(*b),
            CommandOf::History => CommandOf::History,
            CommandOf::Load(s) => CommandOf::Load(s@),
            CommandOf::Run(s) => CommandOf::Run(s@),
        }
    }
}

/// What a non-blank, trimmed line asks for, with debug mode `debug` before.
pub open spec fn command_for(t: Seq<char>, debug: bool) -> SpecCommand {
    if t == "exit"@ || t == "quit"@ {
        CommandOf::Exit
    } else if t == "clear"@ {
        CommandOf::Clear
    } else if t == "debug"@ {
        CommandOf::Debug(!debug)
    } else if t == "history"@ {
        CommandOf::History
    } else if t.len() >= 5 && t.take(5) == "load "@ {
        CommandOf::Load(t.skip(5))
    } else {
        CommandOf::Run(t)
    }
}

/// The shell as specifications see it.
pub struct ShellModel {
    pub running: bool,
    pub history: Seq<Seq<char>>,
    pub debug_mode: bool,
}

/// A line typed at the prompt: the shell after it, and what it asks for. A
/// blank line changes nothing; any other is trimmed and kept in the history.
pub open spec fn handle(sh: ShellModel, line: Seq<char>) -> (ShellModel, SpecCommand) {
    let t = trimmed(line);
    if t.len() == 0 {
        (sh, CommandOf::Skip)
    } else {
        let sh1 = ShellModel { history: sh.history.push(t), ..sh };
        match command_for(t, sh.debug_mode) {
            CommandOf::Exit => (ShellModel { running: false, ..sh1 }, CommandOf::Exit),
            CommandOf::Debug(d) => (ShellModel { debug_mode: d, ..sh1 }, CommandOf::Debug(d)),
            c => (sh1, c),
        }
    }
}

/// The interactive shell.
pub struct NGShell {
    pub running: bool,
    /// The lines typed so far, trimmed, oldest first.
    pub history: Vec<String>,
    pub debug_mode: bool,
}

impl View for NGShell {
    type V = ShellModel;

    open spec fn view(&self) -> ShellModel {
        ShellModel {
            running: self.running,
            history: self.history@.map_values(|s: String| s@),
            debug_mode: self.debug_mode,
        }
    }
}

impl NGShell {
    /// A running shell with no history and debug mode off.
    pub fn new() -> (sh: Self)
        ensures
            sh@ == (ShellModel { running: true, history: Seq::empty(), debug_mode: false }),
    {
        let sh = Self { running: true, history: Vec::new(), debug_mode: false };
        proof {
            assert(sh@.history =~= Seq::<Seq<char>>::empty());
        }
        sh
    }

    /// Takes a line typed at the prompt: keeps it in the history, switches
    /// debug mode or stops the shell where it asks so, and says what else
    /// it asks for.
    pub fn handle_line(&mut self, line: &str) -> (c: Command)
        ensures
            (final(self)@, c@) == handle(old(self)@, line@),
    {
        let t = trim_text(line);
        if t.unicode_len() == 0 {
            return CommandOf::Skip;
        }
        let ghost tv = t@;
        let ghost before = self.history@;
        self.history.push(t.clone());
        proof {
            assert(self@.history =~= old(self)@.history.push(tv));
        }
        let ts = t.as_str();
        if str_equal(ts, "exit") || str_equal(ts, "quit") {
            self.running = false;
            return CommandOf::Exit;
        }
        if str_equal(ts, "clear") {
            return CommandOf::Clear;
        }
        if str_equal(ts, "debug") {
            self.debug_mode = !self.debug_mode;
            return CommandOf::Debug(self.debug_mode);
        }
        if str_equal(ts, "history") {
            return CommandOf::History;
        }
        let cs = chars_of(ts);
        if cs.len() >= 5 {
            let head = string_of(&cs, 0, 5);
            proof {
                assert(cs@.subrange(0, 5) =~= tv.take(5));
            }
            if str_equal(head.as_str(), "load ") {
                let rest = string_of(&cs, 5, cs.len());
                proof {
                    assert(cs@.subrange(5, cs@.len() as int) =~= tv.skip(5));
                }
                return CommandOf::Load(rest);
            }
        }
        CommandOf::Run(t)
    }
}

/// The machine that `code` becomes, ready to run from its first
/// instruction: the code lexed, compiled by a fresh compiler, and loaded
/// with its functions, classes and constants into a fresh machine. The
/// compiler and the machine get debug mode `debug_mode`.
pub open spec fn loaded(code: Seq<char>, debug_mode: bool) -> Result<VMModel, crate::compiler::SpecStop> {
    match lex(code) {
        Err(e) => Err(StopOf::Error(e)),
        Ok(ts) => match c_program(ts, CompilerModel { debug_mode, ..initial_compiler() }) {
            Err((s, _)) => Err(s),
            Ok(st) => Ok(VMModel {
                stack: Seq::empty(),
                globals: initial_globals(),
                functions: st.functions,
                classes: st.classes,
                instructions: st.instructions,
                constants: st.constants,
                ip: 0,
                call_stack: seq![entry_frame()],
                debug_mode,
                error: None,
                catch_handler: None,
            }),
        },
    }
}

/// Lexes and compiles `code`, and loads it into a fresh machine.
pub fn load_program(code: &str, debug_mode: bool) -> (r: Result<VM, Stop>)
    ensures
        match loaded(code@, debug_mode) {
            Ok(m) => r is Ok && r->Ok_0@ == m,
            Err(e) => r is Err && r->Err_0@ == e,
        },
{
    let mut lexer = Lexer::new(code);
    let tokens = match lexer.tokenize() {
        Ok(t) => t,
        Err(e) => {
            return Err(StopOf::Error(e));
        },
    };
    let mut compiler = Compiler::new();
    compiler.debug_mode = debug_mode;
    let instructions = match compiler.compile(tokens.as_slice()) {
        Ok(i) => i,
        Err(s) => {
            return Err(s);
        },
    };
    let mut vm = VM::new();
    vm.debug_mode = debug_mode;
    vm.functions = compiler.functions;
    vm.classes = compiler.classes;
    vm.start(instructions, compiler.constants);
    proof {
        assert(vm@.stack =~= Seq::empty());
        assert(vm@.call_stack =~= seq![entry_frame()]);
    }
    Ok(vm)
}

/// A copy of named values.
pub fn copy_named(gs: &Vec<(String, Value)>) -> (r: Vec<(String, Value)>)
    ensures
        fields_view(r@) == fields_view(gs@),
{
    let mut r: Vec<(String, Value)> = Vec::new();
    let mut i: usize = 0;
    while i < gs.len()
        invariant
            i <= gs.len(),
            fields_view(r@) == fields_view(gs@.take(i as int)),
        decreases gs.len() - i,
    {
        let entry = (gs[i].0.clone(), copy_value(&gs[i].1));
        let ghost before = r@;
        r.push(entry);
        proof {
            lemma_fields_view_push(before, entry);
            assert(gs@.take(i + 1) =~= gs@.take(i as int).push(gs@[i as int]));
            lemma_fields_view_push(gs@.take(i as int), gs@[i as int]);
        }
        i = i + 1;
    }
    proof {
        assert(gs@.take(gs.len() as int) =~= gs@);
    }
    r
}

/// Lexes and compiles the code of an imported file and loads it into a
/// fresh machine, without debug mode, whose globals start as a copy of
/// `globals`: those of the machine that imports it.
pub fn load_import(code: &str, globals: &Vec<(String, Value)>) -> (r: Result<VM, Stop>)
    ensures
        match loaded(code@, false) {
            Ok(m) => r is Ok && r->Ok_0@ == (VMModel { globals: fields_view(globals@), ..m }),
            Err(e) => r is Err && r->Err_0@ == e,
        },
{
    let mut vm = match load_program(code, false) {
        Ok(vm) => vm,
        Err(s) => {
            return Err(s);
        },
    };
    vm.globals = copy_named(globals);
    Ok(vm)
}

} // verus!
