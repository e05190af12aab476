# ngl

A small scripting language: a lexer, a single-pass bytecode compiler and a
stack machine, with an interactive terminal around them.

- `src/` is the library, written in Verus. Each part is specified over a
  mathematical model and proved against it:
  - `text.rs`, `lexer.rs`, `token.rs`: characters to tokens;
  - `compiler.rs`, `opcode.rs`: tokens to instructions;
  - `value.rs`, `vm.rs`, `builtins.rs`, `error.rs`: values, one instruction
    at a time, the built-in functions and the text of values and errors;
  - `shell.rs`: what a line typed at the prompt asks for, and loading a
    program into a machine;
  - `laws.rs`: properties that span several of the above.
- `app/main.rs` is the terminal: it reads lines, prints, touches files, and
  does the floating-point arithmetic that the machine asks of it.
- `tests/` runs the library on concrete programs and values.
