# Rune

Rune is a small, statically-typed systems language with value semantics, explicit
bit widths and no undefined behaviour. Programs run on an interpreter that can be
reloaded while it runs, and the synthesizable part of a program lowers to Verilog.

This crate is the language as a verified library: every function states what it
computes and Verus proves it.

| Module | What it holds |
|--------|---------------|
| `lexer`, `token`, `parser`, `grammar`, `ast` | source text to syntax tree |
| `typeck`, `gather`, `rules`, `context`; `typing`, `program` | syntax tree to typed core IR; the typing rules |
| `ir`, `value`, `arith`, `name_map`, `text`, `env` | the IR, its values and what they are made of |
| `interp`; `semantics` | the interpreter; what a program means |
| `hdl`, `graph`, `scan` | the synthesizable subset |
| `verilog`, `netlist`; `lowering` | lowering to netlists and their text; the lowering rules |
| `hotreload`, `repl`, `loader`, `pkg`, `runner` | reloading, sessions, file modules, packages, tests |

What holds of the language as a whole is stated and proved beside it:

| Module | What it states |
|--------|----------------|
| `safety` (with `welltyped`, `checking`, `matching`, `soundness`) | a checked module is well formed; a program that the checker accepts gives values of the declared types and traps only where a trap is defined |
| `equivalence` (with `wires`, `simulation`) | the netlist of a lowered function computes what the interpreter computes, bit for bit |
| `instances` | the instances of a netlist fit the modules that they name |
| `support` | a function of a checked program is refused by the lowering only for a construct that is not lowered yet, or for the names of its parameters |
| `ordering`, `alone` (with `catalogue`, `silent`) | the order of items does not matter; a function checked on its own gives what the whole program gave |
| `pieces`, `blame`, `stages` | a source falls into the texts of its tokens; a parse error lies in the source; a failure is of one stage |
| `language`, `widths`, `places` | what single constructs promise, and what a store changes |
| `purity`, `memory`, `allowance` | what evaluation leaves alone and what it keeps, and that its allowance does not matter where it suffices |
| `nesting`, and the laws in `loader`, `pkg`, `hotreload`, `repl`, `hdl` | what the tools promise |

`app/` is the `runec` command around the library: arguments, files, manifests and
the terminal.
