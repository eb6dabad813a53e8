# dinocode

The front end of the DinoCode language, verified with Verus: the lexer that
turns source text into tokens (with the implicit `End`, `Indent`, `Dedent`
and `Comma` tokens that indentation and juxtaposition stand for), the pieces
of the parser that stand on their own, error reports, and the helpers that
describe compiled bytecode and its control-flow graph.

The rest of DinoCode (the bytecode compiler, the virtual machine, and the
builder of the control-flow graph itself) is not part of this crate: it
works on the instructions, values and memory of the `dinocode_core` crate,
whose definitions this crate does not have.

## Layout

- `src/syntax.rs`, `src/operators.rs`, `src/ascii.rs`: tokens, operators and
  the byte constants the lexer reads.
- `src/lexer/`: the lexer. `tokenizer.rs` states lexing as a step function
  over a state (`lex`) and proves that `Lexer::tokenize` computes it;
  `balance.rs` proves that blocks open and close in pairs; `utils/` holds the
  readers of numbers, strings, operators and identifiers.
- `src/parser/`: errors, delimiter matching, frames and the parser's working
  state.
- `src/diagnostic.rs`: error reports as plain data.
- `src/analysis/`: queries on the description of compiled bytecode, the
  leaders of its control-flow graph, and source ranges.
- `src/text.rs`: the few standard-library string operations the library
  trusts, each with its contract.
- `tests/`: tests of the library on concrete inputs.
- `app/`: JSON renderings (serde), printable error types (thiserror) and the
  entry point that reads a whole source.
