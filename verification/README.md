# rust2

A small Lisp with a read-eval-print loop, written in Verus. The reader cuts a
line into tokens with regular expressions (the `regex` crate) and reads them
into forms; the evaluator runs special forms (`def`, `let`, `fn`, `if`, `do`,
`prn`, `list`, `count`, `list?`, `empty?`, comparisons), closures with
partial application, and `+ - * ** /` on 32-bit integers and, element by
element, on vectors of them; the printer writes
forms back as text.

Every function of the library carries a contract over a mathematical model:
tokens are modelled by `token::Expr`, an environment by a sequence of
bindings with distinct keys, and evaluation by the spec functions of
`semantics`, which give `None` wherever the evaluator refuses an input.

Layout of `src/`:

- `token`, `token_ops`: the token type, its model, equality and copies.
- `text`, `numeral`: trimming, integer literals and decimal numerals.
- `pattern`: the trusted boundary to `regex`.
- `reader`: the tokenizer and the reader.
- `env`: environments and the lines that `prn` printed.
- `arith`, `semantics`, `eval`: operators, the evaluation model, the evaluator.
- `printer`: the printer.
- `repl`: one round of the loop.
- `laws`, `eval_laws`: properties proved of the whole.

`app/main.rs` is the interactive loop around the library.
