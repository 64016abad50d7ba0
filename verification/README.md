# drython

A parser and runner for Drython, a small line-based scripting language,
written in Verus: every function of the library has a `requires`/`ensures`
contract that Verus proves. Where a result depends on work handed to the
`Host` (see below), the contract says what holds whatever the host answers,
and the exact result only where the host decides nothing.

## Layout

- `src/text.rs`: character-level helpers and the few calls into `std`
  whose results are named rather than stated.
- `src/utility.rs`: bracket-aware splitting, operator table and precedence,
  expression kinds.
- `src/parser/`: a script's lines become an `ExpressionList`: assignments,
  returns, calls, scopes (`if`, `elif`, `else`, `loop`, functions) and
  operations in postfix order.
- `src/runner/`: values and their operators (`token_impl`), variables
  (`vars`), evaluation of operations (`operation_runner`), scopes
  (`internal_function`), function calls and set-up (`function`), modifiers.
  What the runner does not do itself it asks of a `Host`: calling a
  function by name (the host holds the registered Rust functions and the
  script's global variables between calls, and dispatches through the
  verified `call_by_name`), `f32` arithmetic and the text of a float, and
  stopping where the script would panic. Arguments of calls, parenthesised
  parts and items picked out of collections are evaluated by the library.
- `src/external/`: argument checks, the libraries a script can include, and
  the collection library.
- `app/main.rs`: reading a script file, the registered Rust functions
  (`print`, `sqrt`, `divide2`), float arithmetic, and the host itself.
- `tests/`: parsing and running scripts end to end.
