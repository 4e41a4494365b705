# rivetlua

A Lua compiler front end and the RVLU bytecode format, written in Verus and
proved against their contracts.

## Layout

- `src/` — the verified library.
  - `lexer`, `cursor`, `scanner`, `literal`, `trivia`: raw bytes to tokens.
    Every token matches the bytes it spans (names, keywords, symbols,
    numerals in Lua's numeral syntax and the decoded value of every string
    literal), every name, keyword, numeral and symbol is the longest one
    that starts where it does, no token is longer than the token byte
    limit, and nothing but white space and comments lies between tokens.
  - `ast`, `parser`: tokens to a syntax tree that is well formed.
  - `resolved`, `resolve`: the syntax tree to a resolved tree that mirrors
    it node for node, with every name bound and every function numbered.
  - `ir`, `codegen`: the resolved tree to typed IR, one prototype per
    function, and the IR to a verified RVLU module.
  - `bytecode`, `module`, `rules`, `validation`: the RVLU v2 instruction set
    and the rules a module must keep (`module_valid`).
  - `format`, `wire`, `encode`, `decode`, `injective`, `codec`: the
    little-endian encoding of a module, its decoder, and the proof that
    decoding gives back exactly the module that was encoded.
  - `value`, `integer`, `error`, `limits`: Lua values and identities,
    integer arithmetic with Lua's rounding and wrapping, and checkable
    errors.
- `app/` — the host side that Verus does not see: floating-point numbers,
  the values of float numerals, process-wide identity counters, and error
  types with `Display`.
- `tests/` — the tests, run against the compiled library.
