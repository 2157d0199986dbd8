# boon

The verified core of the browser platform of the Boon language.

- `src/` is the library. Its functions are proved against their contracts with Verus, but for the
  wrappers around calls into other crates, whose contracts are trusted: `new_ulid` and
  `ulid_to_string` in `ids` (crate ulid), `write_report` in `interpreter` (crate ariadne) and
  `read_json_form` in `streams` (crate serde_json).
  - The runtime of user interfaces: `semantic_ir` describes an interface and the state behind it,
    `render` resolves it against the state, `actions` and `derived` change the state, `cells` are
    spreadsheet formulas, and `runtime` takes events and facts and says what is to be rendered.
    `action_laws` and `runtime_laws` state what all of this keeps.
  - The evaluator: `static_expression` is the syntax, `plan` what an evaluation leads to,
    `evaluation` says what that is, `evaluator` does it, and `program` evaluates whole programs.
    `evaluation_laws` shows that it ends, `plan_growth` that it only ever adds to a plan,
    `depth_laws` that the bound on nested calls, which no stack can reach, leaves the results
    alone, `slot_laws` that a step finds the operands it waits for, `program_laws` what calls
    without arguments lead to, and `identity_laws` that the identity of an expression changes
    identities alone, so that THEN is WHEN with one arm.
  - What actors do with values: `matching` and `fields` take values apart, `reactions` are those of
    THEN, WHEN, WHILE and of calls, and `streams` holds persisted variables, held states, texts put
    together of parts and lists that are appended to.
  - `modules` and `interpreter` are the decisions around loading modules and running programs.
- `tests/` runs the library.
- `app/` is ordinary Rust around it: batches as JSON, the layout of what is rendered, the engine
  that carries values between the actors of a plan, storage and the language front end. It alone
  uses serde itself, for the derives on the types of batches and of stored identities.

Numbers of programs are floating point numbers. The library carries them as bits and hands pairs
that have to be compared to its caller.
