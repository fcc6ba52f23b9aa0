# Circle STARK verifier for Bitcoin

A Verus library with the parts of a STARK verifier that runs in Bitcoin scripts: the field
arithmetic and the Fiat-Shamir channel as variables of a constraint system, the covenant that
carries the verifier, and the demo that spends it.

- `src/fields`, `src/channel.rs`, `src/hash.rs`: field elements and the channel over plain values.
- `src/constraint_system.rs`: the record of variables and script gadgets, and what it means for an
  assignment to meet it.
- `src/dsl/primitives`: variables for field elements, strings and the channel.
- `src/script.rs`, `src/machine.rs`: scripts as bytes, and a model of what they do.
- `src/dsl/plonk/covenant.rs`: the covenant's state, scripts and transition.
- `src/demo`: fees, addresses, files, reports and the run of the demo.
- `app`: the command-line tools. The constraint compiler and the covenant framework are behind a
  trait there.

Every function in `src` has a contract that Verus checks. The contracts of the functions marked
`external_body`, which call other crates, are believed; each says above it what it claims.
