# widen

Conversions between error enums, with their decision logic verified in Verus.

- `src/adapter.rs`: the `Subset` trait (`widen`) and the `Widen` marker that
  carries an error to a destination chosen by its receiver; `Result` widens
  its error into the marker.
- `src/tokens.rs`: token trees as plain values, and proc-macro2's token
  streams seen through them.
- `src/syntax.rs`: a plain model of what the enum derive reads of its input
  (variants, fields, attributes, generic parameters).
- `src/reading.rs`: the token trees of an input read with syn into that
  model; `src/entry.rs`: the derive and the shorthand on a macro's input.
- `src/sources.rs`: the grammar of `#[subsume(A::X, from(B::Y))]`; source
  paths are parsed by syn.
- `src/conversions.rs`: the `From` conversions that the `subsume`
  attributes ask for.
- `src/derive.rs`: the whole expansion of the derive: placement checks,
  the widening of every variant's payload, and the fresh name of the target
  parameter.
- `src/type_enum.rs`: the `type_enum!` shorthand (`ParseError` stands for
  `ParseError(ParseError)`).
- `src/laws.rs`: what the planned conversions are as a whole.
- `app/lib.rs`: the bodies of the two macros' entry points: token streams
  become plain tokens for the library, and its decision is written back as
  tokens with quote.
