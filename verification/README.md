# keygrip

Typed, key-centric DynamoDB access, with its decisions verified by Verus.

`src/` is the verified library. Every public function states what it
returns in its contract, over mathematical views of its types:

- `key`, `entity`: key documents, composite key values joined with `#`,
  the condition of a create, the errors of missing items, batch cutting.
- `expression`, `write`: expression bindings, placeholder collisions, and
  the requests of conditional updates, stores and merges.
- `transaction`: ordered atomic writes with labeled steps, and how a
  cancellation is read by label.
- `query`: the request for one page of a partition query.
- `occ`: the decisions of an optimistic-concurrency retry loop.
- `tokens`, `schema`, `expand`: the grammar of a model's `#[entity(…)]`
  attribute read from its token trees, the declaration it makes, and the
  plan a schema derivation generates from it.
- `dict`, `attr`, `text`, `order`, `error`, `request`: the string-keyed map,
  attribute values, text rendering, name ordering and error mapping the
  rest is built on.

Laws that relate several operations are public proof functions named
`law_…`.

`app/` is the unverified side: the SDK client calls, `serde_dynamo`
serialization, the runtime `Schema` trait, and the glue that renders a
derivation's plan as tokens.
