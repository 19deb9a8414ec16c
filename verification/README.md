# serde_kdl2

Deserialization of [KDL](https://kdl.dev) documents into the serde data
model, with its decisions verified by Verus.

## Layout

- `src/` — the verified library.
  - `model.rs`: a KDL document held as plain values (`Doc`, `Node`,
    `Entry`, `Value`) and spec functions over it (arguments, properties,
    first appearances of names, positions of a name).
  - `parse.rs`: KDL text into the model, through the `kdl` crate's parser
    (the one trusted boundary of the library).
  - `de/`: the deserialization decisions. `document` (keys of a document
    read as a map), `field` (the nodes that share a name), `node` (one
    node read as an option, sequence, map, struct or enum), `value` (one
    value read as a scalar), and `any` (the self-describing reading of a
    whole document, composed of the others).
  - `content.rs`: the serde data-model value that the self-describing
    reading yields.
  - `bare_defaults/bool.rs`: booleans whose bare node takes a default.
  - `error.rs`: the error type.
- `app/` — serde `Deserializer` implementations that drive visitors with the
  library's decisions; the error type with `Display`; float conversions.
- `tests/` — scenarios and edge cases run against the library.

## Mapping rules

- A document (or a children block) reads as a map: one key per distinct
  node name, in order of first appearance; its value is every node of that
  name.
- A scalar is the first argument of the field's single node.
- A sequence is: each node when a name repeats; else the `-` children; else
  the children when they all share one name; else, for children of several
  names, the node itself as the one element; else the arguments.
- An option is `None` for a single `#null` argument without children.
- A struct or map is the children block, else the properties, else (one
  field, one argument) that argument.
- An enum variant is named by a string first argument, or by a sole child
  node.
