# json0

Operational transformation of JSON documents, verified with Verus.

An operation is a sequence of components; a component is an operator applied at a
path of a document: inserting, deleting, replacing or moving list elements,
inserting, deleting or replacing object members, or changing a value through a
sub type (`na` adds to a number, `text` edits a string, and users may register
functions for sub types of their own). Operations apply to documents, invert,
compose, and transform against concurrent operations.

## Layout

- `src/value.rs`: documents (`Value`) and their model `Json`.
- `src/path.rs`: paths into documents.
- `src/json.rs`: reading a document at a path, and applying an operator.
- `src/sub_type.rs`: the built-in sub types and the registry of custom ones.
- `src/operation.rs`: operators, components, operations, their builders, and
  reading operations from JSON documents.
- `src/transformer.rs`: transformation of operations against each other.
- `src/laws.rs`: properties that span several functions: inverting twice gives
  a component back; applying a component and then its inverse gives the document
  back; a read at a path gives what an insertion there wrote; appending a
  component applies as applying it after the operation, and composing as
  applying the operations in turn; and concurrent
  operations converge once transformed against each other: list insertions,
  deletions, replacements and moves, operations under one key of an object,
  additions to a number and insertions into a text, edits of a list or of the
  members of an object against changes of their elements or members, changes
  of different elements of a list, and edits below different members or
  elements. Edits of different members of one object, additions or text edits
  at different members, and edits of members against additions or text edits at
  members converge as JSON, their entries possibly in another order.
- `src/lib.rs`: `Json0`, the entry point.
- `app/lib.rs`: conversions from and to `serde_json` documents and JSON text, and
  error types that display their messages.

The functions of custom sub types implement `SubTypeFunctions` and live in a
registry (`SubTypeFunctionsHolder`, kept in a `dashmap`). They are looked up by
name whenever an operator of that sub type is applied, inverted, merged or
transformed, when an operation is read from JSON (`OperationFactory::from_value`,
which checks the operands), when operations are transformed (which checks them
too), and when a `SubTypeOperationBuilder` builds one. `Operation::new` and
`OperationComponent::new` have no registry at hand and check only the built-in
rules. The trait's spec functions name what each of them
returns, and the contracts say where those results go. Clearing the registry
removes the built-in sub types as well: operators of theirs that were already
read still work, but no new ones can be read or built.

Every function in `src/` carries a contract that Verus proves; the calls into
`dashmap` go through a few functions whose contracts are trusted.
