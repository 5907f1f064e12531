# demoparser

Decoding of the Counter-Strike 2 demo net messages that carry chat lines,
console variables, item drops, end-of-match player data, file information
and the table of network classes, with proofs in Verus.

Layout of `src/`:

- `wire.rs`: the protocol-buffer wire format (varints, tags, payloads,
  groups, message windows), stated as spec functions; varints are read by
  the `protobuf` crate and UTF-8 is checked by `std`.
- `messages.rs`: the schema of each message (how each tag is read) and a
  test of any message against its schema.
- `decode.rs`: one decoder per message whose contents are kept, each a
  fold over the message's fields.
- `records.rs`: the records kept (chat lines, items, players, console
  variables, classes) and their views.
- `maps.rs`: the `ahash` maps, seen through their contents.
- `classes.rs`: the class table, indexed by class id.
- `netmessages.rs`: the parser state and how each net message changes it.
- `concat.rs`: concatenated chat-line encodings merge field by field.
- `text.rs`, `rows.rs`: decimal text and the tables handed to the bindings.

`app/` holds the Node and WebAssembly bindings and the thread that builds
the class table once the send tables are read. The reading of a whole demo
file into a `Parser` (frames, send tables, entities, game events and ticks)
is not part of this crate, so the bindings start from a `Parser` and carry
no `#[napi]` or `#[wasm_bindgen]` entry points, which take a file; the event
and tick tables, which come from that reading, are not here either.
