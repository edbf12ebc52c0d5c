# rust_playground

A collection of small Rust programs, with their logic verified by Verus.

- `src/modules/`: a key-value server speaking RESP. The readers of the wire
  format (`deserialize`, with `encode` proving that a value's wire form
  reads back as the value), the store with expiring keys and list values
  (`store`, `string_array`, `regex`), and the commands (`commands`), each
  with a specification of what it does; `laws` proves what holds across
  calls, such as a read giving back what a write wrote.
- `src/basic.rs`: RESP readers with a coarser value type.
- `src/shard_db.rs`: a database split into shards by the hash of the key.
- `src/url_shortener.rs`: the hash and the short form of a URL.
- `src/book/`: exercises — collections, traits, generics, closures,
  lifetimes, operators and more.
- `src/text.rs`, `src/keyed.rs`: text and key-value helpers with their
  specifications.
- `app/`: the programs themselves — the servers (network I/O, threads,
  async), and what holds floating-point numbers.
- `tests/`: scenarios for every module.

Calls into `chrono`, `rand`, `xxhash-rust` and the standard library that the
verified code relies on are listed, with what is believed of them, in the
doc comments of the functions that make them (`#[verifier::external_body]`)
and in `src/trusted.rs`.

## Maps as vectors of pairs

The store, each shard and the departments of a `Company` hold their entries
in a `Vec` of key-value pairs, searched in order, where a `HashMap` keyed by
`String` would be the obvious choice. Verus gives `HashMap` a specification,
but with a `String` key it could not be made to prove what `insert` and
`get` do, so no contract of these types could have been proved over one.
The store and the shards keep each key at most once (part of their
well-formedness), which is what the map guaranteed, and their views are the
maps that the contracts speak of; a `Company` adds a person to the first
department of that name and creates one only where there is none, so where
departments come from `add` alone, a name occurs once there too. For a
`Company` this changes the type of the public `departments` field.
