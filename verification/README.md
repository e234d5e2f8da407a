# starcoin

Verified core logic of a Starcoin node, written in Verus.

- `src/` — the library. Every function has a contract; all are proved by Verus except
  twelve small trusted wrappers (`#[verifier::external_body]`) that make one call into std
  or an outside crate and whose contracts are taken on trust: `hex_encode`,
  `random_hash_bytes`, `random_address_bytes`, `debug_str`, `utf8_lossy`,
  `identifier_is_valid`, `module_id_access_vector`, `to_move_type_tag`,
  `struct_tag_access_vector`, `u256_add`, `u256_div` and `instant_now`. Two outside types
  (`move_core_types`' type tag and `std::time::Instant`) are declared to Verus as opaque.
  Modules:
  - `primitives`: 32-byte hash values and 16-byte account addresses, with hex rendering;
  - `text`: decimal and quoted renderings used by the text forms of values;
  - `language_storage`: Move identifiers, module ids, struct types and their access vectors;
  - `access_path`: access paths and data types, splitting and building compact paths, text forms;
  - `u256`: 256-bit difficulties;
  - `chain`: what a block runs, how execution is sequenced, templates, difficulty, head updates;
  - `chain_watcher`: who is answered when a block arrives or the subscription fails;
  - `perf_timer`: named timers.
- `tests/` — tests of the library on concrete values.
- `app/` — the code around the library: serialisable copies, the watcher actor, the
  block chain driving storage, executor and accumulator, and scoped timing with logging.
