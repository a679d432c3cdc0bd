# config_it

Centralized configuration management, verified with Verus.

A program declares templates of configuration properties; a `Storage` keeps every
registered group of properties, an archive cache of values for groups that are not
there yet, and the events a monitor is told. Groups are loaded from archives,
committed to, and exported back; archives are read from and written to JSON.

## Layout

- `src/` — the verified library.
  - `archive.rs`, `archive_io.rs`, `category.rs`: archives as nested maps, merging and
    patches, and their JSON form.
  - `entity.rs`, `config.rs`, `storage.rs`: property metadata and values, groups and
    their instances, and the storage with its import and export.
  - `noti.rs`: the update signal between a group and its instances.
  - `monitor.rs`, `handshake.rs`, `relay.rs`, `connection.rs`, `frames.rs`: the monitor's
    storage table, the handshake steps, the session registry, the dashboard's
    connection loop and the frame reader.
  - `derive.rs`: what the `Template` derive reads from attributes and what it generates.
  - `json.rs`, `text.rs`: the calls into `serde_json` and the few string operations of
    std, each with the contract the library relies on.
- `tests/` — tests on concrete values.
- `app/` — what stays outside the library: serde copies of the library's types, the
  thread-local category rule, the monitor callback and the clock.
