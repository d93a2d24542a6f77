# uvfs

A small virtual file system for an embedded C compiler. A path written
`provider@uvfs://file` is served by the provider registered under that name;
any other path goes to the default provider (the C runtime). One provider is
built in: a read-only file system over a tar archive held in memory.

- `src/` is the verified library (Verus):
  - `vfs.rs`: the dispatcher `UVFS` — provider registry, routing of paths,
    the table of open files;
  - `tarfs.rs`: `TarFileFS` and `TarFile` — loading an archive, opening,
    reading, seeking;
  - `names.rs`: `NameTable`, a table keyed by names;
  - `text.rs`: reading C strings and finding the `@uvfs://` marker.
- `app/` holds the C entry points (`vopen`, `vread`, ...), the C function
  tables of the providers, and the global state behind a lock.
- `tests/` runs the library on concrete values.
