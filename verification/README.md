# ozendb

The verified core of a MongoDB desktop client: the logic behind its commands,
proved with Verus, and a thin command-line front end that drives a real server.

- `src/` is the library. Every function in it is verified against its `requires`
  and `ensures`; the few calls into std and outside crates that Verus cannot read
  stand behind small trusted wrappers whose doc comments say what they claim.
  - `value.rs` models BSON values as plain data (strings by their characters,
    doubles and dates by the texts the logic prints) with their relaxed
    extended-JSON and display texts.
  - `commands/` holds the computing cores of the app's commands: CSV and JSON
    import and export, field masking, SQL-to-find translation, schema inference,
    collection comparison, search, statistics, users and roles, GridFS, reschema
    pipelines, query and admin command documents.
  - The stores (`history`, `folders`, `known_hosts`, `operations`, ...) hold the
    app's persisted lists with their caps and orders as invariants.
  - Laws that relate several functions are public proof functions named `law_*`.
- `tests/` runs the library on concrete values.
- `app/` is the command-line program: it talks to MongoDB through the driver,
  reads and writes files, and hands the library plain values.

`app/main.rs` takes a command name and a JSON object of arguments and prints a
JSON reply, `{"ok": ...}` or `{"error": {...}}`.
