# review_kb

A knowledge base of code-review rules. A checklist file in Markdown is read into an SQLite
database; a client gets the description of its rules, selects rules by key, and gets them back
in full. Rules can be overridden locally, with conflicts reported when the source changes.

- `src/` is the verified library. It touches no file and no database: each operation is a
  machine that hands out requests and is resumed with replies (`protocol`), so what it does is
  stated and proved for every reply.
  - `checklist`, `markdown`, `yaml`: reading a checklist
  - `description`, `selection`, `overrides`, `suggestions`: the rules and what is made of them
  - `repository`, `rows`, `maintenance`: statements, records, migration, backup and restore
  - `service`, `session`, `cli`: the operations, a run of the program, what it prints
  - `json`, `json_parse`, `json_util`, `text`, `path_util`, `time_util`, `config`, `errors`,
    `models`: what they rest on
  - `laws`, `json_laws`, `maintenance_laws`, `storage_laws`: what holds across them
  - `tables`, `table_laws`, `disk_laws`: what operations leave in the tables and on the disk
  - `revision_laws`, `selection_laws`: what holds of whole operations, one after the other
- `app/` is the program: command line, files, SQLite connections.
- `tests/` runs the library, with SQLite where a database is needed.
