# beholder

A store for semantic facts about the code of many repositories: which entities there are, how
they depend on each other, and how that changes from one revision of a view to the next.

`src/` holds the verified library. It never touches a database. It puts commands together
(`command`, `scripts`, `write_scripts`), reads the rows that come back (`rows`, `records`), and
decides what comes next. Longer operations are state machines: each hands out a command, is given
the answer and moves on.

- Publishing: `normal`, `revisions`, `writes`, `changes`, `shards`, `baseline`, `manifest`,
  `publication`, `enrichment`, `contribution`, `reconciliation`, `collection`.
- Asking: `query`, `requests`, `traversal`, `paths`, `closure`, `context`, `dependency`,
  `reachability`, `multipath`, `filtered`, `acquisition`, `semantic`, `semantics`, `facts`, `graph`, `evidence`.
- Recognising: `git` for repositories and work trees, `graphql` for schemas and operations,
  `grpc` for calls between services.
- Set-up and measuring: `schema`, `database`, `benchmark`, `observe`.

What holds of several functions together is stated as public proof functions next to them.
Calls into other crates are wrapped in `digest`, `git`, `graphql::syntax` and `query`.

`app/` runs the commands on a database, walks repositories on disk and loads the rule files.
`tests/` runs the library, much of it against a database in memory.
