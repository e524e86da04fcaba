# nocode

A library for serving database tables over HTTP from configuration alone. An
entity is a JSON file that names a table, its columns, and what may be read,
inserted, updated, deleted, imported, exported, copied and called. The library
turns requests into queries, checks and transactions; the code is written in
Verus, and every function states what it returns and is proved to do so.

## How a request runs

A request is a state machine. Each call of `step` takes the outcome of what was
asked for before, and returns the next thing that is to be done: verify a token,
run a statement in the transaction, roll back and answer. What comes next is a
function of the request, of where it stands and of the outcome, written as a
specification (`insert_next`, `update_next`, ...), and `step` is proved to follow
it. The laws beside it say what holds of every run: that data is only touched
after access was granted, that a transaction is committed or rolled back before
the answer, that an insertion, an update or a deletion is reported as done only
once it was committed, stored or queued, and that an import which succeeds leaves
out no row.

## Layout

- `src/` is the verified library.
  - `text`, `number`, `json`: strings, numerals and JSON values.
  - `ast`, `model`, `flow`: queries, the configuration of an entity, and what the
    steps of a request ask for and get.
  - `filters`, `ordering`, `reading`, `writing`, `validation`, `pk_utils`,
    `idgen`, `caching`: the parts of which requests are made.
  - `post`, `put`, `delete`, `get`, `patch`, `trace`, `import`, `export`, `seed`,
    `generate`, `foreign_key`: the requests of the plain routes.
  - `services`, `repositories`, `handlers`: the same for the layered routes, which
    also write the rows that belong to a row.
  - `sheets`, `tabular`: CSV files and workbooks.
  - `archive`, `compound`: whether a file that is uploaded as a workbook is sound.
  - `consumer`, `email_queue`, `retry`: writes and emails that wait in a queue.
- `app/` runs the library: HTTP, the queue, SMTP and the conversion of values. The
  database, the tokens and the formulas of a configuration are behind its trait
  `Site`.
- `tests/` runs the library on concrete values.

## What is trusted

Calls into other crates stand behind small functions whose contracts are believed
and not proved; each names the function that it calls. They are in `text`, `json`,
`filters`, `post`, `idgen`, `importing`, `archive`, `tabular`, `sheets`, `retry` and
`email_queue`.

Fractions are carried as their numerals: the library does not compute with them.
