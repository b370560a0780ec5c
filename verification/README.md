# todo_app

A small TODO service (JSON API over PostgreSQL) whose logic is a verified
Verus library.

- `src/` — the library, every function verified:
  - `todo::model` — the todo and creation request, and title validation
    (surrounding Unicode white space removed; empty and over-200-character
    titles refused).
  - `todo::memory` — an in-memory todo list (create, list, toggle, delete)
    with its invariant (ids strictly increasing) and proved laws.
  - `todo::handler` — how a toggle or delete is answered given what the
    database returned.
  - `error` — the error type, its HTTP status and the message a client sees.
  - `config` — configuration from key/value pairs: required keys, defaults,
    and errors that name the offending key.
  - `text` — trimming and decimal text, proved against their definitions.
- `app/` — the program: environment, logging, the database, HTTP routing.
- `tests/` — tests of the library.
