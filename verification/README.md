# aicacia_db

A small relational database in Verus: SQL and typed queries over tables that are
kept in named, ordered trees. What each function gives, and when it refuses, is
stated in its contract and proved.

- `src/` is the library.
  - `value`, `schema`, `query`, `predicate`: values, tables and queries, each with
    its mathematical model.
  - `codec`, `documents`: values, rows, keys and schemas as bytes.
  - `ordered_map`, `patch`, `store`, `in_memory`, `store_facade`: trees and the
    transactions on them.
  - `catalog`, `executor`, `update_expr`, `join_builder`, `select_pipeline`,
    `select_orchestrator`, `operators`, `plan`, `planner`: running queries.
  - `engine`, `subscriptions`, `access_control`, `change_event`, `facade`: the
    database, those who follow it, and what they may see.
  - `columns`: the columns that a predicate or a query names, table by table.
  - `sql`: statements as the `sqlparser` crate reads them, and the queries that
    they stand for. `sql::tokens` knows the few texts that the parser is not given.
  - `*_laws`, `consistency`: what holds across functions, such as that indexes
    agree with their tables, that a failed statement changes nothing, that what
    was written is read back, and that a described table is the registered one.
    `read_laws`, `hiding_laws`, `change_laws`, `tidings_laws` and
    `subscription_laws` are about those who follow a query, and `session_laws` puts
    them together: whatever queries, transactions, subscriptions and registrations
    are made of a database, once its changes have been told, every subscriber
    whose query only reads has been told last what the query gives now. It leaves
    out a table that is dropped, an index over a table with rows, and a
    transaction that is committed though a write of it failed.
- `tests/` runs the library on concrete values.
- `app/` is the part around it: asynchronous handles, listeners, typed rows by
  `serde`, stores in files by `redb`, and floating point.

Doubles are kept as their bits; arithmetic on them is handed in as a function.
What the library takes on trust of other crates stands in the doc comments of the
items marked `external_body`.
