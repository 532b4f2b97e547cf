# orm

A PostgreSQL schema, migration and query-building toolkit whose core is
verified with Verus.

- `src/` is the verified library: the schema model, its diff against a
  declared schema (with rename decisions, dependency-ordered table creation
  and enum replacement), the inverse of a diff, SQL rendering, building the
  model from catalog rows, matching catalog spellings to declared ones,
  migration file names and history checks, the query builder (filters,
  sorting, paging, inserts and updates), decimal text for `numeric` and its
  binary wire format, TypeScript declarations, and validation helpers.
- `app/` holds what runs around it: the command line, files and snapshots on
  disk, the database connection and catalog queries, terminal prompts, the
  axum validation extractor and the PostgreSQL conversions.
- `tests/` exercises the library from outside.
