# onehup

The decision-making core of a desktop database client, written in Verus and
proved against its contracts.

## Layout

- `src/` — the verified library:
  - `text` — character-level string helpers and their specifications;
  - `export` — CSV, SQL `INSERT`, Markdown, Excel HTML/XML, Word RTF and JSON
    exports of a query result, with round-trip laws for the escapes;
  - `sql_run` — splitting a script into statements, result tabs, run
    summaries and the database picker;
  - `sql_editor` — completion, hover, keyword upper-casing, formatting and
    code actions of the SQL editor;
  - `tabs` — the tab container (order, active tab, overflow menu);
  - `tree` — the database explorer's nodes, lazy loading and menus;
  - `form`, `home`, `workspace`, `objects`, `table_view`, `storage`,
    `connection` — connection forms, the home page, the main window's
    connections and tabs, the object list, table tabs and stored records.
- `tests/` — tests run against the compiled library.
- `app/` — a small command-line front end: the SQLite store (sqlx), file
  export, serde copies of the stored records, and LSP values for the editor.
