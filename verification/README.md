# get_clocked

A time-tracking library: work entries with hours and category tags, exported
as CSV or XLSX tables, copied to the clipboard as TSV, with category lists
imported from spreadsheets and templates saved under sanitized file names.

- `src/` is the verified library (Verus). `model` holds settings and the
  export and date formats; `export` the columns, header and rows of an
  export and the file names; `csvfile` the CSV encoding and decoding;
  `sheets` the spreadsheet layouts and the text of worksheet cells;
  `categories` the import of category lists; `templates` the template file
  names; `drafts` the decisions of the editors and of an export.
- `app/` is the Tauri backend program: file I/O, dialogs and JSON around the
  library, and the reading of XLSX workbooks with calamine, which hands the
  library each cell as a `SheetCell`. That reading is kept out of the
  library because calamine can panic: it computes cell references with
  unchecked arithmetic, so a workbook whose references run to about eight
  letters or ten digits overflows it in builds with overflow checks.
- `tests/` runs the library on concrete values.
