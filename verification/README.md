# lottery

A prize-drawing application: import prizes and candidates from `.txt`,
`.csv` or spreadsheet files, roll the names, stop to settle the winners of
the selected prize, and export the results.

- `src/` is the verified library (Verus):
  - `model.rs` — prizes, candidates, win records and their mathematical views;
  - `text.rs` — trimming, searching, number parsing and formatting on characters;
  - `excel.rs` — what an imported file's contents give as prizes or candidates;
  - `export.rs` — the text of the exported results;
  - `app.rs` — the application's state and what each message does to it;
  - `display.rs` — labels, counts and which buttons act;
  - `laws.rs` — properties of the whole: what every message keeps, what
    loading gives, what a draw may do.
- `app/` is the window (iced), the file dialogs (rfd), file reading and
  spreadsheet reading (calamine), and the writing of the results file.
- `tests/` runs the library on concrete values.
