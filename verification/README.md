# grid

A spreadsheet for the terminal, with its engine verified by Verus.

`src/` is the engine, a library in which Verus proves the contract of every function
but a few: the wrappers around functions of the terminal library and of Rust's own
text functions, in `colors`, `fit` and `text`. Their contracts are believed, and each
says in its comment what it takes for granted.

- `model`, `cells`, `table`, `refs`: sheets of cells, their order, and the names of
  columns and cells.
- `lex`, `parse`, `ast`, `value`, `eval`, `recalc`: the formula language, from text
  to values. `agree` and `recalc` hold the laws of evaluation: in a sheet without
  cycles every cell shows what its formula denotes under the values that the sheet
  shows, and cells whose formulas hand each other's errors on in a ring come out as
  `#CYCLE`.
- `csv`, `colors`, `dates`, `io`: what is read from files and written to them, with
  the proofs that CSV text and colours read back as they were.
- `ai`: the prompt and the reply of an edit by an assistant.
- `view`, `render`, `fit`, `help`: the state of the program, what its keys do, and
  what the screen shows.
- `num`, `decimal`, `rounding`, `text`: numbers as bit patterns, decimal notation, its
  rounding to ten significant digits, and text as sequences of characters.

Numbers are 64-bit floats, kept as bit patterns. The library tells from the bits
which number is zero, whole, larger or no number at all; arithmetic, and reading and
writing numbers with a fraction, are functions that the caller hands in.

`app/` is the program around the library: files, the terminal, and the assistant
that edits are made with, whose command is named by the variable `GRID_AI`.
