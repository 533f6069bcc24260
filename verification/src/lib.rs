//! The engine of a spreadsheet for the terminal: cells and formulas, their
//! evaluation, CSV files and workbooks, colours, and the state of the program with
//! what its keys do and its screen shows.

pub mod agree;
pub mod ai;
pub mod ast;
pub mod cells;
pub mod colors;
pub mod csv;
pub mod dates;
pub mod decimal;
pub mod eval;
pub mod fit;
pub mod help;
pub mod io;
pub mod lex;
pub mod meaning;
pub mod model;
pub mod num;
pub mod parse;
pub mod recalc;
pub mod refs;
pub mod render;
pub mod rounding;
pub mod table;
pub mod text;
pub mod value;
pub mod view;
