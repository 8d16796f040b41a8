//! A prize-drawing ("lottery") library: the prize and candidate model, the
//! loaders that turn imported text or spreadsheet cells into prizes and
//! candidates, the draw state machine, and the text it shows and exports.

pub mod model;
pub mod text;
pub mod excel;
pub mod export;
pub mod app;
pub mod display;
pub mod laws;
