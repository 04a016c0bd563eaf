//! Line-oriented reader and evaluator for "game" records.
//!
//! A game record is a text line of the shape
//! `Game <id>: <count> <color>, <count> <color>; ...` where every color is
//! one of red, green or blue.  The crate tokenizes such lines, judges each
//! record against fixed per-color limits, and computes each record's
//! "power" (the product of the per-color maxima it mentions).

pub mod game;
pub mod lines;
pub mod options;
pub mod pager;
pub mod tokens;

pub use game::ext_solve_lines;
pub use game::solve_lines;
pub use game::Color;
pub use game::EvalError;
pub use lines::strip_newline;
pub use lines::CycleIter;
pub use lines::InfiniteLinesReader;
pub use lines::LinesIter;
pub use options::reduce;
pub use options::OptionExt;
pub use pager::PagedIterator;
pub use tokens::tokenize;
