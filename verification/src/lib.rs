//! Verified symbol-level logic for information measures over the ternary
//! alphabet {-1, 0, +1}: symbol validation and indexing, symbol tallies,
//! sliding-window tallies, and parsing of whitespace-separated sequences.

pub mod counts;
pub mod parse;
pub mod report;
pub mod symbol;
pub mod window;

pub use counts::{count_symbols, SymbolCounts};
pub use symbol::{is_ternary_symbol, symbol_to_index};
pub use window::sliding_window_counts;
pub use parse::{parse_ternary_string, SymbolParseError};
pub use report::{
    check_sequence, first_invalid_symbol, symbol_label, window_labels, EntropyUnit, SequenceError,
};
