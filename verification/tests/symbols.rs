use ternary_entropy::{count_symbols, is_ternary_symbol, symbol_to_index, SymbolCounts};

#[test]
fn symbol_indices() {
    assert_eq!(symbol_to_index(-1), 0);
    assert_eq!(symbol_to_index(0), 1);
    assert_eq!(symbol_to_index(1), 2);
}

#[test]
fn ternary_symbol_membership() {
    assert!(is_ternary_symbol(-1));
    assert!(is_ternary_symbol(0));
    assert!(is_ternary_symbol(1));
    assert!(!is_ternary_symbol(2));
    assert!(!is_ternary_symbol(-2));
    assert!(!is_ternary_symbol(42));
    assert!(!is_ternary_symbol(i8::MIN));
    assert!(!is_ternary_symbol(i8::MAX));
}

#[test]
fn counts_of_a_sequence() {
    let seq: Vec<i8> = vec![1, 0, -1, 1, 0, 1, -1, 0, 1, 1];
    let c = count_symbols(&seq);
    assert_eq!(c, SymbolCounts { negative: 2, neutral: 3, positive: 5 });
    assert_eq!(c.total(), seq.len());
    assert_eq!(c.to_array(), [2, 3, 5]);
    assert_eq!(c.get(0), 2);
    assert_eq!(c.get(1), 3);
    assert_eq!(c.get(2), 5);
}

#[test]
fn counts_of_empty_sequence() {
    let c = count_symbols(&[]);
    assert_eq!(c, SymbolCounts::zero());
    assert_eq!(c.total(), 0);
}

#[test]
fn counts_index_by_symbol() {
    let seq: Vec<i8> = vec![-1, -1, -1, 0, 1, 1];
    let c = count_symbols(&seq);
    assert_eq!(c.get(symbol_to_index(-1)), 3);
    assert_eq!(c.get(symbol_to_index(0)), 1);
    assert_eq!(c.get(symbol_to_index(1)), 2);
}

#[test]
fn add_and_remove_symbols() {
    let mut c = SymbolCounts::zero();
    c.add_symbol(1);
    c.add_symbol(1);
    c.add_symbol(-1);
    c.remove_symbol(1);
    c.add_symbol(0);
    assert_eq!(c, SymbolCounts { negative: 1, neutral: 1, positive: 1 });
}
