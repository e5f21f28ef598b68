use ternary_entropy::{
    check_sequence, first_invalid_symbol, symbol_label, window_labels, EntropyUnit,
    SequenceError, SymbolCounts,
};

#[test]
fn check_empty_sequence() {
    assert_eq!(check_sequence(&[]), Err(SequenceError::Empty));
}

#[test]
fn check_reports_first_invalid_symbol() {
    assert_eq!(check_sequence(&[1, 2, -3]), Err(SequenceError::InvalidSymbol(2)));
    assert_eq!(check_sequence(&[0, 0, -3, 7]), Err(SequenceError::InvalidSymbol(-3)));
}

#[test]
fn check_valid_sequence_tallies() {
    assert_eq!(
        check_sequence(&[1, 1, -1, 0, 1]),
        Ok(SymbolCounts { negative: 1, neutral: 1, positive: 3 })
    );
}

#[test]
fn first_invalid_positions() {
    assert_eq!(first_invalid_symbol(&[]), None);
    assert_eq!(first_invalid_symbol(&[1, 0, -1]), None);
    assert_eq!(first_invalid_symbol(&[1, 0, 9, 8]), Some(2));
    assert_eq!(first_invalid_symbol(&[-2]), Some(0));
}

#[test]
fn units_from_base() {
    assert_eq!(EntropyUnit::from_base("bits"), EntropyUnit::Bits);
    assert_eq!(EntropyUnit::from_base("trits"), EntropyUnit::Trits);
    assert_eq!(EntropyUnit::from_base("nats"), EntropyUnit::Nats);
    assert_eq!(EntropyUnit::from_base("BITS"), EntropyUnit::Nats);
    assert_eq!(EntropyUnit::from_base(""), EntropyUnit::Nats);
    assert_eq!(EntropyUnit::from_base("bit"), EntropyUnit::Nats);
}

#[test]
fn unit_names() {
    assert_eq!(EntropyUnit::Nats.name(), "nats");
    assert_eq!(EntropyUnit::Bits.name(), "bits");
    assert_eq!(EntropyUnit::Trits.name(), "trits");
}

#[test]
fn labels_of_symbols() {
    assert_eq!(symbol_label(-1), "-");
    assert_eq!(symbol_label(0), "0");
    assert_eq!(symbol_label(1), "1");
}

#[test]
fn labels_of_windows() {
    let seq: Vec<i8> = vec![1, 0, -1, 1];
    assert_eq!(window_labels(&seq, 1, 3), "0 - 1");
    assert_eq!(window_labels(&seq, 0, 1), "1");
    assert_eq!(window_labels(&seq, 0, 4), "1 0 - 1");
    assert_eq!(window_labels(&seq, 2, 0), "");
}
