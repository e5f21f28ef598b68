use ternary_entropy::{count_symbols, sliding_window_counts, SymbolCounts};

fn counts(negative: usize, neutral: usize, positive: usize) -> SymbolCounts {
    SymbolCounts { negative, neutral, positive }
}

/// Shannon entropy in nats of a window's empirical distribution.
fn window_entropy_nats(c: &SymbolCounts, window_size: usize) -> f64 {
    let total = window_size as f64;
    let mut h = 0.0;
    for n in c.to_array() {
        if n == 0 {
            continue;
        }
        let p = n as f64 / total;
        h -= p * p.ln();
    }
    h
}

#[test]
fn test_sliding_basic() {
    let seq: Vec<i8> = vec![1, 0, -1, 1, 0, 1, -1, 0, 1, 1];
    let windows = sliding_window_counts(&seq, 3);
    assert_eq!(windows.len(), 8);
    for c in &windows {
        let h = window_entropy_nats(c, 3);
        assert!(h >= 0.0);
        assert!(h <= 3.0_f64.ln() + 1e-12);
    }
}

#[test]
fn test_sliding_all_same() {
    let seq: Vec<i8> = vec![1, 1, 1, 1, 1];
    let windows = sliding_window_counts(&seq, 3);
    assert_eq!(windows.len(), 3);
    for c in &windows {
        assert!(window_entropy_nats(c, 3).abs() < 1e-12);
    }
}

#[test]
fn test_sliding_empty() {
    let seq: Vec<i8> = vec![];
    assert_eq!(sliding_window_counts(&seq, 3).len(), 0);
}

#[test]
fn test_sliding_window_larger_than_seq() {
    let seq: Vec<i8> = vec![1, 0, -1];
    assert_eq!(sliding_window_counts(&seq, 5).len(), 0);
}

#[test]
fn test_sliding_window_size_zero() {
    let seq: Vec<i8> = vec![1, 0, -1];
    assert_eq!(sliding_window_counts(&seq, 0).len(), 0);
}

#[test]
fn test_sliding_window_exact() {
    let seq: Vec<i8> = vec![1, 1, 1, 0, 0, 0, -1, -1, -1];
    let windows = sliding_window_counts(&seq, 9);
    assert_eq!(windows.len(), 1);
    assert_eq!(windows[0], counts(3, 3, 3));
    let expected = 3.0_f64.ln();
    assert!((window_entropy_nats(&windows[0], 9) - expected).abs() < 1e-12);
}

#[test]
fn sliding_counts_exact_values() {
    let seq: Vec<i8> = vec![1, 0, -1, 1, 0, 1, -1, 0, 1, 1];
    let windows = sliding_window_counts(&seq, 3);
    let expected = vec![
        counts(1, 1, 1),
        counts(1, 1, 1),
        counts(1, 1, 1),
        counts(0, 1, 2),
        counts(1, 1, 1),
        counts(1, 1, 1),
        counts(1, 1, 1),
        counts(0, 1, 2),
    ];
    assert_eq!(windows, expected);
}

#[test]
fn sliding_counts_match_direct_counts() {
    let seq: Vec<i8> = vec![-1, -1, 0, 1, 0, -1, 1, 1, 1, 0, -1];
    for w in 1..=seq.len() {
        let windows = sliding_window_counts(&seq, w);
        assert_eq!(windows.len(), seq.len() - w + 1);
        for (k, c) in windows.iter().enumerate() {
            assert_eq!(*c, count_symbols(&seq[k..k + w]));
            assert_eq!(c.total(), w);
        }
    }
}

#[test]
fn full_window_equals_whole_tally() {
    let seq: Vec<i8> = vec![0, 1, 1, -1, 0, 0, 0];
    let windows = sliding_window_counts(&seq, seq.len());
    assert_eq!(windows, vec![count_symbols(&seq)]);
    assert_eq!(windows[0], counts(1, 4, 2));
}

#[test]
fn constant_sequence_windows_are_concentrated() {
    let seq: Vec<i8> = vec![-1; 6];
    let windows = sliding_window_counts(&seq, 4);
    assert_eq!(windows, vec![counts(4, 0, 0); 3]);
}

#[test]
fn short_sequence_is_not_inspected() {
    let seq: Vec<i8> = vec![5, 7];
    assert!(sliding_window_counts(&seq, 3).is_empty());
    assert!(sliding_window_counts(&seq, 0).is_empty());
}

#[test]
fn window_of_one_symbol() {
    let seq: Vec<i8> = vec![1, -1, 0];
    let windows = sliding_window_counts(&seq, 1);
    assert_eq!(windows, vec![counts(0, 0, 1), counts(1, 0, 0), counts(0, 1, 0)]);
}
