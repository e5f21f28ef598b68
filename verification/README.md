# ternary_entropy

Information measures over the ternary alphabet {-1, 0, +1}.

- `src/` is the verified library (Verus): symbol validation and indexing
  (`symbol`), symbol tallies (`counts`), sliding-window tallies (`window`),
  reading whitespace-separated ternary sequences (`parse`), and the checks
  and labels the command-line tool reports with (`report`).
- `app/` is the command-line tool and the floating-point measures (Shannon,
  joint and conditional entropy, mutual information, KL divergence,
  cross-entropy, sliding-window entropy). They compute on `f64`, which the
  verified library does not hold; they take their symbol handling and window
  tallies from it.
