use rustllm::{BigramStats, BigramStatsError, TokenId};

#[test]
fn new_creates_zeroed_counts() {
    let stats = BigramStats::new(3).unwrap();

    assert_eq!(stats.counts.len(), 3_usize.checked_mul(3).unwrap());
    assert!(stats.counts.iter().all(|&count| count == 0));
}

#[test]
fn new_rejects_empty_vocabulary() {
    assert_eq!(BigramStats::new(0), Err(BigramStatsError::EmptyVocabulary));
}

#[test]
fn new_rejects_matrix_size_overflow() {
    assert_eq!(
        BigramStats::new(usize::MAX),
        Err(BigramStatsError::MatrixSizeOverflow)
    );
}

#[test]
fn index_uses_row_major_layout() {
    let t0 = TokenId::from_index(0).unwrap();
    let t1 = TokenId::from_index(1).unwrap();
    let stats = BigramStats::new(2).unwrap();

    assert_eq!(stats.index(t0, t0).unwrap(), 0);
    assert_eq!(stats.index(t0, t1).unwrap(), 1);
    assert_eq!(stats.index(t1, t0).unwrap(), 2);
    assert_eq!(stats.index(t1, t1).unwrap(), 3);
}

#[test]
fn index_rejects_invalid_current() {
    let v = 2;
    let stats = BigramStats::new(v).unwrap();
    let current = TokenId::from_index(2).unwrap();
    let next = TokenId::from_index(0).unwrap();

    assert_eq!(
        stats.index(current, next),
        Err(BigramStatsError::TokenOutOfVocabulary {
            token: current,
            vocab_size: 2,
        })
    );
}

#[test]
fn index_rejects_invalid_next() {
    let stats = BigramStats::new(2).unwrap();
    let current = TokenId::from_index(0).unwrap();
    let next = TokenId::from_index(2).unwrap();

    assert_eq!(
        stats.index(current, next),
        Err(BigramStatsError::TokenOutOfVocabulary {
            token: next,
            vocab_size: 2_usize,
        })
    );
}

#[test]
fn index_reports_current_before_next() {
    let stats = BigramStats::new(2).unwrap();
    let current = TokenId::from_index(5).unwrap();
    let next = TokenId::from_index(7).unwrap();

    assert_eq!(
        stats.index(current, next),
        Err(BigramStatsError::TokenOutOfVocabulary {
            token: current,
            vocab_size: 2,
        })
    );
}

#[test]
fn observe_counts_bigrams() {
    let a = TokenId::from_index(0).unwrap();
    let b = TokenId::from_index(1).unwrap();
    let tokens = [a, b, b, a];
    let mut stats = BigramStats::new(2).unwrap();

    stats.observe(&tokens).unwrap();

    assert_eq!(stats.count(a, a).unwrap(), 0);
    assert_eq!(stats.count(a, b).unwrap(), 1);
    assert_eq!(stats.count(b, a).unwrap(), 1);
    assert_eq!(stats.count(b, b).unwrap(), 1);
}

#[test]
fn observe_accumulates_counts() {
    let a = TokenId::from_index(0).unwrap();
    let b = TokenId::from_index(1).unwrap();
    let mut stats = BigramStats::new(2).unwrap();

    stats.observe(&[a, b]).unwrap();
    stats.observe(&[a, b]).unwrap();

    assert_eq!(stats.count(a, b).unwrap(), 2);
}

#[test]
fn observe_empty_slice_does_nothing() {
    let mut stats = BigramStats::new(2).unwrap();

    stats.observe(&[]).unwrap();

    assert!(stats.counts.iter().all(|&count| count == 0));
}

#[test]
fn observe_single_token_does_nothing() {
    let a = TokenId::from_index(0).unwrap();
    let mut stats = BigramStats::new(2).unwrap();

    stats.observe(&[a]).unwrap();

    assert!(stats.counts.iter().all(|&count| count == 0));
}

#[test]
fn observe_rejects_out_of_vocabulary_token() {
    let a = TokenId::from_index(0).unwrap();
    let b = TokenId::from_index(2).unwrap();
    let mut stats = BigramStats::new(2).unwrap();

    assert_eq!(
        stats.observe(&[a, b]),
        Err(BigramStatsError::TokenOutOfVocabulary {
            token: b,
            vocab_size: stats.vocab_size
        })
    );
}

#[test]
fn observe_rejects_count_overflow() {
    let a = TokenId::from_index(0).unwrap();
    let b = TokenId::from_index(1).unwrap();
    let mut stats = BigramStats::new(2).unwrap();
    let index = stats.index(a, b).unwrap();
    stats.counts[index] = u64::MAX;

    assert_eq!(
        stats.observe(&[a, b]),
        Err(BigramStatsError::CountOverflow {
            current: a,
            next: b,
        })
    );
}

#[test]
fn observe_keeps_windows_before_the_failing_one() {
    let a = TokenId::from_index(0).unwrap();
    let b = TokenId::from_index(1).unwrap();
    let c = TokenId::from_index(5).unwrap();
    let mut stats = BigramStats::new(2).unwrap();

    assert_eq!(
        stats.observe(&[a, b, b, c, a]),
        Err(BigramStatsError::TokenOutOfVocabulary {
            token: c,
            vocab_size: 2
        })
    );
    assert_eq!(stats.count(a, b).unwrap(), 1);
    assert_eq!(stats.count(b, b).unwrap(), 1);
    assert_eq!(stats.count(b, a).unwrap(), 0);
    assert_eq!(stats.count(a, a).unwrap(), 0);
}

#[test]
fn count_rejects_out_of_vocabulary_token() {
    let a = TokenId::from_index(0).unwrap();
    let c = TokenId::from_index(3).unwrap();
    let stats = BigramStats::new(3).unwrap();

    assert_eq!(
        stats.count(a, c),
        Err(BigramStatsError::TokenOutOfVocabulary {
            token: c,
            vocab_size: 3
        })
    );
}

#[test]
fn outgoing_counts_of_observed_rows() {
    let a = TokenId::from_index(0).unwrap();
    let b = TokenId::from_index(1).unwrap();
    let tokens = [a, b, b, a];
    let mut stats = BigramStats::new(2).unwrap();

    stats.observe(&tokens).unwrap();

    assert_eq!(stats.outgoing_counts(a).unwrap(), (vec![0, 1], 1));
    assert_eq!(stats.outgoing_counts(b).unwrap(), (vec![1, 1], 2));
}

#[test]
fn probabilities_rejects_invalid_token() {
    let a = TokenId::from_index(0).unwrap();
    let b = TokenId::from_index(1).unwrap();
    let c = TokenId::from_index(2).unwrap();
    let tokens = [a, b, b, a];
    let mut stats = BigramStats::new(2).unwrap();

    stats.observe(&tokens).unwrap();

    assert_eq!(
        stats.outgoing_counts(c),
        Err(BigramStatsError::TokenOutOfVocabulary {
            token: c,
            vocab_size: 2
        })
    );
}

#[test]
fn probabilities_rejects_token_without_outgoing_transitions() {
    let a = TokenId::from_index(0).unwrap();
    let b = TokenId::from_index(1).unwrap();
    let tokens = [a, b];
    let mut stats = BigramStats::new(2).unwrap();

    stats.observe(&tokens).unwrap();

    assert_eq!(
        stats.outgoing_counts(b),
        Err(BigramStatsError::NoOutgoingTransitions(b))
    );
}

#[test]
fn outgoing_counts_rejects_total_overflow() {
    let a = TokenId::from_index(0).unwrap();
    let b = TokenId::from_index(1).unwrap();
    let mut stats = BigramStats::new(2).unwrap();
    let first = stats.index(a, a).unwrap();
    let second = stats.index(a, b).unwrap();
    stats.counts[first] = u64::MAX;
    stats.counts[second] = 1;

    assert_eq!(
        stats.outgoing_counts(a),
        Err(BigramStatsError::OutgoingCountOverflow(a))
    );
}

#[test]
fn observing_in_two_parts_misses_only_the_junction() {
    let a = TokenId::from_index(0).unwrap();
    let b = TokenId::from_index(1).unwrap();
    let mut whole = BigramStats::new(2).unwrap();
    let mut parts = BigramStats::new(2).unwrap();

    whole.observe(&[a, b, b, a]).unwrap();
    parts.observe(&[a, b]).unwrap();
    parts.observe(&[b, a]).unwrap();

    assert_eq!(whole.count(b, b).unwrap(), 1);
    assert_eq!(parts.count(b, b).unwrap(), 0);
    assert_eq!(whole.count(a, b).unwrap(), parts.count(a, b).unwrap());
    assert_eq!(whole.count(b, a).unwrap(), parts.count(b, a).unwrap());
    assert_eq!(whole.count(a, a).unwrap(), parts.count(a, a).unwrap());
}

#[test]
fn observe_rejects_single_out_of_vocabulary_token() {
    let c = TokenId::from_index(2).unwrap();
    let mut stats = BigramStats::new(2).unwrap();

    assert_eq!(
        stats.observe(&[c]),
        Err(BigramStatsError::TokenOutOfVocabulary {
            token: c,
            vocab_size: 2
        })
    );
    assert_eq!(stats, BigramStats::new(2).unwrap());
}

#[test]
fn bigram_stats_error_messages() {
    let a = TokenId::from_index(0).unwrap();
    let b = TokenId::from_index(12).unwrap();

    assert_eq!(
        BigramStatsError::TokenOutOfVocabulary {
            token: b,
            vocab_size: 3
        }
        .message(),
        "Token id `12` is outside vocabulary of size `3`"
    );
    assert_eq!(
        BigramStatsError::CountOverflow { current: a, next: b }.message(),
        "Transition count overflow for `0 -> 12`"
    );
    assert_eq!(
        BigramStatsError::NoOutgoingTransitions(b).message(),
        "No outgoing transitions observed for token `12`"
    );
    assert_eq!(
        BigramStatsError::EmptyVocabulary.message(),
        "Vocabulary must contain at least one token"
    );
    assert_eq!(
        BigramStatsError::MatrixSizeOverflow.message(),
        "Bigram matrix size exceeds the maximum addressable `usize` range"
    );
    assert_eq!(
        BigramStatsError::MatrixIndexOverflow.message(),
        "Bigram matrix index exceeds the maximum `usize` value"
    );
    assert_eq!(
        BigramStatsError::TokenIndexConversionOverflow.message(),
        "Token id cannot be represented as `usize` on this platform"
    );
    assert_eq!(
        BigramStatsError::OutgoingCountOverflow(a).message(),
        "Total outgoing transition count overflow for token `0`"
    );
}
