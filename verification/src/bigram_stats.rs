//! Transition statistics between neighbouring tokens.
//!
//! For a vocabulary of size `V` the statistics hold a `V × V` matrix whose
//! cell `(current, next)` counts the observed transitions
//! `current -> next`. The matrix is stored row-major in one `Vec<u64>`.

use crate::text::{decimal, decimal_string};
use crate::tokenizer::TokenId;
use vstd::prelude::*;

verus! {

/// Cell of `(current, next)` in a row-major `vocab_size × vocab_size`
/// matrix.
pub open spec fn cell_index(vocab_size: int, current: int, next: int) -> int {
    current * vocab_size + next
}

/// Number of positions `i` with `tokens[i] == current` and
/// `tokens[i + 1] == next`: how often the transition `current -> next`
/// occurs in `tokens`.
pub open spec fn pair_count(tokens: Seq<TokenId>, current: int, next: int) -> nat
    decreases tokens.len(),
{
    if tokens.len() < 2 {
        0
    } else {
        let n = tokens.len() as int;
        pair_count(tokens.drop_last(), current, next) + if tokens[n - 2]@ == current
            && tokens[n - 1]@ == next {
            1nat
        } else {
            0nat
        }
    }
}

/// Sum of a sequence of counters.
pub open spec fn seq_sum(s: Seq<u64>) -> int
    decreases s.len(),
{
    if s.len() == 0 {
        0
    } else {
        seq_sum(s.drop_last()) + s.last()
    }
}

/// Distinct cells of the matrix have distinct indices, and every cell lies
/// inside the matrix.
proof fn lemma_cell_index(v: int, c1: int, n1: int, c2: int, n2: int)
    requires
        0 <= c1 < v,
        0 <= n1 < v,
        0 <= c2 < v,
        0 <= n2 < v,
    ensures
        0 <= cell_index(v, c1, n1) < v * v,
        cell_index(v, c1, n1) + v <= v * v + n1,
        (c1 != c2 || n1 != n2) ==> cell_index(v, c1, n1) != cell_index(v, c2, n2),
{
    assert(0 <= c1 * v + n1 < v * v && c1 * v + v <= v * v) by (nonlinear_arith)
        requires
            0 <= c1 < v,
            0 <= n1 < v,
    ;
    if c1 != c2 || n1 != n2 {
        assert(c1 * v + n1 != c2 * v + n2) by (nonlinear_arith)
            requires
                0 <= c1 < v,
                0 <= n1 < v,
                0 <= c2 < v,
                0 <= n2 < v,
                c1 != c2 || n1 != n2,
        {
            if c1 < c2 {
                assert(c1 * v + v <= c2 * v);
            } else if c2 < c1 {
                assert(c2 * v + v <= c1 * v);
            }
        }
    }
}


/// Extending a prefix by one token adds the one window it closes.
proof fn lemma_pair_count_step(tokens: Seq<TokenId>, i: int, current: int, next: int)
    requires
        1 <= i < tokens.len(),
    ensures
        pair_count(tokens.subrange(0, i + 1), current, next) == pair_count(
            tokens.subrange(0, i),
            current,
            next,
        ) + if tokens[i - 1]@ == current && tokens[i]@ == next {
            1nat
        } else {
            0nat
        },
{
    let longer = tokens.subrange(0, i + 1);
    assert(longer.drop_last() =~= tokens.subrange(0, i));
}


/// The sum of a prefix of counters is at most the sum of the whole.
proof fn lemma_seq_sum_prefix(s: Seq<u64>, i: int)
    requires
        0 <= i <= s.len(),
    ensures
        0 <= seq_sum(s.subrange(0, i)) <= seq_sum(s),
    decreases s.len(),
{
    if s.len() > 0 {
        if i == s.len() {
            assert(s.subrange(0, i) =~= s);
            lemma_seq_sum_prefix(s.drop_last(), i - 1);
        } else {
            assert(s.drop_last().subrange(0, i) =~= s.subrange(0, i));
            lemma_seq_sum_prefix(s.drop_last(), i);
        }
    }
}

/// Extending a prefix by one counter adds that counter to the sum.
proof fn lemma_seq_sum_step(s: Seq<u64>, i: int)
    requires
        0 <= i < s.len(),
    ensures
        seq_sum(s.subrange(0, i + 1)) == seq_sum(s.subrange(0, i)) + s[i],
{
    assert(s.subrange(0, i + 1).drop_last() =~= s.subrange(0, i));
}


/// Transitions of a concatenation: those of each part, plus the one
/// transition from the last token of `a` to the first token of `b`.
/// Observing `a` and then `b` therefore counts the same as observing
/// `a + b`, except for that junction.
pub proof fn lemma_pair_count_concat(a: Seq<TokenId>, b: Seq<TokenId>, current: int, next: int)
    ensures
        pair_count(a + b, current, next) == pair_count(a, current, next) + pair_count(
            b,
            current,
            next,
        ) + if a.len() > 0 && b.len() > 0 && a.last()@ == current && b[0]@ == next {
            1nat
        } else {
            0nat
        },
    decreases b.len(),
{
    if b.len() == 0 {
        assert(a + b =~= a);
    } else {
        let ab = a + b;
        assert(ab.drop_last() =~= a + b.drop_last());
        lemma_pair_count_concat(a, b.drop_last(), current, next);
        if b.len() == 1 {
            assert(b.drop_last().len() == 0);
            if a.len() > 0 {
                assert(ab[ab.len() - 2] == a.last());
            }
        } else {
            assert(ab[ab.len() - 2] == b[b.len() - 2]);
            assert(b.drop_last()[0] == b[0]);
        }
    }
}


/// A sequence of `len` tokens has at most `len - 1` windows, so no
/// transition occurs more often than that.
pub proof fn lemma_pair_count_bound(tokens: Seq<TokenId>, current: int, next: int)
    ensures
        tokens.len() >= 1 ==> pair_count(tokens, current, next) <= tokens.len() - 1,
        tokens.len() == 0 ==> pair_count(tokens, current, next) == 0,
    decreases tokens.len(),
{
    if tokens.len() >= 2 {
        lemma_pair_count_bound(tokens.drop_last(), current, next);
    }
}

/// Sequences of fewer than two tokens contain no transition.
pub proof fn lemma_short_sequences_have_no_pairs(tokens: Seq<TokenId>, current: int, next: int)
    requires
        tokens.len() < 2,
    ensures
        pair_count(tokens, current, next) == 0,
{
}

/// Transition statistics between neighbouring tokens.
///
/// `counts` holds the `vocab_size × vocab_size` matrix row-major: the cell
/// of `(current, next)` is at `current * vocab_size + next`.
#[derive(Debug, PartialEq)]
pub struct BigramStats {
    pub counts: Vec<u64>,
    pub vocab_size: usize,
}

/// Errors raised while building or using [`BigramStats`].
#[derive(Debug, PartialEq, Eq)]
pub enum BigramStatsError {
    /// The token is not part of the vocabulary of these statistics.
    TokenOutOfVocabulary { token: TokenId, vocab_size: usize },
    /// A transition counter reached `u64::MAX`.
    CountOverflow { current: TokenId, next: TokenId },
    /// No outgoing transition of the token has been observed yet.
    NoOutgoingTransitions(TokenId),
    /// The vocabulary must not be empty.
    EmptyVocabulary,
    /// The `V × V` matrix does not fit in the address space.
    MatrixSizeOverflow,
    /// A matrix index does not fit in `usize`.
    MatrixIndexOverflow,
    /// A `TokenId` value cannot be represented as `usize`.
    TokenIndexConversionOverflow,
    /// The sum of all outgoing counters of the token does not fit in `u64`.
    OutgoingCountOverflow(TokenId),
}


/// Text shown to the user for an error of the statistics.
pub open spec fn bigram_stats_error_text(e: BigramStatsError) -> Seq<char> {
    match e {
        BigramStatsError::TokenOutOfVocabulary { token, vocab_size } => "Token id `"@ + decimal(
            token@ as nat,
        ) + "` is outside vocabulary of size `"@ + decimal(vocab_size as nat) + "`"@,
        BigramStatsError::CountOverflow { current, next } => "Transition count overflow for `"@
            + decimal(current@ as nat) + " -> "@ + decimal(next@ as nat) + "`"@,
        BigramStatsError::NoOutgoingTransitions(token) => "No outgoing transitions observed for token `"@
            + decimal(token@ as nat) + "`"@,
        BigramStatsError::EmptyVocabulary => "Vocabulary must contain at least one token"@,
        BigramStatsError::MatrixSizeOverflow => "Bigram matrix size exceeds the maximum addressable `usize` range"@,
        BigramStatsError::MatrixIndexOverflow => "Bigram matrix index exceeds the maximum `usize` value"@,
        BigramStatsError::TokenIndexConversionOverflow => "Token id cannot be represented as `usize` on this platform"@,
        BigramStatsError::OutgoingCountOverflow(token) => "Total outgoing transition count overflow for token `"@
            + decimal(token@ as nat) + "`"@,
    }
}

impl BigramStatsError {
    /// Text shown to the user for this error.
    pub fn message(&self) -> (s: String)
        ensures
            s@ == bigram_stats_error_text(*self),
    {
        match self {
            BigramStatsError::TokenOutOfVocabulary { token, vocab_size } => {
                let mut s = String::from_str("Token id `");
                s.append(token.to_text().as_str());
                s.append("` is outside vocabulary of size `");
                s.append(decimal_string(*vocab_size as u64).as_str());
                s.append("`");
                s
            },
            BigramStatsError::CountOverflow { current, next } => {
                let mut s = String::from_str("Transition count overflow for `");
                s.append(current.to_text().as_str());
                s.append(" -> ");
                s.append(next.to_text().as_str());
                s.append("`");
                s
            },
            BigramStatsError::NoOutgoingTransitions(token) => {
                let mut s = String::from_str("No outgoing transitions observed for token `");
                s.append(token.to_text().as_str());
                s.append("`");
                s
            },
            BigramStatsError::EmptyVocabulary => String::from_str(
                "Vocabulary must contain at least one token",
            ),
            BigramStatsError::MatrixSizeOverflow => String::from_str(
                "Bigram matrix size exceeds the maximum addressable `usize` range",
            ),
            BigramStatsError::MatrixIndexOverflow => String::from_str(
                "Bigram matrix index exceeds the maximum `usize` value",
            ),
            BigramStatsError::TokenIndexConversionOverflow => String::from_str(
                "Token id cannot be represented as `usize` on this platform",
            ),
            BigramStatsError::OutgoingCountOverflow(token) => {
                let mut s = String::from_str("Total outgoing transition count overflow for token `");
                s.append(token.to_text().as_str());
                s.append("`");
                s
            },
        }
    }
}

impl BigramStats {
    /// The matrix has exactly `vocab_size × vocab_size` cells, a number
    /// that fits in `usize`, and the vocabulary is not empty.
    pub open spec fn wf(&self) -> bool {
        &&& self.vocab_size > 0
        &&& self.counts@.len() == self.vocab_size * self.vocab_size
        &&& self.counts@.len() <= usize::MAX
    }

    /// Observed number of transitions `current -> next`.
    pub open spec fn count_of(&self, current: int, next: int) -> u64 {
        self.counts@[cell_index(self.vocab_size as int, current, next)]
    }


    /// The counters of the transitions leaving `current`, by next token.
    pub open spec fn row(&self, current: int) -> Seq<u64> {
        let start = cell_index(self.vocab_size as int, current, 0);
        self.counts@.subrange(start, start + self.vocab_size)
    }

    /// `token` belongs to the vocabulary.
    pub open spec fn in_vocabulary(&self, token: TokenId) -> bool {
        token@ < self.vocab_size
    }

    /// The error for the first of `current`, `next` outside the vocabulary.
    pub open spec fn out_of_vocabulary_error(
        &self,
        current: TokenId,
        next: TokenId,
    ) -> BigramStatsError {
        if !self.in_vocabulary(current) {
            BigramStatsError::TokenOutOfVocabulary { token: current, vocab_size: self.vocab_size }
        } else {
            BigramStatsError::TokenOutOfVocabulary { token: next, vocab_size: self.vocab_size }
        }
    }

    /// `after` holds the counts of `self` plus the transitions of `tokens`.
    pub open spec fn adds_pairs(&self, after: &BigramStats, tokens: Seq<TokenId>) -> bool {
        &&& after.vocab_size == self.vocab_size
        &&& after.counts@.len() == self.counts@.len()
        &&& forall|c: int, n: int|
            0 <= c < self.vocab_size && 0 <= n < self.vocab_size ==> #[trigger] after.count_of(c, n)
                == self.count_of(c, n) + pair_count(tokens, c, n)
    }

    /// Observing the window `tokens[k], tokens[k + 1]` after the windows
    /// before it fails: a token is outside the vocabulary, or the counter
    /// of the transition is already at `u64::MAX`.
    pub open spec fn window_fails(&self, tokens: Seq<TokenId>, k: int) -> bool {
        let c = tokens[k];
        let n = tokens[k + 1];
        ||| !self.in_vocabulary(c)
        ||| !self.in_vocabulary(n)
        ||| self.count_of(c@ as int, n@ as int) + pair_count(tokens.subrange(0, k + 1), c@ as int, n@ as int)
            >= u64::MAX
    }

    /// The error raised by a failing window `k`.
    pub open spec fn window_error(&self, tokens: Seq<TokenId>, k: int) -> BigramStatsError {
        let c = tokens[k];
        let n = tokens[k + 1];
        if !self.in_vocabulary(c) || !self.in_vocabulary(n) {
            self.out_of_vocabulary_error(c, n)
        } else {
            BigramStatsError::CountOverflow { current: c, next: n }
        }
    }

    /// Creates empty statistics for a vocabulary of `vocab_size` tokens:
    /// every counter is zero.
    pub fn new(vocab_size: usize) -> (r: Result<Self, BigramStatsError>)
        ensures
            vocab_size == 0 ==> r == Err::<Self, _>(BigramStatsError::EmptyVocabulary),
            vocab_size > 0 && vocab_size * vocab_size > usize::MAX ==> r == Err::<Self, _>(
                BigramStatsError::MatrixSizeOverflow,
            ),
            vocab_size > 0 && vocab_size * vocab_size <= usize::MAX ==> r is Ok,
            r matches Ok(s) ==> {
                &&& s.wf()
                &&& s.vocab_size == vocab_size
                &&& forall|i: int| 0 <= i < s.counts@.len() ==> s.counts@[i] == 0
            },
    {
        if vocab_size == 0 {
            return Err(BigramStatsError::EmptyVocabulary);
        }
        let size = match vocab_size.checked_mul(vocab_size) {
            Some(size) => size,
            None => return Err(BigramStatsError::MatrixSizeOverflow),
        };
        let mut counts: Vec<u64> = Vec::with_capacity(size);
        for i in 0..size
            invariant
                counts@.len() == i,
                forall|j: int| 0 <= j < i ==> counts@[j] == 0,
        {
            counts.push(0);
        }
        Ok(BigramStats { counts, vocab_size })
    }

    /// Checks that `token` belongs to the vocabulary and returns its index.
    fn validate_token(&self, token: TokenId) -> (r: Result<usize, BigramStatsError>)
        ensures
            self.in_vocabulary(token) ==> r == Ok::<usize, BigramStatsError>(token@ as usize),
            !self.in_vocabulary(token) ==> r == Err::<usize, _>(
                BigramStatsError::TokenOutOfVocabulary { token, vocab_size: self.vocab_size },
            ),
    {
        let token_idx = match token.index() {
            Some(idx) => idx,
            None => return Err(BigramStatsError::TokenIndexConversionOverflow),
        };
        if token_idx >= self.vocab_size {
            return Err(BigramStatsError::TokenOutOfVocabulary { token, vocab_size: self.vocab_size });
        }
        Ok(token_idx)
    }

    /// Index of the transition `(current, next)` in the row-major matrix.
    pub fn index(&self, current: TokenId, next: TokenId) -> (r: Result<usize, BigramStatsError>)
        requires
            self.wf(),
        ensures
            self.in_vocabulary(current) && self.in_vocabulary(next) ==> r == Ok::<
                usize,
                BigramStatsError,
            >(cell_index(self.vocab_size as int, current@ as int, next@ as int) as usize),
            !(self.in_vocabulary(current) && self.in_vocabulary(next)) ==> r == Err::<usize, _>(
                self.out_of_vocabulary_error(current, next),
            ),
            r matches Ok(i) ==> i < self.counts@.len() && i as int == cell_index(
                self.vocab_size as int,
                current@ as int,
                next@ as int,
            ),
    {
        let current_idx = self.validate_token(current)?;
        let next_idx = self.validate_token(next)?;
        proof {
            lemma_cell_index(
                self.vocab_size as int,
                current_idx as int,
                next_idx as int,
                current_idx as int,
                next_idx as int,
            );
        }
        let row = match current_idx.checked_mul(self.vocab_size) {
            Some(row) => row,
            None => return Err(BigramStatsError::MatrixIndexOverflow),
        };
        match row.checked_add(next_idx) {
            Some(index) => Ok(index),
            None => Err(BigramStatsError::MatrixIndexOverflow),
        }
    }

    /// Number of observed transitions `current -> next`.
    pub fn count(&self, current: TokenId, next: TokenId) -> (r: Result<u64, BigramStatsError>)
        requires
            self.wf(),
        ensures
            self.in_vocabulary(current) && self.in_vocabulary(next) ==> r == Ok::<
                u64,
                BigramStatsError,
            >(self.count_of(current@ as int, next@ as int)),
            !(self.in_vocabulary(current) && self.in_vocabulary(next)) ==> r == Err::<u64, _>(
                self.out_of_vocabulary_error(current, next),
            ),
    {
        let index = self.index(current, next)?;
        Ok(self.counts[index])
    }

    /// Adds the transitions between neighbouring tokens of `tokens`: for
    /// `[A, B, C]` the transitions `A -> B` and `B -> C`. Counters observed
    /// before are kept; an empty slice changes nothing, and neither does a
    /// single token of the vocabulary.
    ///
    /// Every token must belong to the vocabulary: a single token outside
    /// it is rejected with [`BigramStatsError::TokenOutOfVocabulary`].
    /// Windows are processed in order. The first window with a token
    /// outside the vocabulary, or whose counter is already `u64::MAX`, stops
    /// the observation with that error; the windows before it stay counted.
    pub fn observe(&mut self, tokens: &[TokenId]) -> (r: Result<(), BigramStatsError>)
        requires
            old(self).wf(),
        ensures
            final(self).wf(),
            r is Ok <==> {
                &&& forall|i: int|
                    0 <= i < tokens@.len() ==> old(self).in_vocabulary(#[trigger] tokens@[i])
                &&& forall|k: int|
                    0 <= k < tokens@.len() - 1 ==> !#[trigger] old(self).window_fails(tokens@, k)
            },
            r is Ok ==> old(self).adds_pairs(&*final(self), tokens@),
            tokens@.len() == 1 && !old(self).in_vocabulary(tokens@[0]) ==> {
                &&& r == Err::<(), BigramStatsError>(
                    BigramStatsError::TokenOutOfVocabulary {
                        token: tokens@[0],
                        vocab_size: old(self).vocab_size,
                    },
                )
                &&& *final(self) == *old(self)
            },
            r matches Err(e) ==> tokens@.len() != 1 ==> exists|k: int|
                #![trigger old(self).window_fails(tokens@, k)]
                {
                    &&& 0 <= k < tokens@.len() - 1
                    &&& old(self).window_fails(tokens@, k)
                    &&& forall|j: int| 0 <= j < k ==> !#[trigger] old(self).window_fails(tokens@, j)
                    &&& e == old(self).window_error(tokens@, k)
                    &&& old(self).adds_pairs(&*final(self), tokens@.subrange(0, k + 1))
                },
    {
        let n = tokens.len();
        if n == 1 {
            if let Err(e) = self.validate_token(tokens[0]) {
                return Err(e);
            }
        }
        if n < 2 {
            proof {
                assert forall|c: int, m: int|
                    0 <= c < self.vocab_size && 0 <= m < self.vocab_size implies #[trigger] self.count_of(c, m)
                    == old(self).count_of(c, m) + pair_count(tokens@, c, m) by {
                    lemma_short_sequences_have_no_pairs(tokens@, c, m);
                }
            }
            return Ok(());
        }
        proof {
            assert forall|c: int, m: int|
                0 <= c < self.vocab_size && 0 <= m < self.vocab_size implies #[trigger] self.count_of(c, m)
                == old(self).count_of(c, m) + pair_count(tokens@.subrange(0, 1), c, m) by {
                lemma_short_sequences_have_no_pairs(tokens@.subrange(0, 1), c, m);
            }
        }
        let mut i: usize = 1;
        while i < n
            invariant
                n == tokens@.len(),
                2 <= n,
                1 <= i <= n,
                old(self).wf(),
                self.wf(),
                old(self).adds_pairs(self, tokens@.subrange(0, i as int)),
                forall|j: int| 0 <= j < i - 1 ==> !#[trigger] old(self).window_fails(tokens@, j),
            decreases n - i,
        {
            let current = tokens[i - 1];
            let next = tokens[i];
            let ghost k = i - 1;
            let index = match self.index(current, next) {
                Ok(index) => index,
                Err(e) => {
                    proof {
                        assert(old(self).window_fails(tokens@, k as int));
                    }
                    return Err(e);
                },
            };
            let value = self.counts[index];
            proof {
                assert(value == self.count_of(current@ as int, next@ as int));
                assert(self.count_of(current@ as int, next@ as int) == old(self).count_of(
                    current@ as int,
                    next@ as int,
                ) + pair_count(tokens@.subrange(0, i as int), current@ as int, next@ as int));
                assert(tokens@.subrange(0, k + 1) == tokens@.subrange(0, i as int));
            }
            let incremented = match value.checked_add(1) {
                Some(v) => v,
                None => {
                    proof {
                        assert(old(self).window_fails(tokens@, k as int));
                    }
                    return Err(BigramStatsError::CountOverflow { current, next });
                },
            };
            let ghost before = *self;
            self.counts.set(index, incremented);
            proof {
                assert(!old(self).window_fails(tokens@, k as int));
                assert forall|c: int, m: int|
                    0 <= c < self.vocab_size && 0 <= m < self.vocab_size implies #[trigger] self.count_of(c, m)
                    == old(self).count_of(c, m) + pair_count(tokens@.subrange(0, i + 1), c, m) by {
                    lemma_pair_count_step(tokens@, i as int, c, m);
                    lemma_cell_index(self.vocab_size as int, c, m, current@ as int, next@ as int);
                    assert(before.count_of(c, m) == old(self).count_of(c, m) + pair_count(
                        tokens@.subrange(0, i as int),
                        c,
                        m,
                    ));
                }
            }
            i = i + 1;
        }
        proof {
            assert(tokens@.subrange(0, n as int) == tokens@);
            assert forall|t: int| 0 <= t < n implies old(self).in_vocabulary(#[trigger] tokens@[t]) by {
                if t < n - 1 {
                    assert(!old(self).window_fails(tokens@, t));
                } else {
                    assert(!old(self).window_fails(tokens@, t - 1));
                }
            }
        }
        Ok(())
    }

    /// The counters of the transitions leaving `current`, by next token,
    /// and their total: the empirical probability of `current -> next` is
    /// `counts[next] / total`.
    ///
    /// Fails when `current` is outside the vocabulary, when the total does
    /// not fit in `u64`, or when no transition from `current` has been
    /// observed.
    pub fn outgoing_counts(&self, current: TokenId) -> (r: Result<(Vec<u64>, u64), BigramStatsError>)
        requires
            self.wf(),
        ensures
            !self.in_vocabulary(current) ==> r == Err::<(Vec<u64>, u64), _>(
                BigramStatsError::TokenOutOfVocabulary { token: current, vocab_size: self.vocab_size },
            ),
            self.in_vocabulary(current) && seq_sum(self.row(current@ as int)) > u64::MAX ==> r
                == Err::<(Vec<u64>, u64), _>(BigramStatsError::OutgoingCountOverflow(current)),
            self.in_vocabulary(current) && seq_sum(self.row(current@ as int)) == 0 ==> r == Err::<
                (Vec<u64>, u64),
                _,
            >(BigramStatsError::NoOutgoingTransitions(current)),
            self.in_vocabulary(current) && 0 < seq_sum(self.row(current@ as int)) <= u64::MAX
                ==> r is Ok,
            r matches Ok((counts, total)) ==> {
                &&& counts@ == self.row(current@ as int)
                &&& counts@.len() == self.vocab_size
                &&& forall|j: int|
                    0 <= j < self.vocab_size ==> #[trigger] counts@[j] == self.count_of(
                        current@ as int,
                        j,
                    )
                &&& total as int == seq_sum(counts@)
            },
    {
        let current_idx = self.validate_token(current)?;
        let v = self.vocab_size;
        proof {
            lemma_cell_index(v as int, current_idx as int, 0, current_idx as int, 0);
        }
        let start = current_idx * v;
        let ghost row = self.row(current@ as int);
        let mut counts: Vec<u64> = Vec::with_capacity(v);
        let mut total: u64 = 0;
        let mut j: usize = 0;
        while j < v
            invariant
                self.wf(),
                v == self.vocab_size,
                start as int == cell_index(v as int, current_idx as int, 0),
                start + v <= self.counts@.len(),
                self.in_vocabulary(current),
                row == self.row(current@ as int),
                current_idx == current@,
                j <= v,
                counts@ == row.subrange(0, j as int),
                total as int == seq_sum(counts@),
            decreases v - j,
        {
            let value = self.counts[start + j];
            proof {
                lemma_seq_sum_step(row, j as int);
                assert(row.subrange(0, j as int + 1) == row.subrange(0, j as int).push(value));
            }
            total = match total.checked_add(value) {
                Some(t) => t,
                None => {
                    proof {
                        lemma_seq_sum_prefix(row, j as int + 1);
                    }
                    return Err(BigramStatsError::OutgoingCountOverflow(current));
                },
            };
            counts.push(value);
            j = j + 1;
        }
        proof {
            assert(row.subrange(0, v as int) == row);
        }
        if total == 0 {
            return Err(BigramStatsError::NoOutgoingTransitions(current));
        }
        Ok((counts, total))
    }
}

/// Entry `next` of the outgoing row of `current` is the count of the
/// transition `current -> next`: the row is the counters of `current`,
/// in the order of the next token.
pub proof fn lemma_row_entries(stats: BigramStats, current: int)
    requires
        stats.wf(),
        0 <= current < stats.vocab_size,
    ensures
        stats.row(current).len() == stats.vocab_size,
        forall|next: int|
            0 <= next < stats.vocab_size ==> #[trigger] stats.row(current)[next] == stats.count_of(
                current,
                next,
            ),
{
    let v = stats.vocab_size as int;
    lemma_cell_index(v, current, 0, current, 0);
    assert forall|next: int| 0 <= next < v implies #[trigger] stats.row(current)[next]
        == stats.count_of(current, next) by {
        assert(cell_index(v, current, 0) + next == cell_index(v, current, next));
    }
}

/// Observation succeeds whenever no counter would pass `u64::MAX`: when
/// every token is in the vocabulary and every counter plus the number of
/// tokens stays within `u64`, no window of the sequence fails. In
/// particular statistics fresh from [`BigramStats::new`] observe any
/// sequence of vocabulary tokens shorter than `2^64`, and afterwards each
/// count is the number of its windows.
pub proof fn lemma_observe_succeeds_below_counter_limit(stats: BigramStats, tokens: Seq<TokenId>)
    requires
        stats.wf(),
        forall|i: int| 0 <= i < tokens.len() ==> stats.in_vocabulary(#[trigger] tokens[i]),
        forall|c: int, n: int|
            0 <= c < stats.vocab_size && 0 <= n < stats.vocab_size ==> #[trigger] stats.count_of(
                c,
                n,
            ) + tokens.len() <= u64::MAX,
    ensures
        forall|k: int| 0 <= k < tokens.len() - 1 ==> !#[trigger] stats.window_fails(tokens, k),
{
    assert forall|k: int| 0 <= k < tokens.len() - 1 implies !#[trigger] stats.window_fails(
        tokens,
        k,
    ) by {
        let c = tokens[k];
        let n = tokens[k + 1];
        assert(stats.in_vocabulary(c));
        assert(stats.in_vocabulary(n));
        lemma_pair_count_bound(tokens.subrange(0, k + 1), c@ as int, n@ as int);
        assert(stats.count_of(c@ as int, n@ as int) + tokens.len() <= u64::MAX);
    }
}

/// Statistics fresh from [`BigramStats::new`] observe every sequence of
/// vocabulary tokens shorter than `2^64`, and afterwards each count is the
/// number of windows of its transition.
pub proof fn lemma_fresh_observe_counts_windows(
    stats: BigramStats,
    after: BigramStats,
    tokens: Seq<TokenId>,
)
    requires
        stats.wf(),
        forall|i: int| 0 <= i < stats.counts@.len() ==> stats.counts@[i] == 0,
        forall|i: int| 0 <= i < tokens.len() ==> stats.in_vocabulary(#[trigger] tokens[i]),
        tokens.len() <= u64::MAX,
        stats.adds_pairs(&after, tokens),
    ensures
        forall|k: int| 0 <= k < tokens.len() - 1 ==> !#[trigger] stats.window_fails(tokens, k),
        forall|c: int, n: int|
            0 <= c < stats.vocab_size && 0 <= n < stats.vocab_size ==> #[trigger] after.count_of(
                c,
                n,
            ) == pair_count(tokens, c, n),
{
    assert forall|c: int, n: int|
        0 <= c < stats.vocab_size && 0 <= n < stats.vocab_size implies #[trigger] stats.count_of(
        c,
        n,
    ) == 0 by {
        lemma_cell_index(stats.vocab_size as int, c, n, c, n);
    }
    lemma_observe_succeeds_below_counter_limit(stats, tokens);
}

} // verus!
