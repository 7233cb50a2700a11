# rustllm

A character-level bigram language model, verified with Verus.

- `src/tokenizer.rs` — `TokenId` and `CharTokenizer`: the vocabulary is the
  sorted set of the corpus characters; encoding and decoding are specified
  over it, with the round-trip laws proved.
- `src/bigram_stats.rs` — `BigramStats`: the `V × V` transition matrix,
  observation of token windows with its error semantics, and the outgoing
  counts of a token.
- `src/rng.rs` — the SplitMix64 generator, with the closed form of its
  sequence.
- `src/args.rs`, `src/cli/args.rs` — the command-line grammar as a spec
  function, the parser proved against it, and the run settings.
- `src/text.rs` — decimal rendering used by the error messages, which
  every error type produces with `message()`.
- `app/` — the program: file reading, printing, and the floating-point
  parts (probabilities, sampling, the bigram model).
