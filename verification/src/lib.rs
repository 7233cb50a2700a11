//! A character-level bigram language model: tokenizer, transition
//! statistics, a deterministic pseudo-random generator and the
//! command-line argument parser.

pub mod args;
pub mod bigram_stats;
pub mod cli;
pub mod rng;
pub mod text;
pub mod tokenizer;

pub use args::{CliArgs, CliArgsError, RunSettings, TextSource, usage};
pub use bigram_stats::{BigramStats, BigramStatsError};
pub use rng::Rng;
pub use tokenizer::{CharTokenizer, TokenId, TokenizerError};
