use rustllm::cli::args::{
    CliArgs, CliArgsError, RunSettings, TextSource, error_message, usage,
};
use std::path::PathBuf;

fn parse(args: &[&str]) -> Result<CliArgs, CliArgsError> {
    CliArgs::parse(args.iter().map(|arg| arg.to_string()).collect())
}

#[test]
fn parses_text() {
    let args = parse(&["--text", "abba"]).unwrap();

    assert_eq!(args.text, Some("abba".to_string()));
    assert_eq!(args.train, None);
}

#[test]
fn parses_empty_text() {
    let args = parse(&["--text"]).unwrap();

    assert_eq!(args.text, Some(String::new()));
}

#[test]
fn text_without_value_before_option() {
    let args = parse(&["--text", "--seed", "7"]).unwrap();

    assert_eq!(args.text, Some(String::new()));
    assert_eq!(args.seed, Some(7));
}

#[test]
fn parses_train_path() {
    let args = parse(&["--train", "data/corpus.txt"]).unwrap();

    assert_eq!(
        args.train.map(PathBuf::from),
        Some(PathBuf::from("data/corpus.txt"))
    );
}

#[test]
fn empty_train_value_is_ignored() {
    let args = parse(&["--train", "a.txt", "--train", ""]).unwrap();

    assert_eq!(args.train, Some("a.txt".to_string()));
}

#[test]
fn parses_seed() {
    let args = parse(&["--seed", "12345"]).unwrap();

    assert_eq!(args.seed, Some(12345));
}

#[test]
fn parses_seed_with_plus_and_max() {
    assert_eq!(parse(&["--seed", "+5"]).unwrap().seed, Some(5));
    assert_eq!(
        parse(&["--seed", "18446744073709551615"]).unwrap().seed,
        Some(u64::MAX)
    );
    assert_eq!(
        parse(&["--seed", "18446744073709551616"]),
        Err(CliArgsError::InvalidValue {
            arg: "seed",
            value: "18446744073709551616".to_string(),
            expected: "u64",
        })
    );
    assert_eq!(
        parse(&["--seed", "+"]),
        Err(CliArgsError::InvalidValue {
            arg: "seed",
            value: "+".to_string(),
            expected: "u64",
        })
    );
    assert_eq!(
        parse(&["--seed", "-1"]),
        Err(CliArgsError::InvalidValue {
            arg: "seed",
            value: "-1".to_string(),
            expected: "u64",
        })
    );
}

#[test]
fn parses_length() {
    let args = parse(&["--length", "32"]).unwrap();

    assert_eq!(args.length, Some(32));
}

#[test]
fn accepts_zero_length() {
    let args = parse(&["--length", "0"]).unwrap();

    assert_eq!(args.length, Some(0));
}

#[test]
fn parses_all_options_together() {
    let args = parse(&[
        "--text",
        "abba",
        "--train",
        "data/corpus.txt",
        "--seed",
        "42",
        "--length",
        "10",
    ])
    .unwrap();

    assert_eq!(args.text, Some("abba".to_string()));
    assert_eq!(
        args.train.map(PathBuf::from),
        Some(PathBuf::from("data/corpus.txt"))
    );
    assert_eq!(args.seed, Some(42));
    assert_eq!(args.length, Some(10));
}

#[test]
fn later_option_replaces_earlier() {
    let args = parse(&["--seed", "1", "--seed", "2"]).unwrap();

    assert_eq!(args.seed, Some(2));
}

#[test]
fn parses_no_arguments() {
    let args = parse(&[]).unwrap();

    assert_eq!(
        args,
        CliArgs {
            text: None,
            train: None,
            seed: None,
            length: None
        }
    );
}

#[test]
fn rejects_invalid_seed() {
    let result = parse(&["--seed", "abc"]);

    assert_eq!(
        result,
        Err(CliArgsError::InvalidValue {
            arg: "seed",
            value: "abc".to_string(),
            expected: "u64",
        })
    );
}

#[test]
fn rejects_invalid_length() {
    let result = parse(&["--length", "abc"]);

    assert_eq!(
        result,
        Err(CliArgsError::InvalidValue {
            arg: "length",
            value: "abc".to_string(),
            expected: "usize",
        })
    );
}

#[test]
fn rejects_missing_seed_value() {
    assert_eq!(parse(&["--seed"]), Err(CliArgsError::MissingValue("seed")));
}

#[test]
fn rejects_missing_length_value() {
    assert_eq!(
        parse(&["--length"]),
        Err(CliArgsError::MissingValue("length"))
    );
}

#[test]
fn rejects_missing_train_value() {
    assert_eq!(
        parse(&["--train", "--seed", "1"]),
        Err(CliArgsError::MissingValue("train"))
    );
}

#[test]
fn rejects_unknown_argument() {
    assert_eq!(
        parse(&["--unknown"]),
        Err(CliArgsError::UnknownArg("--unknown".to_string()))
    );
}

#[test]
fn help_returns_usage() {
    assert_eq!(parse(&["--help"]), Err(CliArgsError::Usage));
    assert_eq!(parse(&["-h"]), Err(CliArgsError::Usage));
}

#[test]
fn usage_texts_name_the_program() {
    assert!(rustllm::cli::args::usage().starts_with("Oreluno"));
    assert!(rustllm::usage().starts_with("RustLLM"));
}

#[test]
fn later_seed_and_length_replace_earlier_ones() {
    let xs = ["--text", "abba", "--seed", "1", "--length", "4"];
    let a = parse(&xs).unwrap();

    let mut with_seed = xs.to_vec();
    with_seed.extend(["--seed", "99"]);
    let seeded = parse(&with_seed).unwrap();
    assert_eq!(seeded.seed, Some(99));
    assert_eq!(seeded.text, a.text);
    assert_eq!(seeded.train, a.train);
    assert_eq!(seeded.length, a.length);

    let mut with_length = xs.to_vec();
    with_length.extend(["--length", "7"]);
    let lengthened = parse(&with_length).unwrap();
    assert_eq!(lengthened.length, Some(7));
    assert_eq!(lengthened.text, a.text);
    assert_eq!(lengthened.seed, a.seed);
}

#[test]
fn cli_args_error_messages() {
    let s = |e: CliArgsError| error_message(&e);

    assert_eq!(
        s(CliArgsError::InvalidValue {
            value: "abc".to_string(),
            arg: "seed",
            expected: "u64"
        }),
        "invalid value `abc` for argument `seed`: expected u64"
    );
    assert_eq!(
        s(CliArgsError::MissingArg("text")),
        "missing required argument `text`"
    );
    assert_eq!(
        s(CliArgsError::MissingValue("seed")),
        "missing value for argument `seed`"
    );
    assert_eq!(
        s(CliArgsError::UnknownArg("--x".to_string())),
        "unknown argument `--x`"
    );
    assert_eq!(s(CliArgsError::Usage), usage());
    assert!(s(CliArgsError::Usage).starts_with("Oreluno"));
}

#[test]
fn root_args_error_help_uses_root_usage() {
    assert_eq!(CliArgsError::Usage.message(), rustllm::usage());
    assert_eq!(
        CliArgsError::MissingValue("length").message(),
        "missing value for argument `length`"
    );
}

#[test]
fn run_settings_prefer_train_and_default_to_zero() {
    assert_eq!(
        parse(&["--text", "abba", "--train", "a.txt"])
            .unwrap()
            .run_settings(),
        RunSettings {
            source: TextSource::TrainFile("a.txt".to_string()),
            seed: 0,
            length: 0
        }
    );
    assert_eq!(
        parse(&["--text", "abba", "--seed", "3", "--length", "5"])
            .unwrap()
            .run_settings(),
        RunSettings {
            source: TextSource::Text("abba".to_string()),
            seed: 3,
            length: 5
        }
    );
    assert_eq!(
        parse(&[]).unwrap().run_settings().source,
        TextSource::Text(String::new())
    );
}
