//! Command-line argument parsing.

use vstd::prelude::*;

verus! {

/// Usage text printed for `--help`.
pub const USAGE: &'static str = "\
RustLLM

Usage:
    rustllm --text <text> [options]
    rustllm --train <path> [options]

Modes:
    --text <text>
        Run the model with the provided input text

    --train <path>
        Train the model using data from the specified file

Options:
    --seed <u64>
        Seed for the pseudorandom number generator
        Default: 0

    --length <usize>
        Number of tokens to generate.
        Default: 0

    -h, --help
        Show this help message
";

/// The parsed command-line arguments.
#[derive(Debug, PartialEq, Eq)]
pub struct CliArgs {
    pub text: Option<String>,
    /// Path of the training file.
    pub train: Option<String>,
    pub seed: Option<u64>,
    pub length: Option<usize>,
}

/// Error while parsing the command-line arguments.
#[derive(Debug, PartialEq, Eq)]
pub enum CliArgsError {
    /// The value of an argument does not have the expected form.
    InvalidValue { value: String, arg: &'static str, expected: &'static str },
    /// A required named argument is missing.
    MissingArg(&'static str),
    /// The named argument is not followed by its value.
    MissingValue(&'static str),
    /// The named argument is unknown.
    UnknownArg(String),
    /// Help was requested instead of a run.
    Usage,
}

/// Mathematical model of [`CliArgs`]: the texts as character sequences.
pub struct CliArgsModel {
    pub text: Option<Seq<char>>,
    pub train: Option<Seq<char>>,
    pub seed: Option<u64>,
    pub length: Option<usize>,
}

/// Mathematical model of [`CliArgsError`].
pub enum CliArgsErrorModel {
    InvalidValue { value: Seq<char>, arg: Seq<char>, expected: Seq<char> },
    MissingArg(Seq<char>),
    MissingValue(Seq<char>),
    UnknownArg(Seq<char>),
    Usage,
}

/// Characters of an optional string.
pub open spec fn opt_chars(s: Option<String>) -> Option<Seq<char>> {
    match s {
        Some(s) => Some(s@),
        None => None,
    }
}

impl View for CliArgs {
    type V = CliArgsModel;

    open spec fn view(&self) -> CliArgsModel {
        CliArgsModel {
            text: opt_chars(self.text),
            train: opt_chars(self.train),
            seed: self.seed,
            length: self.length,
        }
    }
}

impl View for CliArgsError {
    type V = CliArgsErrorModel;

    open spec fn view(&self) -> CliArgsErrorModel {
        match self {
            CliArgsError::InvalidValue { value, arg, expected } => CliArgsErrorModel::InvalidValue {
                value: value@,
                arg: arg@,
                expected: expected@,
            },
            CliArgsError::MissingArg(arg) => CliArgsErrorModel::MissingArg(arg@),
            CliArgsError::MissingValue(arg) => CliArgsErrorModel::MissingValue(arg@),
            CliArgsError::UnknownArg(arg) => CliArgsErrorModel::UnknownArg(arg@),
            CliArgsError::Usage => CliArgsErrorModel::Usage,
        }
    }
}


/// Text shown to the user for an argument error.
pub open spec fn cli_args_error_text(e: CliArgsErrorModel) -> Seq<char> {
    match e {
        CliArgsErrorModel::InvalidValue { value, arg, expected } => "invalid value `"@ + value
            + "` for argument `"@ + arg + "`: expected "@ + expected,
        CliArgsErrorModel::MissingArg(arg) => "missing required argument `"@ + arg + "`"@,
        CliArgsErrorModel::MissingValue(arg) => "missing value for argument `"@ + arg + "`"@,
        CliArgsErrorModel::UnknownArg(arg) => "unknown argument `"@ + arg + "`"@,
        CliArgsErrorModel::Usage => USAGE@,
    }
}

impl CliArgsError {
    /// Text shown to the user for this error; for a help request it is the
    /// usage text.
    pub fn message(&self) -> (s: String)
        ensures
            s@ == cli_args_error_text(self@),
    {
        match self {
            CliArgsError::InvalidValue { value, arg, expected } => {
                let mut s = String::from_str("invalid value `");
                s.append(value.as_str());
                s.append("` for argument `");
                s.append(arg);
                s.append("`: expected ");
                s.append(expected);
                s
            },
            CliArgsError::MissingArg(arg) => {
                let mut s = String::from_str("missing required argument `");
                s.append(arg);
                s.append("`");
                s
            },
            CliArgsError::MissingValue(arg) => {
                let mut s = String::from_str("missing value for argument `");
                s.append(arg);
                s.append("`");
                s
            },
            CliArgsError::UnknownArg(arg) => {
                let mut s = String::from_str("unknown argument `");
                s.append(arg.as_str());
                s.append("`");
                s
            },
            CliArgsError::Usage => String::from_str(usage()),
        }
    }
}

/// The text of an argument starts with `--`, the prefix of named
/// arguments.
pub open spec fn is_option_name(s: Seq<char>) -> bool {
    s.len() >= 2 && s[0] == '-' && s[1] == '-'
}

/// `c` is an ASCII decimal digit.
pub open spec fn is_digit(c: char) -> bool {
    '0' <= c <= '9'
}

/// Decimal value of a sequence of digits.
pub open spec fn digits_value(s: Seq<char>) -> int
    decreases s.len(),
{
    if s.len() == 0 {
        0
    } else {
        digits_value(s.drop_last()) * 10 + (s.last() as int - '0' as int)
    }
}

/// The digits of an unsigned number: the text without one leading `+`.
pub open spec fn unsigned_digits(s: Seq<char>) -> Seq<char> {
    if s.len() > 0 && s[0] == '+' {
        s.drop_first()
    } else {
        s
    }
}

/// Value of `s` read as an unsigned decimal number no greater than `max`,
/// as std's `FromStr` for unsigned integers reads it: an optional `+`, then
/// at least one ASCII digit and nothing else.
pub open spec fn parse_unsigned_spec(s: Seq<char>, max: int) -> Option<int> {
    let d = unsigned_digits(s);
    if d.len() > 0 && (forall|i: int| 0 <= i < d.len() ==> is_digit(#[trigger] d[i])) && digits_value(
        d,
    ) <= max {
        Some(digits_value(d))
    } else {
        None
    }
}

/// Arguments before any option was read.
pub open spec fn no_args() -> CliArgsModel {
    CliArgsModel { text: None, train: None, seed: None, length: None }
}

/// Outcome of reading the argument at one position.
pub enum ParseStep {
    /// No argument is left.
    Done,
    /// Reading goes on at the position, with the arguments read so far.
    Next(int, CliArgsModel),
    /// Parsing stops with the error.
    Fail(CliArgsErrorModel),
}

/// Reads the argument at position `i` of `args`, with `acc` read so far.
///
/// `--text` takes the next argument as its value unless that one is
/// missing or starts with `--`, in which case the text is empty.
/// `--train`, `--seed` and `--length` need a value that does not start
/// with `--`; an empty `--train` value is ignored. `--seed` reads a `u64`,
/// `--length` a `usize`. A later occurrence of an option replaces an
/// earlier one. `--help` and `-h` ask for the usage text; anything else is
/// an unknown argument.
pub open spec fn parse_step(args: Seq<Seq<char>>, i: int, acc: CliArgsModel) -> ParseStep {
    if i < 0 || i >= args.len() {
        ParseStep::Done
    } else {
        let arg = args[i];
        let has_value = i + 1 < args.len() && !is_option_name(args[i + 1]);
        if arg == "--text"@ {
            if has_value {
                ParseStep::Next(i + 2, CliArgsModel { text: Some(args[i + 1]), ..acc })
            } else {
                ParseStep::Next(i + 1, CliArgsModel { text: Some(Seq::empty()), ..acc })
            }
        } else if arg == "--train"@ {
            if !has_value {
                ParseStep::Fail(CliArgsErrorModel::MissingValue("train"@))
            } else if args[i + 1].len() > 0 {
                ParseStep::Next(i + 2, CliArgsModel { train: Some(args[i + 1]), ..acc })
            } else {
                ParseStep::Next(i + 2, acc)
            }
        } else if arg == "--seed"@ {
            if !has_value {
                ParseStep::Fail(CliArgsErrorModel::MissingValue("seed"@))
            } else {
                match parse_unsigned_spec(args[i + 1], u64::MAX as int) {
                    Some(v) => ParseStep::Next(i + 2, CliArgsModel { seed: Some(v as u64), ..acc }),
                    None => ParseStep::Fail(
                        CliArgsErrorModel::InvalidValue {
                            value: args[i + 1],
                            arg: "seed"@,
                            expected: "u64"@,
                        },
                    ),
                }
            }
        } else if arg == "--length"@ {
            if !has_value {
                ParseStep::Fail(CliArgsErrorModel::MissingValue("length"@))
            } else {
                match parse_unsigned_spec(args[i + 1], usize::MAX as int) {
                    Some(v) => ParseStep::Next(
                        i + 2,
                        CliArgsModel { length: Some(v as usize), ..acc },
                    ),
                    None => ParseStep::Fail(
                        CliArgsErrorModel::InvalidValue {
                            value: args[i + 1],
                            arg: "length"@,
                            expected: "usize"@,
                        },
                    ),
                }
            }
        } else if arg == "--help"@ || arg == "-h"@ {
            ParseStep::Fail(CliArgsErrorModel::Usage)
        } else {
            ParseStep::Fail(CliArgsErrorModel::UnknownArg(arg))
        }
    }
}

/// Result of parsing `args` from position `i` on, with `acc` read so far:
/// [`parse_step`] repeated until no argument is left or one fails. Every
/// step moves forward, by one or two positions, within `args`.
pub open spec fn parse_from(args: Seq<Seq<char>>, i: int, acc: CliArgsModel) -> Result<
    CliArgsModel,
    CliArgsErrorModel,
>
    decreases args.len() - i,
{
    match parse_step(args, i, acc) {
        ParseStep::Done => Ok(acc),
        ParseStep::Fail(e) => Err(e),
        ParseStep::Next(k, next) => if i < k <= args.len() {
            parse_from(args, k, next)
        } else {
            Ok(acc)
        },
    }
}


/// Reading the argument at a position after a prefix `xs` is reading it
/// without the prefix, with positions shifted by its length.
proof fn lemma_parse_step_shift(xs: Seq<Seq<char>>, ys: Seq<Seq<char>>, j: int, acc: CliArgsModel)
    requires
        0 <= j,
    ensures
        parse_step(xs + ys, xs.len() + j, acc) == match parse_step(ys, j, acc) {
            ParseStep::Next(k, next) => ParseStep::Next(xs.len() + k, next),
            other => other,
        },
{
    let zs = xs + ys;
    if j < ys.len() {
        assert(zs[xs.len() + j] == ys[j]);
        if j + 1 < ys.len() {
            assert(zs[xs.len() + j + 1] == ys[j + 1]);
        }
    }
}

/// Parsing the arguments after a prefix `xs` reads them as if `xs` were
/// not there.
proof fn lemma_parse_from_shift(xs: Seq<Seq<char>>, ys: Seq<Seq<char>>, j: int, acc: CliArgsModel)
    requires
        0 <= j,
    ensures
        parse_from(xs + ys, xs.len() + j, acc) == parse_from(ys, j, acc),
    decreases ys.len() - j,
{
    lemma_parse_step_shift(xs, ys, j, acc);
    if let ParseStep::Next(k, next) = parse_step(ys, j, acc) {
        if j < k <= ys.len() {
            lemma_parse_from_shift(xs, ys, k, next);
            assert(parse_from(xs + ys, xs.len() + k, next) == parse_from(ys, k, next));
        }
    }
}

/// Reading the argument at a position of `xs` gives the same step in `xs`
/// followed by more arguments, unless the last argument of `xs` is a
/// `--text` that would take the first appended argument as its value.
proof fn lemma_parse_step_append(xs: Seq<Seq<char>>, ys: Seq<Seq<char>>, i: int, acc: CliArgsModel)
    requires
        0 <= i < xs.len(),
        ys.len() == 0 || is_option_name(ys[0]) || xs.last() != "--text"@,
        !(parse_step(xs, i, acc) is Fail),
    ensures
        parse_step(xs + ys, i, acc) == parse_step(xs, i, acc),
{
    let zs = xs + ys;
    assert(zs[i] == xs[i]);
    if i + 1 < xs.len() {
        assert(zs[i + 1] == xs[i + 1]);
    } else if ys.len() > 0 {
        assert(zs[i + 1] == ys[0]);
    }
}

/// When `xs` parses from position `i`, parsing `xs` followed by more
/// arguments continues from the arguments `xs` produced, unless the last
/// argument of `xs` is a `--text` that would take the first appended
/// argument as its value.
proof fn lemma_parse_from_append(xs: Seq<Seq<char>>, ys: Seq<Seq<char>>, i: int, acc: CliArgsModel)
    requires
        0 <= i <= xs.len(),
        ys.len() == 0 || is_option_name(ys[0]) || xs.last() != "--text"@,
        parse_from(xs, i, acc) is Ok,
    ensures
        parse_from(xs + ys, i, acc) == parse_from(ys, 0, parse_from(xs, i, acc)->Ok_0),
    decreases xs.len() - i,
{
    if i == xs.len() {
        lemma_parse_from_shift(xs, ys, 0, acc);
        assert(xs.len() + 0int == i);
    } else {
        lemma_parse_step_append(xs, ys, i, acc);
        if let ParseStep::Next(k, next) = parse_step(xs, i, acc) {
            lemma_parse_step_advances(xs, i, acc);
            lemma_parse_from_append(xs, ys, k, next);
        }
    }
}

/// Every step moves forward by one or two positions within `args`.
proof fn lemma_parse_step_advances(args: Seq<Seq<char>>, i: int, acc: CliArgsModel)
    ensures
        parse_step(args, i, acc) matches ParseStep::Next(k, _) ==> i < k <= args.len(),
{
}

/// A later `--text` replaces an earlier one: appending `--text` and a value
/// that does not start with `--` to arguments that parse sets the text to
/// that value and keeps the training path, the seed and the length.
pub proof fn lemma_later_text_replaces(xs: Seq<Seq<char>>, a: CliArgsModel, value: Seq<char>)
    requires
        parse_from(xs, 0, no_args()) == Ok::<CliArgsModel, CliArgsErrorModel>(a),
        !is_option_name(value),
    ensures
        parse_from(xs + seq!["--text"@, value], 0, no_args()) == Ok::<
            CliArgsModel,
            CliArgsErrorModel,
        >(CliArgsModel { text: Some(value), ..a }),
{
    reveal_strlit("--text");
    let ys = seq!["--text"@, value];
    lemma_parse_from_append(xs, ys, 0, no_args());
    assert(parse_from(ys, 2, CliArgsModel { text: Some(value), ..a }) == Ok::<
        CliArgsModel,
        CliArgsErrorModel,
    >(CliArgsModel { text: Some(value), ..a }));
}

/// A `--text` without a value sets an empty text and keeps the training
/// path, the seed and the length.
pub proof fn lemma_trailing_text_is_empty(xs: Seq<Seq<char>>, a: CliArgsModel)
    requires
        parse_from(xs, 0, no_args()) == Ok::<CliArgsModel, CliArgsErrorModel>(a),
    ensures
        parse_from(xs.push("--text"@), 0, no_args()) == Ok::<CliArgsModel, CliArgsErrorModel>(
            CliArgsModel { text: Some(Seq::empty()), ..a },
        ),
{
    reveal_strlit("--text");
    let ys = seq!["--text"@];
    assert(xs.push("--text"@) == xs + ys);
    lemma_parse_from_append(xs, ys, 0, no_args());
    assert(parse_from(ys, 1, CliArgsModel { text: Some(Seq::empty()), ..a }) == Ok::<
        CliArgsModel,
        CliArgsErrorModel,
    >(CliArgsModel { text: Some(Seq::empty()), ..a }));
}

/// A later `--train` with a non-empty path replaces an earlier one and
/// keeps the text, the seed and the length; an empty path changes nothing.
pub proof fn lemma_later_train_replaces(xs: Seq<Seq<char>>, a: CliArgsModel, path: Seq<char>)
    requires
        parse_from(xs, 0, no_args()) == Ok::<CliArgsModel, CliArgsErrorModel>(a),
        !is_option_name(path),
    ensures
        parse_from(xs + seq!["--train"@, path], 0, no_args()) == Ok::<
            CliArgsModel,
            CliArgsErrorModel,
        >(
            if path.len() > 0 {
                CliArgsModel { train: Some(path), ..a }
            } else {
                a
            },
        ),
{
    reveal_strlit("--train");
    reveal_strlit("--text");
    let ys = seq!["--train"@, path];
    assert(ys[0][3] != "--text"@[3]);
    lemma_parse_from_append(xs, ys, 0, no_args());
    let expected = if path.len() > 0 {
        CliArgsModel { train: Some(path), ..a }
    } else {
        a
    };
    assert(parse_from(ys, 2, expected) == Ok::<CliArgsModel, CliArgsErrorModel>(expected));
}

/// An argument read where a named argument is expected, that is none of
/// `--text`, `--train`, `--seed`, `--length`, `--help` and `-h`, stops
/// parsing with [`CliArgsError::UnknownArg`] carrying that argument,
/// whatever follows it. It is read there unless it follows a `--text`
/// that takes it as its value, which it does when it does not start
/// with `--`.
pub proof fn lemma_unknown_argument_rejected(
    xs: Seq<Seq<char>>,
    unknown: Seq<char>,
    ys: Seq<Seq<char>>,
)
    requires
        parse_from(xs, 0, no_args()) is Ok,
        is_option_name(unknown) || xs.len() == 0 || xs.last() != "--text"@,
        unknown != "--text"@,
        unknown != "--train"@,
        unknown != "--seed"@,
        unknown != "--length"@,
        unknown != "--help"@,
        unknown != "-h"@,
    ensures
        parse_from(xs + seq![unknown] + ys, 0, no_args()) == Err::<
            CliArgsModel,
            CliArgsErrorModel,
        >(CliArgsErrorModel::UnknownArg(unknown)),
{
    let rest = seq![unknown] + ys;
    assert(xs + seq![unknown] + ys =~= xs + rest);
    assert(rest[0] == unknown);
    if xs.len() == 0 {
        assert(xs + rest =~= rest);
        assert(parse_from(xs, 0, no_args()) == Ok::<CliArgsModel, CliArgsErrorModel>(no_args()));
    } else {
        lemma_parse_from_append(xs, rest, 0, no_args());
    }
}

/// A text that reads as an unsigned number does not start with `--`.
proof fn lemma_number_is_not_option_name(value: Seq<char>, max: int)
    requires
        parse_unsigned_spec(value, max) is Some,
    ensures
        !is_option_name(value),
{
    let d = unsigned_digits(value);
    if value.len() > 0 && value[0] != '+' {
        assert(is_digit(d[0]));
    }
}

/// A later `--seed` replaces an earlier one: appending `--seed` and a
/// valid value to arguments that parse sets the seed to that value and
/// keeps every other field.
pub proof fn lemma_later_seed_replaces(
    xs: Seq<Seq<char>>,
    a: CliArgsModel,
    value: Seq<char>,
    n: u64,
)
    requires
        parse_from(xs, 0, no_args()) == Ok::<CliArgsModel, CliArgsErrorModel>(a),
        parse_unsigned_spec(value, u64::MAX as int) == Some(n as int),
    ensures
        parse_from(xs + seq!["--seed"@, value], 0, no_args()) == Ok::<
            CliArgsModel,
            CliArgsErrorModel,
        >(CliArgsModel { seed: Some(n), ..a }),
{
    reveal_strlit("--seed");
    reveal_strlit("--text");
    reveal_strlit("--train");
    let ys = seq!["--seed"@, value];
    assert(ys[0][2] != "--text"@[2]);
    assert(ys[0][2] != "--train"@[2]);
    lemma_number_is_not_option_name(value, u64::MAX as int);
    lemma_parse_from_append(xs, ys, 0, no_args());
    assert(parse_from(ys, 2, CliArgsModel { seed: Some(n), ..a }) == Ok::<
        CliArgsModel,
        CliArgsErrorModel,
    >(CliArgsModel { seed: Some(n), ..a }));
}

/// A later `--length` replaces an earlier one: appending `--length` and a
/// valid value to arguments that parse sets the length to that value and
/// keeps every other field.
pub proof fn lemma_later_length_replaces(
    xs: Seq<Seq<char>>,
    a: CliArgsModel,
    value: Seq<char>,
    m: usize,
)
    requires
        parse_from(xs, 0, no_args()) == Ok::<CliArgsModel, CliArgsErrorModel>(a),
        parse_unsigned_spec(value, usize::MAX as int) == Some(m as int),
    ensures
        parse_from(xs + seq!["--length"@, value], 0, no_args()) == Ok::<
            CliArgsModel,
            CliArgsErrorModel,
        >(CliArgsModel { length: Some(m), ..a }),
{
    reveal_strlit("--length");
    reveal_strlit("--text");
    reveal_strlit("--train");
    reveal_strlit("--seed");
    let ys = seq!["--length"@, value];
    assert(ys[0][2] != "--text"@[2]);
    assert(ys[0][2] != "--train"@[2]);
    assert(ys[0][2] != "--seed"@[2]);
    lemma_number_is_not_option_name(value, usize::MAX as int);
    lemma_parse_from_append(xs, ys, 0, no_args());
    assert(parse_from(ys, 2, CliArgsModel { length: Some(m), ..a }) == Ok::<
        CliArgsModel,
        CliArgsErrorModel,
    >(CliArgsModel { length: Some(m), ..a }));
}

/// The characters of each argument.
pub open spec fn args_chars(args: Seq<String>) -> Seq<Seq<char>> {
    args.map_values(|s: String| s@)
}

/// Model of the result of [`CliArgs::parse`].
pub open spec fn result_model(r: Result<CliArgs, CliArgsError>) -> Result<
    CliArgsModel,
    CliArgsErrorModel,
> {
    match r {
        Ok(a) => Ok(a@),
        Err(e) => Err(e@),
    }
}

/// Whether two strings have the same characters.
fn str_equals(a: &str, b: &str) -> (r: bool)
    ensures
        r == (a@ == b@),
{
    let n = a.unicode_len();
    if n != b.unicode_len() {
        return false;
    }
    let mut i: usize = 0;
    while i < n
        invariant
            n == a@.len(),
            n == b@.len(),
            i <= n,
            forall|j: int| 0 <= j < i ==> a@[j] == b@[j],
        decreases n - i,
    {
        if a.get_char(i) != b.get_char(i) {
            return false;
        }
        i = i + 1;
    }
    assert(a@ =~= b@);
    true
}

/// Whether the argument starts with `--`.
fn starts_with_option_prefix(s: &str) -> (r: bool)
    ensures
        r == is_option_name(s@),
{
    s.unicode_len() >= 2 && s.get_char(0) == '-' && s.get_char(1) == '-'
}

/// Reads `s` as an unsigned decimal number no greater than `max`: an
/// optional `+`, then at least one ASCII digit and nothing else.
fn parse_unsigned(s: &str, max: u64) -> (r: Option<u64>)
    ensures
        r matches Some(v) ==> parse_unsigned_spec(s@, max as int) == Some(v as int),
        r is None ==> parse_unsigned_spec(s@, max as int) is None,
{
    let n = s.unicode_len();
    let start: usize = if n > 0 && s.get_char(0) == '+' {
        1
    } else {
        0
    };
    let ghost d = unsigned_digits(s@);
    assert(d =~= s@.subrange(start as int, n as int));
    if start >= n {
        return None;
    }
    let mut value: u64 = 0;
    let mut i: usize = start;
    while i < n
        invariant
            n == s@.len(),
            start <= i <= n,
            d == s@.subrange(start as int, n as int),
            d == unsigned_digits(s@),
            forall|j: int| 0 <= j < i - start ==> is_digit(#[trigger] d[j]),
            value as int == digits_value(d.subrange(0, i - start)),
            value <= max,
        decreases n - i,
    {
        let c = s.get_char(i);
        let ghost k = i - start;
        assert(d[k] == c);
        if c < '0' || c > '9' {
            assert(!is_digit(d[k]));
            return None;
        }
        let digit = (c as u32 - '0' as u32) as u64;
        proof {
            assert(d.subrange(0, k + 1).drop_last() =~= d.subrange(0, k));
            assert(d.subrange(0, k + 1).last() == c);
            assert(digits_value(d.subrange(0, k + 1)) == value * 10 + digit);
        }
        let next = match value.checked_mul(10) {
            Some(t) => match t.checked_add(digit) {
                Some(v) => v,
                None => {
                    proof {
                        lemma_digits_value_prefix(d, k + 1);
                    }
                    return None;
                },
            },
            None => {
                proof {
                    lemma_digits_value_prefix(d, k + 1);
                }
                return None;
            },
        };
        if next > max {
            proof {
                lemma_digits_value_prefix(d, k + 1);
            }
            return None;
        }
        value = next;
        i = i + 1;
    }
    assert(d.subrange(0, n - start) =~= d);
    Some(value)
}

/// The value of a prefix of digits is at most the value of the whole.
proof fn lemma_digits_value_prefix(d: Seq<char>, k: int)
    requires
        0 <= k <= d.len(),
        forall|j: int| 0 <= j < k ==> is_digit(#[trigger] d[j]),
    ensures
        (forall|j: int| 0 <= j < d.len() ==> is_digit(#[trigger] d[j])) ==> digits_value(
            d.subrange(0, k),
        ) <= digits_value(d),
    decreases d.len() - k,
{
    if k < d.len() && (forall|j: int| 0 <= j < d.len() ==> is_digit(#[trigger] d[j])) {
        lemma_digits_value_prefix(d, k + 1);
        assert(d.subrange(0, k + 1).drop_last() =~= d.subrange(0, k));
        lemma_digits_value_nonneg(d.subrange(0, k));
    } else if k == d.len() {
        assert(d.subrange(0, k) =~= d);
    }
}

/// The value of a sequence of digits is not negative.
proof fn lemma_digits_value_nonneg(d: Seq<char>)
    requires
        forall|j: int| 0 <= j < d.len() ==> is_digit(#[trigger] d[j]),
    ensures
        digits_value(d) >= 0,
    decreases d.len(),
{
    if d.len() > 0 {
        lemma_digits_value_nonneg(d.drop_last());
        assert(is_digit(d[d.len() - 1]));
    }
}

/// The value following a named argument: the argument at `index`, unless
/// there is none or it starts with `--`.
fn next_value(args: &Vec<String>, index: usize, name: &'static str) -> (r: Result<
    String,
    CliArgsError,
>)
    ensures
        index >= args@.len() || is_option_name(args@[index as int]@) ==> r == Err::<
            String,
            CliArgsError,
        >(CliArgsError::MissingValue(name)),
        index < args@.len() && !is_option_name(args@[index as int]@) ==> (r matches Ok(v) && v@
            == args@[index as int]@),
{
    if index >= args.len() {
        return Err(CliArgsError::MissingValue(name));
    }
    let value = args[index].clone();
    if starts_with_option_prefix(value.as_str()) {
        return Err(CliArgsError::MissingValue(name));
    }
    Ok(value)
}

/// The value of a required argument, or [`CliArgsError::MissingArg`] when
/// it was not given.
#[allow(dead_code)]
fn required_arg<T>(value: Option<T>, name: &'static str) -> (r: Result<T, CliArgsError>)
    ensures
        value matches Some(v) ==> r == Ok::<T, CliArgsError>(v),
        value is None ==> r == Err::<T, CliArgsError>(CliArgsError::MissingArg(name)),
{
    match value {
        Some(v) => Ok(v),
        None => Err(CliArgsError::MissingArg(name)),
    }
}

/// The usage text of the program.
pub fn usage() -> (r: &'static str)
    ensures
        r == USAGE,
{
    USAGE
}

impl CliArgs {
    /// Parses the arguments (without the program name) and rejects unknown
    /// ones; see [`parse_from`] for the grammar.
    pub fn parse(raw_args: Vec<String>) -> (r: Result<CliArgs, CliArgsError>)
        ensures
            result_model(r) == parse_from(args_chars(raw_args@), 0, no_args()),
    {
        let ghost args = args_chars(raw_args@);
        let mut text: Option<String> = None;
        let mut train: Option<String> = None;
        let mut seed: Option<u64> = None;
        let mut length: Option<usize> = None;
        let n = raw_args.len();
        let mut pos: usize = 0;
        while pos < n
            invariant
                n == raw_args@.len(),
                args == args_chars(raw_args@),
                pos <= n,
                parse_from(args, 0, no_args()) == parse_from(
                    args,
                    pos as int,
                    CliArgsModel { text: opt_chars(text), train: opt_chars(train), seed, length },
                ),
            decreases n - pos,
        {
            let arg = raw_args[pos].as_str();
            assert(arg@ == args[pos as int]);
            if str_equals(arg, "--text") {
                if pos + 1 < n && !starts_with_option_prefix(raw_args[pos + 1].as_str()) {
                    text = Some(raw_args[pos + 1].clone());
                    pos = pos + 2;
                } else {
                    text = Some(String::new());
                    pos = pos + 1;
                }
            } else if str_equals(arg, "--train") {
                let value = next_value(&raw_args, pos + 1, "train")?;
                if !value.as_str().is_empty() {
                    train = Some(value);
                }
                pos = pos + 2;
            } else if str_equals(arg, "--seed") {
                let value = next_value(&raw_args, pos + 1, "seed")?;
                match parse_unsigned(value.as_str(), u64::MAX) {
                    Some(v) => {
                        seed = Some(v);
                    },
                    None => {
                        return Err(
                            CliArgsError::InvalidValue { arg: "seed", value, expected: "u64" },
                        );
                    },
                }
                pos = pos + 2;
            } else if str_equals(arg, "--length") {
                let value = next_value(&raw_args, pos + 1, "length")?;
                match parse_unsigned(value.as_str(), usize::MAX as u64) {
                    Some(v) => {
                        length = Some(v as usize);
                    },
                    None => {
                        return Err(
                            CliArgsError::InvalidValue { arg: "length", value, expected: "usize" },
                        );
                    },
                }
                pos = pos + 2;
            } else if str_equals(arg, "--help") || str_equals(arg, "-h") {
                return Err(CliArgsError::Usage);
            } else {
                return Err(CliArgsError::UnknownArg(raw_args[pos].clone()));
            }
        }
        Ok(CliArgs { text, train, seed, length })
    }
}

/// Where the text of a run comes from.
#[derive(Debug, PartialEq, Eq)]
pub enum TextSource {
    /// The text is read from the training file at this path.
    TrainFile(String),
    /// The text is given directly.
    Text(String),
}

/// What a run uses: its text source, the seed of the generator and the
/// number of tokens to generate.
#[derive(Debug, PartialEq, Eq)]
pub struct RunSettings {
    pub source: TextSource,
    pub seed: u64,
    pub length: usize,
}

impl CliArgs {
    /// The settings of a run: `--train` takes precedence over `--text`,
    /// the text is empty when neither is given, and the seed and the length
    /// default to 0.
    pub fn run_settings(self) -> (r: RunSettings)
        ensures
            match (self.train, self.text) {
                (Some(path), _) => r.source matches TextSource::TrainFile(p) && p@ == path@,
                (None, Some(text)) => r.source matches TextSource::Text(t) && t@ == text@,
                (None, None) => r.source matches TextSource::Text(t) && t@ == Seq::<char>::empty(),
            },
            r.seed == match self.seed {
                Some(seed) => seed,
                None => 0,
            },
            r.length == match self.length {
                Some(length) => length,
                None => 0,
            },
    {
        let source = match (self.train, self.text) {
            (Some(path), _) => TextSource::TrainFile(path),
            (None, Some(text)) => TextSource::Text(text),
            (None, None) => TextSource::Text(String::new()),
        };
        let seed = match self.seed {
            Some(seed) => seed,
            None => 0,
        };
        let length = match self.length {
            Some(length) => length,
            None => 0,
        };
        RunSettings { source, seed, length }
    }
}

} // verus!
