use rustllm::{CharTokenizer, TokenId, TokenizerError};

fn assert_roundtrip(text: &str) {
    let tokenizer = CharTokenizer::from_corpus(text).unwrap();
    let tokens = tokenizer.encode(text).unwrap();
    let decoded = tokenizer.decode(&tokens).unwrap();

    assert_eq!(decoded, text);
}

#[test]
fn ascii_roundtrip() {
    assert_roundtrip("hello world");
}

#[test]
fn cyrillic_roundtrip() {
    assert_roundtrip("Привет, мир!");
}

#[test]
fn mixed_utf8_roundtrip() {
    assert_roundtrip("Hello, мир! 你好 🚀");
}

#[test]
fn empty_corpus_roundtrip() {
    assert_roundtrip("");
    assert_eq!(CharTokenizer::from_corpus("").unwrap().vocab_size(), 0);
}

#[test]
fn encode_unknown_char_returns_error() {
    let tokenizer = CharTokenizer::from_corpus("abc").unwrap();
    let result = tokenizer.encode("abcd");

    assert_eq!(result, Err(TokenizerError::UnknownChar('d')));
}

#[test]
fn encode_reports_first_unknown_char() {
    let tokenizer = CharTokenizer::from_corpus("abc").unwrap();

    assert_eq!(
        tokenizer.encode("axyb"),
        Err(TokenizerError::UnknownChar('x'))
    );
}

#[test]
fn deterministic_token_ids_by_alphabet() {
    let tokenizer = CharTokenizer::from_corpus("cba").unwrap();
    let tokens = tokenizer.encode("abc").unwrap();
    let indices: Vec<usize> = tokens
        .into_iter()
        .map(|token| token.index().unwrap())
        .collect();

    assert_eq!(indices, vec![0, 1, 2]);
}

#[test]
fn same_characters_give_same_vocabulary() {
    let first = CharTokenizer::from_corpus("hello").unwrap();
    let second = CharTokenizer::from_corpus("ollhe").unwrap();

    assert_eq!(first, second);
    assert_eq!(first.vocab_size(), 4);
    assert_eq!(first.decode(&first.encode("ehlo").unwrap()).unwrap(), "ehlo");
}

#[test]
fn encode_gives_index_of_each_char() {
    let tokenizer = CharTokenizer::from_corpus("zebra").unwrap();
    let indices: Vec<usize> = tokenizer
        .encode("zebra")
        .unwrap()
        .into_iter()
        .map(|token| token.index().unwrap())
        .collect();

    assert_eq!(indices, vec![4, 2, 1, 3, 0]);
}

#[test]
fn decode_unknown_token_id_returns_error() {
    let tokenizer = CharTokenizer::from_corpus("abc").unwrap();
    let tokens = [TokenId::from_index(100).unwrap()];
    let result = tokenizer.decode(&tokens);

    assert_eq!(
        result,
        Err(TokenizerError::UnknownTokenId(
            TokenId::from_index(100).unwrap()
        ))
    );
}

#[test]
fn decode_reports_first_unknown_token_id() {
    let tokenizer = CharTokenizer::from_corpus("abc").unwrap();
    let tokens = [
        TokenId::from_index(1).unwrap(),
        TokenId::from_index(3).unwrap(),
        TokenId::from_index(9).unwrap(),
    ];

    assert_eq!(
        tokenizer.decode(&tokens),
        Err(TokenizerError::UnknownTokenId(
            TokenId::from_index(3).unwrap()
        ))
    );
}

#[test]
fn token_id_from_index_bounds() {
    assert_eq!(TokenId::from_index(7).unwrap().index(), Some(7));
    assert_eq!(
        TokenId::from_index(u32::MAX as usize).unwrap().index(),
        Some(u32::MAX as usize)
    );
    assert_eq!(TokenId::from_index(u32::MAX as usize + 1), None);
}

#[test]
fn tokenizer_error_messages() {
    assert_eq!(
        TokenizerError::UnknownTokenId(TokenId::from_index(100).unwrap()).message(),
        "Unknown token id `100`"
    );
    assert_eq!(
        TokenizerError::UnknownChar('я').message(),
        "Character `я` is not present in vocabulary"
    );
    assert_eq!(
        TokenizerError::TokenIdPosOverflow.message(),
        "Vocabulary contains more tokens than `TokenId` can represent"
    );
    assert_eq!(
        TokenizerError::TokenIdToUsizeOverflow.message(),
        "Token id cannot be represented as `usize` on this platform"
    );
}

#[test]
fn token_id_text_is_decimal() {
    assert_eq!(TokenId::from_index(0).unwrap().to_text(), "0");
    assert_eq!(TokenId::from_index(9).unwrap().to_text(), "9");
    assert_eq!(TokenId::from_index(10).unwrap().to_text(), "10");
    assert_eq!(
        TokenId::from_index(u32::MAX as usize).unwrap().to_text(),
        u32::MAX.to_string()
    );
}
