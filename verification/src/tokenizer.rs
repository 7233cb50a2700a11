//! Character-level tokenizer with a deterministic vocabulary.
//!
//! Every distinct Unicode scalar value of a corpus becomes one token.
//! Identifiers are assigned in increasing order of the characters, so the
//! same set of characters always yields the same vocabulary.

use crate::text::{decimal, decimal_string, string_from_chars};
use std::collections::HashMap;
use vstd::prelude::*;

verus! {

broadcast use vstd::std_specs::hash::group_hash_axioms;

/// Compact numeric identifier of a token: its position in the vocabulary.
#[derive(Debug, Clone, Copy, PartialEq, Eq, Hash, Structural)]
pub struct TokenId(u32);

impl View for TokenId {
    type V = u32;

    closed spec fn view(&self) -> u32 {
        self.0
    }
}

impl TokenId {
    /// Builds a `TokenId` from a vocabulary index; `None` when the index
    /// does not fit in the internal `u32`.
    pub fn from_index(index: usize) -> (r: Option<Self>)
        ensures
            index <= u32::MAX ==> r is Some && r->0@ == index,
            index > u32::MAX ==> r is None,
    {
        if index <= u32::MAX as usize {
            Some(TokenId(index as u32))
        } else {
            None
        }
    }

    /// Returns the token value as a `usize` index.
    ///
    /// Every `u32` fits in a `usize` on the supported platforms, so the
    /// result is always `Some`.
    pub fn index(self) -> (r: Option<usize>)
        ensures
            r == Some(self@ as usize),
    {
        Some(self.0 as usize)
    }

    /// The token value written in decimal.
    pub fn to_text(self) -> (s: String)
        ensures
            s@ == decimal(self@ as nat),
    {
        decimal_string(self.0 as u64)
    }
}

/// Two token ids are equal exactly when their values are equal.
pub proof fn lemma_token_id_eq(a: TokenId, b: TokenId)
    ensures
        a == b <==> a@ == b@,
{
}

/// The values of a sequence of tokens.
pub open spec fn token_values(tokens: Seq<TokenId>) -> Seq<u32> {
    tokens.map_values(|t: TokenId| t@)
}

/// Characters ordered strictly increasingly by their scalar value.
pub open spec fn strictly_sorted(s: Seq<char>) -> bool {
    forall|i: int, j: int| 0 <= i < j < s.len() ==> (s[i] as u32) < (s[j] as u32)
}

/// Every character of `text` belongs to `vocab`.
pub open spec fn all_known(vocab: Seq<char>, text: Seq<char>) -> bool {
    forall|i: int| 0 <= i < text.len() ==> vocab.contains(#[trigger] text[i])
}

/// `ids` is an encoding of `text` over `vocab`: position by position, each
/// id is a valid index whose vocabulary entry is the character of `text`.
pub open spec fn encodes(vocab: Seq<char>, text: Seq<char>, ids: Seq<u32>) -> bool {
    &&& ids.len() == text.len()
    &&& forall|i: int|
        0 <= i < text.len() ==> (#[trigger] ids[i]) < vocab.len() && vocab[ids[i] as int]
            == text[i]
}

/// Every id is an index of the vocabulary.
pub open spec fn all_in_range(vocab_len: nat, ids: Seq<u32>) -> bool {
    forall|i: int| 0 <= i < ids.len() ==> (#[trigger] ids[i]) < vocab_len
}

/// The text that `ids` stands for over `vocab`.
pub open spec fn decode_chars(vocab: Seq<char>, ids: Seq<u32>) -> Seq<char> {
    ids.map_values(|id: u32| vocab[id as int])
}


/// Decoding an encoding of `text` gives back `text`: every id of the
/// encoding is valid, and the characters it stands for are those of `text`.
pub proof fn lemma_decode_inverts_encode(vocab: Seq<char>, text: Seq<char>, ids: Seq<u32>)
    requires
        encodes(vocab, text, ids),
    ensures
        all_in_range(vocab.len(), ids),
        decode_chars(vocab, ids) == text,
{
    assert(decode_chars(vocab, ids) =~= text);
}

/// Over a strictly sorted vocabulary a text has at most one encoding.
pub proof fn lemma_encoding_unique(vocab: Seq<char>, text: Seq<char>, a: Seq<u32>, b: Seq<u32>)
    requires
        strictly_sorted(vocab),
        encodes(vocab, text, a),
        encodes(vocab, text, b),
    ensures
        a == b,
{
    assert forall|i: int| 0 <= i < a.len() implies a[i] == b[i] by {
        let x = a[i] as int;
        let y = b[i] as int;
        if x < y {
            assert((vocab[x] as u32) < (vocab[y] as u32));
        } else if y < x {
            assert((vocab[y] as u32) < (vocab[x] as u32));
        }
    }
    assert(a =~= b);
}

/// Encoding the text that valid ids stand for gives back those ids: the
/// text is made of vocabulary characters only, and over a strictly sorted
/// vocabulary its one encoding is `ids`.
pub proof fn lemma_encode_inverts_decode(vocab: Seq<char>, ids: Seq<u32>, other: Seq<u32>)
    requires
        strictly_sorted(vocab),
        all_in_range(vocab.len(), ids),
        encodes(vocab, decode_chars(vocab, ids), other),
    ensures
        all_known(vocab, decode_chars(vocab, ids)),
        encodes(vocab, decode_chars(vocab, ids), ids),
        other == ids,
{
    let text = decode_chars(vocab, ids);
    assert forall|i: int| 0 <= i < text.len() implies vocab.contains(#[trigger] text[i]) by {
        assert(vocab[ids[i] as int] == text[i]);
    }
    assert(encodes(vocab, text, ids));
    lemma_encoding_unique(vocab, text, ids, other);
}

/// A vocabulary built from a corpus knows every character of the corpus.
pub proof fn lemma_corpus_is_known(vocab: Seq<char>, corpus: Seq<char>)
    requires
        forall|c: char| vocab.contains(c) <==> corpus.contains(c),
    ensures
        all_known(vocab, corpus),
{
    assert forall|i: int| 0 <= i < corpus.len() implies vocab.contains(#[trigger] corpus[i]) by {
        assert(corpus.contains(corpus[i]));
    }
}

/// Two strictly sorted vocabularies with the same characters are equal: the
/// vocabulary depends only on the set of characters of the corpus.
pub proof fn lemma_vocabulary_determined_by_chars(a: Seq<char>, b: Seq<char>)
    requires
        strictly_sorted(a),
        strictly_sorted(b),
        forall|c: char| a.contains(c) <==> b.contains(c),
    ensures
        a == b,
    decreases a.len(),
{
    if a.len() == 0 {
        if b.len() > 0 {
            assert(b.contains(b[0]));
        }
        assert(a =~= b);
    } else if b.len() == 0 {
        assert(a.contains(a[0]));
    } else {
        assert(a.contains(a[0]));
        assert(b.contains(b[0]));
        let k = choose|k: int| 0 <= k < b.len() && b[k] == a[0];
        let m = choose|m: int| 0 <= m < a.len() && a[m] == b[0];
        if k > 0 {
            assert((b[0] as u32) < (b[k] as u32));
            if m > 0 {
                assert((a[0] as u32) < (a[m] as u32));
            }
        }
        assert(a[0] == b[0]);
        let ta = a.drop_first();
        let tb = b.drop_first();
        assert forall|c: char| ta.contains(c) <==> tb.contains(c) by {
            if ta.contains(c) {
                let i = choose|i: int| 0 <= i < ta.len() && ta[i] == c;
                assert(a[i + 1] == c);
                assert((a[0] as u32) < (a[i + 1] as u32));
                assert(b.contains(c));
                let j = choose|j: int| 0 <= j < b.len() && b[j] == c;
                assert(j != 0);
                assert(tb[j - 1] == c);
            }
            if tb.contains(c) {
                let i = choose|i: int| 0 <= i < tb.len() && tb[i] == c;
                assert(b[i + 1] == c);
                assert((b[0] as u32) < (b[i + 1] as u32));
                assert(a.contains(c));
                let j = choose|j: int| 0 <= j < a.len() && a[j] == c;
                assert(j != 0);
                assert(ta[j - 1] == c);
            }
        }
        lemma_vocabulary_determined_by_chars(ta, tb);
        assert(a =~= b) by {
            assert forall|i: int| 0 <= i < a.len() implies a[i] == b[i] by {
                if i > 0 {
                    assert(a[i] == ta[i - 1]);
                    assert(b[i] == tb[i - 1]);
                }
            }
        }
    }
}

/// Character-level tokenizer with a deterministic vocabulary.
#[derive(Debug, PartialEq, Eq)]
pub struct CharTokenizer {
    char_to_id: HashMap<u32, TokenId>,
    id_to_char: Vec<char>,
}

/// Errors raised while building or using a [`CharTokenizer`].
#[derive(Debug, PartialEq)]
pub enum TokenizerError {
    /// The token id is not part of the vocabulary.
    UnknownTokenId(TokenId),
    /// The character is not part of the vocabulary.
    UnknownChar(char),
    /// A vocabulary position does not fit in a [`TokenId`].
    TokenIdPosOverflow,
    /// A [`TokenId`] value cannot be represented as `usize`.
    TokenIdToUsizeOverflow,
}


/// Text shown to the user for a tokenizer error.
pub open spec fn tokenizer_error_text(e: TokenizerError) -> Seq<char> {
    match e {
        TokenizerError::UnknownTokenId(token) => "Unknown token id `"@ + decimal(token@ as nat)
            + "`"@,
        TokenizerError::UnknownChar(c) => "Character `"@ + seq![c]
            + "` is not present in vocabulary"@,
        TokenizerError::TokenIdPosOverflow => "Vocabulary contains more tokens than `TokenId` can represent"@,
        TokenizerError::TokenIdToUsizeOverflow => "Token id cannot be represented as `usize` on this platform"@,
    }
}

impl TokenizerError {
    /// Text shown to the user for this error.
    pub fn message(&self) -> (s: String)
        ensures
            s@ == tokenizer_error_text(*self),
    {
        match self {
            TokenizerError::UnknownTokenId(token) => {
                let mut s = String::from_str("Unknown token id `");
                s.append(token.to_text().as_str());
                s.append("`");
                s
            },
            TokenizerError::UnknownChar(c) => {
                let mut chars: Vec<char> = Vec::new();
                chars.push(*c);
                proof {
                    assert(chars@ =~= seq![*c]);
                }
                let mut s = String::from_str("Character `");
                s.append(string_from_chars(&chars).as_str());
                s.append("` is not present in vocabulary");
                s
            },
            TokenizerError::TokenIdPosOverflow => String::from_str(
                "Vocabulary contains more tokens than `TokenId` can represent",
            ),
            TokenizerError::TokenIdToUsizeOverflow => String::from_str(
                "Token id cannot be represented as `usize` on this platform",
            ),
        }
    }
}

impl View for CharTokenizer {
    type V = Seq<char>;

    /// The vocabulary: the character of each token id, by id.
    closed spec fn view(&self) -> Seq<char> {
        self.id_to_char@
    }
}

/// In a strictly sorted sequence of characters the scalar value at a
/// position is at least the position.
proof fn lemma_sorted_value_at_least_index(s: Seq<char>, i: int)
    requires
        strictly_sorted(s),
        0 <= i < s.len(),
    ensures
        (s[i] as u32) >= i,
    decreases i,
{
    if i > 0 {
        lemma_sorted_value_at_least_index(s, i - 1);
        assert((s[i - 1] as u32) < (s[i] as u32));
    }
}

/// The scalar value of a character, as `u32`, is its value; it is at
/// most 0x10FFFF.
proof fn lemma_char_value(c: char)
    ensures
        (c as u32) as int == c as int,
        (c as u32) <= 0x10FFFF,
{
}

/// A strictly sorted sequence of characters has at most 0x110000 entries.
proof fn lemma_sorted_len_bound(s: Seq<char>)
    requires
        strictly_sorted(s),
    ensures
        s.len() <= 0x110000,
{
    if s.len() > 0 {
        lemma_sorted_value_at_least_index(s, s.len() - 1);
        lemma_char_value(s[s.len() - 1]);
    }
}

/// Position of `c` in the strictly sorted `sorted`: the first index whose
/// character is not smaller than `c`, and whether `c` is found there.
fn find_position(sorted: &Vec<char>, c: char) -> (r: (bool, usize))
    requires
        strictly_sorted(sorted@),
    ensures
        r.1 <= sorted@.len(),
        forall|i: int| 0 <= i < r.1 ==> (sorted@[i] as u32) < (c as u32),
        forall|i: int| r.1 <= i < sorted@.len() ==> (c as u32) <= (sorted@[i] as u32),
        r.0 <==> sorted@.contains(c),
        r.0 ==> sorted@[r.1 as int] == c,
{
    let mut lo: usize = 0;
    let mut hi: usize = sorted.len();
    while lo < hi
        invariant
            lo <= hi <= sorted@.len(),
            strictly_sorted(sorted@),
            forall|i: int| 0 <= i < lo ==> (sorted@[i] as u32) < (c as u32),
            forall|i: int| hi <= i < sorted@.len() ==> (c as u32) <= (sorted@[i] as u32),
        decreases hi - lo,
    {
        let mid = lo + (hi - lo) / 2;
        if (sorted[mid] as u32) < (c as u32) {
            lo = mid + 1;
        } else {
            hi = mid;
        }
    }
    let found = lo < sorted.len() && sorted[lo] == c;
    proof {
        if sorted@.contains(c) {
            let k = choose|k: int| 0 <= k < sorted@.len() && sorted@[k] == c;
            assert(k == lo as int);
        }
    }
    (found, lo)
}

impl CharTokenizer {
    /// Well-formedness: the vocabulary is strictly sorted and the lookup
    /// table maps the scalar value of each vocabulary character to its id.
    pub closed spec fn wf(&self) -> bool {
        &&& strictly_sorted(self.id_to_char@)
        &&& forall|k: u32| #[trigger]
            self.char_to_id@.contains_key(k) ==> exists|i: int|
                0 <= i < self.id_to_char@.len() && (self.id_to_char@[i] as u32) == k
        &&& forall|i: int|
            0 <= i < self.id_to_char@.len() ==> self.char_to_id@.contains_key(
                #[trigger] (self.id_to_char@[i] as u32),
            ) && self.char_to_id@[self.id_to_char@[i] as u32]@ == i
    }

    /// The vocabulary of a well-formed tokenizer is strictly sorted.
    pub proof fn lemma_vocabulary_sorted(&self)
        requires
            self.wf(),
        ensures
            strictly_sorted(self@),
    {
    }

    /// Builds a tokenizer from the distinct characters of `corpus`, sorted
    /// by scalar value.
    ///
    /// Never fails: a corpus has at most 0x110000 distinct characters,
    /// which all fit in a [`TokenId`].
    pub fn from_corpus(corpus: &str) -> (r: Result<Self, TokenizerError>)
        ensures
            r is Ok,
            r matches Ok(t) ==> {
                &&& t.wf()
                &&& strictly_sorted(t@)
                &&& forall|c: char| t@.contains(c) <==> corpus@.contains(c)
            },
    {
        let mut unique: Vec<char> = Vec::new();
        for ch in it: corpus.chars()
            invariant
                it.seq() == corpus@,
                strictly_sorted(unique@),
                forall|c: char|
                    unique@.contains(c) <==> corpus@.subrange(0, it.index()).contains(c),
        {
            let ghost before = corpus@.subrange(0, it.index());
            let ghost old_u = unique@;
            let (found, pos) = find_position(&unique, ch);
            if !found {
                unique.insert(pos, ch);
                proof {
                    assert(unique@ == old_u.insert(pos as int, ch));
                    assert forall|i: int, j: int| 0 <= i < j < unique@.len() implies (unique@[i] as u32) < (
                    unique@[j] as u32) by {
                        if j < pos {
                            assert(unique@[i] == old_u[i] && unique@[j] == old_u[j]);
                        } else if j == pos {
                            assert(unique@[i] == old_u[i]);
                        } else if i < pos {
                            assert(unique@[i] == old_u[i] && unique@[j] == old_u[j - 1]);
                        } else if i == pos {
                            assert(unique@[j] == old_u[j - 1]);
                            assert(old_u[j - 1] != ch);
                            lemma_char_value(ch);
                            lemma_char_value(old_u[j - 1]);
                        } else {
                            assert(unique@[i] == old_u[i - 1] && unique@[j] == old_u[j - 1]);
                        }
                    }
                    assert forall|c: char| unique@.contains(c) <==> (old_u.contains(c) || c == ch) by {
                        if unique@.contains(c) {
                            let k = choose|k: int| 0 <= k < unique@.len() && unique@[k] == c;
                            if k < pos {
                                assert(old_u[k] == c);
                            } else if k > pos {
                                assert(old_u[k - 1] == c);
                            }
                        }
                        if old_u.contains(c) {
                            let k = choose|k: int| 0 <= k < old_u.len() && old_u[k] == c;
                            if k < pos {
                                assert(unique@[k] == c);
                            } else {
                                assert(unique@[k + 1] == c);
                            }
                        }
                        if c == ch {
                            assert(unique@[pos as int] == c);
                        }
                    }
                }
            }
            proof {
                let after = corpus@.subrange(0, it.index() + 1);
                assert(after == before.push(ch));
                assert forall|c: char| unique@.contains(c) <==> (old_u.contains(c) || c == ch) by {
                    if found {
                        assert(unique@ == old_u);
                    }
                }
                assert forall|c: char| after.contains(c) <==> (before.contains(c) || c == ch) by {
                    if after.contains(c) && c != ch {
                        let k = choose|k: int| 0 <= k < after.len() && after[k] == c;
                        assert(before[k] == c);
                    }
                    if before.contains(c) {
                        let k = choose|k: int| 0 <= k < before.len() && before[k] == c;
                        assert(after[k] == c);
                    }
                    if c == ch {
                        assert(after[after.len() - 1] == c);
                    }
                }
                assert forall|c: char| unique@.contains(c) <==> after.contains(c) by {
                    assert(old_u.contains(c) <==> before.contains(c));
                }
            }
        }
        assert(corpus@.subrange(0, corpus@.len() as int) == corpus@);
        proof {
            lemma_sorted_len_bound(unique@);
        }
        let mut char_to_id: HashMap<u32, TokenId> = HashMap::with_capacity(unique.len());
        let mut id_to_char: Vec<char> = Vec::with_capacity(unique.len());
        let n = unique.len();
        for idx in 0..n
            invariant
                n == unique@.len(),
                n <= 0x110000,
                strictly_sorted(unique@),
                id_to_char@ == unique@.subrange(0, idx as int),
                forall|k: u32| #[trigger]
                    char_to_id@.contains_key(k) ==> exists|i: int|
                        0 <= i < idx && (unique@[i] as u32) == k,
                forall|i: int|
                    0 <= i < idx ==> char_to_id@.contains_key(#[trigger] (unique@[i] as u32))
                        && char_to_id@[unique@[i] as u32]@ == i,
        {
            let token_id = match TokenId::from_index(idx) {
                Some(t) => t,
                None => return Err(TokenizerError::TokenIdPosOverflow),
            };
            let ch = unique[idx];
            char_to_id.insert(ch as u32, token_id);
            id_to_char.push(ch);
            proof {
                assert forall|i: int| 0 <= i < idx + 1 implies char_to_id@.contains_key(
                    #[trigger] (unique@[i] as u32),
                ) && char_to_id@[unique@[i] as u32]@ == i by {
                    if i < idx {
                        assert((unique@[i] as u32) != (ch as u32));
                    }
                }
            }
        }
        assert(id_to_char@ == unique@);
        Ok(CharTokenizer { char_to_id, id_to_char })
    }

    /// Encodes `text` into token ids, one per character, in order.
    ///
    /// Fails with [`TokenizerError::UnknownChar`] carrying the first
    /// character of `text` that is not in the vocabulary.
    pub fn encode(&self, text: &str) -> (r: Result<Vec<TokenId>, TokenizerError>)
        requires
            self.wf(),
        ensures
            r is Ok <==> all_known(self@, text@),
            r matches Ok(tokens) ==> encodes(self@, text@, token_values(tokens@)),
            r matches Err(e) ==> exists|k: int|
                #![trigger text@[k]]
                {
                    &&& 0 <= k < text@.len()
                    &&& !self@.contains(text@[k])
                    &&& all_known(self@, text@.subrange(0, k))
                    &&& e == TokenizerError::UnknownChar(text@[k])
                },
    {
        let mut output: Vec<TokenId> = Vec::new();
        for ch in it: text.chars()
            invariant
                it.seq() == text@,
                self.wf(),
                0 <= it.index() <= text@.len(),
                all_known(self@, text@.subrange(0, it.index())),
                encodes(self@, text@.subrange(0, it.index()), token_values(output@)),
        {
            let ghost k = it.index();
            match self.char_to_id.get(&(ch as u32)) {
                Some(token) => {
                    proof {
                        let i = choose|i: int|
                            0 <= i < self.id_to_char@.len() && (self.id_to_char@[i] as u32) == (
                            ch as u32);
                        lemma_char_value(ch);
                        lemma_char_value(self.id_to_char@[i]);
                        assert(self.id_to_char@[i] == ch);
                    }
                    let ghost prev = output@;
                    output.push(*token);
                    proof {
                        let prefix = text@.subrange(0, k + 1);
                        assert(prefix == text@.subrange(0, k).push(ch));
                        assert(token_values(output@) == token_values(prev).push(token@));
                        assert(self@.contains(ch)) by {
                            assert(self@[token@ as int] == ch);
                        }
                        assert(all_known(self@, prefix)) by {
                            assert forall|i: int| 0 <= i < prefix.len() implies self@.contains(
                                #[trigger] prefix[i],
                            ) by {
                                if i < k {
                                    assert(prefix[i] == text@.subrange(0, k)[i]);
                                }
                            }
                        }
                    }
                },
                None => {
                    proof {
                        if self@.contains(ch) {
                            let i = choose|i: int| 0 <= i < self@.len() && self@[i] == ch;
                            assert(self.char_to_id@.contains_key(self.id_to_char@[i] as u32));
                        }
                        assert(text@[k] == ch);
                        assert(!all_known(self@, text@)) by {
                            assert(!self@.contains(text@[k]));
                        }
                    }
                    return Err(TokenizerError::UnknownChar(ch));
                },
            }
        }
        proof {
            assert(text@.subrange(0, text@.len() as int) == text@);
        }
        Ok(output)
    }

    /// Decodes token ids back into the text they stand for.
    ///
    /// Fails with [`TokenizerError::UnknownTokenId`] carrying the first id
    /// that is not an index of the vocabulary.
    pub fn decode(&self, tokens: &[TokenId]) -> (r: Result<String, TokenizerError>)
        requires
            self.wf(),
        ensures
            r is Ok <==> all_in_range(self@.len(), token_values(tokens@)),
            r matches Ok(s) ==> s@ == decode_chars(self@, token_values(tokens@)),
            r matches Err(e) ==> exists|k: int|
                #![trigger tokens@[k]]
                {
                    &&& 0 <= k < tokens@.len()
                    &&& tokens@[k]@ >= self@.len()
                    &&& all_in_range(self@.len(), token_values(tokens@.subrange(0, k)))
                    &&& e == TokenizerError::UnknownTokenId(tokens@[k])
                },
    {
        let mut output: Vec<char> = Vec::new();
        let n = tokens.len();
        for i in 0..n
            invariant
                n == tokens@.len(),
                all_in_range(self@.len(), token_values(tokens@.subrange(0, i as int))),
                output@ == decode_chars(self@, token_values(tokens@.subrange(0, i as int))),
        {
            let id = tokens[i];
            let token_idx = match id.index() {
                Some(idx) => idx,
                None => return Err(TokenizerError::TokenIdToUsizeOverflow),
            };
            if token_idx < self.id_to_char.len() {
                output.push(self.id_to_char[token_idx]);
                proof {
                    let prefix = tokens@.subrange(0, i + 1);
                    assert(prefix == tokens@.subrange(0, i as int).push(id));
                    assert(token_values(prefix) == token_values(tokens@.subrange(0, i as int)).push(
                        id@,
                    ));
                    assert(output@ == decode_chars(self@, token_values(prefix)));
                }
            } else {
                proof {
                    assert(token_values(tokens@)[i as int] == id@);
                }
                return Err(TokenizerError::UnknownTokenId(id));
            }
        }
        proof {
            assert(tokens@.subrange(0, n as int) == tokens@);
        }
        Ok(string_from_chars(&output))
    }

    /// Number of tokens in the vocabulary.
    pub fn vocab_size(&self) -> (r: usize)
        ensures
            r == self@.len(),
    {
        self.id_to_char.len()
    }
}

} // verus!
