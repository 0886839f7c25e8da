//! Tokens and text: the tokenizer that the parsers and registries read.

use inferlet::model::Tokenizer;
use vstd::prelude::*;
use vstd::string::*;

use crate::text::{ends_open, ends_with_open_bracket, same_text};

verus! {

/// The host's tokenizer handle.
#[verifier::external_type_specification]
#[verifier::external_body]
pub struct ExTokenizer(inferlet::model::Tokenizer);

/// What `Tokenizer::decode` gives for a token sequence; a sequence outside the domain is
/// one that it rejects.
pub uninterp spec fn decode_table(t: Tokenizer) -> Map<Seq<u32>, Seq<char>>;

/// What `Tokenizer::encode` gives for a text.
pub uninterp spec fn encode_table(t: Tokenizer) -> Map<Seq<char>, Seq<u32>>;

/// What `Tokenizer::special_tokens` gives: ids and byte strings.
pub uninterp spec fn special_table(t: Tokenizer) -> (Seq<u32>, Seq<Seq<u8>>);

/// What `Tokenizer::vocabs` gives: ids and byte strings.
pub uninterp spec fn vocab_table(t: Tokenizer) -> (Seq<u32>, Seq<Seq<u8>>);

/// The views of a sequence of vectors.
pub open spec fn rows<T>(v: Seq<Vec<T>>) -> Seq<Seq<T>> {
    v.map_values(|r: Vec<T>| r@)
}

/// Calls `Tokenizer::decode`, which the host answers from the model's fixed vocabulary:
/// the text of `tokens`, or `None` where the host reports an error. What the text is, the
/// vocabulary decides and nothing here states.
#[verifier::external_body]
fn tokenizer_decode(tokenizer: &Tokenizer, tokens: &[u32]) -> (text: Option<String>)
    ensures
        text is Some <==> decode_table(*tokenizer).contains_key(tokens@),
        text matches Some(s) ==> s@ == decode_table(*tokenizer)[tokens@],
{
    tokenizer.decode(tokens).ok()
}

/// Calls `Tokenizer::encode`, which the host answers from the model's fixed vocabulary:
/// the tokens of `text`. Which tokens these are, nothing here states.
#[verifier::external_body]
fn tokenizer_encode(tokenizer: &Tokenizer, text: &str) -> (tokens: Vec<u32>)
    ensures
        tokens@ == encode_table(*tokenizer)[text@],
{
    tokenizer.encode(text)
}

/// Calls `Tokenizer::special_tokens`: the ids of the special tokens and their byte
/// strings, side by side, a fixed property of the tokenizer.
#[verifier::external_body]
fn tokenizer_special_tokens(tokenizer: &Tokenizer) -> (r: (Vec<u32>, Vec<Vec<u8>>))
    ensures
        (r.0@, rows(r.1@)) == special_table(*tokenizer),
{
    tokenizer.special_tokens()
}

/// Calls `Tokenizer::vocabs`: the ids of the whole vocabulary and their byte strings, side
/// by side, a fixed property of the tokenizer.
#[verifier::external_body]
fn tokenizer_vocabs(tokenizer: &Tokenizer) -> (r: (Vec<u32>, Vec<Vec<u8>>))
    ensures
        (r.0@, rows(r.1@)) == vocab_table(*tokenizer),
{
    tokenizer.vocabs()
}

/// A tokenizer written out as tables: one text per token, one token sequence per text.
pub struct CodecTable {
    /// The text of each token; the first entry of a token counts.
    pub pieces: Vec<(u32, String)>,
    /// The tokens of each text; the first entry of a text counts, others encode to nothing.
    pub encodings: Vec<(String, Vec<u32>)>,
    pub special_ids: Vec<u32>,
    pub special_bytes: Vec<Vec<u8>>,
    pub vocab_ids: Vec<u32>,
    pub vocab_bytes: Vec<Vec<u8>>,
}

/// The text that `pieces` gives for `t`.
pub open spec fn piece_of(pieces: Seq<(u32, String)>, t: u32) -> Option<Seq<char>>
    decreases pieces.len(),
{
    if pieces.len() == 0 {
        None
    } else if pieces[0].0 == t {
        Some(pieces[0].1@)
    } else {
        piece_of(pieces.drop_first(), t)
    }
}

/// The texts of `tokens` one after another; `None` where one of them has no text.
pub open spec fn pieces_text(pieces: Seq<(u32, String)>, tokens: Seq<u32>) -> Option<Seq<char>>
    decreases tokens.len(),
{
    if tokens.len() == 0 {
        Some(Seq::empty())
    } else {
        match (pieces_text(pieces, tokens.drop_last()), piece_of(pieces, tokens.last())) {
            (Some(a), Some(b)) => Some(a + b),
            _ => None,
        }
    }
}

/// The tokens that `encodings` gives for `text`, or none.
pub open spec fn encoding_of(encodings: Seq<(String, Vec<u32>)>, text: Seq<char>) -> Seq<u32>
    decreases encodings.len(),
{
    if encodings.len() == 0 {
        Seq::empty()
    } else if encodings[0].0@ == text {
        encodings[0].1@
    } else {
        encoding_of(encodings.drop_first(), text)
    }
}

impl CodecTable {
    fn piece(&self, t: u32) -> (piece: Option<&String>)
        ensures
            piece is Some <==> piece_of(self.pieces@, t) is Some,
            piece matches Some(s) ==> piece_of(self.pieces@, t) == Some(s@),
    {
        let mut i: usize = 0;
        proof {
            assert(self.pieces@.skip(0) =~= self.pieces@);
        }
        while i < self.pieces.len()
            invariant
                i <= self.pieces.len(),
                piece_of(self.pieces@, t) == piece_of(self.pieces@.skip(i as int), t),
            decreases self.pieces.len() - i,
        {
            if self.pieces[i].0 == t {
                return Some(&self.pieces[i].1);
            }
            proof {
                assert(self.pieces@.skip(i as int).drop_first() =~= self.pieces@.skip(i + 1));
            }
            i = i + 1;
        }
        None
    }

    fn decode(&self, tokens: &[u32]) -> (text: Option<String>)
        ensures
            text is Some <==> pieces_text(self.pieces@, tokens@) is Some,
            text matches Some(s) ==> pieces_text(self.pieces@, tokens@) == Some(s@),
    {
        let mut out = String::new();
        let mut i: usize = 0;
        proof {
            assert(tokens@.take(tokens@.len() as int) =~= tokens@);
        }
        while i < tokens.len()
            invariant
                i <= tokens.len(),
                pieces_text(self.pieces@, tokens@.take(i as int)) == Some(out@),
                tokens@.take(tokens@.len() as int) == tokens@,
            decreases tokens.len() - i,
        {
            proof {
                assert(tokens@.take(i + 1).drop_last() =~= tokens@.take(i as int));
            }
            match self.piece(tokens[i]) {
                Some(s) => {
                    out.append(s.as_str());
                },
                None => {
                    proof {
                        lemma_pieces_text_prefix(self.pieces@, tokens@, i + 1);
                    }
                    return None;
                },
            }
            i = i + 1;
        }
        Some(out)
    }

    fn encode(&self, text: &str) -> (tokens: Vec<u32>)
        ensures
            tokens@ == encoding_of(self.encodings@, text@),
    {
        let mut i: usize = 0;
        proof {
            assert(self.encodings@.skip(0) =~= self.encodings@);
        }
        while i < self.encodings.len()
            invariant
                i <= self.encodings.len(),
                encoding_of(self.encodings@, text@) == encoding_of(
                    self.encodings@.skip(i as int),
                    text@,
                ),
            decreases self.encodings.len() - i,
        {
            if same_text(self.encodings[i].0.as_str(), text) {
                return copy_row(&self.encodings[i].1);
            }
            proof {
                assert(self.encodings@.skip(i as int).drop_first() =~= self.encodings@.skip(i + 1));
            }
            i = i + 1;
        }
        Vec::new()
    }
}

/// A sequence decodes only if each of its prefixes does.
proof fn lemma_pieces_text_prefix(pieces: Seq<(u32, String)>, tokens: Seq<u32>, n: int)
    requires
        0 <= n <= tokens.len(),
        pieces_text(pieces, tokens.take(n)) is None,
    ensures
        pieces_text(pieces, tokens) is None,
    decreases tokens.len(),
{
    if n == tokens.len() {
        assert(tokens.take(n) =~= tokens);
    } else {
        assert(tokens.drop_last().take(n) =~= tokens.take(n));
        lemma_pieces_text_prefix(pieces, tokens.drop_last(), n);
    }
}

/// A copy of a vector of plain values.
pub fn copy_row<T: Copy>(row: &Vec<T>) -> (copy: Vec<T>)
    ensures
        copy@ == row@,
{
    let mut copy: Vec<T> = Vec::new();
    let mut i: usize = 0;
    while i < row.len()
        invariant
            i <= row.len(),
            copy@ == row@.take(i as int),
        decreases row.len() - i,
    {
        copy.push(row[i]);
        i = i + 1;
        proof {
            assert(row@.take(i as int) =~= row@.take(i - 1).push(row@[i - 1]));
        }
    }
    proof {
        assert(row@.take(row@.len() as int) =~= row@);
    }
    copy
}

/// A copy of a vector of vectors of plain values.
pub fn copy_rows<T: Copy>(rows_in: &Vec<Vec<T>>) -> (copy: Vec<Vec<T>>)
    ensures
        rows(copy@) == rows(rows_in@),
{
    let mut copy: Vec<Vec<T>> = Vec::new();
    let mut i: usize = 0;
    while i < rows_in.len()
        invariant
            i <= rows_in.len(),
            copy.len() == i,
            forall|j: int| 0 <= j < i ==> (#[trigger] copy@[j])@ == rows_in@[j]@,
        decreases rows_in.len() - i,
    {
        copy.push(copy_row(&rows_in[i]));
        i = i + 1;
    }
    proof {
        assert(rows(copy@) =~= rows(rows_in@));
    }
    copy
}

/// A source of token and text conversions: the host's tokenizer or a table.
pub enum TokenCodec<'a> {
    Host(&'a Tokenizer),
    Table(&'a CodecTable),
}

impl<'a> TokenCodec<'a> {
    /// The text of `tokens`, `None` where there is none.
    pub open spec fn decoded(self, tokens: Seq<u32>) -> Option<Seq<char>> {
        match self {
            TokenCodec::Host(t) => if decode_table(*t).contains_key(tokens) {
                Some(decode_table(*t)[tokens])
            } else {
                None
            },
            TokenCodec::Table(t) => pieces_text(t.pieces@, tokens),
        }
    }

    /// The text of `tokens`, empty where there is none.
    pub open spec fn text(self, tokens: Seq<u32>) -> Seq<char> {
        match self.decoded(tokens) {
            Some(s) => s,
            None => Seq::empty(),
        }
    }

    /// The tokens of `text`.
    pub open spec fn encoded(self, text: Seq<char>) -> Seq<u32> {
        match self {
            TokenCodec::Host(t) => encode_table(*t)[text],
            TokenCodec::Table(t) => encoding_of(t.encodings@, text),
        }
    }

    /// The special tokens: ids and byte strings.
    pub open spec fn special(self) -> (Seq<u32>, Seq<Seq<u8>>) {
        match self {
            TokenCodec::Host(t) => special_table(*t),
            TokenCodec::Table(t) => (t.special_ids@, rows(t.special_bytes@)),
        }
    }

    /// The vocabulary: ids and byte strings.
    pub open spec fn vocab(self) -> (Seq<u32>, Seq<Seq<u8>>) {
        match self {
            TokenCodec::Host(t) => vocab_table(*t),
            TokenCodec::Table(t) => (t.vocab_ids@, rows(t.vocab_bytes@)),
        }
    }

    /// The text of `t` ends with `[`: the token may be the start of a delimiter.
    pub open spec fn opens(self, t: u32) -> bool {
        ends_open(self.text(seq![t]))
    }

    /// The text of `tokens`, `None` where the tokenizer rejects them.
    pub fn decode(&self, tokens: &[u32]) -> (text: Option<String>)
        ensures
            text is Some <==> self.decoded(tokens@) is Some,
            text matches Some(s) ==> self.decoded(tokens@) == Some(s@),
    {
        match self {
            TokenCodec::Host(t) => tokenizer_decode(t, tokens),
            TokenCodec::Table(t) => t.decode(tokens),
        }
    }

    /// The text of `tokens`, empty where the tokenizer rejects them.
    pub fn decode_or_default(&self, tokens: &[u32]) -> (text: String)
        ensures
            text@ == self.text(tokens@),
    {
        match self.decode(tokens) {
            Some(s) => s,
            None => String::new(),
        }
    }

    /// The tokens of `text`.
    pub fn encode(&self, text: &str) -> (tokens: Vec<u32>)
        ensures
            tokens@ == self.encoded(text@),
    {
        match self {
            TokenCodec::Host(t) => tokenizer_encode(t, text),
            TokenCodec::Table(t) => t.encode(text),
        }
    }

    /// The special tokens: ids and byte strings.
    pub fn special_tokens(&self) -> (r: (Vec<u32>, Vec<Vec<u8>>))
        ensures
            (r.0@, rows(r.1@)) == self.special(),
    {
        match self {
            TokenCodec::Host(t) => tokenizer_special_tokens(t),
            TokenCodec::Table(t) => (copy_row(&t.special_ids), copy_rows(&t.special_bytes)),
        }
    }

    /// The vocabulary: ids and byte strings.
    pub fn vocabs(&self) -> (r: (Vec<u32>, Vec<Vec<u8>>))
        ensures
            (r.0@, rows(r.1@)) == self.vocab(),
    {
        match self {
            TokenCodec::Host(t) => tokenizer_vocabs(t),
            TokenCodec::Table(t) => (copy_row(&t.vocab_ids), copy_rows(&t.vocab_bytes)),
        }
    }

    /// The text of a single token.
    pub fn detokenize_one(&self, t: u32) -> (text: String)
        ensures
            text@ == self.text(seq![t]),
    {
        let one: Vec<u32> = vec![t];
        proof {
            assert(one@ =~= seq![t]);
        }
        self.decode_or_default(one.as_slice())
    }

    /// Tells whether the text of `t` ends with `[`.
    pub fn is_partial_delim_start(&self, t: u32) -> (yes: bool)
        ensures
            yes == self.opens(t),
    {
        let text = self.detokenize_one(t);
        ends_with_open_bracket(text.as_str())
    }
}

} // verus!
