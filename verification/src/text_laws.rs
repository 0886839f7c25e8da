//! What holds of texts and of codecs, in terms of the characters and tokens alone.

use vstd::prelude::*;
use vstd::string::*;

use crate::codec::{
    decode_table, encode_table, encoding_of, piece_of, pieces_text, rows, special_table,
    vocab_table, CodecTable, TokenCodec,
};
use crate::text::{ends_open, occurs, occurs_at, trimmed, trimmed_end, trimmed_start, white_space};
use inferlet::model::Tokenizer;

verus! {

broadcast use vstd::string::group_string_axioms;

/// White space is the characters of the Unicode property, and no others.
pub proof fn white_space_characters(c: char)
    ensures
        white_space(c) <==> ('\t' <= c <= '\r' || c == ' ' || c == '\u{85}' || c == '\u{a0}' || c
            == '\u{1680}' || '\u{2000}' <= c <= '\u{200a}' || c == '\u{2028}' || c == '\u{2029}'
            || c == '\u{202f}' || c == '\u{205f}' || c == '\u{3000}'),
{
}

proof fn lemma_start_drops(lead: Seq<char>, rest: Seq<char>)
    requires
        forall|i: int| 0 <= i < lead.len() ==> white_space(#[trigger] lead[i]),
    ensures
        trimmed_start(lead + rest) == trimmed_start(rest),
    decreases lead.len(),
{
    if lead.len() == 0 {
        assert(lead + rest =~= rest);
    } else {
        let more = lead.drop_first();
        assert((lead + rest)[0] == lead[0]);
        assert((lead + rest).drop_first() =~= more + rest);
        assert forall|i: int| 0 <= i < more.len() implies white_space(#[trigger] more[i]) by {
            assert(more[i] == lead[i + 1]);
        }
        lemma_start_drops(more, rest);
    }
}

proof fn lemma_end_drops(rest: Seq<char>, tail: Seq<char>)
    requires
        forall|i: int| 0 <= i < tail.len() ==> white_space(#[trigger] tail[i]),
    ensures
        trimmed_end(rest + tail) == trimmed_end(rest),
    decreases tail.len(),
{
    if tail.len() == 0 {
        assert(rest + tail =~= rest);
    } else {
        let less = tail.drop_last();
        assert((rest + tail).last() == tail[tail.len() - 1]);
        assert((rest + tail).drop_last() =~= rest + less);
        assert forall|i: int| 0 <= i < less.len() implies white_space(#[trigger] less[i]) by {
            assert(less[i] == tail[i]);
        }
        lemma_end_drops(rest, less);
    }
}

/// Trimming takes the white space off both ends and nothing else: a text that neither starts
/// nor ends with white space comes out whole, whatever white space stood around it.
pub proof fn trimming_recovers_the_text(lead: Seq<char>, tight: Seq<char>, tail: Seq<char>)
    requires
        forall|i: int| 0 <= i < lead.len() ==> white_space(#[trigger] lead[i]),
        forall|i: int| 0 <= i < tail.len() ==> white_space(#[trigger] tail[i]),
        tight.len() > 0 ==> !white_space(tight[0]) && !white_space(tight.last()),
    ensures
        trimmed(lead + tight + tail) == tight,
{
    assert(lead + tight + tail =~= lead + (tight + tail));
    lemma_start_drops(lead, tight + tail);
    if tight.len() > 0 {
        assert((tight + tail)[0] == tight[0]);
        lemma_end_drops(tight, tail);
    } else {
        let none = Seq::<char>::empty();
        assert(tight + tail =~= tail + none);
        lemma_start_drops(tail, none);
        assert(tight =~= none);
    }
}

/// A text stands in another exactly where the other is that text with something, or nothing,
/// around it.
pub proof fn occurring_is_standing_between(before: Seq<char>, needle: Seq<char>, after: Seq<char>)
    ensures
        occurs(before + needle + after, needle),
{
    let hay = before + needle + after;
    assert(hay.subrange(before.len() as int, (before.len() + needle.len()) as int) =~= needle);
    assert(occurs_at(hay, needle, before.len() as int));
}

/// Where a text occurs, the other can be taken apart around it.
pub proof fn occurring_leaves_two_sides(hay: Seq<char>, needle: Seq<char>) -> (sides: (
    Seq<char>,
    Seq<char>,
))
    requires
        occurs(hay, needle),
    ensures
        hay == sides.0 + needle + sides.1,
{
    let at = choose|at: int| occurs_at(hay, needle, at);
    let before = hay.take(at);
    let after = hay.skip(at + needle.len());
    assert(hay =~= before + hay.subrange(at, at + needle.len()) + after);
    (before, after)
}

/// A text ends with a bracket exactly where it is some text and then `[`.
pub proof fn ending_open_is_ending_with_a_bracket(s: Seq<char>)
    ensures
        ends_open(s.push('[')),
        ends_open(s) ==> s == s.drop_last().push('['),
        forall|c: char| c != '[' ==> !ends_open(#[trigger] s.push(c)),
        !ends_open(Seq::<char>::empty()),
{
    if ends_open(s) {
        assert(s =~= s.drop_last().push('['));
    }
}

/// A token may be the start of a delimiter exactly where its text ends with `[`.
pub proof fn opening_tokens_end_with_a_bracket(codec: TokenCodec, t: u32)
    ensures
        codec.opens(t) <==> codec.text(seq![t]).len() > 0 && codec.text(seq![t]).last() == '[',
{
}

/// The host's codec is the tokenizer, and what it cannot decode has no text.
pub proof fn host_codec_is_its_tokenizer(t: &Tokenizer, tokens: Seq<u32>, text: Seq<char>)
    ensures
        decode_table(*t).contains_key(tokens) ==> TokenCodec::Host(t).text(tokens) == decode_table(
            *t,
        )[tokens] && TokenCodec::Host(t).decoded(tokens) == Some(decode_table(*t)[tokens]),
        !decode_table(*t).contains_key(tokens) ==> TokenCodec::Host(t).text(tokens).len() == 0
            && TokenCodec::Host(t).decoded(tokens) is None,
        TokenCodec::Host(t).encoded(text) == encode_table(*t)[text],
        TokenCodec::Host(t).special() == special_table(*t),
        TokenCodec::Host(t).vocab() == vocab_table(*t),
{
}

/// A table decodes token by token: the text of two sequences is the text of the first and
/// then that of the second, and there is none where either has none.
pub proof fn table_decodes_token_by_token(
    pieces: Seq<(u32, String)>,
    a: Seq<u32>,
    b: Seq<u32>,
)
    ensures
        pieces_text(pieces, Seq::empty()) == Some(Seq::<char>::empty()),
        pieces_text(pieces, a + b) is Some <==> pieces_text(pieces, a) is Some && pieces_text(
            pieces,
            b,
        ) is Some,
        pieces_text(pieces, a) is Some && pieces_text(pieces, b) is Some ==> pieces_text(
            pieces,
            a + b,
        ) == Some(pieces_text(pieces, a)->0 + pieces_text(pieces, b)->0),
    decreases b.len(),
{
    if b.len() == 0 {
        assert(a + b =~= a);
        if let Some(s) = pieces_text(pieces, a) {
            assert(s + Seq::<char>::empty() =~= s);
        }
    } else {
        table_decodes_token_by_token(pieces, a, b.drop_last());
        assert((a + b).drop_last() =~= a + b.drop_last());
        assert((a + b).last() == b.last());
        if pieces_text(pieces, a) is Some && pieces_text(pieces, b) is Some {
            let x = pieces_text(pieces, a)->0;
            let y = pieces_text(pieces, b.drop_last())->0;
            let z = piece_of(pieces, b.last())->0;
            assert((x + y) + z =~= x + (y + z));
        }
    }
}

/// The text of a single token is the piece that its table holds for it: that of its first
/// entry, and none without an entry.
pub proof fn first_piece_counts(pieces: Seq<(u32, String)>, t: u32, i: int)
    ensures
        0 <= i < pieces.len() && pieces[i].0 == t && (forall|j: int|
            0 <= j < i ==> (#[trigger] pieces[j]).0 != t) ==> pieces_text(pieces, seq![t]) == Some(
            pieces[i].1@,
        ),
        (forall|j: int| 0 <= j < pieces.len() ==> (#[trigger] pieces[j]).0 != t) ==> pieces_text(
            pieces,
            seq![t],
        ) is None,
{
    lemma_piece(pieces, t, i);
    let one = seq![t];
    assert(one.drop_last() =~= Seq::empty());
    assert(one.last() == t);
    assert(pieces_text(pieces, one.drop_last()) == Some(Seq::<char>::empty()));
    if let Some(s) = piece_of(pieces, t) {
        assert(Seq::<char>::empty() + s =~= s);
    }
}

proof fn lemma_piece(pieces: Seq<(u32, String)>, t: u32, i: int)
    ensures
        0 <= i < pieces.len() && pieces[i].0 == t && (forall|j: int|
            0 <= j < i ==> (#[trigger] pieces[j]).0 != t) ==> piece_of(pieces, t) == Some(
            pieces[i].1@,
        ),
        (forall|j: int| 0 <= j < pieces.len() ==> (#[trigger] pieces[j]).0 != t) ==> piece_of(
            pieces,
            t,
        ) is None,
    decreases pieces.len(),
{
    if pieces.len() > 0 && pieces[0].0 != t {
        let rest = pieces.drop_first();
        lemma_piece(rest, t, i - 1);
        assert forall|j: int| 0 <= j < rest.len() implies #[trigger] rest[j] == pieces[j + 1] by {}
        if 0 < i < pieces.len() {
            assert(rest[i - 1] == pieces[i]);
        }
    } else if pieces.len() > 0 {
        assert(pieces[0].0 == t);
    }
}

/// The encoding of a text is that of its first entry, and empty without one.
pub proof fn first_encoding_counts(encodings: Seq<(String, Vec<u32>)>, text: Seq<char>, i: int)
    ensures
        0 <= i < encodings.len() && encodings[i].0@ == text && (forall|j: int|
            0 <= j < i ==> (#[trigger] encodings[j]).0@ != text) ==> encoding_of(encodings, text)
            == encodings[i].1@,
        (forall|j: int| 0 <= j < encodings.len() ==> (#[trigger] encodings[j]).0@ != text)
            ==> encoding_of(encodings, text).len() == 0,
    decreases encodings.len(),
{
    if encodings.len() > 0 && encodings[0].0@ != text {
        let rest = encodings.drop_first();
        first_encoding_counts(rest, text, i - 1);
        assert forall|j: int| 0 <= j < rest.len() implies #[trigger] rest[j] == encodings[j
            + 1] by {}
        if 0 < i < encodings.len() {
            assert(rest[i - 1] == encodings[i]);
        }
    } else if encodings.len() > 0 {
        assert(encodings[0].0@ == text);
    }
}

/// A table's codec is its entries.
pub proof fn table_codec_is_its_table(t: &CodecTable, tokens: Seq<u32>, text: Seq<char>)
    ensures
        TokenCodec::Table(t).decoded(tokens) == pieces_text(t.pieces@, tokens),
        TokenCodec::Table(t).text(tokens) == (match pieces_text(t.pieces@, tokens) {
            Some(s) => s,
            None => Seq::empty(),
        }),
        TokenCodec::Table(t).encoded(text) == encoding_of(t.encodings@, text),
        TokenCodec::Table(t).special() == (t.special_ids@, rows(t.special_bytes@)),
        TokenCodec::Table(t).vocab() == (t.vocab_ids@, rows(t.vocab_bytes@)),
{
}

} // verus!
