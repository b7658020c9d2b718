//! The katakana reading of one Latin token.

use vstd::prelude::*;
use vstd::string::StringExecFns;
use crate::lexicon::{alkana_reading, is_katakana, is_katakana_text, lookup, romaji_to_katakana, to_katakana};
use crate::segment::{is_word, lemma_no_word_no_split, min_split, split_of};

verus! {

/// The reading of a word of the word list; any other piece stands for itself.
pub open spec fn word_reading(piece: Seq<char>) -> Seq<char> {
    match alkana_reading(piece) {
        Some(r) => r,
        None => piece,
    }
}

/// The readings of `parts`, joined in order.
pub open spec fn joined_readings(parts: Seq<Seq<char>>) -> Seq<char>
    decreases parts.len(),
{
    if parts.len() == 0 {
        Seq::empty()
    } else {
        joined_readings(parts.drop_last()) + word_reading(parts.last())
    }
}

/// The reading of `token`. The first of these that applies gives it: the
/// word list holds the token; the romaji converter turns the token into
/// katakana and nothing else; the token splits into words of the list, whose
/// readings are joined. A token to which none applies is its own reading.
pub open spec fn reading_of(token: Seq<char>) -> Seq<char> {
    match alkana_reading(token) {
        Some(r) => r,
        None => {
            let kana = romaji_to_katakana(token);
            if is_katakana_text(kana) {
                kana
            } else {
                match split_of(token) {
                    Some(parts) => joined_readings(parts),
                    None => token,
                }
            }
        },
    }
}

/// Joins the readings of the words in `parts`.
fn join_readings(parts: &Vec<String>) -> (out: String)
    requires
        forall|k: int| 0 <= k < parts.len() ==> is_word(#[trigger] parts.deep_view()[k]),
    ensures
        out@ == joined_readings(parts.deep_view()),
{
    let ghost all = parts.deep_view();
    let mut out = String::new();
    let mut k: usize = 0;
    while k < parts.len()
        invariant
            k <= parts.len(),
            all == parts.deep_view(),
            forall|m: int| 0 <= m < parts.len() ==> is_word(#[trigger] all[m]),
            out@ == joined_readings(all.take(k as int)),
        decreases parts.len() - k,
    {
        proof {
            assert(all[k as int] == parts[k as int]@);
            assert(is_word(all[k as int]));
            assert(all.take(k + 1).drop_last() =~= all.take(k as int));
            assert(all.take(k + 1).last() == all[k as int]);
        }
        match lookup(parts[k].as_str()) {
            Some(r) => {
                out.append(r.as_str());
            },
            None => {
                out.append(parts[k].as_str());
            },
        }
        k += 1;
    }
    proof {
        assert(all.take(parts.len() as int) =~= all);
    }
    out
}

/// Gives the katakana reading of `token`, or `token` itself where it has none.
pub fn transliterate(token: &str) -> (out: String)
    ensures
        out@ == reading_of(token@),
        alkana_reading(token@) matches Some(r) ==> out@ == r,
{
    match lookup(token) {
        Some(r) => r,
        None => {
            let kana = to_katakana(token);
            if is_katakana(kana.as_str()) {
                kana
            } else {
                match min_split(token) {
                    Some(parts) => join_readings(&parts),
                    None => String::from_str(token),
                }
            }
        },
    }
}

/// A token that the word list holds is read as the list says, whatever
/// the romaji converter or a split would make of it.
pub proof fn lemma_word_list_first(token: Seq<char>)
    requires
        alkana_reading(token) is Some,
    ensures
        reading_of(token) == alkana_reading(token).unwrap(),
{
}

/// A token that is not empty, holds no piece that the word list knows and
/// is not turned into katakana by the romaji converter is its own reading.
pub proof fn lemma_unknown_token_stays(token: Seq<char>)
    requires
        token.len() > 0,
        forall|i: int, j: int|
            0 <= i < j <= token.len() ==> alkana_reading(#[trigger] token.subrange(i, j)) is None,
        !is_katakana_text(romaji_to_katakana(token)),
    ensures
        split_of(token) is None,
        reading_of(token) == token,
{
    lemma_no_word_no_split(token);
    assert(token.subrange(0, token.len() as int) =~= token);
}

/// The reading of `token` is joined from the words of its split.
pub open spec fn is_read_by_split(token: Seq<char>) -> bool {
    &&& alkana_reading(token) is None
    &&& !is_katakana_text(romaji_to_katakana(token))
    &&& split_of(token) is Some
}

/// The reading of a token that is not empty is empty only where the word
/// list gives the token an empty reading. Left aside is the token that is
/// read by its split into words which the list all reads as nothing.
pub proof fn lemma_reading_not_empty(token: Seq<char>)
    requires
        token.len() > 0,
        is_read_by_split(token) ==> joined_readings(split_of(token).unwrap()).len() > 0,
    ensures
        reading_of(token).len() == 0 ==> alkana_reading(token) == Some(Seq::<char>::empty()),
{
    if reading_of(token).len() == 0 {
        if alkana_reading(token) is Some {
            assert(alkana_reading(token).unwrap() =~= Seq::<char>::empty());
        }
    }
}

} // verus!
