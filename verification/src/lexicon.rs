//! The word list and the romaji converter that readings are taken from.

use vstd::prelude::*;

verus! {

/// The katakana reading that the word list holds for `word`, if it holds one.
/// The list is fixed data and is searched without regard to letter case.
pub uninterp spec fn alkana_reading(word: Seq<char>) -> Option<Seq<char>>;

/// What the romaji converter makes of `text`.
pub uninterp spec fn romaji_to_katakana(text: Seq<char>) -> Seq<char>;

/// A katakana character: U+30A1 to U+30FC.
pub open spec fn is_katakana_char(c: char) -> bool {
    0x30A1 <= c as u32 <= 0x30FC
}

/// A text that is not empty and holds katakana only.
pub open spec fn is_katakana_text(text: Seq<char>) -> bool {
    text.len() > 0 && forall|i: int| 0 <= i < text.len() ==> is_katakana_char(#[trigger] text[i])
}

/// Calls `get_katakana` on `alkana_rs::ALKANA`: the reading of `word` in the
/// word list. The list is data that `alkana_rs` is compiled with and never
/// changes, so the result depends on `word` alone.
#[verifier::external_body]
pub(crate) fn lookup(word: &str) -> (reading: Option<String>)
    ensures
        match reading {
            Some(r) => alkana_reading(word@) == Some(r@),
            None => alkana_reading(word@) is None,
        },
{
    alkana_rs::ALKANA.get_katakana(word)
}

/// Calls `wana_kana::to_katakana::to_katakana`, which rewrites romaji and
/// hiragana in `text` as katakana from fixed tables and passes the rest through.
#[verifier::external_body]
pub(crate) fn to_katakana(text: &str) -> (kana: String)
    ensures
        kana@ == romaji_to_katakana(text@),
{
    wana_kana::to_katakana::to_katakana(text)
}

/// Calls `wana_kana::is_katakana::is_katakana`: true when `text` is not empty
/// and each of its characters lies in U+30A1 to U+30FC.
#[verifier::external_body]
pub(crate) fn is_katakana(text: &str) -> (b: bool)
    ensures
        b == is_katakana_text(text@),
{
    wana_kana::is_katakana::is_katakana(text)
}

} // verus!
