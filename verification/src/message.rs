//! From a chat message to the text that is read aloud.

use vstd::prelude::*;
use crate::markup::{
    remove_code_block, remove_custom_emoji, remove_spoiler, replace_url, url_replaced,
    without_emoji, without_fenced,
};
use crate::settings::Dict;
use crate::speech::{hiraganize, hiraganized};
use crate::substitute::{replace_by_dict, replaced_by_entries};

verus! {

/// `raw` without its markup: links give way to the word `URL`, then the
/// spoiler and the code block go, then each custom emoji gives way to its name.
pub open spec fn plain_text(raw: Seq<char>) -> Seq<char> {
    without_emoji(without_fenced(without_fenced(url_replaced(raw), "||"@), "```"@))
}

/// The text that is read aloud for the message `raw`: its plain text, with
/// the entries of `dict` applied and the Latin words that are left read as
/// katakana.
pub open spec fn read_text(raw: Seq<char>, dict: Seq<Dict>) -> Seq<char> {
    hiraganized(replaced_by_entries(plain_text(raw), dict))
}

/// Makes of the message `raw` the text that is read aloud. The steps follow
/// each other in a fixed order, each on what the one before has left: links,
/// spoiler, code block, custom emoji, user dictionary, Latin words.
pub fn make_read_text(raw: &str, dict: &Vec<Dict>) -> (out: String)
    ensures
        out@ == read_text(raw@, dict@),
{
    let text = replace_url(raw);
    let text = remove_spoiler(text.as_str());
    let text = remove_code_block(text.as_str());
    let text = remove_custom_emoji(text.as_str());
    let text = replace_by_dict(text.as_str(), dict);
    hiraganize(text.as_str())
}

/// The steps from a message to the text that is read aloud, as methods of
/// the message.
pub trait TextMessage: Sized {
    fn replace_url(&self) -> Self;

    fn remove_spoiler(&self) -> Self;

    fn replace_by_dict(&self, dict: &Vec<Dict>) -> Self;

    fn remove_custom_emoji(&self) -> Self;

    fn make_read_text(&self, dict: &Vec<Dict>) -> Self;

    fn hiraganize(&self) -> Self;

    fn remove_code_block(&self) -> Self;
}

impl TextMessage for String {
    fn replace_url(&self) -> (out: Self)
        ensures
            out@ == url_replaced(self@),
    {
        replace_url(self.as_str())
    }

    fn remove_spoiler(&self) -> (out: Self)
        ensures
            out@ == without_fenced(self@, "||"@),
    {
        remove_spoiler(self.as_str())
    }

    fn replace_by_dict(&self, dict: &Vec<Dict>) -> (out: Self)
        ensures
            out@ == replaced_by_entries(self@, dict@),
    {
        replace_by_dict(self.as_str(), dict)
    }

    fn remove_custom_emoji(&self) -> (out: Self)
        ensures
            out@ == without_emoji(self@),
    {
        remove_custom_emoji(self.as_str())
    }

    fn make_read_text(&self, dict: &Vec<Dict>) -> (out: Self)
        ensures
            out@ == read_text(self@, dict@),
    {
        make_read_text(self.as_str(), dict)
    }

    fn hiraganize(&self) -> (out: Self)
        ensures
            out@ == hiraganized(self@),
    {
        hiraganize(self.as_str())
    }

    fn remove_code_block(&self) -> (out: Self)
        ensures
            out@ == without_fenced(self@, "```"@),
    {
        remove_code_block(self.as_str())
    }
}

} // verus!
