//! Replacing the words of the user dictionary by how they are to be read.

use vstd::prelude::*;
use crate::charset::{to_chars, to_text};
use crate::pattern::{matches_at, occurs_at};
use crate::settings::Dict;

verus! {

/// `with`, then each character of `s` from position `p` on with `with`
/// behind it.
pub open spec fn interleaved_from(s: Seq<char>, with: Seq<char>, p: int) -> Seq<char>
    decreases s.len() - p,
{
    if p < 0 || p >= s.len() {
        with
    } else {
        with + seq![s[p]] + interleaved_from(s, with, p + 1)
    }
}

/// What `s` becomes from position `p` on when `pat`, which is not empty,
/// gives way to `with` wherever it stands: the text is read once from the
/// left, and what has been put in is not read again.
pub open spec fn replaced_from(s: Seq<char>, pat: Seq<char>, with: Seq<char>, p: int) -> Seq<char>
    decreases s.len() - p,
{
    if p < 0 || p >= s.len() {
        Seq::empty()
    } else if pat.len() > 0 && occurs_at(s, pat, p) {
        with + replaced_from(s, pat, with, p + pat.len())
    } else {
        seq![s[p]] + replaced_from(s, pat, with, p + 1)
    }
}

/// `s` with `with` in place of `pat` wherever `pat` stands. The empty `pat`
/// stands before each character and at the end.
pub open spec fn replaced(s: Seq<char>, pat: Seq<char>, with: Seq<char>) -> Seq<char> {
    if pat.len() == 0 {
        interleaved_from(s, with, 0)
    } else {
        replaced_from(s, pat, with, 0)
    }
}

/// `s` after the entries of `dict` have been applied one after the other,
/// the first one first.
pub open spec fn replaced_by_entries(s: Seq<char>, dict: Seq<Dict>) -> Seq<char>
    decreases dict.len(),
{
    if dict.len() == 0 {
        s
    } else {
        replaced(
            replaced_by_entries(s, dict.drop_last()),
            dict.last().word@,
            dict.last().read_word@,
        )
    }
}

/// Puts the characters of `src` behind those of `out`.
fn push_all(out: &mut Vec<char>, src: &Vec<char>)
    ensures
        final(out)@ == old(out)@ + src@,
{
    let ghost start = out@;
    let mut k: usize = 0;
    while k < src.len()
        invariant
            k <= src.len(),
            out@ == start + src@.take(k as int),
        decreases src.len() - k,
    {
        out.push(src[k]);
        k += 1;
    }
    proof {
        assert(src@.take(src.len() as int) =~= src@);
    }
}

/// Replaces `pat` by `with` wherever it stands in `s`.
pub fn replace_chars(s: &Vec<char>, pat: &Vec<char>, with: &Vec<char>) -> (out: Vec<char>)
    ensures
        out@ == replaced(s@, pat@, with@),
{
    let len = s.len();
    let mut out: Vec<char> = Vec::new();
    let mut p: usize = 0;
    if pat.len() == 0 {
        while p < len
            invariant
                len == s.len(),
                p <= len,
                out@ + interleaved_from(s@, with@, p as int) == interleaved_from(s@, with@, 0),
            decreases len - p,
        {
            let ghost before = out@;
            push_all(&mut out, with);
            out.push(s[p]);
            proof {
                assert(out@ + interleaved_from(s@, with@, p + 1) =~= before + interleaved_from(
                    s@,
                    with@,
                    p as int,
                ));
            }
            p += 1;
        }
        push_all(&mut out, with);
        out
    } else {
        while p < len
            invariant
                len == s.len(),
                p <= len,
                pat.len() > 0,
                out@ + replaced_from(s@, pat@, with@, p as int) == replaced_from(
                    s@,
                    pat@,
                    with@,
                    0,
                ),
            decreases len - p,
        {
            let ghost before = out@;
            if matches_at(s, pat, p) {
                push_all(&mut out, with);
                proof {
                    assert(out@ + replaced_from(s@, pat@, with@, p + pat.len()) =~= before
                        + replaced_from(s@, pat@, with@, p as int));
                }
                p += pat.len();
            } else {
                out.push(s[p]);
                proof {
                    assert(out@ + replaced_from(s@, pat@, with@, p + 1) =~= before + replaced_from(
                        s@,
                        pat@,
                        with@,
                        p as int,
                    ));
                }
                p += 1;
            }
        }
        proof {
            assert(out@ + Seq::<char>::empty() =~= out@);
        }
        out
    }
}

/// Applies the entries of `dict` to `text` one after the other: each
/// replaces its word, wherever the word stands in the text as the entries
/// before it have left it, by how the word is to be read.
pub fn replace_by_dict(text: &str, dict: &Vec<Dict>) -> (out: String)
    ensures
        out@ == replaced_by_entries(text@, dict@),
{
    let mut s = to_chars(text);
    let mut k: usize = 0;
    while k < dict.len()
        invariant
            k <= dict.len(),
            s@ == replaced_by_entries(text@, dict@.take(k as int)),
        decreases dict.len() - k,
    {
        let word = to_chars(dict[k].word.as_str());
        let read_word = to_chars(dict[k].read_word.as_str());
        proof {
            assert(dict@.take(k + 1).drop_last() =~= dict@.take(k as int));
            assert(dict@.take(k + 1).last() == dict@[k as int]);
        }
        s = replace_chars(&s, &word, &read_word);
        k += 1;
    }
    proof {
        assert(dict@.take(dict.len() as int) =~= dict@);
    }
    to_text(&s, 0, s.len())
}

} // verus!
