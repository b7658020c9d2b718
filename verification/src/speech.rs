//! Rewriting the Latin words of a text as katakana.

use vstd::prelude::*;
use vstd::string::StringExecFns;
use crate::charset::{is_latin, is_latin_char, is_space, is_space_char, to_chars, to_text};
use crate::reading::{reading_of, transliterate};

verus! {

/// How many Latin letters stand in a row from position `p` on.
pub open spec fn latin_run(s: Seq<char>, p: int) -> nat
    decreases s.len() - p,
{
    if 0 <= p < s.len() && is_latin(s[p]) {
        1 + latin_run(s, p + 1)
    } else {
        0
    }
}

/// How many white-space characters stand in a row from position `p` on.
pub open spec fn space_run(s: Seq<char>, p: int) -> nat
    decreases s.len() - p,
{
    if 0 <= p < s.len() && is_space(s[p]) {
        1 + space_run(s, p + 1)
    } else {
        0
    }
}

/// Where reading goes on after the Latin word that ends before `e`: behind
/// the white space that follows, if there is some and a Latin letter comes
/// right after it, and at `e` else.
pub open spec fn after_word(s: Seq<char>, e: int) -> int {
    let w = e + space_run(s, e);
    if e < w && w < s.len() && is_latin(s[w]) {
        w
    } else {
        e
    }
}

/// What `s` becomes from position `p` on: each Latin word gives way to its
/// reading, white space between two Latin words is left out, and every
/// other character stays.
pub open spec fn hiraganized_from(s: Seq<char>, p: int) -> Seq<char>
    decreases s.len() - p,
    via hiraganized_from_ends
{
    if p < 0 || p >= s.len() {
        Seq::empty()
    } else if is_latin(s[p]) {
        let e = p + latin_run(s, p);
        reading_of(s.subrange(p, e)) + hiraganized_from(s, after_word(s, e))
    } else {
        seq![s[p]] + hiraganized_from(s, p + 1)
    }
}

/// A row of Latin letters ends within the text.
pub proof fn lemma_latin_run_ends(s: Seq<char>, p: int)
    requires
        0 <= p <= s.len(),
    ensures
        p + latin_run(s, p) <= s.len(),
    decreases s.len() - p,
{
    if p < s.len() && is_latin(s[p]) {
        lemma_latin_run_ends(s, p + 1);
    }
}

/// A row of white space ends within the text.
pub proof fn lemma_space_run_ends(s: Seq<char>, p: int)
    requires
        0 <= p <= s.len(),
    ensures
        p + space_run(s, p) <= s.len(),
    decreases s.len() - p,
{
    if p < s.len() && is_space(s[p]) {
        lemma_space_run_ends(s, p + 1);
    }
}

#[via_fn]
proof fn hiraganized_from_ends(s: Seq<char>, p: int) {
    if 0 <= p < s.len() && is_latin(s[p]) {
        lemma_latin_run_ends(s, p);
        lemma_space_run_ends(s, p + latin_run(s, p));
    }
}

/// What `s` becomes when its Latin words are read as katakana.
pub open spec fn hiraganized(s: Seq<char>) -> Seq<char> {
    hiraganized_from(s, 0)
}

/// The end of the row of Latin letters that starts at `p`.
fn latin_until(s: &Vec<char>, p: usize) -> (e: usize)
    requires
        p <= s.len(),
    ensures
        e == p + latin_run(s@, p as int),
        p <= e <= s.len(),
{
    let mut e: usize = p;
    while e < s.len() && is_latin_char(s[e])
        invariant
            p <= e <= s.len(),
            latin_run(s@, p as int) == (e - p) + latin_run(s@, e as int),
        decreases s.len() - e,
    {
        e += 1;
    }
    e
}

/// The end of the row of white space that starts at `p`.
fn space_until(s: &Vec<char>, p: usize) -> (e: usize)
    requires
        p <= s.len(),
    ensures
        e == p + space_run(s@, p as int),
        p <= e <= s.len(),
{
    let mut e: usize = p;
    while e < s.len() && is_space_char(s[e])
        invariant
            p <= e <= s.len(),
            space_run(s@, p as int) == (e - p) + space_run(s@, e as int),
        decreases s.len() - e,
    {
        e += 1;
    }
    e
}

/// Reads the Latin words of `text` as katakana.
///
/// A Latin word is a longest row of ASCII letters; it gives way to its
/// reading. Words with nothing but white space between them run together:
/// that white space is left out. Everything else stays as it is.
pub fn hiraganize(text: &str) -> (out: String)
    ensures
        out@ == hiraganized(text@),
{
    let s = to_chars(text);
    let n = s.len();
    let mut out = String::new();
    let mut p: usize = 0;
    while p < n
        invariant
            n == s.len(),
            p <= n,
            out@ + hiraganized_from(s@, p as int) == hiraganized_from(s@, 0),
        decreases n - p,
    {
        let ghost before = out@;
        if is_latin_char(s[p]) {
            let e = latin_until(&s, p);
            let word = to_text(&s, p, e);
            let kana = transliterate(word.as_str());
            out.append(kana.as_str());
            let w = space_until(&s, e);
            let next: usize = if e < w && w < n && is_latin_char(s[w]) {
                w
            } else {
                e
            };
            proof {
                assert(next == after_word(s@, e as int));
                assert(out@ + hiraganized_from(s@, next as int) =~= before + hiraganized_from(
                    s@,
                    p as int,
                ));
            }
            p = next;
        } else {
            out.push(s[p]);
            proof {
                assert(out@ + hiraganized_from(s@, p + 1) =~= before + hiraganized_from(
                    s@,
                    p as int,
                ));
            }
            p += 1;
        }
    }
    proof {
        assert(out@ + Seq::<char>::empty() =~= out@);
    }
    out
}

/// A text without ASCII Latin letters is read as it stands.
pub proof fn lemma_hiraganized_without_latin(s: Seq<char>)
    requires
        forall|i: int| 0 <= i < s.len() ==> !is_latin(#[trigger] s[i]),
    ensures
        hiraganized(s) == s,
{
    lemma_rest_without_latin(s, 0);
    assert(s.subrange(0, s.len() as int) =~= s);
}

/// From any position on, a text without ASCII Latin letters is read as it stands.
proof fn lemma_rest_without_latin(s: Seq<char>, p: int)
    requires
        0 <= p <= s.len(),
        forall|i: int| 0 <= i < s.len() ==> !is_latin(#[trigger] s[i]),
    ensures
        hiraganized_from(s, p) == s.subrange(p, s.len() as int),
    decreases s.len() - p,
{
    if p < s.len() {
        lemma_rest_without_latin(s, p + 1);
        assert(seq![s[p]] + s.subrange(p + 1, s.len() as int) =~= s.subrange(p, s.len() as int));
    } else {
        assert(s.subrange(p, s.len() as int) =~= Seq::<char>::empty());
    }
}

} // verus!
