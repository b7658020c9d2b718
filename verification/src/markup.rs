//! Taking chat markup out of a message: links, spoilers, code blocks and
//! custom emoji.

use vstd::prelude::*;
use vstd::string::StringExecFns;
use crate::charset::{is_digit, is_digit_char, to_chars, to_text};
use crate::pattern::{find_first, find_last, is_first_at, is_last_at, occurs_at};

verus! {

/// `fence` stands first at `i` and last at `j`, and the two do not overlap.
pub open spec fn is_fenced(s: Seq<char>, fence: Seq<char>, i: int, j: int) -> bool {
    &&& is_first_at(s, fence, 0, i)
    &&& is_last_at(s, fence, j)
    &&& i + fence.len() <= j
}

/// `s` without what stands from its first `fence` to its last, both
/// included; `s` itself where it does not hold two of them.
pub open spec fn without_fenced(s: Seq<char>, fence: Seq<char>) -> Seq<char> {
    if exists|i: int, j: int| is_fenced(s, fence, i, j) {
        let (i, j) = choose|i: int, j: int| is_fenced(s, fence, i, j);
        s.subrange(0, i) + s.subrange(j + fence.len(), s.len() as int)
    } else {
        s
    }
}

/// A text in which no two `fence`s stand clear of each other stays as it is:
/// a fence alone encloses nothing.
pub proof fn lemma_unfenced_stays(s: Seq<char>, fence: Seq<char>)
    requires
        forall|i: int, j: int|
            #[trigger] occurs_at(s, fence, i) && #[trigger] occurs_at(s, fence, j) ==> j < i
                + fence.len(),
    ensures
        without_fenced(s, fence) == s,
{
    assert forall|i: int, j: int| !is_fenced(s, fence, i, j) by {
        if is_fenced(s, fence, i, j) {
            assert(occurs_at(s, fence, i) && occurs_at(s, fence, j));
        }
    }
}

/// Takes out of `text` what stands from its first `fence` to its last.
fn remove_fenced(text: &str, fence: &str) -> (out: String)
    ensures
        out@ == without_fenced(text@, fence@),
{
    let s = to_chars(text);
    let f = to_chars(fence);
    match find_first(&s, &f, 0) {
        Some(i) => match find_last(&s, &f) {
            Some(j) => {
                if f.len() <= j && i <= j - f.len() {
                    proof {
                        assert(is_fenced(s@, f@, i as int, j as int));
                        let (a, b) = choose|a: int, b: int| is_fenced(s@, f@, a, b);
                        assert(a == i && b == j);
                    }
                    assert(j + f.len() <= s.len()) by {
                        assert(occurs_at(s@, f@, j as int));
                    }
                    let mut out = to_text(&s, 0, i);
                    let rest = to_text(&s, j + f.len(), s.len());
                    out.append(rest.as_str());
                    out
                } else {
                    proof {
                        assert forall|a: int, b: int| !is_fenced(s@, f@, a, b) by {
                            if is_fenced(s@, f@, a, b) {
                                assert(a == i && b == j);
                            }
                        }
                    }
                    String::from_str(text)
                }
            },
            None => String::from_str(text),
        },
        None => String::from_str(text),
    }
}

/// Takes a spoiler out of `text`: what stands between the first `||` and
/// the last, with both marks. A text without two such marks stays as it is.
pub fn remove_spoiler(text: &str) -> (out: String)
    ensures
        out@ == without_fenced(text@, "||"@),
{
    remove_fenced(text, "||")
}

/// Takes a code block out of `text`: what stands between the first
/// triple backtick and the last, with both fences. A text without two such
/// fences stays as it is.
pub fn remove_code_block(text: &str) -> (out: String)
    ensures
        out@ == without_fenced(text@, "```"@),
{
    remove_fenced(text, "```")
}

/// A custom emoji tag stands in `s` at `p`: `<`, then `a` or nothing, `:`,
/// a name, `:`, a number and `>`. The name begins at `n` and ends before the
/// colon at `c`, which is the first colon behind the name's first character;
/// the name holds no line feed. The number is one ASCII digit or more and
/// ends before the `>` at `e`.
pub open spec fn is_emoji_tag(s: Seq<char>, p: int, n: int, c: int, e: int) -> bool {
    &&& 0 <= p < n < c
    &&& c + 1 < e < s.len()
    &&& s[p] == '<'
    &&& (n == p + 2 && s[p + 1] == ':') || (n == p + 3 && s[p + 1] == 'a' && s[p + 2] == ':')
    &&& s[c] == ':'
    &&& forall|k: int| n < k < c ==> s[k] != ':'
    &&& forall|k: int| n <= k < c ==> s[k] != '\n'
    &&& forall|k: int| c < k < e ==> is_digit(s[k])
    &&& s[e] == '>'
}

/// Some custom emoji tag stands in `s` at `p`.
pub open spec fn has_emoji_tag(s: Seq<char>, p: int) -> bool {
    exists|n: int, c: int, e: int| is_emoji_tag(s, p, n, c, e)
}

/// What `s` becomes from position `p` on when each custom emoji tag gives
/// way to its name. Tags are looked for from the left, and none inside
/// another.
pub open spec fn without_emoji_from(s: Seq<char>, p: int) -> Seq<char>
    decreases s.len() - p,
{
    if p < 0 || p >= s.len() {
        Seq::empty()
    } else if has_emoji_tag(s, p) {
        let (n, c, e) = choose|n: int, c: int, e: int| is_emoji_tag(s, p, n, c, e);
        s.subrange(n, c) + without_emoji_from(s, e + 1)
    } else {
        seq![s[p]] + without_emoji_from(s, p + 1)
    }
}

/// `s` with each custom emoji tag rewritten to its name.
pub open spec fn without_emoji(s: Seq<char>) -> Seq<char> {
    without_emoji_from(s, 0)
}

/// At one position stands one custom emoji tag at most.
pub proof fn lemma_emoji_tag_unique(
    s: Seq<char>,
    p: int,
    n1: int,
    c1: int,
    e1: int,
    n2: int,
    c2: int,
    e2: int,
)
    requires
        is_emoji_tag(s, p, n1, c1, e1),
        is_emoji_tag(s, p, n2, c2, e2),
    ensures
        n1 == n2,
        c1 == c2,
        e1 == e2,
{
    assert(n1 == n2);
    if c1 < c2 {
        assert(s[c1] == ':');
    }
    if c2 < c1 {
        assert(s[c2] == ':');
    }
    if e1 < e2 {
        assert(is_digit(s[e1]));
    }
    if e2 < e1 {
        assert(is_digit(s[e2]));
    }
}

/// A text without `<` holds no custom emoji tag and stays as it is.
pub proof fn lemma_without_tags_stays(s: Seq<char>)
    requires
        forall|i: int| 0 <= i < s.len() ==> s[i] != '<',
    ensures
        without_emoji(s) == s,
{
    lemma_rest_without_tags(s, 0);
    assert(s.subrange(0, s.len() as int) =~= s);
}

/// From any position on, a text without `<` stays as it is.
proof fn lemma_rest_without_tags(s: Seq<char>, p: int)
    requires
        0 <= p <= s.len(),
        forall|i: int| 0 <= i < s.len() ==> s[i] != '<',
    ensures
        without_emoji_from(s, p) == s.subrange(p, s.len() as int),
    decreases s.len() - p,
{
    if p < s.len() {
        lemma_rest_without_tags(s, p + 1);
        assert(!has_emoji_tag(s, p));
        assert(seq![s[p]] + s.subrange(p + 1, s.len() as int) =~= s.subrange(p, s.len() as int));
    } else {
        assert(s.subrange(p, s.len() as int) =~= Seq::<char>::empty());
    }
}

/// The custom emoji tag that stands in `s` at `p`, if one does: where its
/// name begins, where the colon behind the name stands, and where it ends.
fn emoji_tag_at(s: &Vec<char>, p: usize) -> (r: Option<(usize, usize, usize)>)
    requires
        p < s.len(),
    ensures
        match r {
            Some((n, c, e)) => is_emoji_tag(s@, p as int, n as int, c as int, e as int),
            None => !has_emoji_tag(s@, p as int),
        },
{
    let len = s.len();
    if s[p] != '<' {
        return None;
    }
    if len - p < 3 {
        return None;
    }
    let n: usize = if s[p + 1] == ':' {
        p + 2
    } else if s[p + 1] == 'a' && s[p + 2] == ':' {
        p + 3
    } else {
        return None;
    };
    if n >= len || s[n] == '\n' {
        return None;
    }
    let mut c: usize = n + 1;
    while c < len && s[c] != ':' && s[c] != '\n'
        invariant
            n < c <= len,
            len == s.len(),
            forall|k: int| n < k < c ==> s[k] != ':',
            forall|k: int| n <= k < c ==> s[k] != '\n',
        decreases len - c,
    {
        c += 1;
    }
    if c >= len || s[c] != ':' {
        proof {
            assert forall|n2: int, c2: int, e2: int| !is_emoji_tag(s@, p as int, n2, c2, e2) by {
                if is_emoji_tag(s@, p as int, n2, c2, e2) {
                    assert(n2 == n);
                    if c2 < c {
                        assert(s[c2] == ':');
                    }
                }
            }
        }
        return None;
    }
    let mut e: usize = c + 1;
    while e < len && is_digit_char(s[e])
        invariant
            c < e <= len,
            len == s.len(),
            forall|k: int| c < k < e ==> is_digit(s[k]),
        decreases len - e,
    {
        e += 1;
    }
    if e == c + 1 || e >= len || s[e] != '>' {
        proof {
            assert forall|n2: int, c2: int, e2: int| !is_emoji_tag(s@, p as int, n2, c2, e2) by {
                if is_emoji_tag(s@, p as int, n2, c2, e2) {
                    assert(n2 == n);
                    if c2 < c {
                        assert(s[c2] == ':');
                    }
                    if c < c2 {
                        assert(s[c as int] == ':');
                    }
                    if e2 < e {
                        assert(is_digit(s[e2]));
                    }
                    if e < e2 {
                        assert(is_digit(s[e as int]));
                    }
                }
            }
        }
        return None;
    }
    Some((n, c, e))
}

/// Rewrites each custom emoji tag in `text` to its name.
///
/// A tag is `<`, then `a` or nothing, `:`, the name, `:`, a number and `>`.
/// The name ends at the first colon behind its first character and holds no
/// line feed. Text that holds no such tag stays as it is.
pub fn remove_custom_emoji(text: &str) -> (out: String)
    ensures
        out@ == without_emoji(text@),
{
    let s = to_chars(text);
    let len = s.len();
    let mut out = String::new();
    let mut p: usize = 0;
    while p < len
        invariant
            len == s.len(),
            p <= len,
            out@ + without_emoji_from(s@, p as int) == without_emoji_from(s@, 0),
        decreases len - p,
    {
        let ghost before = out@;
        match emoji_tag_at(&s, p) {
            Some((n, c, e)) => {
                let name = to_text(&s, n, c);
                out.append(name.as_str());
                proof {
                    let (n2, c2, e2) = choose|n2: int, c2: int, e2: int|
                        is_emoji_tag(s@, p as int, n2, c2, e2);
                    lemma_emoji_tag_unique(s@, p as int, n as int, c as int, e as int, n2, c2, e2);
                    assert(out@ + without_emoji_from(s@, e + 1) =~= before + without_emoji_from(
                        s@,
                        p as int,
                    ));
                }
                p = e + 1;
            },
            None => {
                out.push(s[p]);
                proof {
                    assert(out@ + without_emoji_from(s@, p + 1) =~= before + without_emoji_from(
                        s@,
                        p as int,
                    ));
                }
                p += 1;
            },
        }
    }
    proof {
        assert(out@ + Seq::<char>::empty() =~= out@);
    }
    out
}

/// What a link in a message looks like: `http://` or `https://` and then
/// one or more word characters or marks that addresses are written with.
pub const URL_PATTERN: &'static str = r"https?://[\w!?/+\-_~;.,*&@#$%()='\[\]]+";

/// `text` with each match of the regular expression `pattern` replaced by
/// `with`, in which `$` refers to groups of the match; nothing where
/// `pattern` is no regular expression.
pub uninterp spec fn regex_replaced(pattern: Seq<char>, text: Seq<char>, with: Seq<char>) -> Option<
    Seq<char>,
>;

/// Calls `regex::Regex::new` on `pattern` and then `Regex::replace_all` on
/// `text` and `with`. Both work on their arguments alone, so the result has
/// a name; `None` stands for a pattern that `Regex::new` refuses.
#[verifier::external_body]
fn replace_matches(pattern: &str, text: &str, with: &str) -> (out: Option<String>)
    ensures
        match out {
            Some(t) => regex_replaced(pattern@, text@, with@) == Some(t@),
            None => regex_replaced(pattern@, text@, with@) is None,
        },
{
    match regex::Regex::new(pattern) {
        Ok(re) => Some(re.replace_all(text, with).into_owned()),
        Err(_) => None,
    }
}

/// `s` with each link replaced by the word `URL`.
pub open spec fn url_replaced(s: Seq<char>) -> Seq<char> {
    match regex_replaced(URL_PATTERN@, s, "URL"@) {
        Some(r) => r,
        None => s,
    }
}

/// Replaces each link in `text` by the word `URL`.
pub fn replace_url(text: &str) -> (out: String)
    ensures
        out@ == url_replaced(text@),
{
    match replace_matches(URL_PATTERN, text, "URL") {
        Some(replaced) => replaced,
        None => String::from_str(text),
    }
}

} // verus!
