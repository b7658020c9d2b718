//! Cutting a token into the fewest words that the word list knows.

use vstd::prelude::*;
use crate::charset::{to_chars, to_text};
use crate::lexicon::{alkana_reading, lookup};

verus! {

/// A piece that a token may be cut into: two or more characters with a
/// reading in the word list.
pub open spec fn is_word(piece: Seq<char>) -> bool {
    piece.len() >= 2 && alkana_reading(piece) is Some
}

/// `parts`, joined in order, give `token`, and each part is a word.
pub open spec fn is_cover(token: Seq<char>, parts: Seq<Seq<char>>) -> bool {
    &&& parts.flatten() == token
    &&& forall|k: int| 0 <= k < parts.len() ==> is_word(#[trigger] parts[k])
}

/// Some cover of `token` has exactly `count` parts.
pub open spec fn has_cover_of(token: Seq<char>, count: int) -> bool {
    exists|parts: Seq<Seq<char>>| #[trigger] is_cover(token, parts) && parts.len() == count
}

/// `count` is the least number of parts that a cover of `token` can have.
pub open spec fn is_fewest(token: Seq<char>, count: int) -> bool {
    &&& has_cover_of(token, count)
    &&& forall|other: Seq<Seq<char>>| #[trigger] is_cover(token, other) ==> count <= other.len()
}

/// `parts` covers `token`, and no cover of `token` has fewer parts.
pub open spec fn is_shortest_cover(token: Seq<char>, parts: Seq<Seq<char>>) -> bool {
    &&& is_cover(token, parts)
    &&& forall|other: Seq<Seq<char>>| #[trigger] is_cover(token, other) ==> parts.len() <= other.len()
}

/// The rule that picks one among the shortest covers: the last part starts
/// as far to the right as a last part of a cover with as many parts can, and
/// the same holds of what stands before it.
pub open spec fn is_rightmost(token: Seq<char>, parts: Seq<Seq<char>>) -> bool
    decreases parts.len(),
{
    parts.len() > 0 ==> {
        let n = token.len() as int;
        let start = n - parts.last().len();
        &&& 0 <= start
        &&& forall|i: int|
            start < i < n ==> !(is_word(#[trigger] token.subrange(i, n)) && has_cover_of(
                token.subrange(0, i),
                parts.len() - 1,
            ))
        &&& is_rightmost(token.subrange(0, start), parts.drop_last())
    }
}

/// `parts` is the split of `token`: a shortest cover, chosen by the rule above.
pub open spec fn is_split(token: Seq<char>, parts: Seq<Seq<char>>) -> bool {
    is_shortest_cover(token, parts) && is_rightmost(token, parts)
}

/// The split of `token`, where `token` has a cover at all.
pub open spec fn split_of(token: Seq<char>) -> Option<Seq<Seq<char>>> {
    if exists|parts: Seq<Seq<char>>| is_split(token, parts) {
        Some(choose|parts: Seq<Seq<char>>| is_split(token, parts))
    } else {
        None
    }
}

/// A cover of a prefix, followed by a word that ends where a longer prefix
/// ends, covers the longer prefix.
proof fn lemma_cover_extend(t: Seq<char>, j: int, i: int, parts: Seq<Seq<char>>)
    requires
        0 <= j <= i <= t.len(),
        is_cover(t.subrange(0, j), parts),
        is_word(t.subrange(j, i)),
    ensures
        is_cover(t.subrange(0, i), parts.push(t.subrange(j, i))),
{
    let w = t.subrange(j, i);
    let more = parts.push(w);
    parts.lemma_flatten_push(w);
    assert(more.flatten() =~= t.subrange(0, i));
    assert forall|k: int| 0 <= k < more.len() implies is_word(#[trigger] more[k]) by {
        if k < parts.len() {
            assert(more[k] == parts[k]);
        }
    }
}

/// A cover of a prefix that is not empty ends in a word, and what stands
/// before that word covers the rest.
proof fn lemma_cover_split(t: Seq<char>, i: int, parts: Seq<Seq<char>>)
    requires
        0 < i <= t.len(),
        is_cover(t.subrange(0, i), parts),
    ensures
        parts.len() > 0,
        0 <= i - parts.last().len(),
        i - parts.last().len() + 2 <= i,
        t.subrange(i - parts.last().len(), i) == parts.last(),
        is_word(parts.last()),
        is_cover(t.subrange(0, i - parts.last().len()), parts.drop_last()),
{
    if parts.len() == 0 {
        assert(parts.flatten() =~= Seq::<char>::empty());
    }
    let w = parts.last();
    let front = parts.drop_last();
    assert(parts =~= front.push(w));
    front.lemma_flatten_push(w);
    let whole = t.subrange(0, i);
    assert(whole =~= front.flatten() + w);
    let j = i - w.len();
    assert(front.flatten().len() == j);
    assert(t.subrange(j, i) =~= w) by {
        assert forall|x: int| 0 <= x < w.len() implies t.subrange(j, i)[x] == w[x] by {
            assert(whole[j + x] == (front.flatten() + w)[j + x]);
        }
    }
    assert(t.subrange(0, j) =~= front.flatten()) by {
        assert forall|x: int| 0 <= x < j implies t.subrange(0, j)[x] == front.flatten()[x] by {
            assert(whole[x] == (front.flatten() + w)[x]);
        }
    }
    assert forall|k: int| 0 <= k < front.len() implies is_word(#[trigger] front[k]) by {
        assert(front[k] == parts[k]);
    }
}

/// A cover has at most half as many parts as its token has characters.
proof fn lemma_cover_len(s: Seq<char>, parts: Seq<Seq<char>>)
    requires
        is_cover(s, parts),
    ensures
        2 * parts.len() <= s.len(),
    decreases parts.len(),
{
    if parts.len() > 0 {
        if s.len() == 0 {
            assert(is_word(parts[0]));
            parts.lemma_flatten_and_flatten_alt_are_equivalent();
            parts.lemma_flatten_length_ge_single_element_length(0);
        } else {
            assert(s.subrange(0, s.len() as int) =~= s);
            lemma_cover_split(s, s.len() as int, parts);
            lemma_cover_len(s.subrange(0, s.len() - parts.last().len()), parts.drop_last());
        }
    }
}

/// Only the empty cover covers the empty token.
proof fn lemma_empty_cover(s: Seq<char>)
    requires
        s.len() == 0,
    ensures
        is_fewest(s, 0),
        is_cover(s, Seq::<Seq<char>>::empty()),
{
    let none = Seq::<Seq<char>>::empty();
    assert(none.flatten() =~= s);
    assert(is_cover(s, none));
}

/// `table[i][j]` tells whether the characters `i` to `j` of `t`, both
/// included, are a word.
spec fn table_ok(t: Seq<char>, table: Seq<Vec<bool>>) -> bool {
    &&& table.len() == t.len()
    &&& forall|i: int| 0 <= i < table.len() ==> (#[trigger] table[i]).len() == t.len()
    &&& forall|i: int, j: int|
        0 <= i < t.len() && 0 <= j < t.len() ==> #[trigger] table[i]@[j] == (i < j && is_word(
            t.subrange(i, j + 1),
        ))
}

/// `b` is the least number of parts of a cover of the first `i` characters
/// of `t`, or nothing where they have no cover.
spec fn best_ok(t: Seq<char>, i: int, b: Option<usize>) -> bool {
    match b {
        Some(k) => is_fewest(t.subrange(0, i), k as int),
        None => forall|parts: Seq<Seq<char>>| !#[trigger] is_cover(t.subrange(0, i), parts),
    }
}

/// Looks up every piece of two or more characters of `t` in the word list.
fn word_table(t: &Vec<char>) -> (table: Vec<Vec<bool>>)
    ensures
        table_ok(t@, table@),
{
    let n = t.len();
    let mut table: Vec<Vec<bool>> = Vec::new();
    let mut i: usize = 0;
    while i < n
        invariant
            n == t.len(),
            i <= n,
            table.len() == i,
            forall|a: int| 0 <= a < i ==> (#[trigger] table[a]).len() == n,
            forall|a: int, b: int|
                0 <= a < i && 0 <= b < n ==> #[trigger] table[a]@[b] == (a < b && is_word(
                    t@.subrange(a, b + 1),
                )),
        decreases n - i,
    {
        let mut row: Vec<bool> = Vec::new();
        let mut j: usize = 0;
        while j < n
            invariant
                n == t.len(),
                i < n,
                j <= n,
                row.len() == j,
                forall|b: int|
                    0 <= b < j ==> #[trigger] row@[b] == (i < b && is_word(
                        t@.subrange(i as int, b + 1),
                    )),
            decreases n - j,
        {
            if i < j {
                let piece = to_text(t, i, j + 1);
                let found = lookup(piece.as_str()).is_some();
                row.push(found);
            } else {
                row.push(false);
            }
            j += 1;
        }
        table.push(row);
        i += 1;
    }
    table
}

/// For each prefix of `t`, the least number of words that cover it.
fn fewest_parts(t: &Vec<char>, table: &Vec<Vec<bool>>) -> (best: Vec<Option<usize>>)
    requires
        table_ok(t@, table@),
    ensures
        best.len() == t.len() + 1,
        forall|i: int| 0 <= i <= t.len() ==> best_ok(t@, i, #[trigger] best[i]),
{
    let n = t.len();
    let mut best: Vec<Option<usize>> = Vec::new();
    best.push(Some(0));
    proof {
        lemma_empty_cover(t@.subrange(0, 0));
    }
    let mut m: usize = 0;
    while m < n
        invariant
            n == t.len(),
            m <= n,
            best.len() == m + 1,
            table_ok(t@, table@),
            forall|i: int| 0 <= i <= m ==> best_ok(t@, i, #[trigger] best[i]),
        decreases n - m,
    {
        let i: usize = m + 1;
        let mut least: Option<usize> = None;
        let mut j: usize = 0;
        while j < i
            invariant
                n == t.len(),
                m < n,
                i == m + 1,
                j <= i,
                best.len() == i,
                table_ok(t@, table@),
                forall|a: int| 0 <= a <= m ==> best_ok(t@, a, #[trigger] best[a]),
                least matches Some(v) ==> has_cover_of(t@.subrange(0, i as int), v as int),
                forall|a: int|
                    0 <= a < j && table[a]@[m as int] ==> (#[trigger] best[a] matches Some(c)
                        ==> least is Some && least.unwrap() <= c + 1),
            decreases i - j,
        {
            if table[j][m] {
                match best[j] {
                    Some(c) => {
                        proof {
                            let front = t@.subrange(0, j as int);
                            assert(best_ok(t@, j as int, best[j as int]));
                            let parts = choose|parts: Seq<Seq<char>>| #[trigger]
                                is_cover(front, parts) && parts.len() == c;
                            lemma_cover_len(front, parts);
                            lemma_cover_extend(t@, j as int, i as int, parts);
                        }
                        let more: usize = c + 1;
                        let better = match least {
                            Some(v) => more < v,
                            None => true,
                        };
                        if better {
                            least = Some(more);
                        }
                    },
                    None => {},
                }
            }
            j += 1;
        }
        proof {
            let whole = t@.subrange(0, i as int);
            assert forall|other: Seq<Seq<char>>| #[trigger] is_cover(whole, other) implies least
                is Some && least.unwrap() <= other.len() by {
                lemma_cover_split(t@, i as int, other);
                let a = i - other.last().len();
                assert(t@.subrange(a, m + 1) == other.last());
                assert(table[a]@[m as int]);
                assert(best_ok(t@, a, best[a]));
                assert(is_cover(t@.subrange(0, a), other.drop_last()));
            }
            assert(best_ok(t@, i as int, least));
        }
        best.push(least);
        m += 1;
    }
    best
}

/// The word from `a` to `b` is the last word of the split of the first `b`
/// characters of `t`, which has `count` parts.
spec fn is_last_cut(t: Seq<char>, a: int, b: int, count: int) -> bool {
    &&& 0 <= a
    &&& a + 2 <= b <= t.len()
    &&& is_word(t.subrange(a, b))
    &&& is_fewest(t.subrange(0, b), count)
    &&& is_fewest(t.subrange(0, a), count - 1)
    &&& forall|x: int|
        a < x < b ==> !(is_word(#[trigger] t.subrange(x, b)) && has_cover_of(
            t.subrange(0, x),
            count - 1,
        ))
}

/// `cuts` runs from the end of `t` down to 0 over the places where the split
/// of `t`, which has `count` parts, is cut.
spec fn cuts_ok(t: Seq<char>, cuts: Seq<usize>, count: int) -> bool {
    &&& cuts.len() == count + 1
    &&& cuts[0] == t.len()
    &&& cuts[count] == 0
    &&& forall|m: int|
        0 <= m < count ==> is_last_cut(t, #[trigger] cuts[m + 1] as int, cuts[m] as int, count - m)
}

/// Where the first `b` characters of `t` need `count` words, a word that ends
/// at `b` and starts at `x` leaves `count - 1` words or more for what stands
/// before `x`.
proof fn lemma_fewest_step(t: Seq<char>, x: int, b: int, count: int, before: int)
    requires
        0 <= x <= b <= t.len(),
        is_word(t.subrange(x, b)),
        is_fewest(t.subrange(0, b), count),
        has_cover_of(t.subrange(0, x), before),
    ensures
        count <= before + 1,
{
    let parts = choose|parts: Seq<Seq<char>>| #[trigger]
        is_cover(t.subrange(0, x), parts) && parts.len() == before;
    lemma_cover_extend(t, x, b, parts);
}

/// Walks from the end of `t` to its start and notes, for each word of the
/// split, where it begins: the nearest place before the last cut from which
/// a word reaches that cut and before which one word fewer is needed.
fn walk_back(t: &Vec<char>, table: &Vec<Vec<bool>>, best: &Vec<Option<usize>>) -> (cuts: Vec<
    usize,
>)
    requires
        table_ok(t@, table@),
        best.len() == t.len() + 1,
        forall|i: int| 0 <= i <= t.len() ==> best_ok(t@, i, #[trigger] best[i]),
        best[t.len() as int] is Some,
    ensures
        cuts_ok(t@, cuts@, best[t.len() as int].unwrap() as int),
{
    let n = t.len();
    let count: usize = match best[n] {
        Some(k) => k,
        None => 0,
    };
    let mut cuts: Vec<usize> = Vec::new();
    cuts.push(n);
    let mut left: usize = count;
    let mut prev: usize = n;
    let mut i: usize = n;
    while i > 0
        invariant
            n == t.len(),
            table_ok(t@, table@),
            best.len() == n + 1,
            forall|a: int| 0 <= a <= n ==> best_ok(t@, a, #[trigger] best[a]),
            i <= prev <= n,
            left <= count,
            cuts.len() == count - left + 1,
            cuts[0] == n,
            cuts[count - left] == prev,
            best[prev as int] == Some(left),
            forall|m: int|
                0 <= m < count - left ==> is_last_cut(
                    t@,
                    #[trigger] cuts[m + 1] as int,
                    cuts[m] as int,
                    count - m,
                ),
            forall|x: int|
                i <= x < prev && is_word(#[trigger] t@.subrange(x, prev as int)) ==> (best[x]
                    matches Some(c) ==> c + 1 != left),
        decreases i,
    {
        i -= 1;
        let here = match best[i] {
            Some(c) => left > 0 && c == left - 1,
            None => false,
        };
        if here && table[i][prev - 1] {
            proof {
                assert(t@.subrange(i as int, prev - 1 + 1) == t@.subrange(i as int, prev as int));
                assert(best_ok(t@, i as int, best[i as int]));
                assert(best_ok(t@, prev as int, best[prev as int]));
                assert forall|x: int| i < x < prev implies !(is_word(
                    #[trigger] t@.subrange(x, prev as int),
                ) && has_cover_of(t@.subrange(0, x), left - 1)) by {
                    if is_word(t@.subrange(x, prev as int)) && has_cover_of(
                        t@.subrange(0, x),
                        left - 1,
                    ) {
                        assert(best_ok(t@, x, best[x]));
                        lemma_fewest_step(
                            t@,
                            x,
                            prev as int,
                            left as int,
                            best[x].unwrap() as int,
                        );
                    }
                }
                assert(is_last_cut(t@, i as int, prev as int, left as int));
            }
            let ghost before = cuts@;
            cuts.push(i);
            prev = i;
            left -= 1;
            proof {
                assert forall|m: int| 0 <= m < count - left implies is_last_cut(
                    t@,
                    #[trigger] cuts[m + 1] as int,
                    cuts[m] as int,
                    count - m,
                ) by {
                    if m + 1 < before.len() {
                        assert(cuts[m + 1] == before[m + 1]);
                        assert(cuts[m] == before[m]);
                    }
                }
            }
        }
    }
    proof {
        if prev > 0 {
            assert(best_ok(t@, prev as int, best[prev as int]));
            let parts = choose|parts: Seq<Seq<char>>| #[trigger]
                is_cover(t@.subrange(0, prev as int), parts) && parts.len() == left;
            lemma_cover_split(t@, prev as int, parts);
            let x = prev - parts.last().len();
            assert(best_ok(t@, x, best[x]));
            assert(is_cover(t@.subrange(0, x), parts.drop_last()));
            assert(t@.subrange(x, prev as int) == parts.last());
            lemma_fewest_step(t@, x, prev as int, left as int, best[x].unwrap() as int);
            assert(false);
        }
        assert(best_ok(t@, 0, best[0]));
        lemma_empty_cover(t@.subrange(0, 0));
        assert(left == 0);
    }
    cuts
}

/// A split of a prefix, followed by the last word of the split of a longer
/// prefix, is chosen by the rule for the longer prefix.
proof fn lemma_rightmost_extend(t: Seq<char>, a: int, b: int, parts: Seq<Seq<char>>)
    requires
        is_last_cut(t, a, b, parts.len() as int + 1),
        is_rightmost(t.subrange(0, a), parts),
    ensures
        is_rightmost(t.subrange(0, b), parts.push(t.subrange(a, b))),
{
    let whole = t.subrange(0, b);
    let more = parts.push(t.subrange(a, b));
    assert(more.drop_last() =~= parts);
    assert(whole.subrange(0, a) =~= t.subrange(0, a));
    assert forall|i: int| a < i < b implies !(is_word(#[trigger] whole.subrange(i, b))
        && has_cover_of(whole.subrange(0, i), more.len() - 1)) by {
        assert(whole.subrange(i, b) =~= t.subrange(i, b));
        assert(whole.subrange(0, i) =~= t.subrange(0, i));
    }
}

/// Cuts `t` at the places in `cuts` and hands the words out from the front.
fn pieces(t: &Vec<char>, cuts: &Vec<usize>) -> (parts: Vec<String>)
    requires
        cuts.len() > 0,
        cuts_ok(t@, cuts@, cuts.len() - 1),
    ensures
        is_split(t@, parts.deep_view()),
{
    let count: usize = cuts.len() - 1;
    let mut parts: Vec<String> = Vec::new();
    let mut m: usize = count;
    proof {
        lemma_empty_cover(t@.subrange(0, 0));
        assert(parts.deep_view() =~= Seq::<Seq<char>>::empty());
    }
    while m > 0
        invariant
            count == cuts.len() - 1,
            cuts_ok(t@, cuts@, count as int),
            m <= count,
            parts.len() == count - m,
            cuts[m as int] <= t.len(),
            is_cover(t@.subrange(0, cuts[m as int] as int), parts.deep_view()),
            is_rightmost(t@.subrange(0, cuts[m as int] as int), parts.deep_view()),
        decreases m,
    {
        let ghost before = parts.deep_view();
        let a: usize = cuts[m];
        let b: usize = cuts[m - 1];
        assert(is_last_cut(t@, cuts[(m - 1) + 1] as int, cuts[m - 1] as int, count - (m - 1)));
        let word = to_text(t, a, b);
        parts.push(word);
        m -= 1;
        proof {
            assert(parts.deep_view() =~= before.push(t@.subrange(a as int, b as int)));
            lemma_cover_extend(t@, a as int, b as int, before);
            lemma_rightmost_extend(t@, a as int, b as int, before);
        }
    }
    proof {
        assert(t@.subrange(0, t.len() as int) =~= t@);
        if count > 0 {
            assert(is_last_cut(t@, cuts[0int + 1] as int, cuts[0int] as int, count - 0int));
        } else {
            lemma_empty_cover(t@);
        }
    }
    parts
}

/// A token has one split at most.
pub proof fn lemma_split_unique(token: Seq<char>, a: Seq<Seq<char>>, b: Seq<Seq<char>>)
    requires
        is_split(token, a),
        is_split(token, b),
    ensures
        a == b,
    decreases a.len(),
{
    let n = token.len() as int;
    assert(a.len() == b.len());
    if a.len() == 0 {
        assert(a =~= b);
    } else {
        assert(token.subrange(0, n) =~= token);
        if n == 0 {
            lemma_cover_len(token, a);
        }
        lemma_cover_split(token, n, a);
        lemma_cover_split(token, n, b);
        let ja = n - a.last().len();
        let jb = n - b.last().len();
        if ja < jb {
            assert(is_word(token.subrange(jb, n)));
            assert(has_cover_of(token.subrange(0, jb), a.len() - 1));
            assert(false);
        }
        if jb < ja {
            assert(is_word(token.subrange(ja, n)));
            assert(has_cover_of(token.subrange(0, ja), b.len() - 1));
            assert(false);
        }
        let front = token.subrange(0, ja);
        assert forall|other: Seq<Seq<char>>| #[trigger] is_cover(front, other) implies a.len() - 1
            <= other.len() by {
            lemma_cover_extend(token, ja, n, other);
        }
        lemma_split_unique(front, a.drop_last(), b.drop_last());
        assert(a =~= a.drop_last().push(a.last()));
        assert(b =~= b.drop_last().push(b.last()));
    }
}

/// Where a token has a cover, some number of parts is the least that a
/// cover of it can have, and the cover at hand has that many or more.
proof fn lemma_fewest_exists(token: Seq<char>, parts: Seq<Seq<char>>) -> (count: int)
    requires
        is_cover(token, parts),
    ensures
        is_fewest(token, count),
        count <= parts.len(),
    decreases parts.len(),
{
    if forall|other: Seq<Seq<char>>| #[trigger] is_cover(token, other) ==> parts.len() <= other.len() {
        parts.len() as int
    } else {
        let other = choose|other: Seq<Seq<char>>| #[trigger]
            is_cover(token, other) && other.len() < parts.len();
        lemma_fewest_exists(token, other)
    }
}

/// A word that ends the token and leaves `count - 1` words for what stands
/// before it can begin at `a`.
spec fn can_end_with(token: Seq<char>, count: int, a: int) -> bool {
    &&& 0 <= a < token.len()
    &&& is_word(token.subrange(a, token.len() as int))
    &&& has_cover_of(token.subrange(0, a), count - 1)
}

/// Of the places where such a last word can begin, one is the last.
proof fn lemma_last_start(token: Seq<char>, count: int, from: int) -> (a: int)
    requires
        can_end_with(token, count, from),
    ensures
        from <= a,
        can_end_with(token, count, a),
        forall|i: int| a < i ==> !can_end_with(token, count, i),
    decreases token.len() - from,
{
    if exists|i: int| from < i && can_end_with(token, count, i) {
        let i = choose|i: int| from < i && can_end_with(token, count, i);
        lemma_last_start(token, count, i)
    } else {
        from
    }
}

/// A token that `count` words cover, and no fewer, has a split.
proof fn lemma_split_of_fewest(token: Seq<char>, count: int) -> (parts: Seq<Seq<char>>)
    requires
        is_fewest(token, count),
    ensures
        is_split(token, parts),
        parts.len() == count,
    decreases token.len(),
{
    let n = token.len() as int;
    let some = choose|some: Seq<Seq<char>>| #[trigger] is_cover(token, some) && some.len() == count;
    if count == 0 {
        assert(is_rightmost(token, some));
        some
    } else {
        lemma_cover_len(token, some);
        assert(token.subrange(0, n) =~= token);
        lemma_cover_split(token, n, some);
        let from = n - some.last().len();
        assert(is_cover(token.subrange(0, from), some.drop_last()));
        assert(can_end_with(token, count, from));
        let a = lemma_last_start(token, count, from);
        let front = token.subrange(0, a);
        let word = token.subrange(a, n);
        assert forall|other: Seq<Seq<char>>| #[trigger] is_cover(front, other) implies count - 1
            <= other.len() by {
            lemma_cover_extend(token, a, n, other);
        }
        let before = lemma_split_of_fewest(front, count - 1);
        let parts = before.push(word);
        lemma_cover_extend(token, a, n, before);
        assert(parts.drop_last() =~= before);
        assert forall|i: int| a < i < n implies !(is_word(#[trigger] token.subrange(i, n))
            && has_cover_of(token.subrange(0, i), parts.len() - 1)) by {
            assert(!can_end_with(token, count, i));
        }
        assert(is_rightmost(token, parts));
        parts
    }
}

/// A token that words of the list cover has a split, and its split has as
/// few parts as any cover of it.
pub proof fn lemma_split_is_fewest(token: Seq<char>, other: Seq<Seq<char>>)
    requires
        is_cover(token, other),
    ensures
        split_of(token) matches Some(parts) && is_split(token, parts) && parts.len() <= other.len(),
{
    let count = lemma_fewest_exists(token, other);
    let parts = lemma_split_of_fewest(token, count);
}

/// A token that is not empty and holds no piece that the word list knows
/// has no cover, and so no split.
pub proof fn lemma_no_word_no_split(token: Seq<char>)
    requires
        token.len() > 0,
        forall|i: int, j: int|
            0 <= i < j <= token.len() ==> alkana_reading(#[trigger] token.subrange(i, j)) is None,
    ensures
        forall|parts: Seq<Seq<char>>| !is_cover(token, parts),
        split_of(token) is None,
{
    let n = token.len() as int;
    assert(token.subrange(0, n) =~= token);
    assert forall|parts: Seq<Seq<char>>| !is_cover(token, parts) by {
        if is_cover(token, parts) {
            lemma_cover_split(token, n, parts);
            assert(alkana_reading(token.subrange(n - parts.last().len(), n)) is None);
        }
    }
}

/// Cuts `token` into the fewest words that the word list knows.
///
/// A word has two characters or more. Where several cuts need as few words,
/// the one is taken whose last word is shortest, then whose last word but
/// one is shortest, and so on. A token that no sequence of words covers
/// gives `None`.
pub fn min_split(token: &str) -> (r: Option<Vec<String>>)
    ensures
        match r {
            Some(parts) => is_shortest_cover(token@, parts.deep_view()) && is_rightmost(
                token@,
                parts.deep_view(),
            ),
            None => forall|other: Seq<Seq<char>>| !is_cover(token@, other),
        },
        r.deep_view() == split_of(token@),
{
    let t = to_chars(token);
    let n = t.len();
    let table = word_table(&t);
    let best = fewest_parts(&t, &table);
    proof {
        assert(best_ok(t@, n as int, best[n as int]));
        assert(t@.subrange(0, n as int) =~= t@);
    }
    match best[n] {
        None => {
            proof {
                assert(forall|parts: Seq<Seq<char>>| is_split(t@, parts) ==> is_cover(t@, parts));
            }
            None
        },
        Some(_) => {
            let cuts = walk_back(&t, &table, &best);
            let parts = pieces(&t, &cuts);
            proof {
                let chosen = choose|p: Seq<Seq<char>>| is_split(t@, p);
                lemma_split_unique(t@, parts.deep_view(), chosen);
            }
            Some(parts)
        },
    }
}

} // verus!
