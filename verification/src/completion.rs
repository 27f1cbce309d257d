//! Tab completion: the order of names, the candidates for a buffer and the
//! longest prefix that the candidates share.

use crate::text::chars_of;
use crate::text::string_of;
use vstd::prelude::*;

verus! {

/// The first position at or after `i` at which `a` and `b` differ, or at
/// which one of them ends.
pub open spec fn agree(a: Seq<char>, b: Seq<char>, i: int) -> int
    decreases a.len() - i,
{
    if i < 0 || i >= a.len() || i >= b.len() || a[i] != b[i] {
        i
    } else {
        agree(a, b, i + 1)
    }
}

/// The number of leading characters that `a` and `b` share.
pub open spec fn common_len(a: Seq<char>, b: Seq<char>) -> int {
    agree(a, b, 0)
}

/// The longest text that both `a` and `b` start with.
pub open spec fn common_prefix_spec(a: Seq<char>, b: Seq<char>) -> Seq<char> {
    a.take(common_len(a, b))
}

/// The longest text that every one of `words` starts with; empty where
/// there is no word.
pub open spec fn longest_common_prefix(words: Seq<Seq<char>>) -> Seq<char>
    decreases words.len(),
{
    if words.len() == 0 {
        Seq::empty()
    } else if words.len() == 1 {
        words[0]
    } else {
        common_prefix_spec(longest_common_prefix(words.drop_last()), words.last())
    }
}

/// `a` comes before `b` in the order of the dictionary, characters taken by
/// their code: at the first position where they differ `a` holds the
/// smaller character, or `a` ends there and `b` goes on.
pub open spec fn precedes(a: Seq<char>, b: Seq<char>) -> bool {
    let n = common_len(a, b);
    if n < a.len() && n < b.len() {
        (a[n] as int) < (b[n] as int)
    } else {
        n == a.len() && n < b.len()
    }
}

/// Each word comes before every later one, so that no word occurs twice.
pub open spec fn sorted(words: Seq<Seq<char>>) -> bool {
    forall|i: int, j: int| 0 <= i < j < words.len() ==> precedes(words[i], words[j])
}

/// `word` starts with `buffer` and is longer.
pub open spec fn extends(buffer: Seq<char>, word: Seq<char>) -> bool {
    buffer.is_prefix_of(word) && buffer.len() < word.len()
}

/// The words that start with `buffer` and are longer than it, in the order
/// in which `words` holds them.
pub open spec fn candidates(words: Seq<Seq<char>>, buffer: Seq<char>) -> Seq<Seq<char>> {
    words.filter(|w: Seq<char>| extends(buffer, w))
}

/// What `agree` finds: up to there the two texts are the same, and there
/// they differ or one of them ends.
pub proof fn lemma_agree(a: Seq<char>, b: Seq<char>, i: int)
    requires
        0 <= i <= a.len(),
        i <= b.len(),
        forall|k: int| 0 <= k < i ==> a[k] == b[k],
    ensures
        i <= agree(a, b, i) <= a.len(),
        agree(a, b, i) <= b.len(),
        forall|k: int| 0 <= k < agree(a, b, i) ==> a[k] == b[k],
        agree(a, b, i) < a.len() && agree(a, b, i) < b.len() ==> a[agree(a, b, i)] != b[agree(
            a,
            b,
            i,
        )],
    decreases a.len() - i,
{
    if i < a.len() && i < b.len() && a[i] == b[i] {
        lemma_agree(a, b, i + 1);
    }
}

/// The shared length is the one position up to which the texts are the
/// same and at which they differ or one of them ends.
pub proof fn lemma_common_len_is(a: Seq<char>, b: Seq<char>, n: int)
    requires
        0 <= n <= a.len(),
        n <= b.len(),
        forall|k: int| 0 <= k < n ==> a[k] == b[k],
        n < a.len() && n < b.len() ==> a[n] != b[n],
    ensures
        common_len(a, b) == n,
{
    lemma_agree(a, b, 0);
}

/// The shared length does not depend on the order of the two texts.
pub proof fn lemma_common_len_symmetric(a: Seq<char>, b: Seq<char>)
    ensures
        common_len(a, b) == common_len(b, a),
{
    lemma_agree(a, b, 0);
    lemma_common_len_is(b, a, common_len(a, b));
}

/// The common prefix of two texts starts both of them, and every text that
/// starts both of them starts it.
pub proof fn lemma_common_prefix(a: Seq<char>, b: Seq<char>)
    ensures
        common_prefix_spec(a, b).is_prefix_of(a),
        common_prefix_spec(a, b).is_prefix_of(b),
        forall|p: Seq<char>|
            p.is_prefix_of(a) && p.is_prefix_of(b) ==> #[trigger] p.is_prefix_of(
                common_prefix_spec(a, b),
            ),
{
    lemma_agree(a, b, 0);
    let c = common_prefix_spec(a, b);
    assert(c =~= a.subrange(0, c.len() as int));
    assert(c =~= b.subrange(0, c.len() as int));
    assert forall|p: Seq<char>| p.is_prefix_of(a) && p.is_prefix_of(b) implies #[trigger] p.is_prefix_of(
        c,
    ) by {
        if p.len() > c.len() {
            let n = c.len() as int;
            assert(p[n] == a[n]);
            assert(p[n] == b[n]);
        }
        assert(p =~= c.subrange(0, p.len() as int));
    }
}

/// The longest common prefix of a list of words starts each of them, and
/// every text that starts each of them starts it.
pub proof fn lemma_longest_common_prefix(words: Seq<Seq<char>>)
    requires
        words.len() > 0,
    ensures
        forall|i: int|
            0 <= i < words.len() ==> longest_common_prefix(words).is_prefix_of(
                #[trigger] words[i],
            ),
        forall|p: Seq<char>|
            (forall|i: int| 0 <= i < words.len() ==> p.is_prefix_of(#[trigger] words[i]))
                ==> #[trigger] p.is_prefix_of(longest_common_prefix(words)),
    decreases words.len(),
{
    let all = longest_common_prefix(words);
    if words.len() == 1 {
        assert(all =~= all.subrange(0, all.len() as int));
        assert forall|p: Seq<char>|
            (forall|i: int|
                0 <= i < words.len() ==> p.is_prefix_of(#[trigger] words[i])) implies #[trigger] p.is_prefix_of(
            all,
        ) by {
            assert(p.is_prefix_of(words[0]));
        }
    } else {
        let front = words.drop_last();
        let most = longest_common_prefix(front);
        lemma_longest_common_prefix(front);
        lemma_common_prefix(most, words.last());
        assert forall|i: int| 0 <= i < words.len() implies all.is_prefix_of(
            #[trigger] words[i],
        ) by {
            if i < front.len() {
                assert(most.is_prefix_of(front[i]));
                assert(all =~= words[i].subrange(0, all.len() as int));
            }
        }
        assert forall|p: Seq<char>|
            (forall|i: int|
                0 <= i < words.len() ==> p.is_prefix_of(#[trigger] words[i])) implies #[trigger] p.is_prefix_of(
            all,
        ) by {
            assert forall|i: int| 0 <= i < front.len() implies p.is_prefix_of(
                #[trigger] front[i],
            ) by {
                assert(front[i] == words[i]);
            }
            assert(p.is_prefix_of(most));
            assert(p.is_prefix_of(words[words.len() - 1]));
        }
    }
}

/// Of two different texts, one comes before the other.
pub proof fn lemma_precedes_total(a: Seq<char>, b: Seq<char>)
    ensures
        a == b || precedes(a, b) || precedes(b, a),
        !(precedes(a, b) && precedes(b, a)),
        !precedes(a, a),
{
    lemma_agree(a, b, 0);
    lemma_agree(a, a, 0);
    lemma_common_len_symmetric(a, b);
    let n = common_len(a, b);
    if !(n < a.len() && n < b.len()) && !precedes(a, b) && !precedes(b, a) {
        assert(a =~= b);
    }
}

/// What comes before a text comes before everything after that text.
pub proof fn lemma_precedes_transitive(a: Seq<char>, b: Seq<char>, c: Seq<char>)
    requires
        precedes(a, b),
        precedes(b, c),
    ensures
        precedes(a, c),
{
    lemma_agree(a, b, 0);
    lemma_agree(b, c, 0);
    let ab = common_len(a, b);
    let bc = common_len(b, c);
    let n = if ab <= bc {
        ab
    } else {
        bc
    };
    assert forall|k: int| 0 <= k < n implies a[k] == c[k] by {
        assert(a[k] == b[k]);
        assert(b[k] == c[k]);
    }
    if ab < bc {
        assert(n < c.len());
        if n < a.len() {
            assert(b[n] == c[n]);
            assert(a[n] != c[n]);
        }
        lemma_common_len_is(a, c, n);
    } else if bc < ab {
        assert(a[n] == b[n]);
        assert(n < c.len());
        lemma_common_len_is(a, c, n);
    } else {
        if n < a.len() {
            assert((a[n] as int) < (c[n] as int));
        }
        lemma_common_len_is(a, c, n);
    }
}

/// The candidates are the words that start with the buffer and are
/// longer; and where the words are sorted, so are the candidates.
pub proof fn lemma_candidates(words: Seq<Seq<char>>, buffer: Seq<char>)
    ensures
        forall|w: Seq<char>|
            #[trigger] candidates(words, buffer).contains(w) <==> words.contains(w) && extends(
                buffer,
                w,
            ),
        sorted(words) ==> sorted(candidates(words, buffer)),
    decreases words.len(),
{
    reveal_with_fuel(Seq::filter, 1);
    let keep = |w: Seq<char>| extends(buffer, w);
    let found = candidates(words, buffer);
    if words.len() == 0 {
        assert(found =~= Seq::<Seq<char>>::empty());
    } else {
        let front = words.drop_last();
        let last = words.last();
        let before = candidates(front, buffer);
        lemma_candidates(front, buffer);
        assert(found == if keep(last) {
            before.push(last)
        } else {
            before
        });
        assert forall|w: Seq<char>| #[trigger]
            found.contains(w) <==> words.contains(w) && extends(buffer, w) by {
            if found.contains(w) {
                let k = choose|k: int| 0 <= k < found.len() && found[k] == w;
                if k < before.len() {
                    assert(before.contains(w));
                    let j = choose|j: int| 0 <= j < front.len() && front[j] == w;
                    assert(words[j] == w);
                } else {
                    assert(words[words.len() - 1] == w);
                }
            }
            if words.contains(w) && extends(buffer, w) {
                let j = choose|j: int| 0 <= j < words.len() && words[j] == w;
                if j < front.len() {
                    assert(front[j] == w);
                    assert(before.contains(w));
                    let k = choose|k: int| 0 <= k < before.len() && before[k] == w;
                    assert(found[k] == w);
                } else {
                    assert(found[found.len() - 1] == w);
                }
            }
        }
        if sorted(words) {
            assert forall|i: int, j: int| 0 <= i < j < front.len() implies precedes(
                front[i],
                front[j],
            ) by {
                assert(precedes(words[i], words[j]));
            }
            assert forall|i: int, j: int| 0 <= i < j < found.len() implies precedes(
                found[i],
                found[j],
            ) by {
                if j < before.len() {
                    assert(precedes(before[i], before[j]));
                } else {
                    assert(before.contains(found[i]));
                    let k = choose|k: int| 0 <= k < front.len() && front[k] == found[i];
                    assert(precedes(words[k], words[words.len() - 1]));
                }
            }
        }
    }
}

/// The two lists hold the same words.
pub open spec fn same_words(a: Seq<Seq<char>>, b: Seq<Seq<char>>) -> bool {
    forall|w: Seq<char>| #[trigger] a.contains(w) <==> b.contains(w)
}

/// The words of `words`, each once, in the order of the dictionary: the
/// sorted list that holds the same words.
pub open spec fn ordered(words: Seq<Seq<char>>) -> Seq<Seq<char>> {
    choose|s: Seq<Seq<char>>| sorted(s) && same_words(s, words)
}

/// The first position at or after `i` whose word does not come before
/// `word`.
pub open spec fn rank(words: Seq<Seq<char>>, word: Seq<char>, i: int) -> int
    decreases words.len() - i,
{
    if i < 0 || i >= words.len() || !precedes(words[i], word) {
        i
    } else {
        rank(words, word, i + 1)
    }
}

/// What `rank` finds: the words before it, from `i` on, come before
/// `word`, and the word there does not.
pub proof fn lemma_rank(words: Seq<Seq<char>>, word: Seq<char>, i: int)
    requires
        0 <= i <= words.len(),
    ensures
        i <= rank(words, word, i) <= words.len(),
        forall|k: int| i <= k < rank(words, word, i) ==> precedes(#[trigger] words[k], word),
        rank(words, word, i) < words.len() ==> !precedes(words[rank(words, word, i)], word),
    decreases words.len() - i,
{
    if i < words.len() && precedes(words[i], word) {
        lemma_rank(words, word, i + 1);
    }
}

/// A word put into a sorted list, after the words that come before it and
/// before one that comes after it, leaves the list sorted, and adds this
/// word to it and nothing else.
pub proof fn lemma_insert(before: Seq<Seq<char>>, i: int, word: Seq<char>)
    requires
        sorted(before),
        0 <= i <= before.len(),
        forall|k: int| 0 <= k < i ==> precedes(#[trigger] before[k], word),
        i == before.len() || precedes(word, before[i]),
    ensures
        sorted(before.insert(i, word)),
        forall|w: Seq<char>|
            #[trigger] before.insert(i, word).contains(w) <==> before.contains(w) || w == word,
{
    let after = before.insert(i, word);
    assert forall|p: int, q: int| 0 <= p < q < after.len() implies precedes(
        after[p],
        after[q],
    ) by {
        if q < i {
        } else if q == i {
            assert(precedes(before[p], word));
        } else if p < i {
            assert(precedes(before[p], before[q - 1]));
        } else if p == i {
            if q - 1 > i {
                assert(precedes(before[i], before[q - 1]));
                lemma_precedes_transitive(word, before[i], before[q - 1]);
            }
        } else {
            assert(precedes(before[p - 1], before[q - 1]));
        }
    }
    assert forall|w: Seq<char>| #[trigger]
        after.contains(w) <==> before.contains(w) || w == word by {
        if after.contains(w) {
            let k = choose|k: int| 0 <= k < after.len() && after[k] == w;
            if k < i {
                assert(before[k] == w);
            } else if k > i {
                assert(before[k - 1] == w);
            }
        }
        if before.contains(w) {
            let k = choose|k: int| 0 <= k < before.len() && before[k] == w;
            if k < i {
                assert(after[k] == w);
            } else {
                assert(after[k + 1] == w);
            }
        }
        if w == word {
            assert(after[i] == w);
        }
    }
}

/// For every list there is a sorted list that holds the same words.
pub proof fn lemma_ordered_exists(words: Seq<Seq<char>>) -> (s: Seq<Seq<char>>)
    ensures
        sorted(s),
        same_words(s, words),
    decreases words.len(),
{
    if words.len() == 0 {
        assert forall|w: Seq<char>| #[trigger] words.contains(w) <==> words.contains(w) by {}
        words
    } else {
        let front = words.drop_last();
        let word = words.last();
        let most = lemma_ordered_exists(front);
        let i = rank(most, word, 0);
        lemma_rank(most, word, 0);
        let s = if i < most.len() && most[i] == word {
            most
        } else {
            if i < most.len() {
                lemma_precedes_total(most[i], word);
            }
            lemma_insert(most, i, word);
            most.insert(i, word)
        };
        assert forall|w: Seq<char>| #[trigger] s.contains(w) <==> words.contains(w) by {
            assert(most.contains(w) <==> front.contains(w));
            if i < most.len() && most[i] == word && w == word {
                assert(most.contains(w));
            }
            if front.contains(w) {
                let k = choose|k: int| 0 <= k < front.len() && front[k] == w;
                assert(words[k] == w);
            }
            if words.contains(w) {
                let k = choose|k: int| 0 <= k < words.len() && words[k] == w;
                if k < front.len() {
                    assert(front[k] == w);
                }
            }
            assert(words[words.len() - 1] == word);
        }
        s
    }
}

/// The ordered list of some words is sorted and holds the same words.
pub proof fn lemma_ordered(words: Seq<Seq<char>>)
    ensures
        sorted(ordered(words)),
        same_words(ordered(words), words),
{
    let s = lemma_ordered_exists(words);
    assert(sorted(s) && same_words(s, words));
}

/// Two sorted lists that hold the same words are the same list.
pub proof fn lemma_sorted_unique(a: Seq<Seq<char>>, b: Seq<Seq<char>>)
    requires
        sorted(a),
        sorted(b),
        same_words(a, b),
    ensures
        a == b,
    decreases a.len(),
{
    if a.len() == 0 {
        if b.len() > 0 {
            assert(b.contains(b[0]));
            assert(a.contains(b[0]));
        }
        assert(a =~= b);
    } else {
        assert(a.contains(a[0]));
        assert(b.contains(a[0]));
        let j = choose|j: int| 0 <= j < b.len() && b[j] == a[0];
        assert(b.contains(b[0]));
        assert(a.contains(b[0]));
        let k = choose|k: int| 0 <= k < a.len() && a[k] == b[0];
        lemma_precedes_total(a[0], b[0]);
        if j > 0 {
            assert(precedes(b[0], b[j]));
            if k > 0 {
                assert(precedes(a[0], a[k]));
            }
        }
        assert(a[0] == b[0]);
        let x = a.drop_first();
        let y = b.drop_first();
        assert forall|p: int, q: int| 0 <= p < q < x.len() implies precedes(x[p], x[q]) by {
            assert(precedes(a[p + 1], a[q + 1]));
        }
        assert forall|p: int, q: int| 0 <= p < q < y.len() implies precedes(y[p], y[q]) by {
            assert(precedes(b[p + 1], b[q + 1]));
        }
        assert forall|w: Seq<char>| #[trigger] x.contains(w) <==> y.contains(w) by {
            lemma_precedes_total(a[0], w);
            if x.contains(w) {
                let p = choose|p: int| 0 <= p < x.len() && x[p] == w;
                assert(precedes(a[0], a[p + 1]));
                assert(a.contains(w));
                assert(b.contains(w));
                let q = choose|q: int| 0 <= q < b.len() && b[q] == w;
                assert(q > 0);
                assert(y[q - 1] == w);
            }
            if y.contains(w) {
                let p = choose|p: int| 0 <= p < y.len() && y[p] == w;
                assert(precedes(b[0], b[p + 1]));
                assert(b.contains(w));
                assert(a.contains(w));
                let q = choose|q: int| 0 <= q < a.len() && a[q] == w;
                assert(q > 0);
                assert(x[q - 1] == w);
            }
        }
        lemma_sorted_unique(x, y);
        assert(a =~= seq![a[0]] + x);
        assert(b =~= seq![b[0]] + y);
    }
}

/// A sorted list is its own ordered list.
pub proof fn lemma_ordered_of_sorted(words: Seq<Seq<char>>)
    requires
        sorted(words),
    ensures
        ordered(words) == words,
{
    lemma_ordered(words);
    assert forall|w: Seq<char>| #[trigger] words.contains(w) <==> ordered(words).contains(w) by {}
    lemma_sorted_unique(words, ordered(words));
}

/// Whether `a` comes before `b` in the order of the dictionary.
pub fn comes_before(a: &Vec<char>, b: &Vec<char>) -> (r: bool)
    ensures
        r == precedes(a@, b@),
{
    let mut i: usize = 0;
    while i < a.len() && i < b.len() && a[i] == b[i]
        invariant
            i <= a.len(),
            i <= b.len(),
            agree(a@, b@, i as int) == common_len(a@, b@),
        decreases a.len() - i,
    {
        i += 1;
    }
    assert(agree(a@, b@, i as int) == i);
    if i < a.len() && i < b.len() {
        a[i] < b[i]
    } else {
        i == a.len() && i < b.len()
    }
}

/// Whether `word` starts with `buffer` and is longer.
pub fn is_candidate(buffer: &Vec<char>, word: &Vec<char>) -> (r: bool)
    ensures
        r == extends(buffer@, word@),
{
    if buffer.len() >= word.len() {
        return false;
    }
    let mut i: usize = 0;
    while i < buffer.len()
        invariant
            i <= buffer.len() < word.len(),
            forall|k: int| 0 <= k < i ==> buffer@[k] == word@[k],
        decreases buffer.len() - i,
    {
        if buffer[i] != word[i] {
            assert(word@.subrange(0, buffer@.len() as int)[i as int] == word@[i as int]);
            return false;
        }
        i += 1;
    }
    assert(buffer@ =~= word@.subrange(0, buffer@.len() as int));
    true
}

/// Puts `word` into the sorted list `words` at its place, unless the list
/// holds it already.
pub fn insert_sorted(words: &mut Vec<String>, word: String)
    requires
        sorted(old(words).deep_view()),
    ensures
        sorted(final(words).deep_view()),
        forall|w: Seq<char>|
            #[trigger] final(words).deep_view().contains(w) <==> old(words).deep_view().contains(w)
                || w == word@,
{
    let ghost before = words.deep_view();
    let text = chars_of(word.as_str());
    let mut i: usize = 0;
    let mut found = false;
    while i < words.len()
        invariant_except_break
            !found,
        invariant
            i <= words.len(),
            words.deep_view() == before,
            text@ == word@,
            forall|k: int| 0 <= k < i ==> precedes(before[k], word@),
        ensures
            i <= words.len(),
            words.deep_view() == before,
            forall|k: int| 0 <= k < i ==> precedes(before[k], word@),
            found ==> i < words.len() && before[i as int] == word@,
            !found ==> i == words.len() || precedes(word@, before[i as int]),
        decreases words.len() - i,
    {
        let here = chars_of(words[i].as_str());
        assert(here@ == before[i as int]);
        if comes_before(&here, &text) {
            i += 1;
        } else {
            proof {
                lemma_precedes_total(here@, text@);
            }
            found = !comes_before(&text, &here);
            break ;
        }
    }
    if found {
        assert forall|w: Seq<char>|
            before.contains(w) <==> before.contains(w) || w == word@ by {
            if w == word@ {
                assert(before[i as int] == w);
            }
        }
        return ;
    }
    words.insert(i, word);
    proof {
        assert(words.deep_view() =~= before.insert(i as int, word@));
        lemma_insert(before, i as int, word@);
    }
}

/// The words of `words`, each once, in the order of the dictionary.
pub fn sort(words: &Vec<String>) -> (sorted_words: Vec<String>)
    ensures
        sorted_words.deep_view() == ordered(words.deep_view()),
{
    let mut found: Vec<String> = Vec::new();
    let mut i: usize = 0;
    assert(found.deep_view() =~= Seq::<Seq<char>>::empty());
    while i < words.len()
        invariant
            i <= words.len(),
            sorted(found.deep_view()),
            same_words(found.deep_view(), words.deep_view().take(i as int)),
        decreases words.len() - i,
    {
        let ghost before = found.deep_view();
        let ghost done = words.deep_view().take(i as int);
        let ghost more = words.deep_view().take(i + 1);
        insert_sorted(&mut found, words[i].clone());
        proof {
            assert(more =~= done.push(words[i as int]@));
            assert forall|w: Seq<char>| #[trigger]
                found.deep_view().contains(w) <==> more.contains(w) by {
                if done.contains(w) {
                    let k = choose|k: int| 0 <= k < done.len() && done[k] == w;
                    assert(more[k] == w);
                }
                if more.contains(w) {
                    let k = choose|k: int| 0 <= k < more.len() && more[k] == w;
                    if k < done.len() {
                        assert(done[k] == w);
                    }
                }
                assert(more[i as int] == words[i as int]@);
            }
        }
        i += 1;
    }
    proof {
        assert(words.deep_view().take(i as int) =~= words.deep_view());
        lemma_ordered(words.deep_view());
        lemma_sorted_unique(found.deep_view(), ordered(words.deep_view()));
    }
    found
}

/// The words that start with `buffer` and are longer than it, in the order
/// in which `words` holds them.
pub fn completions(words: &Vec<String>, buffer: &str) -> (found: Vec<String>)
    ensures
        found.deep_view() == candidates(words.deep_view(), buffer@),
{
    let start = chars_of(buffer);
    let mut found: Vec<String> = Vec::new();
    let ghost keep = |w: Seq<char>| extends(buffer@, w);
    let mut i: usize = 0;
    assert(words.deep_view().take(0) =~= Seq::<Seq<char>>::empty());
    assert(found.deep_view() =~= Seq::<Seq<char>>::empty());
    proof {
        reveal_with_fuel(Seq::filter, 1);
    }
    while i < words.len()
        invariant
            i <= words.len(),
            start@ == buffer@,
            keep == (|w: Seq<char>| extends(buffer@, w)),
            found.deep_view() == words.deep_view().take(i as int).filter(keep),
        decreases words.len() - i,
    {
        let ghost done = words.deep_view().take(i as int);
        let ghost kept = found.deep_view();
        let word = chars_of(words[i].as_str());
        assert(words.deep_view().take(i + 1).drop_last() =~= done);
        assert(words.deep_view().take(i + 1).last() == word@);
        proof {
            reveal_with_fuel(Seq::filter, 1);
        }
        if is_candidate(&start, &word) {
            found.push(words[i].clone());
            assert(found.deep_view() =~= kept.push(word@));
        }
        i += 1;
    }
    assert(words.deep_view().take(i as int) =~= words.deep_view());
    found
}

/// The longest text that both words start with.
pub fn common_prefix(word1: &str, word2: &str) -> (prefix: String)
    ensures
        prefix@ == common_prefix_spec(word1@, word2@),
{
    let a = chars_of(word1);
    let b = chars_of(word2);
    let mut i: usize = 0;
    while i < a.len() && i < b.len() && a[i] == b[i]
        invariant
            i <= a.len(),
            i <= b.len(),
            agree(a@, b@, i as int) == common_len(a@, b@),
        decreases a.len() - i,
    {
        i += 1;
    }
    assert(agree(a@, b@, i as int) == i);
    string_of(&a, 0, i)
}

/// The longest text that every one of `completions` starts with; empty
/// where there is none.
pub fn completions_prefix(completions: &Vec<String>) -> (prefix: String)
    ensures
        prefix@ == longest_common_prefix(completions.deep_view()),
{
    if completions.len() == 0 {
        return String::new();
    }
    let mut prefix = completions[0].clone();
    let mut i: usize = 1;
    assert(completions.deep_view().take(1) =~= seq![completions[0]@]);
    while i < completions.len()
        invariant
            1 <= i <= completions.len(),
            prefix@ == longest_common_prefix(completions.deep_view().take(i as int)),
        decreases completions.len() - i,
    {
        let ghost done = completions.deep_view().take(i as int);
        assert(completions.deep_view().take(i + 1).drop_last() =~= done);
        assert(completions.deep_view().take(i + 1).last() == completions[i as int]@);
        prefix = common_prefix(prefix.as_str(), completions[i].as_str());
        i += 1;
    }
    assert(completions.deep_view().take(i as int) =~= completions.deep_view());
    prefix
}

} // verus!
