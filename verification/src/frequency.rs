//! Word frequencies derived from the text being read.
//!
//! A word like a character's name appears in no dictionary, yet is frequent
//! within its book; counting occurrences in the input handles such words and
//! needs no language data.

use vstd::hash_map::StringHashMap;
use vstd::prelude::*;

use crate::chars::{char_is_alphanumeric, is_alphanumeric_char, lowercase, str_to_lowercase};
use crate::timing::{core_of, lemma_core_len_at, word_core};

verus! {

/// The number of leading non-alphanumeric characters of `s`.
pub open spec fn lead_len(s: Seq<char>) -> nat
    decreases s.len(),
{
    if s.len() == 0 {
        0
    } else if is_alphanumeric_char(s[0]) {
        0
    } else {
        1 + lead_len(s.drop_first())
    }
}

/// The key a word is counted under: case-folded, with the non-alphanumeric
/// characters around its core dropped.
pub open spec fn normalized(word: Seq<char>) -> Seq<char> {
    let core = core_of(word);
    lowercase(core.skip(lead_len(core) as int))
}

/// The keys of `words`, in order.
pub open spec fn keys_of(words: Seq<String>) -> Seq<Seq<char>> {
    words.map_values(|w: String| normalized(w@))
}

/// How many of `keys` equal `k`.
pub open spec fn occurrences(keys: Seq<Seq<char>>, k: Seq<char>) -> nat
    decreases keys.len(),
{
    if keys.len() == 0 {
        0
    } else {
        occurrences(keys.drop_last(), k) + if keys.last() == k {
            1nat
        } else {
            0nat
        }
    }
}

/// `lead_len` is the index of the first alphanumeric character, or the length
/// when there is none.
proof fn lemma_lead_len(s: Seq<char>, k: int)
    requires
        0 <= k <= s.len(),
        forall|j: int| 0 <= j < k ==> !is_alphanumeric_char(#[trigger] s[j]),
        k == s.len() || is_alphanumeric_char(s[k]),
    ensures
        lead_len(s) == k,
    decreases k,
{
    if k > 0 {
        assert(!is_alphanumeric_char(s[0]));
        let t = s.drop_first();
        assert forall|j: int| 0 <= j < k - 1 implies !is_alphanumeric_char(#[trigger] t[j]) by {
            assert(t[j] == s[j + 1]);
        }
        if k < s.len() {
            assert(t[k - 1] == s[k]);
        }
        lemma_lead_len(t, k - 1);
    }
}

/// Case-folds `word` and drops the non-alphanumeric characters around its core.
pub fn normalize(word: &str) -> (key: String)
    ensures
        key@ == normalized(word@),
{
    let core = word_core(word);
    let ghost s = core@;
    let n = core.unicode_len();
    let mut start: usize = 0;
    let mut found = false;
    let mut i: usize = 0;
    for c in it: core.chars()
        invariant
            it.seq() == s,
            n == s.len(),
            i == it.index(),
            i <= s.len(),
            found ==> start < i && is_alphanumeric_char(s[start as int]),
            found ==> forall|j: int| 0 <= j < start ==> !is_alphanumeric_char(#[trigger] s[j]),
            !found ==> forall|j: int| 0 <= j < i ==> !is_alphanumeric_char(#[trigger] s[j]),
    {
        assert(c == s[i as int]);
        if !found && char_is_alphanumeric(c) {
            found = true;
            start = i;
        }
        i = i + 1;
    }
    if !found {
        start = n;
    }
    proof {
        lemma_lead_len(s, start as int);
    }
    let rest = core.substring_char(start, n);
    assert(rest@ == s.skip(start as int));
    str_to_lowercase(rest)
}

/// `occurrences` never exceeds the number of keys, and a key that occurs
/// among them is counted at least once.
proof fn lemma_occurrences_bounds(keys: Seq<Seq<char>>, k: Seq<char>)
    ensures
        occurrences(keys, k) <= keys.len(),
        keys.contains(k) ==> occurrences(keys, k) >= 1,
    decreases keys.len(),
{
    if keys.len() > 0 {
        lemma_occurrences_bounds(keys.drop_last(), k);
        if keys.contains(k) && keys.last() != k {
            let j = choose|j: int| 0 <= j < keys.len() && keys[j] == k;
            assert(keys.drop_last()[j] == k);
        }
    }
}

/// Total number of times each word occurs in `words`, aligned with the input,
/// plus the largest count (zero for no words). Words are normalized first
/// (case-folded, surrounding punctuation stripped), so `Aragorn` and
/// `aragorn.` count as one word.
pub fn analyze(words: &[String]) -> (r: (Vec<u32>, u32))
    requires
        words@.len() <= u32::MAX,
    ensures
        r.0@.len() == words@.len(),
        forall|i: int|
            0 <= i < words@.len() ==> #[trigger] r.0@[i] == occurrences(
                keys_of(words@),
                keys_of(words@)[i],
            ),
        forall|i: int| 0 <= i < words@.len() ==> #[trigger] r.0@[i] <= r.1,
        words@.len() == 0 ==> r.1 == 0,
        words@.len() > 0 ==> exists|i: int| 0 <= i < words@.len() && #[trigger] r.0@[i] == r.1,
{
    let ghost all = keys_of(words@);
    let mut keys: Vec<String> = Vec::new();
    for i in 0..words.len()
        invariant
            all == keys_of(words@),
            keys@.len() == i,
            forall|j: int| 0 <= j < i ==> #[trigger] keys@[j]@ == all[j],
    {
        let key = normalize(&words[i]);
        keys.push(key);
    }
    let mut counts: StringHashMap<u32> = StringHashMap::new();
    for i in 0..keys.len()
        invariant
            all == keys_of(words@),
            keys@.len() == all.len(),
            all.len() <= u32::MAX,
            forall|j: int| 0 <= j < all.len() ==> #[trigger] keys@[j]@ == all[j],
            forall|k: Seq<char>|
                #![trigger counts@.contains_key(k)]
                #![trigger occurrences(all.take(i as int), k)]
                (counts@.contains_key(k) ==> counts@[k] == occurrences(all.take(i as int), k))
                    && (!counts@.contains_key(k) ==> occurrences(all.take(i as int), k) == 0),
    {
        let ghost pre = all.take(i as int);
        assert(all.take(i + 1).drop_last() == pre);
        assert(all.take(i + 1).last() == all[i as int]);
        proof {
            lemma_occurrences_bounds(pre, keys@[i as int]@);
        }
        let key = keys[i].clone();
        let next: u32 = match counts.get(keys[i].as_str()) {
            Some(c) => *c + 1,
            None => 1,
        };
        counts.insert(key, next);
    }
    assert(all.take(keys.len() as int) == all);
    let mut per_word: Vec<u32> = Vec::new();
    let mut max_count: u32 = 0;
    for i in 0..keys.len()
        invariant
            all == keys_of(words@),
            keys@.len() == all.len(),
            forall|j: int| 0 <= j < all.len() ==> #[trigger] keys@[j]@ == all[j],
            forall|k: Seq<char>|
                #![trigger counts@.contains_key(k)]
                #![trigger occurrences(all, k)]
                (counts@.contains_key(k) ==> counts@[k] == occurrences(all, k))
                    && (!counts@.contains_key(k) ==> occurrences(all, k) == 0),
            per_word@.len() == i,
            forall|j: int| 0 <= j < i ==> #[trigger] per_word@[j] == occurrences(all, all[j]),
            forall|j: int| 0 <= j < i ==> #[trigger] per_word@[j] <= max_count,
            i == 0 ==> max_count == 0,
            i > 0 ==> exists|j: int| 0 <= j < i && #[trigger] per_word@[j] == max_count,
    {
        proof {
            assert(all.contains(all[i as int]));
            lemma_occurrences_bounds(all, all[i as int]);
        }
        let c: u32 = match counts.get(keys[i].as_str()) {
            Some(c) => *c,
            None => 0,
        };
        let ghost old_max = max_count;
        let ghost old_per_word = per_word@;
        per_word.push(c);
        if c > max_count {
            max_count = c;
        }
        assert(per_word@[i as int] == c);
        proof {
            if i > 0 && c <= old_max {
                let j = choose|j: int| 0 <= j < i && #[trigger] old_per_word[j] == old_max;
                assert(per_word@[j] == max_count);
            }
        }
    }
    proof {
        if keys.len() > 0 {
            let j = choose|j: int| 0 <= j < keys.len() && #[trigger] per_word@[j] == max_count;
            assert(per_word@[j] == max_count);
        }
    }
    (per_word, max_count)
}

/// Each word counts at least itself and at most every word, and words with
/// the same key (such as `Aragorn` and `aragorn.`) get the same count.
pub proof fn lemma_counts(words: Seq<String>, i: int, j: int)
    requires
        0 <= i < words.len(),
        0 <= j < words.len(),
    ensures
        1 <= occurrences(keys_of(words), keys_of(words)[i]) <= words.len(),
        keys_of(words)[i] == keys_of(words)[j] ==> occurrences(keys_of(words), keys_of(words)[i])
            == occurrences(keys_of(words), keys_of(words)[j]),
{
    let keys = keys_of(words);
    assert(keys.contains(keys[i]));
    lemma_occurrences_bounds(keys, keys[i]);
}

/// `occurrences` counts the copies of a key in the multiset of keys.
pub proof fn lemma_occurrences_multiset(keys: Seq<Seq<char>>, k: Seq<char>)
    ensures
        occurrences(keys, k) == keys.to_multiset().count(k),
    decreases keys.len(),
{
    if keys.len() == 0 {
        keys.to_multiset_ensures();
        assert(keys.to_multiset() =~= vstd::multiset::Multiset::empty());
    } else {
        let init = keys.drop_last();
        lemma_occurrences_multiset(init, k);
        init.to_multiset_ensures();
        assert(init.push(keys.last()) == keys);
    }
}

/// Counts follow the words, not their positions: two word lists with the same
/// keys, in any order (the same multiset of keys), count every key alike, so
/// `analyze` gives each word the same count and the same largest count.
pub proof fn lemma_counts_follow_words(a: Seq<String>, b: Seq<String>, k: Seq<char>)
    requires
        keys_of(a).to_multiset() == keys_of(b).to_multiset(),
    ensures
        occurrences(keys_of(a), k) == occurrences(keys_of(b), k),
{
    lemma_occurrences_multiset(keys_of(a), k);
    lemma_occurrences_multiset(keys_of(b), k);
}

/// The key keeps the whole word between its first and its last letter or
/// digit: it is the lowercase of exactly that stretch (of nothing, when the
/// word has no letter or digit). Only the non-alphanumeric characters around
/// it are dropped.
pub proof fn lemma_key_is_whole_core(w: Seq<char>, i: int, j: int)
    requires
        0 <= i <= j <= w.len(),
        i < j ==> is_alphanumeric_char(w[i]) && is_alphanumeric_char(w[j - 1]),
        i == j ==> forall|k: int| 0 <= k < w.len() ==> !is_alphanumeric_char(#[trigger] w[k]),
        forall|k: int| 0 <= k < i ==> !is_alphanumeric_char(#[trigger] w[k]),
        forall|k: int| j <= k < w.len() ==> !is_alphanumeric_char(#[trigger] w[k]),
    ensures
        normalized(w) == lowercase(w.subrange(i, j)),
{
    if i < j {
        lemma_core_len_at(w, j);
        let core = w.take(j);
        assert forall|k: int| 0 <= k < i implies !is_alphanumeric_char(#[trigger] core[k]) by {
            assert(core[k] == w[k]);
        }
        assert(core[i] == w[i]);
        lemma_lead_len(core, i);
        assert(core.skip(i) == w.subrange(i, j));
    } else {
        lemma_core_len_at(w, 0);
        let core = w.take(0);
        lemma_lead_len(core, 0);
        assert(core.skip(0) == w.subrange(i, j));
    }
}

} // verus!
