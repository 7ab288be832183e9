//! Optimal Recognition Point: the letter an RSVP reader anchors each word on.
//!
//! The bucket table is the common Spritz-style heuristic: longer words have
//! their pivot further into the word.

use vstd::prelude::*;

verus! {

/// The pivot index for a word of `n` characters.
pub open spec fn pivot_of_len(n: nat) -> nat {
    if n <= 1 {
        0
    } else if n <= 5 {
        1
    } else if n <= 9 {
        2
    } else if n <= 13 {
        3
    } else {
        4
    }
}

/// Returns the character index of the pivot within `word`.
pub fn pivot_index(word: &str) -> (p: usize)
    ensures
        p == pivot_of_len(word@.len()),
{
    let n = word.unicode_len();
    if n <= 1 {
        0
    } else if n <= 5 {
        1
    } else if n <= 9 {
        2
    } else if n <= 13 {
        3
    } else {
        4
    }
}

/// The pivot of a non-empty word falls inside it.
pub proof fn lemma_pivot_inside(n: nat)
    requires
        n > 0,
    ensures
        pivot_of_len(n) < n,
{
}

/// Longer words never have their pivot earlier than shorter ones.
pub proof fn lemma_pivot_monotone(m: nat, n: nat)
    requires
        m <= n,
    ensures
        pivot_of_len(m) <= pivot_of_len(n),
{
}

/// The pivot moves one letter right at word lengths 2, 6, 10 and 14, and
/// stays put everywhere else: letter 0 for words of up to one letter, then 1
/// up to five letters, 2 up to nine, 3 up to thirteen, 4 beyond.
pub proof fn lemma_pivot_steps(n: nat)
    ensures
        pivot_of_len(0) == 0,
        pivot_of_len(n + 1) == pivot_of_len(n) + (if n + 1 == 2 || n + 1 == 6 || n + 1 == 10 || n
            + 1 == 14 {
            1nat
        } else {
            0nat
        }),
{
}

/// Splits `word` into the text before the pivot, the pivot character and the
/// text after it; the empty word gives two empty strings around a space.
pub fn split_word(word: &str) -> (r: (&str, char, &str))
    ensures
        word@.len() == 0 ==> r.0@.len() == 0 && r.1 == ' ' && r.2@.len() == 0,
        word@.len() > 0 ==> {
            let p = pivot_of_len(word@.len()) as int;
            &&& r.0@ == word@.take(p)
            &&& r.1 == word@[p]
            &&& r.2@ == word@.skip(p + 1)
        },
{
    let n = word.unicode_len();
    if n == 0 {
        let empty = word.substring_char(0, 0);
        (empty, ' ', empty)
    } else {
        let pivot = pivot_index(word);
        proof {
            lemma_pivot_inside(n as nat);
        }
        let left = word.substring_char(0, pivot);
        let c = word.get_char(pivot);
        let right = word.substring_char(pivot + 1, n);
        (left, c, right)
    }
}

/// Splitting loses nothing: before, pivot and after give back the word, and
/// the pivot stands at `pivot_index`.
pub proof fn lemma_split_word_recombines(word: Seq<char>, left: Seq<char>, pivot: char, right: Seq<char>)
    requires
        word.len() > 0,
        left == word.take(pivot_of_len(word.len()) as int),
        pivot == word[pivot_of_len(word.len()) as int],
        right == word.skip(pivot_of_len(word.len()) + 1int),
    ensures
        left + seq![pivot] + right == word,
        left.len() == pivot_of_len(word.len()),
{
    lemma_pivot_inside(word.len());
    assert(left + seq![pivot] + right =~= word);
}

} // verus!
