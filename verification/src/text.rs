//! Splitting raw text into words.

use vstd::prelude::*;

use crate::chars::{char_is_whitespace, is_whitespace_char, string_push};

verus! {

/// The characters of each string, in order.
pub open spec fn views(v: Seq<String>) -> Seq<Seq<char>> {
    v.map_values(|w: String| w@)
}

/// The maximal runs of non-whitespace characters of `s`, in order: the words
/// of `s` when it is split on whitespace.
pub open spec fn words_of(s: Seq<char>) -> Seq<Seq<char>>
    decreases s.len(),
{
    if s.len() == 0 {
        Seq::empty()
    } else {
        let init = s.drop_last();
        let c = s.last();
        let prev = words_of(init);
        if is_whitespace_char(c) {
            prev
        } else if init.len() > 0 && !is_whitespace_char(init.last()) {
            prev.drop_last().push(prev.last().push(c))
        } else {
            prev.push(seq![c])
        }
    }
}

/// A word is still open at the end of `s` exactly when `s` ends in a
/// non-whitespace character; it is then the last of `words_of(s)`.
proof fn lemma_open_word(s: Seq<char>)
    ensures
        (s.len() > 0 && !is_whitespace_char(s.last())) ==> words_of(s).len() > 0,
    decreases s.len(),
{
    if s.len() > 0 {
        lemma_open_word(s.drop_last());
    }
}

/// The characters of `s` that are not whitespace, in order.
pub open spec fn non_whitespace(s: Seq<char>) -> Seq<char> {
    s.filter(|c: char| !is_whitespace_char(c))
}

/// Splitting on whitespace loses and reorders nothing but the whitespace:
/// every word is non-empty and holds no whitespace character, and the words
/// laid end to end give back the text with its whitespace removed.
pub proof fn lemma_words_of_partition(s: Seq<char>)
    ensures
        forall|i: int|
            0 <= i < words_of(s).len() ==> #[trigger] words_of(s)[i].len() > 0,
        forall|i: int, j: int|
            0 <= i < words_of(s).len() && 0 <= j < words_of(s)[i].len()
                ==> !is_whitespace_char(#[trigger] words_of(s)[i][j]),
        words_of(s).flatten() == non_whitespace(s),
    decreases s.len(),
{
    let pred = |c: char| !is_whitespace_char(c);
    if s.len() == 0 {
        reveal(Seq::filter);
    } else {
        let init = s.drop_last();
        let c = s.last();
        let prev = words_of(init);
        lemma_words_of_partition(init);
        lemma_open_word(init);
        assert(s == init.push(c));
        init.lemma_filter_push(c, pred);
        if is_whitespace_char(c) {
        } else if init.len() > 0 && !is_whitespace_char(init.last()) {
            let front = prev.drop_last();
            let w = prev.last().push(c);
            assert(prev == front.push(prev.last()));
            front.lemma_flatten_push(prev.last());
            front.lemma_flatten_push(w);
            assert(words_of(s) == front.push(w));
            assert(words_of(s).flatten() == prev.flatten().push(c));
            assert forall|i: int, j: int|
                0 <= i < words_of(s).len() && 0 <= j < words_of(s)[i].len()
                    implies !is_whitespace_char(#[trigger] words_of(s)[i][j]) by {
                if i < words_of(s).len() - 1 {
                    assert(words_of(s)[i] == prev[i]);
                } else if j < w.len() - 1 {
                    assert(words_of(s)[i][j] == prev[i][j]);
                }
            }
            assert forall|i: int| 0 <= i < words_of(s).len() implies #[trigger] words_of(s)[i].len() > 0 by {
                if i < words_of(s).len() - 1 {
                    assert(words_of(s)[i] == prev[i]);
                }
            }
        } else {
            prev.lemma_flatten_push(seq![c]);
            assert(words_of(s) == prev.push(seq![c]));
            assert forall|i: int, j: int|
                0 <= i < words_of(s).len() && 0 <= j < words_of(s)[i].len()
                    implies !is_whitespace_char(#[trigger] words_of(s)[i][j]) by {
                if i < words_of(s).len() - 1 {
                    assert(words_of(s)[i] == prev[i]);
                }
            }
            assert forall|i: int| 0 <= i < words_of(s).len() implies #[trigger] words_of(s)[i].len() > 0 by {
                if i < words_of(s).len() - 1 {
                    assert(words_of(s)[i] == prev[i]);
                }
            }
        }
    }
}

/// A run of text with no whitespace is one word, whole: splitting never cuts
/// between two non-whitespace characters.
pub proof fn lemma_unbroken_run_is_one_word(s: Seq<char>)
    requires
        s.len() > 0,
        forall|i: int| 0 <= i < s.len() ==> !is_whitespace_char(#[trigger] s[i]),
    ensures
        words_of(s) == seq![s],
    decreases s.len(),
{
    let init = s.drop_last();
    if init.len() == 0 {
        assert(s == seq![s.last()]);
        assert(words_of(init) == Seq::<Seq<char>>::empty());
        assert(words_of(s) == Seq::<Seq<char>>::empty().push(seq![s.last()]));
    } else {
        assert forall|i: int| 0 <= i < init.len() implies !is_whitespace_char(#[trigger] init[i]) by {
            assert(init[i] == s[i]);
        }
        lemma_unbroken_run_is_one_word(init);
        assert(!is_whitespace_char(s.last()));
        assert(!is_whitespace_char(init.last()));
        assert(init.push(s.last()) == s);
    }
}

/// Whitespace separates words: the words of two texts joined by a whitespace
/// character are the words of the first followed by the words of the second,
/// so no word reaches across whitespace and none is split elsewhere.
pub proof fn lemma_whitespace_separates(a: Seq<char>, w: char, b: Seq<char>)
    requires
        is_whitespace_char(w),
    ensures
        words_of(a.push(w) + b) == words_of(a) + words_of(b),
    decreases b.len(),
{
    if b.len() == 0 {
        assert(a.push(w) + b == a.push(w));
        assert(a.push(w).drop_last() == a);
        assert(words_of(b) == Seq::<Seq<char>>::empty());
        assert(words_of(a) + words_of(b) == words_of(a));
    } else {
        let b0 = b.drop_last();
        let c = b.last();
        let t = a.push(w) + b;
        let t0 = a.push(w) + b0;
        assert(t.drop_last() == t0);
        assert(t.last() == c);
        assert(b0.push(c) == b);
        lemma_whitespace_separates(a, w, b0);
        lemma_open_word(b0);
        if b0.len() > 0 {
            assert(t0.last() == b0.last());
        } else {
            assert(t0.last() == w);
            assert(words_of(b0) == Seq::<Seq<char>>::empty());
        }
        let wa = words_of(a);
        let wb0 = words_of(b0);
        if is_whitespace_char(c) {
        } else if t0.len() > 0 && !is_whitespace_char(t0.last()) {
            assert(b0.len() > 0);
            assert((wa + wb0).last() == wb0.last());
            assert((wa + wb0).drop_last() == wa + wb0.drop_last());
            assert(words_of(b) == wb0.drop_last().push(wb0.last().push(c)));
            assert(wa + wb0.drop_last().push(wb0.last().push(c)) == (wa + wb0.drop_last()).push(
                wb0.last().push(c),
            ));
        } else {
            assert(words_of(b) == wb0.push(seq![c]));
            assert(wa + wb0.push(seq![c]) == (wa + wb0).push(seq![c]));
        }
    }
}

/// Splits raw text on whitespace. Paragraph and chapter structure is
/// deliberately ignored.
pub fn tokenize(text: &str) -> (words: Vec<String>)
    ensures
        views(words@) == words_of(text@),
{
    let mut words: Vec<String> = Vec::new();
    let mut cur = String::new();
    let ghost s = text@;
    let ghost mut i: int = 0;
    for c in it: text.chars()
        invariant
            it.seq() == s,
            i == it.index(),
            0 <= i <= s.len(),
            cur@.len() > 0 <==> (i > 0 && !is_whitespace_char(s[i - 1])),
            views(words@) + (if cur@.len() > 0 { seq![cur@] } else { Seq::empty() })
                == words_of(s.take(i)),
    {
        let ghost pre = s.take(i);
        let ghost old_words = views(words@);
        let ghost old_cur = cur@;
        assert(c == s[i]);
        assert(s.take(i + 1) == pre.push(c));
        assert(s.take(i + 1).drop_last() == pre);
        proof {
            lemma_open_word(pre);
        }
        if char_is_whitespace(c) {
            if !cur.as_str().is_empty() {
                let w = cur;
                words.push(w);
                assert(views(words@) == old_words.push(old_cur));
                cur = String::new();
            }
            assert(views(words@) + Seq::<Seq<char>>::empty() == words_of(s.take(i + 1)));
        } else {
            string_push(&mut cur, c);
            proof {
                let prev = words_of(pre);
                if old_cur.len() > 0 {
                    assert(prev == old_words.push(old_cur));
                    assert(prev.drop_last() == old_words);
                    assert(prev.last() == old_cur);
                    assert(words_of(s.take(i + 1)) == old_words.push(old_cur.push(c)));
                } else {
                    assert(prev == old_words);
                    assert(cur@ == seq![c]);
                    assert(words_of(s.take(i + 1)) == old_words.push(seq![c]));
                }
            }
            assert(views(words@) + seq![cur@] == words_of(s.take(i + 1)));
        }
        proof {
            i = i + 1;
        }
    }
    assert(s.take(i) == s);
    if !cur.as_str().is_empty() {
        let w = cur;
        words.push(w);
        assert(views(words@) == views(words@.drop_last()).push(w@));
    }
    words
}

} // verus!
