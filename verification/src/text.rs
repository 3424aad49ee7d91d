//! Whitespace and words in a sequence of characters.

use vstd::prelude::*;

verus! {

/// Whether `c` is white space: one of the code points that Unicode marks
/// `White_Space`.
pub open spec fn is_space(c: char) -> bool {
    let u = c as u32;
    ||| 0x09 <= u <= 0x0D
    ||| u == 0x20
    ||| u == 0x85
    ||| u == 0xA0
    ||| u == 0x1680
    ||| 0x2000 <= u <= 0x200A
    ||| u == 0x2028
    ||| u == 0x2029
    ||| u == 0x202F
    ||| u == 0x205F
    ||| u == 0x3000
}

/// Tells white space from other characters.
pub fn is_whitespace(c: char) -> (b: bool)
    ensures
        b == is_space(c),
{
    let u: u32 = c as u32;
    (0x09 <= u && u <= 0x0D) || u == 0x20 || u == 0x85 || u == 0xA0 || u == 0x1680 || (0x2000 <= u
        && u <= 0x200A) || u == 0x2028 || u == 0x2029 || u == 0x202F || u == 0x205F || u == 0x3000
}

/// The characters of `text`, one by one.
pub fn chars_of(text: &str) -> (chars: Vec<char>)
    ensures
        chars@ == text@,
{
    let mut chars: Vec<char> = Vec::new();
    for c in it: text.chars()
        invariant
            it.seq() == text@,
            chars@ == it.seq().take(it.index() as int),
    {
        chars.push(c);
        assert(chars@ =~= it.seq().take(it.index() + 1));
    }
    assert(chars@ =~= text@);
    chars
}

/// The words of `s`: its maximal runs of characters that are not white space,
/// in the order in which they occur.
pub open spec fn tokens(s: Seq<char>) -> Seq<Seq<char>>
    decreases s.len(),
{
    if s.len() == 0 {
        Seq::empty()
    } else {
        let before = tokens(s.drop_last());
        let c = s.last();
        if is_space(c) {
            before
        } else if s.len() >= 2 && !is_space(s[s.len() - 2]) {
            before.drop_last().push(before.last().push(c))
        } else {
            before.push(seq![c])
        }
    }
}

/// Whether a word of `s` begins at index `i`.
pub open spec fn starts_word(s: Seq<char>, i: int) -> bool {
    &&& 0 <= i < s.len()
    &&& !is_space(s[i])
    &&& (i == 0 || is_space(s[i - 1]))
}

/// A text that ends in a character other than white space has a last word,
/// and that word is not empty.
pub proof fn lemma_open_word(s: Seq<char>)
    requires
        s.len() > 0,
        !is_space(s.last()),
    ensures
        tokens(s).len() > 0,
        tokens(s).last().len() > 0,
        tokens(s).last().last() == s.last(),
    decreases s.len(),
{
    if s.len() >= 2 && !is_space(s[s.len() - 2]) {
        lemma_open_word(s.drop_last());
    }
}

/// How the words of the first `i + 1` characters arise from the words of the
/// first `i`: white space changes nothing, a character after white space
/// (or at the start) opens a word, any other character extends the last word.
pub proof fn lemma_tokens_step(s: Seq<char>, i: int)
    requires
        0 <= i < s.len(),
    ensures
        is_space(s[i]) ==> tokens(s.take(i + 1)) == tokens(s.take(i)),
        starts_word(s, i) ==> tokens(s.take(i + 1)) == tokens(s.take(i)).push(seq![s[i]]),
        !is_space(s[i]) && !starts_word(s, i) ==> {
            &&& tokens(s.take(i)).len() > 0
            &&& tokens(s.take(i + 1)) == tokens(s.take(i)).drop_last().push(
                tokens(s.take(i)).last().push(s[i]),
            )
        },
        tokens(s.take(i + 1)).len() == tokens(s.take(i)).len() + if starts_word(s, i) {
            1int
        } else {
            0int
        },
{
    let t = s.take(i + 1);
    assert(t.drop_last() =~= s.take(i));
    assert(t.last() == s[i]);
    if !is_space(s[i]) && !starts_word(s, i) {
        assert(s.take(i).last() == s[i - 1]);
        lemma_open_word(s.take(i));
    }
}

/// A text has at most as many words as characters.
pub proof fn lemma_tokens_len_bound(s: Seq<char>)
    ensures
        tokens(s).len() <= s.len(),
    decreases s.len(),
{
    if s.len() > 0 {
        lemma_tokens_len_bound(s.drop_last());
        assert(s.take(s.len() - 1) =~= s.drop_last());
        assert(s.take(s.len() as int) =~= s);
        lemma_tokens_step(s, s.len() - 1);
    }
}

/// A word is not empty and holds no white space.
pub proof fn lemma_tokens_are_words(s: Seq<char>, k: int)
    requires
        0 <= k < tokens(s).len(),
    ensures
        tokens(s)[k].len() > 0,
        forall|j: int| 0 <= j < tokens(s)[k].len() ==> !is_space(#[trigger] tokens(s)[k][j]),
    decreases s.len(),
{
    if s.len() > 0 {
        let before = tokens(s.drop_last());
        if is_space(s.last()) {
            lemma_tokens_are_words(s.drop_last(), k);
        } else if s.len() >= 2 && !is_space(s[s.len() - 2]) {
            lemma_open_word(s.drop_last());
            if k < before.len() - 1 {
                lemma_tokens_are_words(s.drop_last(), k);
            } else {
                lemma_tokens_are_words(s.drop_last(), before.len() - 1);
            }
        } else {
            if k < before.len() {
                lemma_tokens_are_words(s.drop_last(), k);
            }
        }
    }
}

/// A text without white space that is not empty is one word.
pub proof fn lemma_tokens_of_word(w: Seq<char>)
    requires
        w.len() > 0,
        forall|j: int| 0 <= j < w.len() ==> !is_space(#[trigger] w[j]),
    ensures
        tokens(w) == seq![w],
    decreases w.len(),
{
    if w.len() == 1 {
        assert(tokens(w.drop_last()) =~= Seq::empty());
        assert(seq![w.last()] =~= w);
        assert(tokens(w) =~= seq![w]);
    } else {
        lemma_tokens_of_word(w.drop_last());
        assert(w.drop_last().push(w.last()) =~= w);
        assert(tokens(w) =~= seq![w]);
    }
}

/// White space separates: the words of two texts with a white space
/// character between them are the words of the first, then the words of the
/// second.
pub proof fn lemma_tokens_split(a: Seq<char>, space: char, b: Seq<char>)
    requires
        is_space(space),
    ensures
        tokens(a + seq![space] + b) == tokens(a) + tokens(b),
    decreases b.len(),
{
    let s = a + seq![space] + b;
    if b.len() == 0 {
        assert(s.drop_last() =~= a);
        assert(tokens(a) + tokens(b) =~= tokens(a));
    } else {
        let shorter = a + seq![space] + b.drop_last();
        assert(s.drop_last() =~= shorter);
        lemma_tokens_split(a, space, b.drop_last());
        let c = b.last();
        assert(s.last() == c);
        if is_space(c) {
        } else if b.len() >= 2 && !is_space(b[b.len() - 2]) {
            assert(s[s.len() - 2] == b[b.len() - 2]);
            lemma_open_word(b.drop_last());
            assert(tokens(s) =~= tokens(a) + tokens(b));
        } else {
            if b.len() >= 2 {
                assert(s[s.len() - 2] == b[b.len() - 2]);
            } else {
                assert(s[s.len() - 2] == space);
            }
            assert(tokens(s) =~= tokens(a) + tokens(b));
        }
    }
}

/// The positions of `s` at which a word begins.
pub open spec fn word_starts(s: Seq<char>) -> Set<int> {
    Set::new(|i: int| starts_word(s, i))
}

/// A text has as many words as positions at which a word begins.
pub proof fn lemma_words_counted_by_starts(s: Seq<char>)
    ensures
        word_starts(s).finite(),
        tokens(s).len() == word_starts(s).len(),
    decreases s.len(),
{
    if s.len() == 0 {
        assert(word_starts(s) =~= Set::empty());
    } else {
        let last = s.len() - 1;
        let shorter = s.drop_last();
        lemma_words_counted_by_starts(shorter);
        assert(s.take(last) =~= shorter);
        assert(s.take(s.len() as int) =~= s);
        lemma_tokens_step(s, last);
        assert forall|i: int| starts_word(shorter, i) <==> starts_word(s, i) && i != last by {
            if 0 <= i < last {
                assert(shorter[i] == s[i]);
                if i > 0 {
                    assert(shorter[i - 1] == s[i - 1]);
                }
            }
        }
        if starts_word(s, last) {
            assert(word_starts(s) =~= word_starts(shorter).insert(last));
        } else {
            assert(word_starts(s) =~= word_starts(shorter));
        }
    }
}

/// Counts the words of `text`.
pub fn count_words(text: &Vec<char>) -> (n: usize)
    ensures
        n == tokens(text@).len(),
{
    let mut n: usize = 0;
    let mut in_word = false;
    let mut i: usize = 0;
    while i < text.len()
        invariant
            i <= text.len(),
            n == tokens(text@.take(i as int)).len(),
            n <= i,
            in_word == (i > 0 && !is_space(text@[i - 1])),
        decreases text.len() - i,
    {
        let space = is_whitespace(text[i]);
        proof {
            lemma_tokens_step(text@, i as int);
        }
        if !space && !in_word {
            n += 1;
        }
        in_word = !space;
        i += 1;
    }
    assert(text@.take(i as int) =~= text@);
    n
}

} // verus!
