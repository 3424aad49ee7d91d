//! Leaving out the words that hold a given character.

use crate::event::InputEvent;
use crate::text::{is_space, is_whitespace, lemma_tokens_step, tokens};
use vstd::prelude::*;

verus! {

/// The words joined into one text, a single space between neighbours.
pub open spec fn joined(words: Seq<Seq<char>>) -> Seq<char>
    decreases words.len(),
{
    if words.len() == 0 {
        Seq::empty()
    } else if words.len() == 1 {
        words[0]
    } else {
        joined(words.drop_last()) + seq![' '] + words.last()
    }
}

/// The test that a word passes if `banned` does not occur in it.
pub open spec fn lacks(banned: char) -> spec_fn(Seq<char>) -> bool {
    |word: Seq<char>| !word.contains(banned)
}

/// The words of `text` in which `banned` does not occur, in their order,
/// joined by single spaces.
pub open spec fn without_words_containing(text: Seq<char>, banned: char) -> Seq<char> {
    joined(tokens(text).filter(lacks(banned)))
}

/// Words in which a character other than the space does not occur join
/// into a text in which it does not occur.
pub proof fn lemma_joined_lacks(words: Seq<Seq<char>>, banned: char)
    requires
        banned != ' ',
        forall|k: int| 0 <= k < words.len() ==> !(#[trigger] words[k]).contains(banned),
    ensures
        !joined(words).contains(banned),
    decreases words.len(),
{
    if words.len() >= 2 {
        lemma_joined_lacks(words.drop_last(), banned);
        let head = joined(words.drop_last());
        let all = joined(words);
        assert forall|i: int| 0 <= i < all.len() implies all[i] != banned by {
            if i < head.len() {
                assert(all[i] == head[i]);
            } else if i > head.len() {
                assert(all[i] == words.last()[i - head.len() - 1]);
                assert(!words[words.len() - 1].contains(banned));
            }
        }
    } else if words.len() == 1 {
        assert(!words[0].contains(banned));
    }
}

/// The banned character, unless it is the space, does not occur in what is
/// kept of a text.
pub proof fn lemma_kept_text_lacks_banned(text: Seq<char>, banned: char)
    requires
        banned != ' ',
    ensures
        !without_words_containing(text, banned).contains(banned),
{
    let kept = tokens(text).filter(lacks(banned));
    assert forall|k: int| 0 <= k < kept.len() implies !(#[trigger] kept[k]).contains(banned) by {
        tokens(text).lemma_filter_pred(lacks(banned), k);
    }
    lemma_joined_lacks(kept, banned);
}

/// Appends `word` to the words joined in `kept`, and empties `word`.
fn append_word(kept: &mut Vec<char>, word: &mut Vec<char>, Ghost(words): Ghost<Seq<Seq<char>>>)
    requires
        old(kept)@ == joined(words),
        old(kept)@.len() == 0 <==> words.len() == 0,
        old(word)@.len() > 0,
    ensures
        final(kept)@ == joined(words.push(old(word)@)),
        final(kept)@.len() > 0,
        final(word)@.len() == 0,
{
    assert(words.push(word@).drop_last() =~= words);
    if kept.len() > 0 {
        kept.push(' ');
    }
    kept.append(word);
    assert(kept@ =~= joined(words.push(old(word)@)));
}

/// Copies the words of `text` in which `banned` does not occur, with a
/// single space between neighbours.
pub fn drop_words_containing(text: &Vec<char>, banned: char) -> (kept: Vec<char>)
    ensures
        kept@ == without_words_containing(text@, banned),
{
    let mut kept: Vec<char> = Vec::new();
    let mut word: Vec<char> = Vec::new();
    let mut tainted = false;
    let ghost mut done: Seq<Seq<char>> = Seq::empty();
    let mut i: usize = 0;
    while i < text.len()
        invariant
            i <= text.len(),
            tokens(text@.take(i as int)) == if word@.len() == 0 {
                done
            } else {
                done.push(word@)
            },
            word@.len() > 0 <==> i > 0 && !is_space(text@[i - 1]),
            tainted == word@.contains(banned),
            kept@ == joined(done.filter(lacks(banned))),
            kept@.len() == 0 <==> done.filter(lacks(banned)).len() == 0,
        decreases text.len() - i,
    {
        let c = text[i];
        proof {
            lemma_tokens_step(text@, i as int);
        }
        if is_whitespace(c) {
            if word.len() > 0 {
                proof {
                    done.lemma_filter_push(word@, lacks(banned));
                }
                let ghost closed = word@;
                if tainted {
                    word.clear();
                } else {
                    append_word(&mut kept, &mut word, Ghost(done.filter(lacks(banned))));
                }
                proof {
                    done = done.push(closed);
                }
                tainted = false;
            }
        } else {
            proof {
                if word@.len() > 0 {
                    assert(done.push(word@).drop_last() =~= done);
                } else {
                    assert(word@.push(c) =~= seq![c]);
                }
                assert(word@.push(c).contains(banned) <==> word@.contains(banned) || c == banned)
                    by {
                    if word@.contains(banned) {
                        let k = choose|k: int| 0 <= k < word@.len() && word@[k] == banned;
                        assert(word@.push(c)[k] == banned);
                    }
                    if c == banned {
                        assert(word@.push(c)[word@.len() as int] == banned);
                    }
                }
            }
            word.push(c);
            if c == banned {
                tainted = true;
            }
        }
        i += 1;
    }
    assert(text@.take(i as int) =~= text@);
    if word.len() > 0 {
        proof {
            done.lemma_filter_push(word@, lacks(banned));
        }
        if !tainted {
            append_word(&mut kept, &mut word, Ghost(done.filter(lacks(banned))));
        }
    }
    kept
}

/// The text after the edit that `event` asks for: a character is added at
/// the end, a backspace removes the last character if there is one, and
/// giving up or handing in edits nothing.
pub open spec fn edited(text: Seq<char>, event: InputEvent) -> Seq<char> {
    match event {
        InputEvent::Insert(c) => text.push(c),
        InputEvent::Backspace => if text.len() > 0 {
            text.drop_last()
        } else {
            text
        },
        InputEvent::Cancel => text,
        InputEvent::Submit => text,
    }
}

/// A text typed freely, with no target to follow and no limit to its length.
pub struct FreeText {
    typed: Vec<char>,
}

impl View for FreeText {
    type V = Seq<char>;

    closed spec fn view(&self) -> Seq<char> {
        self.typed@
    }
}

impl FreeText {
    /// An empty text.
    pub fn new() -> (text: FreeText)
        ensures
            text@ == Seq::<char>::empty(),
    {
        FreeText { typed: Vec::new() }
    }

    /// The characters typed so far.
    pub fn chars(&self) -> (chars: &Vec<char>)
        ensures
            chars@ == self@,
    {
        &self.typed
    }

    /// Carries out `event` and tells whether typing goes on: it does after
    /// an edit, and ends when the text is given up or handed in.
    pub fn handle(&mut self, event: InputEvent) -> (goes_on: bool)
        ensures
            final(self)@ == edited(old(self)@, event),
            goes_on == (event is Insert || event is Backspace),
    {
        match event {
            InputEvent::Insert(c) => {
                self.typed.push(c);
                true
            },
            InputEvent::Backspace => {
                self.typed.pop();
                true
            },
            InputEvent::Cancel => false,
            InputEvent::Submit => false,
        }
    }

    /// Copies the words in which `banned` does not occur, with a single
    /// space between neighbours.
    pub fn without_words_containing(&self, banned: char) -> (kept: Vec<char>)
        ensures
            kept@ == without_words_containing(self@, banned),
    {
        drop_words_containing(&self.typed, banned)
    }
}

} // verus!
