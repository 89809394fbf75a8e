//! `sentences(str)`: splits a text into sentences and each sentence into
//! words, as Spark does with Java's `BreakIterator`, approximated here.
//!
//! A sentence ends after a `.`, `!` or `?` that is followed by whitespace or
//! by the end of the text, or at the end of the text; the whitespace that
//! follows a sentence end is skipped. A word is a maximal run
//! of alphanumeric characters. Sentences without words are left out.

use vstd::prelude::*;
use crate::text::{lemma_whitespace_is_not_alphanumeric, char_is_alphanumeric, char_is_whitespace, is_alphanumeric, is_whitespace, chars_of, string_of};

verus! {

/// The pieces of `s` between non-alphanumeric characters, empty pieces
/// included (as `str::split` would give them): always at least one piece.
pub open spec fn split_pieces(s: Seq<char>) -> Seq<Seq<char>>
    decreases s.len(),
{
    if s.len() == 0 {
        seq![Seq::<char>::empty()]
    } else {
        let p = split_pieces(s.drop_last());
        if char_is_alphanumeric(s.last()) {
            p.update(p.len() - 1, p.last().push(s.last()))
        } else {
            p.push(Seq::<char>::empty())
        }
    }
}

/// The words of `s`: the non-empty pieces between non-alphanumeric characters.
pub open spec fn words_of(s: Seq<char>) -> Seq<Seq<char>> {
    split_pieces(s).filter(|w: Seq<char>| w.len() > 0)
}

pub proof fn lemma_split_pieces_nonempty(s: Seq<char>)
    ensures
        split_pieces(s).len() >= 1,
    decreases s.len(),
{
    if s.len() > 0 {
        lemma_split_pieces_nonempty(s.drop_last());
    }
}

/// Every piece between separators is made of alphanumeric characters only.
pub proof fn lemma_split_pieces_alphanumeric(s: Seq<char>)
    ensures
        forall|i: int, j: int|
            0 <= i < split_pieces(s).len() && 0 <= j < split_pieces(s)[i].len()
                ==> char_is_alphanumeric(#[trigger] split_pieces(s)[i][j]),
    decreases s.len(),
{
    if s.len() > 0 {
        lemma_split_pieces_alphanumeric(s.drop_last());
        lemma_split_pieces_nonempty(s.drop_last());
        let p = split_pieces(s.drop_last());
        if char_is_alphanumeric(s.last()) {
            let q = p.update(p.len() - 1, p.last().push(s.last()));
            assert forall|i: int, j: int| 0 <= i < q.len() && 0 <= j < q[i].len()
                implies char_is_alphanumeric(#[trigger] q[i][j]) by {
                if i == p.len() - 1 && j < p.last().len() {
                    assert(q[i][j] == p[i][j]);
                } else if i != p.len() - 1 {
                    assert(q[i] == p[i]);
                }
            }
        } else {
            let q = p.push(Seq::<char>::empty());
            assert forall|i: int, j: int| 0 <= i < q.len() && 0 <= j < q[i].len()
                implies char_is_alphanumeric(#[trigger] q[i][j]) by {
                assert(q[i] == p[i]);
            }
        }
    }
}

/// Every word is a non-empty run of alphanumeric characters.
pub proof fn lemma_words_are_alphanumeric(s: Seq<char>)
    ensures
        forall|i: int| 0 <= i < words_of(s).len() ==> (#[trigger] words_of(s)[i]).len() > 0,
        forall|i: int, j: int|
            0 <= i < words_of(s).len() && 0 <= j < words_of(s)[i].len()
                ==> char_is_alphanumeric(#[trigger] words_of(s)[i][j]),
{
    let pred = |w: Seq<char>| w.len() > 0;
    let p = split_pieces(s);
    lemma_split_pieces_alphanumeric(s);
    assert forall|i: int| 0 <= i < words_of(s).len() implies (#[trigger] words_of(s)[i]).len() > 0 by {
        p.lemma_filter_pred(pred, i);
    }
    assert forall|i: int, j: int| 0 <= i < words_of(s).len() && 0 <= j < words_of(s)[i].len()
        implies char_is_alphanumeric(#[trigger] words_of(s)[i][j]) by {
        assert(p.filter(pred).contains(words_of(s)[i]));
        p.lemma_filter_contains_rev(pred, words_of(s)[i]);
        let k = choose|k: int| 0 <= k < p.len() && p[k] == words_of(s)[i];
        assert(p[k][j] == words_of(s)[i][j]);
    }
}

/// Splitting at a non-alphanumeric character `c` splits the pieces there.
proof fn lemma_split_pieces_at_separator(a: Seq<char>, c: char, b: Seq<char>)
    requires
        !char_is_alphanumeric(c),
    ensures
        split_pieces(a + seq![c] + b) == split_pieces(a) + split_pieces(b),
    decreases b.len(),
{
    let x = a + seq![c];
    assert(x.drop_last() == a);
    assert(x.last() == c);
    if b.len() == 0 {
        assert(x + b == x);
        assert(split_pieces(b) == seq![Seq::<char>::empty()]);
        assert(split_pieces(a).push(Seq::<char>::empty()) == split_pieces(a) + seq![Seq::<char>::empty()]);
    } else {
        let b1 = b.drop_last();
        let d = b.last();
        lemma_split_pieces_at_separator(a, c, b1);
        lemma_split_pieces_nonempty(b1);
        let s = a + seq![c] + b;
        assert(s.drop_last() == a + seq![c] + b1);
        assert(s.last() == d);
        let pa = split_pieces(a);
        let pb = split_pieces(b1);
        if char_is_alphanumeric(d) {
            assert((pa + pb).update((pa + pb).len() - 1, (pa + pb).last().push(d)) =~= pa + pb.update(
                pb.len() - 1,
                pb.last().push(d),
            ));
        } else {
            assert((pa + pb).push(Seq::<char>::empty()) =~= pa + pb.push(Seq::<char>::empty()));
        }
    }
}

/// The words of a text with a non-alphanumeric character `c` in it are the
/// words before `c` followed by the words after it.
pub proof fn lemma_words_at_separator(a: Seq<char>, c: char, b: Seq<char>)
    requires
        !char_is_alphanumeric(c),
    ensures
        words_of(a + seq![c] + b) == words_of(a) + words_of(b),
{
    lemma_split_pieces_at_separator(a, c, b);
    Seq::filter_distributes_over_add(split_pieces(a), split_pieces(b), |w: Seq<char>| w.len() > 0);
}

/// A non-empty run of alphanumeric characters is a single word.
pub proof fn lemma_words_of_word(w: Seq<char>)
    requires
        w.len() > 0,
        forall|k: int| 0 <= k < w.len() ==> char_is_alphanumeric(#[trigger] w[k]),
    ensures
        words_of(w) == seq![w],
{
    lemma_split_pieces_of_run(w);
    reveal(Seq::filter);
    let p = seq![w];
    assert(p.drop_last() =~= Seq::<Seq<char>>::empty());
    assert(p.drop_last().filter(|x: Seq<char>| x.len() > 0) == p.drop_last());
    assert(Seq::<Seq<char>>::empty().push(w) == p);
}

proof fn lemma_split_pieces_of_run(w: Seq<char>)
    requires
        forall|k: int| 0 <= k < w.len() ==> char_is_alphanumeric(#[trigger] w[k]),
    ensures
        split_pieces(w) == seq![w],
    decreases w.len(),
{
    if w.len() > 0 {
        let w1 = w.drop_last();
        assert forall|k: int| 0 <= k < w1.len() implies char_is_alphanumeric(#[trigger] w1[k]) by {
            assert(w1[k] == w[k]);
        }
        lemma_split_pieces_of_run(w1);
        assert(char_is_alphanumeric(w[w.len() - 1]));
        assert(w1.push(w.last()) =~= w);
        assert(seq![w1].update(0, w1.push(w.last())) =~= seq![w]);
    } else {
        assert(w == Seq::<char>::empty());
    }
}

/// The words separated by single spaces.
pub open spec fn join_with_spaces(words: Seq<Seq<char>>) -> Seq<char>
    decreases words.len(),
{
    if words.len() == 0 {
        Seq::empty()
    } else if words.len() == 1 {
        words[0]
    } else {
        join_with_spaces(words.drop_last()) + seq![' '] + words.last()
    }
}

/// Joining non-empty alphanumeric words with spaces and extracting the
/// words gives them back.
pub proof fn lemma_words_of_joined(words: Seq<Seq<char>>)
    requires
        forall|i: int| 0 <= i < words.len() ==> (#[trigger] words[i]).len() > 0,
        forall|i: int, k: int|
            0 <= i < words.len() && 0 <= k < words[i].len() ==> char_is_alphanumeric(
                #[trigger] words[i][k],
            ),
    ensures
        words_of(join_with_spaces(words)) == words,
    decreases words.len(),
{
    if words.len() == 0 {
        assert(words_of(Seq::<char>::empty()) == Seq::<Seq<char>>::empty()) by {
            reveal(Seq::filter);
            let p = split_pieces(Seq::<char>::empty());
            assert(p.drop_last() =~= Seq::<Seq<char>>::empty());
            assert(p.drop_last().filter(|w: Seq<char>| w.len() > 0) == p.drop_last());
        }
        assert(words == Seq::<Seq<char>>::empty());
    } else {
        let last = words.last();
        assert forall|k: int| 0 <= k < last.len() implies char_is_alphanumeric(#[trigger] last[k]) by {
            assert(words[words.len() - 1][k] == last[k]);
        }
        lemma_words_of_word(last);
        if words.len() == 1 {
            assert(words == seq![last]);
        } else {
            let init = words.drop_last();
            assert forall|i: int| 0 <= i < init.len() implies (#[trigger] init[i]).len() > 0 by {
                assert(init[i] == words[i]);
            }
            assert forall|i: int, k: int| 0 <= i < init.len() && 0 <= k < init[i].len()
                implies char_is_alphanumeric(#[trigger] init[i][k]) by {
                assert(init[i] == words[i]);
            }
            lemma_words_of_joined(init);
            assert(!char_is_alphanumeric(' '));
            lemma_words_at_separator(join_with_spaces(init), ' ', last);
            assert(init + seq![last] == words);
        }
    }
}

/// Extracts the words of a sentence: the maximal runs of alphanumeric
/// characters, in order.
pub fn extract_words(text: &str) -> (r: Vec<String>)
    ensures
        r.deep_view() == words_of(text@),
{
    let chars = chars_of(text);
    let mut words: Vec<String> = Vec::new();
    let mut current_word = String::new();
    let mut i: usize = 0;
    while i < chars.len()
        invariant
            i <= chars.len(),
            chars@ == text@,
            split_pieces(chars@.take(i as int)).len() >= 1,
            words.deep_view() == split_pieces(chars@.take(i as int)).drop_last().filter(
                |w: Seq<char>| w.len() > 0,
            ),
            current_word@ == split_pieces(chars@.take(i as int)).last(),
        decreases chars.len() - i,
    {
        let ch = chars[i];
        let ghost prev = chars@.take(i as int);
        let ghost next = chars@.take(i + 1);
        assert(next.drop_last() == prev);
        assert(next.last() == ch);
        let ghost p = split_pieces(prev);
        if is_alphanumeric(ch) {
            crate::text::push_char(&mut current_word, ch);
            assert(split_pieces(next).drop_last() == p.drop_last());
        } else if !current_word.as_str().is_empty() {
            proof {
                reveal(Seq::filter);
                assert(p.drop_last().push(p.last()) == p);
                assert(split_pieces(next).drop_last() == p);
            }
            let mut w = String::new();
            std::mem::swap(&mut w, &mut current_word);
            words.push(w);
            proof {
                assert(words.deep_view() == p.filter(|w: Seq<char>| w.len() > 0));
            }
        } else {
            proof {
                reveal(Seq::filter);
                assert(p.drop_last().push(p.last()) == p);
                assert(split_pieces(next).drop_last() == p);
            }
        }
        i += 1;
    }
    proof {
        reveal(Seq::filter);
        let p = split_pieces(chars@.take(i as int));
        assert(chars@.take(i as int) == text@);
        assert(p.drop_last().push(p.last()) == p);
    }
    if !current_word.as_str().is_empty() {
        words.push(current_word);
    }
    words
}


/// Whether `c` ends a sentence.
pub open spec fn is_sentence_terminator(c: char) -> bool {
    c == '.' || c == '!' || c == '?'
}

/// Whether the character at `i` ends a sentence: a terminator followed by
/// whitespace or by the end of the text.
pub open spec fn ends_sentence_at(s: Seq<char>, i: int) -> bool {
    &&& is_sentence_terminator(s[i])
    &&& (i + 1 == s.len() || char_is_whitespace(s[i + 1]))
}

/// The position just after the sentence that starts at `i`: one past the
/// first sentence-ending terminator at or after `i`, or the length of `s`
/// when there is none.
pub open spec fn sentence_end(s: Seq<char>, i: int) -> int
    decreases s.len() - i,
{
    if i >= s.len() {
        s.len() as int
    } else if ends_sentence_at(s, i) {
        i + 1
    } else {
        sentence_end(s, i + 1)
    }
}

/// The first position at or after `i` that does not hold whitespace.
pub open spec fn skip_whitespace(s: Seq<char>, i: int) -> int
    decreases s.len() - i,
{
    if 0 <= i < s.len() && char_is_whitespace(s[i]) {
        skip_whitespace(s, i + 1)
    } else {
        i
    }
}

pub proof fn lemma_sentence_end_bounds(s: Seq<char>, i: int)
    requires
        0 <= i < s.len(),
    ensures
        i < sentence_end(s, i) <= s.len(),
    decreases s.len() - i,
{
    if !ends_sentence_at(s, i) {
        if i + 1 < s.len() {
            lemma_sentence_end_bounds(s, i + 1);
        } else {
            assert(sentence_end(s, i + 1) == s.len());
        }
    }
}

pub proof fn lemma_skip_whitespace_bounds(s: Seq<char>, i: int)
    requires
        0 <= i <= s.len(),
    ensures
        i <= skip_whitespace(s, i) <= s.len(),
    decreases s.len() - i,
{
    if i < s.len() && char_is_whitespace(s[i]) {
        lemma_skip_whitespace_bounds(s, i + 1);
    }
}

/// The sentences of `s` from position `pos` on, each given as its words;
/// sentences without any word are left out.
pub open spec fn sentences_from(s: Seq<char>, pos: int) -> Seq<Seq<Seq<char>>>
    decreases s.len() - pos,
{
    if pos < 0 || pos >= s.len() {
        Seq::empty()
    } else {
        let end = sentence_end(s, pos);
        let next = skip_whitespace(s, end);
        let words = words_of(s.subrange(pos, end));
        proof {
            lemma_sentence_end_bounds(s, pos);
            lemma_skip_whitespace_bounds(s, end);
        }
        let rest = sentences_from(s, next);
        if words.len() > 0 {
            seq![words] + rest
        } else {
            rest
        }
    }
}

/// The sentences of a whole text, each given as its words.
pub open spec fn sentences_of(s: Seq<char>) -> Seq<Seq<Seq<char>>> {
    sentences_from(s, 0)
}

/// Every sentence found from position `pos` on has at least one word, and
/// every word is a non-empty run of alphanumeric characters.
pub proof fn lemma_sentences_from_well_formed(s: Seq<char>, pos: int)
    ensures
        forall|i: int|
            0 <= i < sentences_from(s, pos).len() ==> (#[trigger] sentences_from(s, pos)[i]).len()
                > 0,
        forall|i: int, j: int|
            0 <= i < sentences_from(s, pos).len() && 0 <= j < sentences_from(s, pos)[i].len()
                ==> (#[trigger] sentences_from(s, pos)[i][j]).len() > 0,
        forall|i: int, j: int, k: int|
            0 <= i < sentences_from(s, pos).len() && 0 <= j < sentences_from(s, pos)[i].len() && 0
                <= k < sentences_from(s, pos)[i][j].len() ==> char_is_alphanumeric(
                #[trigger] sentences_from(s, pos)[i][j][k],
            ),
    decreases s.len() - pos,
{
    if 0 <= pos < s.len() {
        let end = sentence_end(s, pos);
        let next = skip_whitespace(s, end);
        lemma_sentence_end_bounds(s, pos);
        lemma_skip_whitespace_bounds(s, end);
        lemma_sentences_from_well_formed(s, next);
        let w = words_of(s.subrange(pos, end));
        lemma_words_are_alphanumeric(s.subrange(pos, end));
        let rest = sentences_from(s, next);
        if w.len() > 0 {
            let all = seq![w] + rest;
            assert(sentences_from(s, pos) == all);
            assert forall|i: int| 0 < i < all.len() implies all[i] == rest[i - 1] by {}
        }
    }
}

/// Every sentence of a text has at least one word, and every word is a
/// non-empty run of alphanumeric characters.
pub proof fn lemma_sentences_well_formed(s: Seq<char>)
    ensures
        forall|i: int| 0 <= i < sentences_of(s).len() ==> (#[trigger] sentences_of(s)[i]).len() > 0,
        forall|i: int, j: int|
            0 <= i < sentences_of(s).len() && 0 <= j < sentences_of(s)[i].len()
                ==> (#[trigger] sentences_of(s)[i][j]).len() > 0,
        forall|i: int, j: int, k: int|
            0 <= i < sentences_of(s).len() && 0 <= j < sentences_of(s)[i].len() && 0 <= k
                < sentences_of(s)[i][j].len() ==> char_is_alphanumeric(
                #[trigger] sentences_of(s)[i][j][k],
            ),
{
    lemma_sentences_from_well_formed(s, 0);
}

/// From a position with no sentence-ending terminator after it, the sentence
/// runs to the end.
pub proof fn lemma_sentence_end_without_terminator(s: Seq<char>, i: int)
    requires
        0 <= i,
        forall|k: int| i <= k < s.len() ==> !#[trigger] ends_sentence_at(s, k),
    ensures
        sentence_end(s, i) == s.len(),
    decreases s.len() - i,
{
    if i < s.len() {
        lemma_sentence_end_without_terminator(s, i + 1);
    }
}

/// A text in which no `.`, `!` or `?` is followed by whitespace or ends the
/// text is one sentence: its words, if it has any.
pub proof fn lemma_text_without_terminator(s: Seq<char>)
    requires
        forall|k: int| 0 <= k < s.len() ==> !#[trigger] ends_sentence_at(s, k),
    ensures
        sentences_of(s) == (if words_of(s).len() > 0 {
            seq![words_of(s)]
        } else {
            Seq::empty()
        }),
{
    if s.len() > 0 {
        lemma_sentence_end_without_terminator(s, 0);
        assert(skip_whitespace(s, s.len() as int) == s.len());
        assert(sentences_from(s, s.len() as int) == Seq::<Seq<Seq<char>>>::empty());
        assert(s.subrange(0, s.len() as int) == s);
        assert(seq![words_of(s)] + Seq::<Seq<Seq<char>>>::empty() == seq![words_of(s)]);
    } else {
        assert(words_of(s) == Seq::<Seq<char>>::empty()) by {
            reveal(Seq::filter);
            let p = split_pieces(s);
            assert(p == seq![Seq::<char>::empty()]);
            assert(p.drop_last() =~= Seq::<Seq<char>>::empty());
            assert(p.drop_last().filter(|w: Seq<char>| w.len() > 0) == p.drop_last());
            assert(p.filter(|w: Seq<char>| w.len() > 0) == p.drop_last().filter(|w: Seq<char>| w.len() > 0));
        }
    }
}

/// The characters that can end a sentence are exactly `.`, `!` and `?`.
pub proof fn lemma_sentence_terminators(c: char)
    ensures
        is_sentence_terminator(c) <==> (c == '.' || c == '!' || c == '?'),
{
}

/// A text in which no `.`, `!` or `?` is followed by whitespace or ends the
/// text is a single sentence made of all its words (no sentence when it has
/// no word): a comma, a colon or any other character never ends a sentence.
pub proof fn lemma_single_sentence(s: Seq<char>)
    requires
        forall|k: int|
            0 <= k < s.len() ==> !((#[trigger] s[k] == '.' || s[k] == '!' || s[k] == '?') && (k + 1
                == s.len() || char_is_whitespace(s[k + 1]))),
    ensures
        sentences_of(s) == (if words_of(s).len() > 0 {
            seq![words_of(s)]
        } else {
            Seq::<Seq<Seq<char>>>::empty()
        }),
{
    assert forall|k: int| 0 <= k < s.len() implies !#[trigger] ends_sentence_at(s, k) by {
        assert(!((s[k] == '.' || s[k] == '!' || s[k] == '?') && (k + 1 == s.len() || char_is_whitespace(
            s[k + 1],
        ))));
    }
    lemma_text_without_terminator(s);
}

/// A text without characters has no words.
pub proof fn lemma_words_of_empty()
    ensures
        words_of(Seq::<char>::empty()) == Seq::<Seq<char>>::empty(),
{
    reveal(Seq::filter);
    let p = split_pieces(Seq::<char>::empty());
    assert(p.drop_last() =~= Seq::<Seq<char>>::empty());
    assert(p.drop_last().filter(|w: Seq<char>| w.len() > 0) == p.drop_last());
}

/// Non-alphanumeric characters at the start of a text do not change its words.
proof fn lemma_words_skip_separators(s: Seq<char>, i: int, j: int)
    requires
        0 <= i <= j <= s.len(),
        forall|k: int| i <= k < j ==> !char_is_alphanumeric(#[trigger] s[k]),
    ensures
        words_of(s.subrange(i, s.len() as int)) == words_of(s.subrange(j, s.len() as int)),
    decreases j - i,
{
    if i < j {
        lemma_words_skip_separators(s, i + 1, j);
        lemma_words_at_separator(Seq::empty(), s[i], s.subrange(i + 1, s.len() as int));
        lemma_words_of_empty();
        assert(Seq::<char>::empty() + seq![s[i]] + s.subrange(i + 1, s.len() as int) =~= s.subrange(
            i,
            s.len() as int,
        ));
        assert(Seq::<Seq<char>>::empty() + words_of(s.subrange(i + 1, s.len() as int)) =~= words_of(
            s.subrange(i + 1, s.len() as int),
        ));
    }
}

/// The characters skipped as whitespace are whitespace.
proof fn lemma_skipped_are_whitespace(s: Seq<char>, i: int)
    requires
        0 <= i <= s.len(),
    ensures
        forall|k: int| i <= k < skip_whitespace(s, i) ==> char_is_whitespace(#[trigger] s[k]),
    decreases s.len() - i,
{
    if i < s.len() && char_is_whitespace(s[i]) {
        lemma_skipped_are_whitespace(s, i + 1);
    }
}

/// A sentence ends at the end of the text or just after a terminator that
/// ends it.
proof fn lemma_sentence_end_kind(s: Seq<char>, i: int)
    requires
        0 <= i < s.len(),
    ensures
        sentence_end(s, i) == s.len() || ends_sentence_at(s, sentence_end(s, i) - 1),
    decreases s.len() - i,
{
    if !ends_sentence_at(s, i) && i + 1 < s.len() {
        lemma_sentence_end_kind(s, i + 1);
    } else if !ends_sentence_at(s, i) {
        assert(sentence_end(s, i + 1) == s.len());
    }
}

/// The words of the text from `pos` on are those of its sentences, in order.
proof fn lemma_sentences_flatten_from(s: Seq<char>, pos: int)
    requires
        0 <= pos <= s.len(),
        forall|k: int| 0 <= k < s.len() && char_is_whitespace(#[trigger] s[k]) ==> !char_is_alphanumeric(s[k]),
    ensures
        sentences_from(s, pos).flatten() == words_of(s.subrange(pos, s.len() as int)),
    decreases s.len() - pos,
{
    if pos == s.len() {
        lemma_words_of_empty();
        assert(s.subrange(pos, s.len() as int) =~= Seq::<char>::empty());
    } else {
        let end = sentence_end(s, pos);
        let next = skip_whitespace(s, end);
        lemma_sentence_end_bounds(s, pos);
        lemma_skip_whitespace_bounds(s, end);
        lemma_sentences_from_flatten_step(s, pos);
        lemma_sentences_flatten_from(s, next);
        lemma_skipped_are_whitespace(s, end);
        lemma_words_skip_separators(s, end, next);
        let w = words_of(s.subrange(pos, end));
        let rest = sentences_from(s, next);
        if w.len() > 0 {
            let all = seq![w] + rest;
            assert(all.first() == w);
            assert(all.drop_first() =~= rest);
        } else {
            assert(w =~= Seq::<Seq<char>>::empty());
            assert(w + rest.flatten() =~= rest.flatten());
        }
    }
}

/// The words from `pos` on are those of the sentence starting at `pos`
/// followed by those after it.
proof fn lemma_sentences_from_flatten_step(s: Seq<char>, pos: int)
    requires
        0 <= pos < s.len(),
    ensures
        words_of(s.subrange(pos, s.len() as int)) == words_of(s.subrange(pos, sentence_end(s, pos)))
            + words_of(s.subrange(sentence_end(s, pos), s.len() as int)),
{
    let end = sentence_end(s, pos);
    lemma_sentence_end_bounds(s, pos);
    lemma_sentence_end_kind(s, pos);
    if end == s.len() {
        lemma_words_of_empty();
        assert(s.subrange(end, s.len() as int) =~= Seq::<char>::empty());
        assert(words_of(s.subrange(pos, end)) + Seq::<Seq<char>>::empty() =~= words_of(s.subrange(pos, end)));
    } else {
        let t = s[end - 1];
        assert(is_sentence_terminator(t));
        assert(!char_is_alphanumeric(t));
        let a = s.subrange(pos, end - 1);
        lemma_words_at_separator(a, t, s.subrange(end, s.len() as int));
        assert(a + seq![t] + s.subrange(end, s.len() as int) =~= s.subrange(pos, s.len() as int));
        lemma_words_at_separator(a, t, Seq::empty());
        lemma_words_of_empty();
        assert(a + seq![t] + Seq::<char>::empty() =~= s.subrange(pos, end));
        assert(words_of(a) + Seq::<Seq<char>>::empty() =~= words_of(a));
    }
}

/// Flattening the sentences of a text gives the words of the whole text, in
/// order: no word is lost, split or merged.
pub proof fn lemma_sentences_flatten(s: Seq<char>)
    ensures
        sentences_of(s).flatten() == words_of(s),
{
    assert forall|k: int| 0 <= k < s.len() && char_is_whitespace(#[trigger] s[k]) implies !char_is_alphanumeric(s[k]) by {
        lemma_whitespace_is_not_alphanumeric(s[k]);
    }
    lemma_sentences_flatten_from(s, 0);
    assert(s.subrange(0, s.len() as int) =~= s);
}

/// Positions where no sentence ends do not move the end of a sentence.
proof fn lemma_sentence_end_skip(s: Seq<char>, i: int, j: int)
    requires
        0 <= i <= j <= s.len(),
        forall|k: int| i <= k < j ==> !#[trigger] ends_sentence_at(s, k),
    ensures
        sentence_end(s, i) == sentence_end(s, j),
    decreases j - i,
{
    if i < j {
        lemma_sentence_end_skip(s, i + 1, j);
    }
}

/// Sentence ends, whitespace skipping and sentences shift with a prefix.
proof fn lemma_sentences_from_shift(p: Seq<char>, t: Seq<char>, q: int)
    requires
        0 <= q <= t.len(),
    ensures
        sentences_from(p + t, p.len() + q) == sentences_from(t, q),
    decreases t.len() - q,
{
    let s = p + t;
    let n = p.len() as int;
    if q < t.len() {
        lemma_sentence_end_shift(p, t, q);
        let e = sentence_end(t, q);
        lemma_sentence_end_bounds(t, q);
        lemma_skip_whitespace_shift(p, t, e);
        lemma_skip_whitespace_bounds(t, e);
        lemma_sentences_from_shift(p, t, skip_whitespace(t, e));
        assert(s.subrange(n + q, n + e) =~= t.subrange(q, e));
    }
}

proof fn lemma_sentence_end_shift(p: Seq<char>, t: Seq<char>, q: int)
    requires
        0 <= q <= t.len(),
    ensures
        sentence_end(p + t, p.len() + q) == p.len() + sentence_end(t, q),
    decreases t.len() - q,
{
    let s = p + t;
    let n = p.len() as int;
    if q < t.len() {
        assert(s[n + q] == t[q]);
        if q + 1 < t.len() {
            assert(s[n + q + 1] == t[q + 1]);
        }
        assert(ends_sentence_at(s, n + q) == ends_sentence_at(t, q));
        lemma_sentence_end_shift(p, t, q + 1);
    }
}

proof fn lemma_skip_whitespace_shift(p: Seq<char>, t: Seq<char>, q: int)
    requires
        0 <= q <= t.len(),
    ensures
        skip_whitespace(p + t, p.len() + q) == p.len() + skip_whitespace(t, q),
    decreases t.len() - q,
{
    let s = p + t;
    let n = p.len() as int;
    if q < t.len() {
        assert(s[n + q] == t[q]);
        lemma_skip_whitespace_shift(p, t, q + 1);
    }
}

/// Leading whitespace does not change the sentences of a text, where that
/// whitespace is not alphanumeric.
proof fn lemma_sentences_leading_whitespace(t: Seq<char>)
    requires
        forall|k: int| 0 <= k < t.len() && char_is_whitespace(#[trigger] t[k]) ==> !char_is_alphanumeric(t[k]),
    ensures
        sentences_from(t, skip_whitespace(t, 0)) == sentences_from(t, 0),
{
    let j = skip_whitespace(t, 0);
    lemma_skip_whitespace_bounds(t, 0);
    lemma_skipped_are_whitespace(t, 0);
    if 0 < j {
        assert forall|k: int| 0 <= k < j implies !#[trigger] ends_sentence_at(t, k) by {
            assert(char_is_whitespace(t[k]));
        }
        lemma_sentence_end_skip(t, 0, j);
        let e = sentence_end(t, 0);
        if j < t.len() {
            lemma_sentence_end_bounds(t, j);
        } else {
            assert(sentence_end(t, j) == t.len());
        }
        let u = t.subrange(0, e);
        assert forall|k: int| 0 <= k < j implies !char_is_alphanumeric(#[trigger] u[k]) by {
            assert(u[k] == t[k]);
            assert(char_is_whitespace(t[k]));
        }
        lemma_words_skip_separators(u, 0, j);
        assert(u.subrange(0, u.len() as int) =~= t.subrange(0, e));
        assert(u.subrange(j, u.len() as int) =~= t.subrange(j, e));
        if j == t.len() {
            lemma_words_of_empty();
            assert(t.subrange(j, e) =~= Seq::<char>::empty());
            assert(skip_whitespace(t, e) == e);
        }
    }
}

/// Before the end of the first text, sentences of the joined text are those
/// of the first text, followed by what comes after the joining space.
proof fn lemma_sentences_join_prefix(s1: Seq<char>, s2: Seq<char>, pos: int)
    requires
        s1.len() > 0,
        is_sentence_terminator(s1.last()),
        0 <= pos < s1.len(),
    ensures
        sentences_from(s1 + seq![' '] + s2, pos) == sentences_from(s1, pos) + sentences_from(
            s1 + seq![' '] + s2,
            skip_whitespace(s1 + seq![' '] + s2, s1.len() as int),
        ),
    decreases s1.len() - pos,
{
    let s = s1 + seq![' '] + s2;
    let n1 = s1.len() as int;
    let tail = sentences_from(s, skip_whitespace(s, n1));
    lemma_sentence_end_prefix(s1, s2, pos);
    let e = sentence_end(s1, pos);
    lemma_sentence_end_bounds(s1, pos);
    assert(s.subrange(pos, e) =~= s1.subrange(pos, e));
    let w = words_of(s1.subrange(pos, e));
    if e < n1 {
        lemma_skip_whitespace_prefix(s1, s2, e);
        lemma_skip_whitespace_bounds(s1, e);
        let next = skip_whitespace(s1, e);
        lemma_sentences_join_prefix(s1, s2, next);
        if w.len() > 0 {
            assert(seq![w] + (sentences_from(s1, next) + tail) =~= (seq![w] + sentences_from(s1, next)) + tail);
        }
    } else {
        assert(skip_whitespace(s1, n1) == n1);
        assert(sentences_from(s1, n1) == Seq::<Seq<Seq<char>>>::empty());
        if w.len() > 0 {
            assert(seq![w] + Seq::<Seq<Seq<char>>>::empty() =~= seq![w]);
        } else {
            assert(Seq::<Seq<Seq<char>>>::empty() + tail =~= tail);
        }
    }
}

proof fn lemma_sentence_end_prefix(s1: Seq<char>, s2: Seq<char>, pos: int)
    requires
        s1.len() > 0,
        is_sentence_terminator(s1.last()),
        0 <= pos < s1.len(),
    ensures
        sentence_end(s1 + seq![' '] + s2, pos) == sentence_end(s1, pos),
    decreases s1.len() - pos,
{
    let s = s1 + seq![' '] + s2;
    assert(s[pos] == s1[pos]);
    if pos + 1 < s1.len() {
        assert(s[pos + 1] == s1[pos + 1]);
        assert(ends_sentence_at(s, pos) == ends_sentence_at(s1, pos));
        lemma_sentence_end_prefix(s1, s2, pos + 1);
    } else {
        assert(s[pos + 1] == ' ');
        assert(char_is_whitespace(' '));
        assert(ends_sentence_at(s, pos));
        assert(ends_sentence_at(s1, pos));
    }
}

proof fn lemma_skip_whitespace_prefix(s1: Seq<char>, s2: Seq<char>, i: int)
    requires
        s1.len() > 0,
        is_sentence_terminator(s1.last()),
        0 <= i < s1.len(),
    ensures
        skip_whitespace(s1 + seq![' '] + s2, i) == skip_whitespace(s1, i),
        skip_whitespace(s1, i) < s1.len(),
    decreases s1.len() - i,
{
    let s = s1 + seq![' '] + s2;
    assert(s[i] == s1[i]);
    if i + 1 < s1.len() {
        lemma_skip_whitespace_prefix(s1, s2, i + 1);
    } else {
        assert(!char_is_whitespace(s1[i]));
    }
}

/// Joining two texts with a space, where the first ends with `.`, `!` or
/// `?`, joins their sentences.
pub proof fn lemma_sentences_of_joined(s1: Seq<char>, s2: Seq<char>)
    requires
        s1.len() > 0,
        s1.last() == '.' || s1.last() == '!' || s1.last() == '?',
    ensures
        sentences_of(s1 + seq![' '] + s2) == sentences_of(s1) + sentences_of(s2),
{
    assert forall|k: int| 0 <= k < s2.len() && char_is_whitespace(#[trigger] s2[k]) implies !char_is_alphanumeric(s2[k]) by {
        lemma_whitespace_is_not_alphanumeric(s2[k]);
    }
    let p = s1 + seq![' '];
    let s = p + s2;
    let n1 = s1.len() as int;
    assert(s1 + seq![' '] + s2 == s);
    lemma_sentences_join_prefix(s1, s2, 0);
    assert(s[n1] == ' ');
    assert(char_is_whitespace(' '));
    assert(skip_whitespace(s, n1) == skip_whitespace(s, n1 + 1));
    lemma_skip_whitespace_shift(p, s2, 0);
    lemma_skip_whitespace_bounds(s2, 0);
    lemma_sentences_from_shift(p, s2, skip_whitespace(s2, 0));
    lemma_sentences_leading_whitespace(s2);
}

/// The pieces of `s` from `pos` on, cut right after each terminator that is
/// followed by whitespace or by the end of the text.
pub open spec fn sentence_pieces(s: Seq<char>, pos: int) -> Seq<Seq<char>>
    decreases s.len() - pos,
{
    if pos < 0 || pos >= s.len() {
        Seq::empty()
    } else {
        let end = sentence_end(s, pos);
        proof {
            lemma_sentence_end_bounds(s, pos);
        }
        seq![s.subrange(pos, end)] + sentence_pieces(s, end)
    }
}

/// The pieces from `pos` on, each mapped to its words, pieces without words
/// dropped.
pub open spec fn cut_sentences_from(s: Seq<char>, pos: int) -> Seq<Seq<Seq<char>>> {
    sentence_pieces(s, pos).map_values(|p: Seq<char>| words_of(p)).filter(
        |w: Seq<Seq<char>>| w.len() > 0,
    )
}

proof fn lemma_cut_sentences_step(s: Seq<char>, pos: int)
    requires
        0 <= pos < s.len(),
    ensures
        ({
            let w = words_of(s.subrange(pos, sentence_end(s, pos)));
            let rest = cut_sentences_from(s, sentence_end(s, pos));
            cut_sentences_from(s, pos) == if w.len() > 0 {
                seq![w] + rest
            } else {
                rest
            }
        }),
{
    let e = sentence_end(s, pos);
    lemma_sentence_end_bounds(s, pos);
    let f = |p: Seq<char>| words_of(p);
    let nonempty = |w: Seq<Seq<char>>| w.len() > 0;
    let piece = s.subrange(pos, e);
    let later = sentence_pieces(s, e);
    assert(sentence_pieces(s, pos) == seq![piece] + later);
    assert((seq![piece] + later).map_values(f) =~= seq![f(piece)] + later.map_values(f));
    Seq::filter_distributes_over_add(seq![f(piece)], later.map_values(f), nonempty);
    reveal(Seq::filter);
    let one = seq![f(piece)];
    assert(one.drop_last() =~= Seq::<Seq<Seq<char>>>::empty());
    assert(one.drop_last().filter(nonempty) == one.drop_last());
    if f(piece).len() > 0 {
        assert(Seq::<Seq<Seq<char>>>::empty().push(f(piece)) =~= one);
    } else {
        assert(Seq::<Seq<Seq<char>>>::empty() + later.map_values(f).filter(nonempty) =~= later.map_values(f).filter(nonempty));
    }
}

/// Whitespace skipped after a sentence end changes neither the pieces'
/// words nor where they end.
proof fn lemma_cut_sentences_skip(s: Seq<char>, e: int)
    requires
        0 <= e <= s.len(),
    ensures
        cut_sentences_from(s, e) == cut_sentences_from(s, skip_whitespace(s, e)),
{
    let next = skip_whitespace(s, e);
    lemma_skip_whitespace_bounds(s, e);
    lemma_skipped_are_whitespace(s, e);
    if e < next {
        assert forall|k: int| e <= k < next implies !#[trigger] ends_sentence_at(s, k) by {
            assert(char_is_whitespace(s[k]));
        }
        lemma_sentence_end_skip(s, e, next);
        let e2 = sentence_end(s, e);
        if next < s.len() {
            lemma_sentence_end_bounds(s, next);
        } else {
            assert(sentence_end(s, next) == s.len());
        }
        let u = s.subrange(e, e2);
        assert forall|k: int| 0 <= k < next - e implies !char_is_alphanumeric(#[trigger] u[k]) by {
            assert(u[k] == s[e + k]);
            lemma_whitespace_is_not_alphanumeric(s[e + k]);
        }
        lemma_words_skip_separators(u, 0, next - e);
        assert(u.subrange(0, u.len() as int) =~= s.subrange(e, e2));
        assert(u.subrange(next - e, u.len() as int) =~= s.subrange(next, e2));
        lemma_cut_sentences_step(s, e);
        if next < s.len() {
            lemma_cut_sentences_step(s, next);
        } else {
            lemma_words_of_empty();
            assert(s.subrange(next, e2) =~= Seq::<char>::empty());
            assert(cut_sentences_from(s, e2) == Seq::<Seq<Seq<char>>>::empty()) by {
                reveal(Seq::filter);
                assert(sentence_pieces(s, e2) == Seq::<Seq<char>>::empty());
                assert(sentence_pieces(s, e2).map_values(|p: Seq<char>| words_of(p)) =~= Seq::<Seq<Seq<char>>>::empty());
            }
            assert(cut_sentences_from(s, next) == Seq::<Seq<Seq<char>>>::empty()) by {
                reveal(Seq::filter);
                assert(sentence_pieces(s, next) == Seq::<Seq<char>>::empty());
                assert(sentence_pieces(s, next).map_values(|p: Seq<char>| words_of(p)) =~= Seq::<Seq<Seq<char>>>::empty());
            }
        }
    }
}

proof fn lemma_cut_sentences_from(s: Seq<char>, pos: int)
    requires
        0 <= pos <= s.len(),
    ensures
        cut_sentences_from(s, pos) == sentences_from(s, pos),
    decreases s.len() - pos,
{
    if pos == s.len() {
        reveal(Seq::filter);
        assert(sentence_pieces(s, pos) == Seq::<Seq<char>>::empty());
        assert(sentence_pieces(s, pos).map_values(|p: Seq<char>| words_of(p)) =~= Seq::<Seq<Seq<char>>>::empty());
    } else {
        let e = sentence_end(s, pos);
        lemma_sentence_end_bounds(s, pos);
        lemma_skip_whitespace_bounds(s, e);
        lemma_cut_sentences_step(s, pos);
        lemma_cut_sentences_skip(s, e);
        lemma_cut_sentences_from(s, skip_whitespace(s, e));
    }
}

/// The sentences of a text are its pieces, cut right after each `.`, `!`
/// or `?` that is followed by whitespace or by the end of the text, each
/// mapped to its words, with pieces that have no word dropped.
pub proof fn lemma_sentences_are_cut_pieces(s: Seq<char>)
    ensures
        sentences_of(s) == sentence_pieces(s, 0).map_values(|p: Seq<char>| words_of(p)).filter(
            |w: Seq<Seq<char>>| w.len() > 0,
        ),
{
    lemma_cut_sentences_from(s, 0);
}

/// Splits `text` into sentences and each sentence into its words.
pub fn split_into_sentences(text: &str) -> (r: Vec<Vec<String>>)
    ensures
        r.deep_view() == sentences_of(text@),
{
    if text.is_empty() {
        return Vec::new();
    }
    let mut sentences: Vec<Vec<String>> = Vec::new();
    let mut current_pos: usize = 0;
    let chars = chars_of(text);

    while current_pos < chars.len()
        invariant
            chars@ == text@,
            current_pos <= chars.len(),
            sentences.deep_view() + sentences_from(chars@, current_pos as int) == sentences_of(
                text@,
            ),
        decreases chars.len() - current_pos,
    {
        let mut end = current_pos;
        while end < chars.len()
            invariant_except_break
                current_pos <= end <= chars.len(),
                sentence_end(chars@, current_pos as int) == sentence_end(chars@, end as int),
            ensures
                end == sentence_end(chars@, current_pos as int),
            decreases chars.len() - end,
        {
            let c = chars[end];
            if (c == '.' || c == '!' || c == '?') && (end + 1 == chars.len() || is_whitespace(
                chars[end + 1],
            )) {
                end += 1;
                break;
            }
            end += 1;
        }
        proof {
            lemma_sentence_end_bounds(chars@, current_pos as int);
        }
        let ghost pos = current_pos as int;
        let sentence = string_of(&chars, current_pos, end);
        let words = extract_words(sentence.as_str());
        let ghost before = sentences.deep_view();
        if words.len() > 0 {
            sentences.push(words);
            proof {
                assert(sentences.deep_view() == before.push(words.deep_view()));
            }
        }
        while end < chars.len() && is_whitespace(chars[end])
            invariant
                current_pos < end <= chars.len(),
                skip_whitespace(chars@, sentence_end(chars@, pos)) == skip_whitespace(chars@, end as int),
            decreases chars.len() - end,
        {
            end += 1;
        }
        proof {
            let e = sentence_end(chars@, pos);
            lemma_skip_whitespace_bounds(chars@, e);
            assert(skip_whitespace(chars@, end as int) == end);
            let w = words_of(chars@.subrange(pos, e));
            let rest = sentences_from(chars@, end as int);
            assert(sentences_from(chars@, pos) == if w.len() > 0 { seq![w] + rest } else { rest });
            if w.len() > 0 {
                assert(before.push(w) + rest == before + (seq![w] + rest));
            }
        }
        current_pos = end;
    }
    proof {
        assert(sentences_from(chars@, current_pos as int) == Seq::<Seq<Seq<char>>>::empty());
        assert(sentences.deep_view() + Seq::<Seq<Seq<char>>>::empty() == sentences.deep_view());
    }
    sentences
}


/// What `sentences` gives for one row: nothing for a null text, else the
/// sentences of the text, each given as its words.
pub open spec fn sentences_row(value: Option<Seq<char>>) -> Option<Seq<Seq<Seq<char>>>> {
    match value {
        Some(text) => Some(sentences_of(text)),
        None => None,
    }
}

/// Applies `sentences` to a column of texts, row by row: a null text gives
/// a null row.
pub fn sentences_inner(values: &Vec<Option<String>>) -> (r: Vec<Option<Vec<Vec<String>>>>)
    ensures
        r.len() == values.len(),
        forall|i: int|
            0 <= i < values.len() ==> #[trigger] r.deep_view()[i] == sentences_row(
                values.deep_view()[i],
            ),
{
    let mut rows: Vec<Option<Vec<Vec<String>>>> = Vec::new();
    let mut i: usize = 0;
    while i < values.len()
        invariant
            i <= values.len(),
            rows.len() == i,
            forall|k: int|
                0 <= k < i ==> #[trigger] rows.deep_view()[k] == sentences_row(
                    values.deep_view()[k],
                ),
        decreases values.len() - i,
    {
        let row = match &values[i] {
            None => None,
            Some(text) => Some(split_into_sentences(text.as_str())),
        };
        proof {
            assert(values.deep_view()[i as int] == values@[i as int].deep_view());
        }
        let ghost before = rows.deep_view();
        rows.push(row);
        proof {
            assert(rows.deep_view() == before.push(row.deep_view()));
        }
        i += 1;
    }
    rows
}

/// A column handed to `sentences`: texts, or a column of another type, of
/// which only the nullness of each row is known.
pub enum TextColumn {
    Strings(Vec<Option<String>>),
    /// For each row, whether it is null.
    Other(Vec<bool>),
}

/// `sentences` was handed a column that is not a string column and holds a
/// non-null row.
#[derive(Debug, Clone, Copy, PartialEq, Eq, Structural)]
pub struct NotAStringColumn;

/// Applies `sentences` to a column: a string column row by row; a column of
/// another type gives null rows if all its rows are null, and is refused
/// otherwise.
pub fn sentences_column(column: &TextColumn) -> (r: Result<Vec<Option<Vec<Vec<String>>>>, NotAStringColumn>)
    ensures
        match column {
            TextColumn::Strings(values) => r matches Ok(rows) && rows.len() == values.len() && forall|i: int|
                0 <= i < values.len() ==> #[trigger] rows.deep_view()[i] == sentences_row(
                    values.deep_view()[i],
                ),
            TextColumn::Other(nulls) => if forall|i: int| 0 <= i < nulls.len() ==> #[trigger] nulls@[i] {
                r matches Ok(rows) && rows.len() == nulls.len() && forall|i: int|
                    0 <= i < nulls.len() ==> (#[trigger] rows@[i]) is None
            } else {
                r == Err::<Vec<Option<Vec<Vec<String>>>>, _>(NotAStringColumn)
            },
        },
{
    match column {
        TextColumn::Strings(values) => Ok(sentences_inner(values)),
        TextColumn::Other(nulls) => null_rows(nulls),
    }
}

/// Null rows for a column of another type whose rows are all null.
fn null_rows(nulls: &Vec<bool>) -> (r: Result<Vec<Option<Vec<Vec<String>>>>, NotAStringColumn>)
    ensures
        if forall|i: int| 0 <= i < nulls.len() ==> #[trigger] nulls@[i] {
            r matches Ok(rows) && rows.len() == nulls.len() && forall|i: int|
                0 <= i < nulls.len() ==> (#[trigger] rows@[i]) is None
        } else {
            r == Err::<Vec<Option<Vec<Vec<String>>>>, _>(NotAStringColumn)
        },
{
    let mut rows: Vec<Option<Vec<Vec<String>>>> = Vec::new();
    let mut i: usize = 0;
    while i < nulls.len()
        invariant
            i <= nulls.len(),
            rows.len() == i,
            forall|k: int| 0 <= k < i ==> #[trigger] nulls@[k],
            forall|k: int| 0 <= k < i ==> (#[trigger] rows@[k]) is None,
        decreases nulls.len() - i,
    {
        if !nulls[i] {
            return Err(NotAStringColumn);
        }
        rows.push(None);
        i += 1;
    }
    Ok(rows)
}

} // verus!
