//! Splitting a query into the words that its white space separates.

use vstd::prelude::*;

verus! {

/// The characters with Unicode's `White_Space` property.
pub open spec fn is_white_space(c: char) -> bool {
    ||| '\u{9}' <= c <= '\u{d}'
    ||| c == '\u{20}'
    ||| c == '\u{85}'
    ||| c == '\u{a0}'
    ||| c == '\u{1680}'
    ||| '\u{2000}' <= c <= '\u{200a}'
    ||| c == '\u{2028}'
    ||| c == '\u{2029}'
    ||| c == '\u{202f}'
    ||| c == '\u{205f}'
    ||| c == '\u{3000}'
}

/// How many characters stand in front of the first white space of `s`.
pub open spec fn word_len(s: Seq<char>) -> nat
    decreases s.len(),
{
    if s.len() == 0 || is_white_space(s[0]) {
        0
    } else {
        1 + word_len(s.skip(1))
    }
}

/// The words of `s`: its maximal runs of characters that are not white space, in order.
pub open spec fn words(s: Seq<char>) -> Seq<Seq<char>>
    decreases s.len(),
    via words_decreases
{
    if s.len() == 0 {
        seq![]
    } else if is_white_space(s[0]) {
        words(s.skip(1))
    } else {
        seq![s.take(word_len(s) as int)] + words(s.skip(word_len(s) as int))
    }
}

#[via_fn]
proof fn words_decreases(s: Seq<char>) {
    lemma_word_len_bounds(s);
}

/// A word: at least one character, and none of them white space.
pub open spec fn is_word(s: Seq<char>) -> bool {
    &&& s.len() > 0
    &&& forall|i: int| 0 <= i < s.len() ==> !is_white_space(#[trigger] s[i])
}

/// The contents of a list of strings.
pub open spec fn contents(v: Seq<String>) -> Seq<Seq<char>> {
    v.map_values(|s: String| s@)
}

pub proof fn lemma_word_len_bounds(s: Seq<char>)
    ensures
        word_len(s) <= s.len(),
        s.len() > 0 && !is_white_space(s[0]) ==> word_len(s) > 0,
        forall|i: int| 0 <= i < word_len(s) ==> !is_white_space(#[trigger] s[i]),
        word_len(s) < s.len() ==> is_white_space(s[word_len(s) as int]),
    decreases s.len(),
{
    if s.len() > 0 && !is_white_space(s[0]) {
        let rest = s.skip(1);
        lemma_word_len_bounds(rest);
        assert forall|i: int| 0 <= i < word_len(s) implies !is_white_space(#[trigger] s[i]) by {
            if i > 0 {
                assert(rest[i - 1] == s[i]);
            }
        }
        if word_len(s) < s.len() {
            assert(rest[word_len(rest) as int] == s[word_len(s) as int]);
        }
    }
}

/// Characters that are not white space, followed by white space or by nothing,
/// are counted by `word_len`, and by nothing else.
proof fn lemma_word_len_is(s: Seq<char>, n: int)
    requires
        0 <= n <= s.len(),
        forall|i: int| 0 <= i < n ==> !is_white_space(#[trigger] s[i]),
        n < s.len() ==> is_white_space(s[n]),
    ensures
        word_len(s) == n,
{
    lemma_word_len_bounds(s);
    if word_len(s) < n {
        assert(!is_white_space(s[word_len(s) as int]));
    }
    if word_len(s) > n {
        assert(!is_white_space(s[n]));
    }
}

/// A word in front of white space is the first word.
proof fn lemma_word_then_white(w: Seq<char>, rest: Seq<char>)
    requires
        is_word(w),
        rest.len() == 0 || is_white_space(rest[0]),
    ensures
        words(w + rest) == seq![w] + words(rest),
{
    let s = w + rest;
    assert forall|i: int| 0 <= i < w.len() implies !is_white_space(#[trigger] s[i]) by {
        assert(s[i] == w[i]);
    }
    lemma_word_len_is(s, w.len() as int);
    assert(!is_white_space(s[0]));
    assert(s.take(w.len() as int) =~= w);
    assert(s.skip(w.len() as int) =~= rest);
}

/// Every word that is found is one: it has characters, and none of them is white space.
pub proof fn law_words_are_words(s: Seq<char>)
    ensures
        forall|i: int| 0 <= i < words(s).len() ==> is_word(#[trigger] words(s)[i]),
    decreases s.len(),
{
    if s.len() > 0 {
        if is_white_space(s[0]) {
            law_words_are_words(s.skip(1));
            assert(words(s) == words(s.skip(1)));
        } else {
            lemma_word_len_bounds(s);
            let n = word_len(s) as int;
            law_words_are_words(s.skip(n));
            assert(is_word(s.take(n)));
            assert forall|i: int| 0 <= i < words(s).len() implies is_word(#[trigger] words(s)[i]) by {
                assert(words(s) == seq![s.take(n)] + words(s.skip(n)));
                if i > 0 {
                    assert(words(s)[i] == words(s.skip(n))[i - 1]);
                }
            }
        }
    }
}

/// A text has no words if and only if all of it is white space.
pub proof fn law_no_words_iff_white(s: Seq<char>)
    ensures
        words(s).len() == 0 <==> (forall|i: int|
            0 <= i < s.len() ==> is_white_space(#[trigger] s[i])),
    decreases s.len(),
{
    if s.len() > 0 {
        if is_white_space(s[0]) {
            let rest = s.skip(1);
            law_no_words_iff_white(rest);
            if words(s).len() == 0 {
                assert forall|i: int| 0 <= i < s.len() implies is_white_space(#[trigger] s[i]) by {
                    if i > 0 {
                        assert(rest[i - 1] == s[i]);
                    }
                }
            }
            if forall|i: int| 0 <= i < s.len() ==> is_white_space(#[trigger] s[i]) {
                assert forall|i: int| 0 <= i < rest.len() implies is_white_space(
                    #[trigger] rest[i],
                ) by {
                    assert(rest[i] == s[i + 1]);
                }
            }
        } else {
            assert(!is_white_space(s[0]));
        }
    }
}

/// White space keeps words apart: the words of two texts with white space between
/// them are the words of the one and then the words of the other.
pub proof fn law_words_split_at_white(a: Seq<char>, c: char, b: Seq<char>)
    requires
        is_white_space(c),
    ensures
        words(a + seq![c] + b) == words(a) + words(b),
    decreases a.len(),
{
    let whole = a + seq![c] + b;
    let tail = seq![c] + b;
    assert(tail.skip(1) =~= b);
    assert(words(tail) == words(b));
    if a.len() == 0 {
        assert(whole =~= tail);
        assert(words(a) + words(b) =~= words(b));
    } else if is_white_space(a[0]) {
        law_words_split_at_white(a.skip(1), c, b);
        assert(whole.skip(1) =~= a.skip(1) + seq![c] + b);
    } else {
        lemma_word_len_bounds(a);
        let n = word_len(a) as int;
        let w = a.take(n);
        let rest = a.skip(n);
        law_words_split_at_white(rest, c, b);
        assert(is_word(w));
        lemma_word_then_white(w, rest + seq![c] + b);
        assert(whole =~= w + (rest + seq![c] + b));
        assert(words(whole) =~= seq![w] + (words(rest) + words(b)));
        assert(words(a) == seq![w] + words(rest));
        assert(words(whole) =~= words(a) + words(b));
    }
}

/// The texts one after the other, each followed by a space.
pub open spec fn spaced(texts: Seq<Seq<char>>) -> Seq<char>
    decreases texts.len(),
{
    if texts.len() == 0 {
        seq![]
    } else {
        spaced(texts.drop_last()) + texts.last() + seq![' ']
    }
}

/// Words that are written one after the other with a space behind each are found again.
pub proof fn law_spaced_words_are_found(texts: Seq<Seq<char>>)
    requires
        forall|i: int| 0 <= i < texts.len() ==> is_word(#[trigger] texts[i]),
    ensures
        words(spaced(texts)) == texts,
    decreases texts.len(),
{
    if texts.len() > 0 {
        let init = texts.drop_last();
        let w = texts.last();
        assert(is_word(texts[texts.len() - 1]));
        assert forall|i: int| 0 <= i < init.len() implies is_word(#[trigger] init[i]) by {
            assert(init[i] == texts[i]);
        }
        law_spaced_words_are_found(init);
        lemma_word_then_white(w, seq![]);
        assert(w + seq![] =~= w);
        assert(words(w) =~= seq![w]);
        lemma_spaced_ends_white(init);
        let front = spaced(init);
        law_words_split_at_white(front + w, ' ', seq![]);
        assert(front + w + seq![' '] + seq![] =~= spaced(texts));
        assert(words(front + w + seq![' '] + seq![]) =~= words(front + w));
        if init.len() > 0 {
            let m = front.drop_last();
            assert(front =~= m + seq![' ']);
            law_words_split_at_white(m, ' ', w);
            law_words_split_at_white(m, ' ', seq![]);
            assert(m + seq![' '] + seq![] =~= front);
            assert(words(front) =~= words(m));
            assert(words(front + w) =~= init + seq![w]);
        } else {
            assert(front + w =~= w);
        }
        assert(texts =~= init + seq![w]);
    } else {
        assert(words(spaced(texts)) =~= texts);
    }
}

proof fn lemma_spaced_ends_white(texts: Seq<Seq<char>>)
    ensures
        texts.len() > 0 ==> spaced(texts).len() > 0 && spaced(texts).last() == ' ',
{
}

/// Whether `c` is white space: what `char::is_whitespace` tells.
pub fn is_whitespace(c: char) -> (r: bool)
    ensures
        r == is_white_space(c),
{
    ('\u{9}' <= c && c <= '\u{d}') || c == '\u{20}' || c == '\u{85}' || c == '\u{a0}'
        || c == '\u{1680}' || ('\u{2000}' <= c && c <= '\u{200a}') || c == '\u{2028}'
        || c == '\u{2029}' || c == '\u{202f}' || c == '\u{205f}' || c == '\u{3000}'
}

/// `String::push`: the character goes to the end of the string.
pub assume_specification[ String::push ](s: &mut String, ch: char)
    ensures
        final(s)@ == old(s)@.push(ch),
;

/// Splits `s` at its white space, however much of it there is.
pub fn split_whitespace(s: &str) -> (r: Vec<String>)
    ensures
        contents(r@) == words(s@),
{
    let mut found: Vec<String> = Vec::new();
    let mut current = String::new();
    assert(current@ + s@.skip(0) =~= s@);
    assert(contents(found@) =~= seq![]);
    assert(seq![] + words(s@) =~= words(s@));
    for c in it: s.chars()
        invariant
            it.seq() == s@,
            forall|i: int| 0 <= i < current@.len() ==> !is_white_space(#[trigger] current@[i]),
            words(s@) == contents(found@) + words(current@ + s@.skip(it.index() as int)),
    {
        let ghost i = it.index() as int;
        let ghost rest = s@.skip(i);
        let ghost before = current@;
        let ghost found_before = found@;
        assert(rest[0] == c);
        assert(rest.skip(1) =~= s@.skip(i + 1));
        if is_whitespace(c) {
            if current.as_str().is_empty() {
                assert(before + rest =~= rest);
                assert(before + rest.skip(1) =~= rest.skip(1));
            } else {
                proof {
                    lemma_word_then_white(before, rest);
                }
                found.push(current);
                current = String::new();
                assert(contents(found@) =~= contents(found_before) + seq![before]);
                assert(current@ + rest.skip(1) =~= rest.skip(1));
                assert(contents(found_before) + (seq![before] + words(rest)) =~= contents(found@)
                    + words(rest));
            }
        } else {
            current.push(c);
            assert(current@ + rest.skip(1) =~= before + rest);
        }
    }
    assert(s@.skip(s@.len() as int) =~= seq![]);
    assert(current@ + seq![] =~= current@);
    if !current.as_str().is_empty() {
        let ghost found_before = found@;
        let ghost last = current@;
        proof {
            lemma_word_then_white(last, seq![]);
            assert(words(last) =~= seq![last]);
        }
        found.push(current);
        assert(contents(found@) =~= contents(found_before) + seq![last]);
    } else {
        assert(contents(found@) + words(current@) =~= contents(found@));
    }
    found
}

/// The contents of a list of strings are those of each of its strings, whole and in order.
pub proof fn law_contents_are_seen_whole(v: Seq<String>)
    ensures
        contents(v).len() == v.len(),
        forall|i: int| 0 <= i < v.len() ==> #[trigger] contents(v)[i] == v[i]@,
{
}

/// A text without white space is one word, whole, however long it is.
pub proof fn law_text_without_white_space_is_one_word(w: Seq<char>)
    requires
        w.len() > 0,
        forall|i: int| 0 <= i < w.len() ==> !is_white_space(#[trigger] w[i]),
    ensures
        words(w) == seq![w],
{
    lemma_word_then_white(w, seq![]);
    assert(w + seq![] =~= w);
    assert(words(w) =~= seq![w]);
}

/// Splitting a text into words loses nothing but its white space: the characters of all
/// words, one after the other, are those of the text that are not white space.
pub proof fn law_only_white_space_is_lost(s: Seq<char>)
    ensures
        words(s).flatten() == s.filter(|c: char| !is_white_space(c)),
    decreases s.len(),
{
    let kept = |c: char| !is_white_space(c);
    reveal(Seq::filter);
    if s.len() == 0 {
        assert(words(s).flatten() =~= s.filter(kept));
    } else if is_white_space(s[0]) {
        let first = seq![s[0]];
        law_only_white_space_is_lost(s.skip(1));
        assert(first + s.skip(1) =~= s);
        Seq::filter_distributes_over_add(first, s.skip(1), kept);
        assert(first.drop_last() =~= seq![]);
        reveal_with_fuel(Seq::filter, 2);
        assert(first.filter(kept) =~= seq![]);
        assert(s.filter(kept) =~= s.skip(1).filter(kept));
    } else {
        lemma_word_len_bounds(s);
        let n = word_len(s) as int;
        let w = s.take(n);
        let rest = s.skip(n);
        law_only_white_space_is_lost(rest);
        assert(w + rest =~= s);
        Seq::filter_distributes_over_add(w, rest, kept);
        lemma_nothing_is_filtered(w, kept);
        let found = words(s);
        assert(found == seq![w] + words(rest));
        assert(found.first() == w);
        assert(found.drop_first() =~= words(rest));
    }
}

proof fn lemma_nothing_is_filtered(s: Seq<char>, kept: spec_fn(char) -> bool)
    requires
        forall|i: int| 0 <= i < s.len() ==> kept(#[trigger] s[i]),
    ensures
        s.filter(kept) == s,
    decreases s.len(),
{
    reveal(Seq::filter);
    if s.len() > 0 {
        let init = s.drop_last();
        assert forall|i: int| 0 <= i < init.len() implies kept(#[trigger] init[i]) by {
            assert(init[i] == s[i]);
        }
        lemma_nothing_is_filtered(init, kept);
        assert(kept(s[s.len() - 1]));
        assert(init.push(s.last()) =~= s);
    }
}

} // verus!
