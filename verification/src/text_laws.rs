//! What holds of the reading and writing of texts.

use crate::text::{
    all_digits, decimal, digit_char, digits_value, first_of, is_space, last_of, lemma_first_of,
    lemma_first_of_unique, split_on, trim_end_text, trim_start_text, trim_text, unsigned_value, word_length, words,
};
use vstd::prelude::*;

verus! {

/// A text that is cut at a character, and written together again with the character between the
/// pieces, is cut at the same places: the pieces of two texts with the character between them are
/// those of the first, followed by those of the second.
pub proof fn pieces_of_joined_texts(x: Seq<char>, c: char, y: Seq<char>)
    ensures
        split_on(x + seq![c] + y, c) == split_on(x, c) + split_on(y, c),
    decreases x.len(),
{
    let s = x + seq![c] + y;
    let i = first_of(x, c);
    lemma_first_of(x, c);
    if i >= x.len() {
        assert(s[x.len() as int] == c);
        assert forall|j: int| 0 <= j < x.len() implies s[j] != c by {
            assert(s[j] == x[j]);
        }
        lemma_first_of_unique(s, c, x.len() as int);
        assert(s.take(x.len() as int) =~= x);
        assert(s.skip(x.len() as int + 1) =~= y);
        assert(split_on(x, c) =~= seq![x]);
        assert(split_on(s, c) =~= seq![x] + split_on(y, c));
    } else {
        assert forall|j: int| 0 <= j < i implies s[j] != c by {
            assert(s[j] == x[j]);
        }
        assert(s[i] == c);
        lemma_first_of_unique(s, c, i);
        let rest = x.skip(i + 1);
        assert(s.take(i) =~= x.take(i));
        assert(s.skip(i + 1) =~= rest + seq![c] + y);
        pieces_of_joined_texts(rest, c, y);
        assert(split_on(s, c) =~= seq![x.take(i)] + (split_on(rest, c) + split_on(y, c)));
        assert(split_on(x, c) =~= seq![x.take(i)] + split_on(rest, c));
        assert(seq![x.take(i)] + (split_on(rest, c) + split_on(y, c)) =~= split_on(x, c)
            + split_on(y, c));
    }
}

/// A text that does not hold a character is one piece.
pub proof fn a_text_without_the_character_is_one_piece(s: Seq<char>, c: char)
    requires
        !s.contains(c),
    ensures
        split_on(s, c) == seq![s],
        first_of(s, c) == s.len(),
        last_of(s, c) == -1,
    decreases s.len(),
{
    assert forall|j: int| 0 <= j < s.len() implies s[j] != c by {
        assert(s.contains(s[j]));
    }
    lemma_first_of_unique(s, c, s.len() as int);
    assert(split_on(s, c) =~= seq![s]);
    if s.len() > 0 {
        let rest = s.drop_last();
        assert(!rest.contains(c)) by {
            if rest.contains(c) {
                let j = rest.index_of(c);
                assert(s[j] == c);
            }
        }
        a_text_without_the_character_is_one_piece(rest, c);
    }
}

/// The last place of a character lies before a text that does not hold it.
pub proof fn the_last_place_of_a_character(x: Seq<char>, c: char, y: Seq<char>)
    requires
        !y.contains(c),
    ensures
        last_of(x + seq![c] + y, c) == x.len(),
    decreases y.len(),
{
    let s = x + seq![c] + y;
    if y.len() == 0 {
        assert(s.last() == c);
    } else {
        let rest = y.drop_last();
        assert(s.drop_last() =~= x + seq![c] + rest);
        assert(s.last() == y[y.len() - 1]);
        assert(y.contains(y[y.len() - 1]));
        assert(!rest.contains(c)) by {
            if rest.contains(c) {
                let j = rest.index_of(c);
                assert(y[j] == c);
            }
        }
        the_last_place_of_a_character(x, c, rest);
    }
}

/// Whether no character of a text is white space.
pub open spec fn has_no_space(s: Seq<char>) -> bool {
    forall|i: int| 0 <= i < s.len() ==> !is_space(#[trigger] s[i])
}

/// Whether each character of a text is white space.
pub open spec fn is_all_space(s: Seq<char>) -> bool {
    forall|i: int| 0 <= i < s.len() ==> is_space(#[trigger] s[i])
}

proof fn lemma_word_length_is(word: Seq<char>, rest: Seq<char>)
    requires
        has_no_space(word),
        rest.len() > 0 ==> is_space(rest[0]),
    ensures
        word_length(word + rest) == word.len(),
    decreases word.len(),
{
    let s = word + rest;
    if word.len() == 0 {
        assert(s =~= rest);
    } else {
        assert(s[0] == word[0]);
        assert(s.skip(1) =~= word.skip(1) + rest);
        assert forall|i: int| 0 <= i < word.skip(1).len() implies !is_space(
            #[trigger] word.skip(1)[i],
        ) by {
            assert(word.skip(1)[i] == word[i + 1]);
        }
        lemma_word_length_is(word.skip(1), rest);
    }
}

/// A text of a word, white space and a rest has the word as its first word, and after it those of
/// the rest.
pub proof fn the_first_word_of_a_text(word: Seq<char>, space: char, rest: Seq<char>)
    requires
        word.len() > 0,
        has_no_space(word),
        is_space(space),
    ensures
        words(word + seq![space] + rest) == seq![word] + words(rest),
        words(word) == seq![word],
{
    let s = word + seq![space] + rest;
    let after = seq![space] + rest;
    assert(s =~= word + after);
    assert(!is_space(word[0]));
    assert(s[0] == word[0]);
    lemma_word_length_is(word, after);
    assert(trim_start_text(s) == s);
    assert(s.take(word.len() as int) =~= word);
    assert(s.skip(word.len() as int) =~= after);
    assert(after.skip(1) =~= rest);
    assert(trim_start_text(after) == trim_start_text(rest));
    assert(words(after) == words(rest));
    let none = Seq::<char>::empty();
    lemma_word_length_is(word, none);
    assert(word + none =~= word);
    assert(trim_start_text(word) == word);
    assert(word.take(word.len() as int) =~= word);
    assert(word.skip(word.len() as int) =~= none);
    assert(words(none) =~= seq![]);
    assert(words(word) =~= seq![word]);
}

/// White space around a text is taken away, and nothing else, where the text neither starts nor
/// ends with white space.
pub proof fn only_space_is_trimmed(before: Seq<char>, s: Seq<char>, after: Seq<char>)
    requires
        is_all_space(before),
        is_all_space(after),
        s.len() > 0 ==> !is_space(s[0]) && !is_space(s.last()),
    ensures
        trim_text(before + s + after) == s,
{
    let tail = s + after;
    assert(before + s + after =~= before + tail);
    lemma_trim_before(before, tail);
    if s.len() > 0 {
        assert(tail[0] == s[0]);
        assert(trim_start_text(tail) == tail);
        lemma_trim_after(s, after);
    } else {
        assert(tail =~= after);
        let none = Seq::<char>::empty();
        assert(after + none =~= after);
        lemma_trim_before(after, none);
        assert(trim_start_text(tail) =~= none);
        assert(s =~= none);
    }
}

proof fn lemma_trim_before(before: Seq<char>, s: Seq<char>)
    requires
        is_all_space(before),
    ensures
        trim_start_text(before + s) == trim_start_text(s),
    decreases before.len(),
{
    if before.len() == 0 {
        assert(before + s =~= s);
    } else {
        let rest = before.skip(1);
        assert((before + s)[0] == before[0]);
        assert((before + s).skip(1) =~= rest + s);
        assert forall|i: int| 0 <= i < rest.len() implies is_space(#[trigger] rest[i]) by {
            assert(rest[i] == before[i + 1]);
        }
        lemma_trim_before(rest, s);
    }
}

proof fn lemma_trim_after(s: Seq<char>, after: Seq<char>)
    requires
        is_all_space(after),
        s.len() > 0,
        !is_space(s.last()),
    ensures
        trim_end_text(s + after) == s,
    decreases after.len(),
{
    if after.len() == 0 {
        assert(s + after =~= s);
    } else {
        let rest = after.drop_last();
        assert((s + after).last() == after.last());
        assert(after[after.len() - 1] == after.last());
        assert((s + after).drop_last() =~= s + rest);
        assert forall|i: int| 0 <= i < rest.len() implies is_space(#[trigger] rest[i]) by {
            assert(rest[i] == after[i]);
        }
        lemma_trim_after(s, rest);
    }
}

proof fn lemma_decimal(n: nat)
    ensures
        all_digits(decimal(n)),
        decimal(n).len() > 0,
        digits_value(decimal(n)) == n,
    decreases n,
{
    let last = decimal(n).last();
    if n < 10 {
        assert(decimal(n).drop_last() =~= Seq::<char>::empty());
        assert(last == digit_char(n));
        reveal_with_fuel(digits_value, 2);
    } else {
        lemma_decimal(n / 10);
        assert(decimal(n).drop_last() =~= decimal(n / 10));
        assert(last == digit_char(n % 10));
        assert forall|i: int| 0 <= i < decimal(n).len() implies crate::text::is_digit(
            #[trigger] decimal(n)[i],
        ) by {
            if i < decimal(n / 10).len() {
                assert(decimal(n)[i] == decimal(n / 10)[i]);
            }
        }
    }
}

/// A whole number that was written in decimal notation is read back, with a plus sign in front or
/// without, unless it is above the largest that is asked for. One of one digit is that digit, and
/// the last digit of a longer one stands behind those of its tenth part.
pub proof fn decimal_numbers_are_read_back(n: nat, max: nat)
    ensures
        unsigned_value(decimal(n), max) == (if n <= max {
            Some(n)
        } else {
            None
        }),
        unsigned_value(seq!['+'] + decimal(n), max) == unsigned_value(decimal(n), max),
        n < 10 ==> decimal(n).len() == 1 && decimal(n)[0] as int == '0' as int + n,
        n >= 10 ==> decimal(n) == decimal(n / 10) + decimal(n % 10),
{
    lemma_decimal(n);
    assert(crate::text::is_digit(decimal(n)[0]));
    assert((seq!['+'] + decimal(n)).skip(1) =~= decimal(n));
    if n >= 10 {
        assert(decimal(n) =~= decimal(n / 10) + decimal(n % 10));
    }
}

/// What is read as a number is made of digits, after a plus sign or not: no other text is one.
pub proof fn only_digits_are_read(s: Seq<char>, max: nat, i: int)
    requires
        unsigned_value(s, max) is Some,
        0 <= i < s.len(),
    ensures
        s.len() > 0,
        unsigned_value(s, max).unwrap() <= max,
        ('0' <= s[i] && s[i] <= '9') || (i == 0 && s[0] == '+' && s.len() > 1),
{
    if s[0] == '+' {
        if i > 0 {
            assert(s.skip(1)[i - 1] == s[i]);
        }
    }
}

} // verus!
