//! Reading words and numbers from a line of text.

use vstd::prelude::*;
use vstd::string::StringExecFns;

verus! {

/// Whether two strings hold the same characters.
pub fn same_text(a: &str, b: &str) -> (same: bool)
    ensures
        same == (a@ == b@),
{
    let n = a.unicode_len();
    if b.unicode_len() != n {
        return false;
    }
    let mut i: usize = 0;
    while i < n
        invariant
            i <= n,
            n == a@.len(),
            n == b@.len(),
            forall|k: int| 0 <= k < i ==> a@[k] == b@[k],
        decreases n - i,
    {
        if a.get_char(i) != b.get_char(i) {
            return false;
        }
        i += 1;
    }
    assert(a@ =~= b@);
    true
}

/// The first place at or after `i` where `s` holds no space; the length of
/// `s` if there is none.
pub open spec fn word_start(s: Seq<char>, i: int) -> int
    decreases s.len() - i,
{
    if 0 <= i < s.len() && s[i] == ' ' {
        word_start(s, i + 1)
    } else {
        i
    }
}

/// The first place at or after `i` where `s` holds a space; the length of
/// `s` if there is none.
pub open spec fn word_end(s: Seq<char>, i: int) -> int
    decreases s.len() - i,
{
    if 0 <= i < s.len() && s[i] != ' ' {
        word_end(s, i + 1)
    } else {
        i
    }
}

/// The words of `s` from place `i` on: the longest stretches without a
/// space, in their order.
pub open spec fn words_from(s: Seq<char>, i: int) -> Seq<Seq<char>>
    decreases s.len() - i,
    via words_from_decreases
{
    let start = word_start(s, i);
    if 0 <= i && start < s.len() {
        let end = word_end(s, start);
        seq![s.subrange(start, end)] + words_from(s, end)
    } else {
        Seq::empty()
    }
}

/// A word ends beyond the place where it starts.
#[via_fn]
proof fn words_from_decreases(s: Seq<char>, i: int) {
    let start = word_start(s, i);
    if 0 <= i && start < s.len() {
        lemma_word_start(s, i);
        lemma_word_end(s, start);
    }
}

/// The words of `s`.
pub open spec fn words_of(s: Seq<char>) -> Seq<Seq<char>> {
    words_from(s, 0)
}

/// `word_start(s, i)` lies between `i` and the end of `s`, and holds no
/// space unless it is the end.
pub proof fn lemma_word_start(s: Seq<char>, i: int)
    requires
        0 <= i <= s.len(),
    ensures
        i <= word_start(s, i) <= s.len(),
        word_start(s, i) < s.len() ==> s[word_start(s, i)] != ' ',
    decreases s.len() - i,
{
    if i < s.len() && s[i] == ' ' {
        lemma_word_start(s, i + 1);
    }
}

/// `word_end(s, i)` lies between `i` and the end of `s`, and beyond `i`
/// where `s` holds no space at `i`.
pub proof fn lemma_word_end(s: Seq<char>, i: int)
    requires
        0 <= i <= s.len(),
    ensures
        i <= word_end(s, i) <= s.len(),
        i < s.len() && s[i] != ' ' ==> i < word_end(s, i),
    decreases s.len() - i,
{
    if i < s.len() && s[i] != ' ' {
        lemma_word_end(s, i + 1);
    }
}

/// What a list of strings holds, as plain text.
pub open spec fn texts(list: Seq<String>) -> Seq<Seq<char>> {
    Seq::new(list.len(), |k: int| list[k]@)
}

/// Splits a line into its words.
pub fn split_words(line: &str) -> (words: Vec<String>)
    ensures
        texts(words@) == words_of(line@),
{
    let n = line.unicode_len();
    let mut words: Vec<String> = Vec::new();
    let mut i: usize = 0;
    loop
        invariant_except_break
            i <= n,
            n == line@.len(),
            words_of(line@) == texts(words@) + words_from(line@, i as int),
        ensures
            texts(words@) == words_of(line@),
        decreases n - i,
    {
        let ghost from = i as int;
        let mut start: usize = i;
        while start < n && line.get_char(start) == ' '
            invariant
                i <= start <= n,
                n == line@.len(),
                word_start(line@, from) == word_start(line@, start as int),
            decreases n - start,
        {
            start += 1;
        }
        if start >= n {
            assert(texts(words@) + Seq::<Seq<char>>::empty() =~= texts(words@));
            break;
        }
        let mut end: usize = start + 1;
        assert(word_end(line@, start as int) == word_end(line@, end as int));
        while end < n && line.get_char(end) != ' '
            invariant
                start < end <= n,
                n == line@.len(),
                word_end(line@, start as int) == word_end(line@, end as int),
            decreases n - end,
        {
            end += 1;
        }
        let word = String::from_str(line.substring_char(start, end));
        let ghost before = words@;
        words.push(word);
        assert(texts(words@) =~= texts(before).push(line@.subrange(start as int, end as int)));
        assert(texts(before) + (seq![line@.subrange(start as int, end as int)] + words_from(
            line@,
            end as int,
        )) =~= texts(words@) + words_from(line@, end as int));
        i = end;
    }
    words
}

/// Whether `c` is a decimal digit.
pub open spec fn is_digit(c: char) -> bool {
    '0' <= c <= '9'
}

/// The value of the decimal digit `c`.
pub open spec fn digit_value(c: char) -> nat {
    (c as u32 - '0' as u32) as nat
}

/// Whether `s` holds nothing but decimal digits.
pub open spec fn all_digits(s: Seq<char>) -> bool {
    forall|i: int| 0 <= i < s.len() ==> is_digit(#[trigger] s[i])
}

/// The number that the decimal digits `s` spell.
pub open spec fn decimal(s: Seq<char>) -> nat
    decreases s.len(),
{
    if s.len() == 0 {
        0
    } else {
        decimal(s.drop_last()) * 10 + digit_value(s.last())
    }
}

/// `s` without the plus sign that may stand in front of a number.
pub open spec fn unsigned_part(s: Seq<char>) -> Seq<char> {
    if s.len() > 0 && s[0] == '+' {
        s.skip(1)
    } else {
        s
    }
}

/// The count that `s` spells: one or more decimal digits, with or without a
/// plus sign in front, whose number is no larger than a count can be.
pub open spec fn count_spelt(s: Seq<char>) -> Option<usize> {
    let digits = unsigned_part(s);
    if digits.len() > 0 && all_digits(digits) && decimal(digits) <= usize::MAX {
        Some(decimal(digits) as usize)
    } else {
        None
    }
}

/// Digits that go on from others spell a number at least as large.
proof fn lemma_decimal_grows(s: Seq<char>, k: int)
    requires
        0 <= k <= s.len(),
    ensures
        decimal(s.take(k)) <= decimal(s),
    decreases s.len() - k,
{
    if k < s.len() {
        lemma_decimal_grows(s, k + 1);
        assert(s.take(k + 1).drop_last() =~= s.take(k));
        assert(decimal(s.take(k)) * 10 >= decimal(s.take(k))) by (nonlinear_arith);
    } else {
        assert(s.take(k) =~= s);
    }
}

/// Reads a count.
pub fn parse_count(word: &str) -> (count: Option<usize>)
    ensures
        count == count_spelt(word@),
{
    let n = word.unicode_len();
    let first: usize = if n > 0 && word.get_char(0) == '+' {
        1
    } else {
        0
    };
    let ghost digits = unsigned_part(word@);
    if first >= n {
        return None;
    }
    let mut value: usize = 0;
    let mut i: usize = first;
    assert(digits.take(0) =~= Seq::<char>::empty());
    while i < n
        invariant
            first <= i <= n,
            n == word@.len(),
            digits == word@.skip(first as int),
            digits == unsigned_part(word@),
            all_digits(digits.take(i - first)),
            value == decimal(digits.take(i - first)),
        decreases n - i,
    {
        let c = word.get_char(i);
        let ghost upto = digits.take(i - first + 1);
        assert(upto.drop_last() =~= digits.take(i - first));
        assert(upto.last() == c);
        if !(c >= '0' && c <= '9') {
            assert(!is_digit(digits[i - first]));
            return None;
        }
        let d: usize = ((c as u32) - ('0' as u32)) as usize;
        let next = match value.checked_mul(10) {
            Some(tens) => tens.checked_add(d),
            None => None,
        };
        match next {
            Some(v) => {
                value = v;
            },
            None => {
                proof {
                    assert forall|k: int| 0 <= k < upto.len() implies is_digit(
                        #[trigger] upto[k],
                    ) by {
                        if k < upto.len() - 1 {
                            assert(upto[k] == digits.take(i - first)[k]);
                        }
                    }
                    assert(decimal(upto) > usize::MAX);
                    lemma_decimal_grows(digits, i - first + 1);
                }
                return None;
            },
        }
        assert forall|k: int| 0 <= k < upto.len() implies is_digit(#[trigger] upto[k]) by {
            if k < upto.len() - 1 {
                assert(upto[k] == digits.take(i - first)[k]);
            }
        }
        i += 1;
    }
    assert(digits.take(n - first) =~= digits);
    Some(value)
}

} // verus!
