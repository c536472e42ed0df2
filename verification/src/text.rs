//! Reading numbers and words from text.
use vstd::prelude::*;
use vstd::string::StrSliceExecFns;

verus! {

/// The character is a decimal digit.
pub open spec fn is_digit(c: char) -> bool {
    '0' <= c <= '9'
}

/// The number that a sequence of decimal digits denotes.
pub open spec fn digits_value(digits: Seq<char>) -> nat
    decreases digits.len(),
{
    if digits.len() == 0 {
        0
    } else {
        digits_value(digits.drop_last()) * 10 + (digits.last() as nat - '0' as nat) as nat
    }
}

/// The text without a leading plus sign.
pub open spec fn without_plus(text: Seq<char>) -> Seq<char> {
    if text.len() > 0 && text[0] == '+' {
        text.skip(1)
    } else {
        text
    }
}

/// The number that the text denotes: decimal digits, at least one, with an
/// optional leading plus sign, and no larger than `u64::MAX`.
pub open spec fn number_of(text: Seq<char>) -> Option<u64> {
    let digits = without_plus(text);
    if digits.len() > 0 && (forall|i: int| 0 <= i < digits.len() ==> is_digit(#[trigger] digits[i]))
        && digits_value(digits) <= u64::MAX {
        Some(digits_value(digits) as u64)
    } else {
        None
    }
}

proof fn lemma_digits_value_prefix(digits: Seq<char>, n: int)
    requires
        0 <= n <= digits.len(),
        forall|i: int| 0 <= i < digits.len() ==> is_digit(#[trigger] digits[i]),
    ensures
        digits_value(digits.take(n)) <= digits_value(digits),
    decreases digits.len(),
{
    if n < digits.len() {
        let rest = digits.drop_last();
        lemma_digits_value_prefix(rest, n);
        assert(rest.take(n) =~= digits.take(n));
        assert(digits_value(rest) <= digits_value(rest) * 10);
    } else {
        assert(digits.take(n) =~= digits);
    }
}

/// Reads the number in `text[from..to]`.
pub fn parse_number(text: &str, from: usize, to: usize) -> (r: Option<u64>)
    requires
        from <= to <= text@.len(),
    ensures
        r == number_of(text@.subrange(from as int, to as int)),
{
    let ghost part = text@.subrange(from as int, to as int);
    let ghost digits = without_plus(part);
    let mut i: usize = from;
    if from < to && text.get_char(from) == '+' {
        i = from + 1;
    }
    let start: usize = i;
    assert(digits =~= text@.subrange(start as int, to as int));
    if start == to {
        return None;
    }
    let mut value: u64 = 0;
    while i < to
        invariant
            start <= i <= to <= text@.len(),
            digits == text@.subrange(start as int, to as int),
            digits == without_plus(part),
            part == text@.subrange(from as int, to as int),
            forall|k: int| 0 <= k < i - start ==> is_digit(#[trigger] digits[k]),
            value == digits_value(digits.take(i - start)),
        decreases to - i,
    {
        let c = text.get_char(i);
        let ghost k = i - start;
        assert(c == digits[k]);
        assert(digits.take(k + 1).drop_last() =~= digits.take(k));
        assert(digits.take(k + 1).last() == c);
        if c < '0' || c > '9' {
            assert(!is_digit(digits[k]));
            return None;
        }
        let digit: u64 = c as u64 - '0' as u64;
        assert(digits_value(digits.take(k + 1)) == value * 10 + digit);
        if value > (u64::MAX - digit) / 10 {
            proof {
                if forall|j: int| 0 <= j < digits.len() ==> is_digit(#[trigger] digits[j]) {
                    lemma_digits_value_prefix(digits, k + 1);
                }
                assert(value * 10 + digit > u64::MAX);
            }
            return None;
        }
        value = value * 10 + digit;
        i = i + 1;
    }
    assert(digits.take(to - start) =~= digits);
    Some(value)
}

/// The character is whitespace in the sense of Unicode's `White_Space`.
pub open spec fn is_space(c: char) -> bool {
    let n = c as u32;
    ||| 0x9 <= n <= 0xd
    ||| n == 0x20
    ||| n == 0x85
    ||| n == 0xa0
    ||| n == 0x1680
    ||| 0x2000 <= n <= 0x200a
    ||| n == 0x2028
    ||| n == 0x2029
    ||| n == 0x202f
    ||| n == 0x205f
    ||| n == 0x3000
}

fn char_is_space(c: char) -> (r: bool)
    ensures
        r == is_space(c),
{
    let n: u32 = c as u32;
    (0x9 <= n && n <= 0xd) || n == 0x20 || n == 0x85 || n == 0xa0 || n == 0x1680 || (0x2000 <= n
        && n <= 0x200a) || n == 0x2028 || n == 0x2029 || n == 0x202f || n == 0x205f || n == 0x3000
}

/// How many characters of leading whitespace the text has.
pub open spec fn leading_spaces(text: Seq<char>) -> nat
    decreases text.len(),
{
    if text.len() == 0 || !is_space(text[0]) {
        0
    } else {
        1 + leading_spaces(text.skip(1))
    }
}

/// How many characters the text has before its first whitespace.
pub open spec fn leading_word(text: Seq<char>) -> nat
    decreases text.len(),
{
    if text.len() == 0 || is_space(text[0]) {
        0
    } else {
        1 + leading_word(text.skip(1))
    }
}

/// The text after its first word.
pub open spec fn after_word(text: Seq<char>) -> Seq<char> {
    let trimmed = text.skip(leading_spaces(text) as int);
    trimmed.skip(leading_word(trimmed) as int)
}

/// The first word of the text, empty if there is none.
pub open spec fn first_word(text: Seq<char>) -> Seq<char> {
    let trimmed = text.skip(leading_spaces(text) as int);
    trimmed.take(leading_word(trimmed) as int)
}

fn skip_spaces(text: &str, from: usize) -> (r: usize)
    requires
        from <= text@.len(),
    ensures
        from <= r <= text@.len(),
        r == from + leading_spaces(text@.skip(from as int)),
{
    let len: usize = text.unicode_len();
    let mut i: usize = from;
    while i < len && char_is_space(text.get_char(i))
        invariant
            from <= i <= len == text@.len(),
            leading_spaces(text@.skip(from as int)) == (i - from) + leading_spaces(
                text@.skip(i as int),
            ),
        decreases len - i,
    {
        assert(text@.skip(i as int).skip(1) =~= text@.skip(i as int + 1));
        i = i + 1;
    }
    i
}

fn skip_word(text: &str, from: usize) -> (r: usize)
    requires
        from <= text@.len(),
    ensures
        from <= r <= text@.len(),
        r == from + leading_word(text@.skip(from as int)),
{
    let len: usize = text.unicode_len();
    let mut i: usize = from;
    while i < len && !char_is_space(text.get_char(i))
        invariant
            from <= i <= len == text@.len(),
            leading_word(text@.skip(from as int)) == (i - from) + leading_word(
                text@.skip(i as int),
            ),
        decreases len - i,
    {
        assert(text@.skip(i as int).skip(1) =~= text@.skip(i as int + 1));
        i = i + 1;
    }
    i
}

/// The second of the first two words of the text as a number, if both are
/// numbers.
pub open spec fn second_number(text: Seq<char>) -> Option<u64> {
    match number_of(first_word(text)) {
        Some(_) => number_of(first_word(after_word(text))),
        None => None,
    }
}

/// Reads the first two words of the text as numbers. Returns the second, or
/// nothing if either is missing or no number.
pub fn second_of_two_numbers(text: &str) -> (r: Option<u64>)
    ensures
        r == second_number(text@),
{
    let a: usize = skip_spaces(text, 0);
    assert(text@.skip(0) =~= text@);
    let b: usize = skip_word(text, a);
    assert(text@.subrange(a as int, b as int) =~= first_word(text@));
    match parse_number(text, a, b) {
        Some(_) => {},
        None => return None,
    }
    assert(text@.skip(b as int) =~= after_word(text@));
    let c: usize = skip_spaces(text, b);
    let d: usize = skip_word(text, c);
    assert(text@.skip(c as int) =~= text@.skip(b as int).skip((c - b) as int));
    assert(text@.subrange(c as int, d as int) =~= first_word(after_word(text@)));
    parse_number(text, c, d)
}

/// A single digit denotes its value, and a further digit behind a number makes
/// it ten times as large and adds its value, unless that exceeds `u64::MAX`.
pub proof fn law_numbers_are_read_in_base_ten(text: Seq<char>, c: char)
    requires
        '0' <= c <= '9',
    ensures
        number_of(seq![c]) == Some((c as nat - '0' as nat) as u64),
        number_of(text) matches Some(n) ==> {
            let next = n * 10 + (c as nat - '0' as nat);
            &&& next <= u64::MAX ==> number_of(text.push(c)) == Some(next as u64)
            &&& next > u64::MAX ==> number_of(text.push(c)) is None
        },
{
    assert(seq![c].drop_last() =~= Seq::<char>::empty());
    assert(digits_value(Seq::<char>::empty()) == 0);
    assert(without_plus(seq![c]) == seq![c]);
    if number_of(text) is Some {
        let digits = without_plus(text);
        assert(without_plus(text.push(c)) =~= digits.push(c));
        assert(digits.push(c).drop_last() =~= digits);
        assert forall|i: int| 0 <= i < digits.push(c).len() implies is_digit(
            #[trigger] digits.push(c)[i],
        ) by {
            if i < digits.len() {
                assert(is_digit(digits[i]));
            }
        }
    }
}

/// A plus sign in front of a number changes nothing. A text without a digit
/// denotes no number, nor does one with any character but digits, other than a
/// plus sign in front.
pub proof fn law_only_digits_denote_a_number(text: Seq<char>, i: int)
    ensures
        text.len() > 0 && text[0] != '+' ==> number_of(seq!['+'] + text) == number_of(text),
        number_of(Seq::empty()) is None,
        number_of(seq!['+']) is None,
        0 <= i < text.len() && !('0' <= text[i] <= '9') && !(i == 0 && text[i] == '+')
            ==> number_of(text) is None,
{
    let signed = seq!['+'] + text;
    assert(signed.skip(1) =~= text);
    if 0 <= i < text.len() && !('0' <= text[i] <= '9') && !(i == 0 && text[i] == '+') {
        let digits = without_plus(text);
        let at = if text[0] == '+' {
            i - 1
        } else {
            i
        };
        assert(digits[at] == text[i]);
        assert(!is_digit(digits[at]));
    }
}

proof fn lemma_leading_spaces(spaces: Seq<char>, rest: Seq<char>)
    requires
        forall|i: int| 0 <= i < spaces.len() ==> is_space(#[trigger] spaces[i]),
        rest.len() == 0 || !is_space(rest[0]),
    ensures
        leading_spaces(spaces + rest) == spaces.len(),
    decreases spaces.len(),
{
    let text = spaces + rest;
    if spaces.len() == 0 {
        assert(text =~= rest);
    } else {
        let fewer = spaces.skip(1);
        assert(text[0] == spaces[0]);
        assert forall|i: int| 0 <= i < fewer.len() implies is_space(#[trigger] fewer[i]) by {
            assert(fewer[i] == spaces[i + 1]);
        }
        lemma_leading_spaces(fewer, rest);
        assert(text.skip(1) =~= fewer + rest);
    }
}

proof fn lemma_leading_word(word: Seq<char>, rest: Seq<char>)
    requires
        forall|i: int| 0 <= i < word.len() ==> !is_space(#[trigger] word[i]),
        rest.len() == 0 || is_space(rest[0]),
    ensures
        leading_word(word + rest) == word.len(),
    decreases word.len(),
{
    let text = word + rest;
    if word.len() == 0 {
        assert(text =~= rest);
    } else {
        let fewer = word.skip(1);
        assert(text[0] == word[0]);
        assert forall|i: int| 0 <= i < fewer.len() implies !is_space(#[trigger] fewer[i]) by {
            assert(fewer[i] == word[i + 1]);
        }
        lemma_leading_word(fewer, rest);
        assert(text.skip(1) =~= fewer + rest);
    }
}

proof fn lemma_first_word(spaces: Seq<char>, word: Seq<char>, rest: Seq<char>)
    requires
        forall|i: int| 0 <= i < spaces.len() ==> is_space(#[trigger] spaces[i]),
        forall|i: int| 0 <= i < word.len() ==> !is_space(#[trigger] word[i]),
        word.len() > 0 || rest.len() == 0,
        rest.len() == 0 || is_space(rest[0]),
    ensures
        first_word(spaces + word + rest) == word,
        after_word(spaces + word + rest) == rest,
{
    let text = spaces + word + rest;
    assert(text =~= spaces + (word + rest));
    lemma_leading_spaces(spaces, word + rest);
    assert(text.skip(spaces.len() as int) =~= word + rest);
    lemma_leading_word(word, rest);
    assert((word + rest).take(word.len() as int) =~= word);
    assert((word + rest).skip(word.len() as int) =~= rest);
}

/// Of a text with two words, apart by whitespace, the second is read as a
/// number if the first is one too; what follows does not matter.
pub proof fn law_the_second_of_two_words_is_read(
    margin: Seq<char>,
    first: Seq<char>,
    gap: Seq<char>,
    second: Seq<char>,
    rest: Seq<char>,
)
    requires
        forall|i: int| 0 <= i < margin.len() ==> is_space(#[trigger] margin[i]),
        forall|i: int| 0 <= i < first.len() ==> !is_space(#[trigger] first[i]),
        forall|i: int| 0 <= i < gap.len() ==> is_space(#[trigger] gap[i]),
        forall|i: int| 0 <= i < second.len() ==> !is_space(#[trigger] second[i]),
        first.len() > 0,
        gap.len() > 0,
        second.len() > 0,
        rest.len() == 0 || is_space(rest[0]),
    ensures
        second_number(margin + first + gap + second + rest) == if number_of(first) is Some {
            number_of(second)
        } else {
            None
        },
{
    let tail = gap + second + rest;
    let text = margin + first + gap + second + rest;
    assert(text =~= margin + first + tail);
    assert(tail[0] == gap[0]);
    lemma_first_word(margin, first, tail);
    lemma_first_word(gap, second, rest);
}

/// A text of a single word, or of none, has no second number.
pub proof fn law_a_single_word_has_no_second_number(
    margin: Seq<char>,
    word: Seq<char>,
    gap: Seq<char>,
)
    requires
        forall|i: int| 0 <= i < margin.len() ==> is_space(#[trigger] margin[i]),
        forall|i: int| 0 <= i < word.len() ==> !is_space(#[trigger] word[i]),
        forall|i: int| 0 <= i < gap.len() ==> is_space(#[trigger] gap[i]),
        word.len() > 0 || gap.len() == 0,
    ensures
        second_number(margin + word + gap) is None,
{
    lemma_first_word(margin, word, gap);
    lemma_first_word(gap, Seq::empty(), Seq::empty());
    assert(gap + Seq::<char>::empty() + Seq::<char>::empty() =~= gap);
}

} // verus!
