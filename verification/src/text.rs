//! Text: comparing, lower-casing, splitting and reading numbers.

use vstd::prelude::*;
use vstd::utf8::is_ascii_chars;

verus! {

/// [`String::push`]: the character is appended to the text.
pub assume_specification[ String::push ](s: &mut String, c: char)
    ensures
        final(s)@ == old(s)@.push(c),
;

/// [`String::pop`]: the last character is removed and returned; an empty text
/// stays empty and gives nothing.
pub assume_specification[ String::pop ](s: &mut String) -> (c: Option<char>)
    ensures
        old(s)@.len() == 0 ==> c == None::<char> && final(s)@ == old(s)@,
        old(s)@.len() > 0 ==> c == Some(old(s)@.last()) && final(s)@ == old(s)@.drop_last(),
;

/// The lower-case equivalent of a text, by Unicode's rules.
pub uninterp spec fn unicode_lowercase(text: Seq<char>) -> Seq<char>;

/// An ASCII letter in lower case; any other character as it is.
pub open spec fn ascii_lower(c: char) -> char {
    if 'A' <= c <= 'Z' {
        (c as u32 + 32) as char
    } else {
        c
    }
}

/// A text with its ASCII letters in lower case.
pub open spec fn ascii_lowered(text: Seq<char>) -> Seq<char> {
    text.map_values(|c: char| ascii_lower(c))
}

/// A text in lower case. None of the letters `A` to `Z` is left in it.
pub open spec fn lower_case(text: Seq<char>) -> Seq<char> {
    if is_ascii_chars(text) {
        ascii_lowered(text)
    } else {
        ascii_lowered(unicode_lowercase(text))
    }
}

/// [`str::to_lowercase`]: the result depends on the text alone and is in lower case, so
/// that none of the letters `A` to `Z` is left in it; of a text that is all ASCII these
/// letters become `a` to `z` and nothing else changes. What Unicode's tables make of
/// other texts is left unsaid.
#[verifier::external_body]
pub(crate) fn lowercase(text: &str) -> (r: String)
    ensures
        r@ == unicode_lowercase(text@),
        r@ == ascii_lowered(r@),
        is_ascii_chars(text@) ==> r@ == ascii_lowered(text@),
{
    text.to_lowercase()
}

/// Whether a character has Unicode's `White_Space` property.
pub open spec fn unicode_white(c: char) -> bool {
    let n = c as u32;
    ||| 0x9 <= n <= 0xd
    ||| n == 0x20
    ||| n == 0x85
    ||| n == 0xa0
    ||| n == 0x1680
    ||| 0x2000 <= n <= 0x200a
    ||| n == 0x2028
    ||| n == 0x2029
    ||| n == 0x202f
    ||| n == 0x205f
    ||| n == 0x3000
}

/// Whether a character is white space.
pub fn is_white(c: char) -> (r: bool)
    ensures
        r == unicode_white(c),
{
    let n: u32 = c as u32;
    (0x9 <= n && n <= 0xd) || n == 0x20 || n == 0x85 || n == 0xa0 || n == 0x1680 || (0x2000 <= n
        && n <= 0x200a) || n == 0x2028 || n == 0x2029 || n == 0x202f || n == 0x205f || n == 0x3000
}

/// Whether two texts are the same.
pub fn str_eq(a: &str, b: &str) -> (r: bool)
    ensures
        r == (a@ == b@),
{
    a.to_owned() == b.to_owned()
}

/// The characters of a text.
pub fn chars_of(text: &str) -> (v: Vec<char>)
    ensures
        v@ == text@,
{
    let mut v: Vec<char> = Vec::new();
    for c in it: text.chars()
        invariant
            v@.len() == it.index(),
            v@ == it.seq().take(it.index() as int),
            it.seq() == text@,
    {
        v.push(c);
    }
    v
}

/// The parts of a text between the separators. There is always one part more
/// than there are separators.
pub open spec fn split_on(text: Seq<char>, sep: char) -> Seq<Seq<char>>
    decreases text.len(),
{
    if text.len() == 0 {
        seq![Seq::<char>::empty()]
    } else {
        let parts = split_on(text.drop_last(), sep);
        if text.last() == sep {
            parts.push(Seq::empty())
        } else {
            parts.drop_last().push(parts.last().push(text.last()))
        }
    }
}

/// The texts of a list.
pub open spec fn texts(list: Seq<String>) -> Seq<Seq<char>> {
    list.map_values(|s: String| s@)
}

/// Splits a text at every separator.
pub fn split(text: &str, sep: char) -> (parts: Vec<String>)
    ensures
        texts(parts@) == split_on(text@, sep),
{
    let chars = chars_of(text);
    let mut parts: Vec<String> = Vec::new();
    let mut current = String::new();
    let mut i: usize = 0;
    assert(texts(parts@).push(current@) =~= split_on(chars@.take(0), sep));
    while i < chars.len()
        invariant
            0 <= i <= chars.len(),
            texts(parts@).push(current@) == split_on(chars@.take(i as int), sep),
        decreases chars.len() - i,
    {
        let c = chars[i];
        let ghost before = texts(parts@).push(current@);
        proof {
            assert(chars@.take(i + 1).drop_last() =~= chars@.take(i as int));
            assert(chars@.take(i + 1).last() == c);
            assert(before.drop_last() =~= texts(parts@));
            assert(before.last() == current@);
        }
        if c == sep {
            parts.push(current);
            current = String::new();
            assert(texts(parts@) =~= before);
        } else {
            current.push(c);
        }
        i = i + 1;
        assert(texts(parts@).push(current@) == split_on(chars@.take(i as int), sep));
    }
    assert(chars@.take(i as int) =~= text@);
    let ghost before = texts(parts@).push(current@);
    parts.push(current);
    assert(texts(parts@) =~= before);
    parts
}

/// Parts put together again with the separator between them.
pub open spec fn join_with(parts: Seq<Seq<char>>, sep: char) -> Seq<char>
    decreases parts.len(),
{
    if parts.len() == 0 {
        Seq::empty()
    } else if parts.len() == 1 {
        parts[0]
    } else {
        join_with(parts.drop_last(), sep).push(sep) + parts.last()
    }
}

/// Joining the parts of a split gives the text back, and no part holds the
/// separator.
pub proof fn law_split_joins(text: Seq<char>, sep: char)
    ensures
        split_on(text, sep).len() >= 1,
        join_with(split_on(text, sep), sep) == text,
        forall|i: int|
            0 <= i < split_on(text, sep).len() ==> !(#[trigger] split_on(text, sep)[i]).contains(sep),
    decreases text.len(),
{
    if text.len() == 0 {
        assert(join_with(split_on(text, sep), sep) =~= text);
    } else {
        let head = text.drop_last();
        law_split_joins(head, sep);
        let parts = split_on(head, sep);
        let all = split_on(text, sep);
        assert(head.push(text.last()) =~= text);
        if text.last() == sep {
            assert(all.drop_last() =~= parts);
            assert(join_with(all, sep) =~= text);
        } else {
            assert(all.drop_last() =~= parts.drop_last());
            if parts.len() == 1 {
                assert(join_with(all, sep) =~= text);
            } else {
                assert(join_with(all, sep) =~= join_with(parts, sep).push(text.last()));
            }
            let n = parts.len() - 1;
            assert(!parts[n].contains(sep));
            assert(all[n] == parts[n].push(text.last()));
            assert forall|i: int| 0 <= i < all.len() implies !(#[trigger] all[i]).contains(sep) by {
                if i < n {
                    assert(all[i] == parts[i]);
                } else {
                    assert forall|k: int| 0 <= k < all[n].len() implies all[n][k] != sep by {
                        if k < parts[n].len() {
                            assert(parts[n][k] == all[n][k]);
                        }
                    }
                }
            }
        }
    }
}

/// The words of a text, and the word that its end belongs to (empty after white
/// space).
pub open spec fn words_and_rest(text: Seq<char>) -> (Seq<Seq<char>>, Seq<char>)
    decreases text.len(),
{
    if text.len() == 0 {
        (Seq::empty(), Seq::empty())
    } else {
        let (words, rest) = words_and_rest(text.drop_last());
        if !unicode_white(text.last()) {
            (words, rest.push(text.last()))
        } else if rest.len() > 0 {
            (words.push(rest), Seq::empty())
        } else {
            (words, rest)
        }
    }
}

/// The words of a text: its longest stretches without white space, in order.
pub open spec fn words(text: Seq<char>) -> Seq<Seq<char>> {
    let (words, rest) = words_and_rest(text);
    if rest.len() > 0 {
        words.push(rest)
    } else {
        words
    }
}

/// Splits a text at its white space.
pub fn split_words(text: &str) -> (r: Vec<String>)
    ensures
        texts(r@) == words(text@),
{
    let chars = chars_of(text);
    let mut list: Vec<String> = Vec::new();
    let mut current = String::new();
    let mut empty = true;
    let mut i: usize = 0;
    assert(texts(list@) =~= Seq::empty());
    while i < chars.len()
        invariant
            0 <= i <= chars.len(),
            (texts(list@), current@) == words_and_rest(chars@.take(i as int)),
            empty == (current@.len() == 0),
        decreases chars.len() - i,
    {
        let c = chars[i];
        let ghost before = (texts(list@), current@);
        proof {
            assert(chars@.take(i + 1).drop_last() =~= chars@.take(i as int));
            assert(chars@.take(i + 1).last() == c);
        }
        if !is_white(c) {
            current.push(c);
            empty = false;
        } else if !empty {
            list.push(current);
            current = String::new();
            empty = true;
            assert(texts(list@) =~= before.0.push(before.1));
        }
        i = i + 1;
    }
    assert(chars@.take(i as int) =~= text@);
    if !empty {
        let ghost before = texts(list@);
        list.push(current);
        assert(texts(list@) =~= before.push(current@));
    }
    list
}

/// A digit of a decimal number.
pub open spec fn is_digit(c: char) -> bool {
    '0' <= c <= '9'
}

/// The number that a run of decimal digits stands for.
pub open spec fn decimal_value(digits: Seq<char>) -> nat
    decreases digits.len(),
{
    if digits.len() == 0 {
        0
    } else {
        10 * decimal_value(digits.drop_last()) + (digits.last() as u32 - '0' as u32) as nat
    }
}

/// A text without a leading plus sign.
pub open spec fn without_plus(text: Seq<char>) -> Seq<char> {
    if text.len() > 0 && text[0] == '+' {
        text.drop_first()
    } else {
        text
    }
}

/// The number that a text stands for: an optional plus sign and then only
/// decimal digits, at least one, of a value that fits.
pub open spec fn number_in(text: Seq<char>) -> Option<usize> {
    let digits = without_plus(text);
    if digits.len() > 0 && (forall|i: int| 0 <= i < digits.len() ==> is_digit(#[trigger] digits[i]))
        && decimal_value(digits) <= usize::MAX {
        Some(decimal_value(digits) as usize)
    } else {
        None
    }
}

proof fn lemma_decimal_grows(digits: Seq<char>, n: int)
    requires
        0 <= n <= digits.len(),
    ensures
        decimal_value(digits.take(n)) <= decimal_value(digits),
    decreases digits.len(),
{
    if n < digits.len() {
        lemma_decimal_grows(digits.drop_last(), n);
        assert(digits.drop_last().take(n) =~= digits.take(n));
    } else {
        assert(digits.take(n) =~= digits);
    }
}

/// Reads an unsigned number.
pub fn parse_usize(text: &str) -> (r: Option<usize>)
    ensures
        r == number_in(text@),
{
    let chars = chars_of(text);
    let start: usize = if chars.len() > 0 && chars[0] == '+' {
        1
    } else {
        0
    };
    let ghost digits = without_plus(chars@);
    assert(digits =~= chars@.skip(start as int));
    if start == chars.len() {
        return None;
    }
    let mut value: usize = 0;
    let mut i: usize = start;
    assert(digits.take(0).len() == 0);
    while i < chars.len()
        invariant
            start <= i <= chars.len(),
            chars@ == text@,
            digits == without_plus(text@),
            digits == chars@.skip(start as int),
            digits.len() > 0,
            value == decimal_value(digits.take(i - start)),
            forall|k: int| 0 <= k < i - start ==> is_digit(#[trigger] digits[k]),
        decreases chars.len() - i,
    {
        let c = chars[i];
        assert(digits[i - start] == c);
        if !('0' <= c && c <= '9') {
            assert(!is_digit(digits[i - start]));
            return None;
        }
        let digit: usize = (c as u32 - '0' as u32) as usize;
        proof {
            assert(digits.take(i - start + 1).drop_last() =~= digits.take(i - start));
            lemma_decimal_grows(digits, i - start + 1);
        }
        match value.checked_mul(10) {
            None => {
                return None;
            },
            Some(tens) => match tens.checked_add(digit) {
                None => {
                    return None;
                },
                Some(sum) => {
                    value = sum;
                },
            },
        }
        i = i + 1;
    }
    assert(digits.take(i - start) =~= digits);
    Some(value)
}

/// Splitting at a character of white space splits the words there and nowhere else: those
/// of the two parts follow each other. A text without white space is one word, if it is
/// not empty.
pub proof fn law_words_split_at_white(a: Seq<char>, c: char, b: Seq<char>)
    ensures
        unicode_white(c) ==> words(a.push(c) + b) == words(a) + words(b),
        a.len() > 0 && (forall|i: int| 0 <= i < a.len() ==> !unicode_white(#[trigger] a[i]))
            ==> words(a) == seq![a],
        words(Seq::<char>::empty()).len() == 0,
{
    if unicode_white(c) {
        lemma_words_after(a.push(c), b);
        assert(a.push(c).drop_last() =~= a);
        let (w, rest) = words_and_rest(a.push(c) + b);
        let (wb, rb) = words_and_rest(b);
        if rest.len() > 0 {
            assert((words(a) + wb).push(rest) =~= words(a) + wb.push(rest));
        }
    }
    if a.len() > 0 && (forall|i: int| 0 <= i < a.len() ==> !unicode_white(#[trigger] a[i])) {
        lemma_one_word(a);
        assert(Seq::<Seq<char>>::empty().push(a) =~= seq![a]);
    }
}

proof fn lemma_one_word(a: Seq<char>)
    requires
        forall|i: int| 0 <= i < a.len() ==> !unicode_white(#[trigger] a[i]),
    ensures
        words_and_rest(a) == (Seq::<Seq<char>>::empty(), a),
    decreases a.len(),
{
    if a.len() > 0 {
        let head = a.drop_last();
        assert forall|i: int| 0 <= i < head.len() implies !unicode_white(#[trigger] head[i]) by {
            assert(head[i] == a[i]);
        }
        lemma_one_word(head);
        assert(head.push(a.last()) =~= a);
    } else {
        assert(a =~= Seq::<char>::empty());
    }
}

/// After white space the words start anew.
proof fn lemma_words_after(a: Seq<char>, b: Seq<char>)
    requires
        words_and_rest(a).1.len() == 0,
    ensures
        words_and_rest(a + b) == (
            words_and_rest(a).0 + words_and_rest(b).0,
            words_and_rest(b).1,
        ),
    decreases b.len(),
{
    if b.len() == 0 {
        assert(a + b =~= a);
        assert(words_and_rest(a).0 + words_and_rest(b).0 =~= words_and_rest(a).0);
        assert(words_and_rest(a).1 =~= Seq::<char>::empty());
    } else {
        lemma_words_after(a, b.drop_last());
        assert((a + b).drop_last() =~= a + b.drop_last());
        assert((a + b).last() == b.last());
        let (wa, wb) = (words_and_rest(a).0, words_and_rest(b.drop_last()).0);
        let rest = words_and_rest(b.drop_last()).1;
        assert((wa + wb).push(rest) =~= wa + wb.push(rest));
    }
}

/// A number grows tenfold with each further digit, and the digit is added.
pub proof fn law_number_by_digits(text: Seq<char>, n: usize, d: u8)
    requires
        number_in(text) == Some(n),
        d < 10,
        10 * n + d <= usize::MAX,
    ensures
        number_in(text.push((d + 48) as char)) == Some((10 * n + d) as usize),
        number_in(seq![(d + 48) as char]) == Some(d as usize),
        number_in(seq!['+'] + seq![(d + 48) as char]) == Some(d as usize),
{
    let c = (d + 48) as char;
    assert(is_digit(c));
    let digits = without_plus(text);
    let more = text.push(c);
    assert(without_plus(more) =~= digits.push(c));
    assert(digits.push(c).drop_last() =~= digits);
    assert forall|i: int| 0 <= i < digits.push(c).len() implies is_digit(
        #[trigger] digits.push(c)[i],
    ) by {
        if i < digits.len() {
            assert(digits.push(c)[i] == digits[i]);
        }
    }
    let one = seq![c];
    assert(one.drop_last() =~= Seq::<char>::empty());
    reveal_with_fuel(decimal_value, 2);
    assert(without_plus(one) == one);
    assert(without_plus(seq!['+'] + one) =~= one);
    assert forall|i: int| 0 <= i < one.len() implies is_digit(#[trigger] one[i]) by {}
}

} // verus!
