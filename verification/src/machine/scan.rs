//! Character-level scanning: the characters of a text, character classes,
//! and the runs of characters that the control language is made of.

use vstd::prelude::*;

verus! {

/// Whether a character has the Unicode `White_Space` property.
pub uninterp spec fn whitespace(c: char) -> bool;

/// Whether a character has the Unicode `Alphabetic` property.
pub uninterp spec fn alphabetic(c: char) -> bool;

/// `char::is_whitespace` of the standard library: its answer depends on the
/// character alone, and is given the name `whitespace`.
pub assume_specification[ char::is_whitespace ](c: char) -> (b: bool)
    ensures
        b == whitespace(c),
;

/// `char::is_alphabetic` of the standard library: its answer depends on the
/// character alone, and is given the name `alphabetic`.
pub assume_specification[ char::is_alphabetic ](c: char) -> (b: bool)
    ensures
        b == alphabetic(c),
;

/// `String::push` of the standard library appends one character.
pub assume_specification[ String::push ](s: &mut String, c: char)
    ensures
        final(s)@ == old(s)@.push(c),
;

/// The characters of a text, in order.
pub(crate) fn characters(text: &str) -> (chars: Vec<char>)
    ensures
        chars@ == text@,
{
    let mut chars: Vec<char> = Vec::new();
    for c in it: text.chars()
        invariant
            chars@ == it.seq().take(it.index()),
    {
        chars.push(c);
    }
    chars
}

/// The text made of the characters of `chars` from `from` up to `to`.
pub(crate) fn text_between(chars: &Vec<char>, from: usize, to: usize) -> (text: String)
    requires
        from <= to <= chars.len(),
    ensures
        text@ == chars@.subrange(from as int, to as int),
{
    let mut text = String::new();
    let mut i: usize = from;
    while i < to
        invariant
            from <= i <= to <= chars.len(),
            text@ == chars@.subrange(from as int, i as int),
        decreases to - i,
    {
        text.push(chars[i]);
        i += 1;
        assert(chars@.subrange(from as int, i as int) == chars@.subrange(from as int, i - 1).push(
            chars@[i - 1],
        ));
    }
    text
}

/// The characters, besides letters, that an identifier may hold.
pub open spec fn ident_symbol(c: char) -> bool {
    c == '_' || c == '-' || c == '=' || c == '>' || c == '<' || c == '?' || c == '+' || c == '*'
        || c == '/' || c == '&' || c == '^' || c == '%' || c == '!'
}

/// A character of an identifier: a letter or one of the identifier symbols.
pub open spec fn ident_char(c: char) -> bool {
    alphabetic(c) || ident_symbol(c)
}

/// A decimal digit.
pub open spec fn digit(c: char) -> bool {
    '0' <= c && c <= '9'
}

/// The number that a decimal digit stands for.
pub open spec fn digit_value(c: char) -> nat {
    (c as nat - '0' as nat) as nat
}

/// Where the run of characters that satisfy `class` and starts at `i` ends:
/// the first position from `i` on that holds no such character.
pub open spec fn run_end(s: Seq<char>, i: int, class: spec_fn(char) -> bool) -> int
    decreases s.len() - i,
{
    if 0 <= i < s.len() && class(s[i]) {
        run_end(s, i + 1, class)
    } else {
        i
    }
}

/// The first position from `i` on that holds no whitespace.
pub open spec fn spaces_end(s: Seq<char>, i: int) -> int {
    run_end(s, i, |c: char| whitespace(c))
}

/// The end of the run of identifier characters that starts at `i`.
pub open spec fn ident_end(s: Seq<char>, i: int) -> int {
    run_end(s, i, |c: char| ident_char(c))
}

/// The end of the run of decimal digits that starts at `i`.
pub open spec fn digits_end(s: Seq<char>, i: int) -> int {
    run_end(s, i, |c: char| digit(c))
}

/// The end of the word that starts at `i`: the first whitespace from `i` on,
/// or the end of the text.
pub open spec fn word_end(s: Seq<char>, i: int) -> int {
    run_end(s, i, |c: char| !whitespace(c))
}

/// The value of a sequence of decimal digits, most significant first.
pub open spec fn decimal(digits: Seq<char>) -> nat
    decreases digits.len(),
{
    if digits.len() == 0 {
        0
    } else {
        decimal(digits.drop_last()) * 10 + digit_value(digits.last())
    }
}

/// The decimal digit that stands for a number below ten.
pub open spec fn digit_of(d: nat) -> char {
    if d == 0 {
        '0'
    } else if d == 1 {
        '1'
    } else if d == 2 {
        '2'
    } else if d == 3 {
        '3'
    } else if d == 4 {
        '4'
    } else if d == 5 {
        '5'
    } else if d == 6 {
        '6'
    } else if d == 7 {
        '7'
    } else if d == 8 {
        '8'
    } else {
        '9'
    }
}

/// The decimal digits of a number, most significant first, without leading
/// zeros.
pub open spec fn decimal_digits(n: nat) -> Seq<char>
    decreases n,
{
    if n < 10 {
        seq![digit_of(n)]
    } else {
        decimal_digits(n / 10).push(digit_of(n % 10))
    }
}

/// The digits of a number are decimal digits, and stand for that number:
/// what is written out as a number is read back as the same number.
pub proof fn law_digits_stand_for_their_number(n: nat)
    ensures
        decimal_digits(n).len() > 0,
        forall|k: int| 0 <= k < decimal_digits(n).len() ==> digit(#[trigger] decimal_digits(n)[k]),
        decimal(decimal_digits(n)) == n,
    decreases n,
{
    if n < 10 {
        let digits = seq![digit_of(n)];
        assert(digits.drop_last() == Seq::<char>::empty());
        assert(decimal(digits.drop_last()) == 0);
        assert(digit_value(digits.last()) == n);
    } else {
        law_digits_stand_for_their_number(n / 10);
        let digits = decimal_digits(n);
        assert(digits.drop_last() == decimal_digits(n / 10));
        assert(digit_value(digits.last()) == n % 10);
    }
}

/// Whether `word` stands in `s` at position `i`.
pub open spec fn has_word(s: Seq<char>, i: int, word: Seq<char>) -> bool {
    0 <= i && i + word.len() <= s.len() && s.subrange(i, i + word.len()) == word
}

/// A run lies within the text, holds only characters of its class, and is
/// followed by none.
pub proof fn lemma_run_end(s: Seq<char>, i: int, class: spec_fn(char) -> bool)
    requires
        0 <= i <= s.len(),
    ensures
        i <= run_end(s, i, class) <= s.len(),
        forall|k: int| i <= k < run_end(s, i, class) ==> class(#[trigger] s[k]),
        run_end(s, i, class) < s.len() ==> !class(s[run_end(s, i, class)]),
    decreases s.len() - i,
{
    if i < s.len() && class(s[i]) {
        lemma_run_end(s, i + 1, class);
    }
}

/// The first position from `start` on that holds no whitespace.
pub(crate) fn skip_whitespace(input: &Vec<char>, start: usize) -> (end: usize)
    requires
        start <= input.len(),
    ensures
        end == spaces_end(input@, start as int),
        start <= end <= input.len(),
{
    let mut i: usize = start;
    while i < input.len() && input[i].is_whitespace()
        invariant
            start <= i <= input.len(),
            spaces_end(input@, i as int) == spaces_end(input@, start as int),
        decreases input.len() - i,
    {
        i += 1;
    }
    i
}

/// The end of the run of identifier characters that starts at `start`.
pub(crate) fn scan_ident(input: &Vec<char>, start: usize) -> (end: usize)
    requires
        start <= input.len(),
    ensures
        end == ident_end(input@, start as int),
        start <= end <= input.len(),
{
    let mut i: usize = start;
    while i < input.len() && is_allowed_in_ident(input[i])
        invariant
            start <= i <= input.len(),
            ident_end(input@, i as int) == ident_end(input@, start as int),
        decreases input.len() - i,
    {
        i += 1;
    }
    i
}

/// The end of the word that starts at `start`.
pub(crate) fn scan_word(input: &Vec<char>, start: usize) -> (end: usize)
    requires
        start <= input.len(),
    ensures
        end == word_end(input@, start as int),
        start <= end <= input.len(),
{
    let mut i: usize = start;
    while i < input.len() && !input[i].is_whitespace()
        invariant
            start <= i <= input.len(),
            word_end(input@, i as int) == word_end(input@, start as int),
        decreases input.len() - i,
    {
        i += 1;
    }
    i
}

/// Appends the decimal digits of `n` to `text`.
pub(crate) fn push_decimal(text: &mut String, n: usize)
    ensures
        final(text)@ == old(text)@ + decimal_digits(n as nat),
    decreases n,
{
    if n >= 10 {
        push_decimal(text, n / 10);
    }
    let d: usize = n % 10;
    let c: char = if d == 0 {
        '0'
    } else if d == 1 {
        '1'
    } else if d == 2 {
        '2'
    } else if d == 3 {
        '3'
    } else if d == 4 {
        '4'
    } else if d == 5 {
        '5'
    } else if d == 6 {
        '6'
    } else if d == 7 {
        '7'
    } else if d == 8 {
        '8'
    } else {
        '9'
    };
    text.push(c);
    proof {
        if n < 10 {
            assert(text@ =~= old(text)@ + seq![digit_of(n as nat)]);
        } else {
            assert(text@ =~= old(text)@ + decimal_digits((n / 10) as nat).push(
                digit_of((n % 10) as nat),
            ));
        }
    }
}

/// Whether a character may stand in an identifier.
pub(crate) fn is_allowed_in_ident(c: char) -> (allowed: bool)
    ensures
        allowed == ident_char(c),
{
    c.is_alphabetic() || c == '_' || c == '-' || c == '=' || c == '>' || c == '<' || c == '?'
        || c == '+' || c == '*' || c == '/' || c == '&' || c == '^' || c == '%' || c == '!'
}

/// Whether `word` stands in `input` at position `start`.
pub(crate) fn starts_with(input: &Vec<char>, start: usize, word: &str) -> (found: bool)
    requires
        start <= input.len(),
    ensures
        found == has_word(input@, start as int, word@),
{
    let letters = characters(word);
    if letters.len() > input.len() - start {
        return false;
    }
    let mut k: usize = 0;
    while k < letters.len()
        invariant
            start <= input.len(),
            letters@ == word@,
            letters.len() <= input.len() - start,
            k <= letters.len(),
            input@.subrange(start as int, start + k) == letters@.take(k as int),
        decreases letters.len() - k,
    {
        if input[start + k] != letters[k] {
            assert(input@.subrange(start as int, start + letters.len())[k as int]
                != letters@[k as int]);
            return false;
        }
        k += 1;
        assert(input@.subrange(start as int, start + k) == input@.subrange(
            start as int,
            start + k - 1,
        ).push(input@[start + k - 1]));
        assert(letters@.take(k as int) == letters@.take(k - 1).push(letters@[k - 1]));
    }
    assert(letters@.take(k as int) == letters@);
    true
}

} // verus!
