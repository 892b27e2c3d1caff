//! The string operations of `std` that the server relies on.
use vstd::prelude::*;

verus! {

////////////////////////////////////////////////////////////////////////////////
// Decoding
////////////////////////////////////////////////////////////////////////////////

/// `String::from_utf8`: the string that the bytes encode, exactly where they are
/// well-formed UTF-8.
#[verifier::external_body]
pub(crate) fn string_from_utf8(bytes: Vec<u8>) -> (text: Option<String>)
    ensures
        text is Some == vstd::utf8::valid_utf8(bytes@),
        text is Some ==> text->0@ == vstd::utf8::decode_utf8(bytes@),
{
    String::from_utf8(bytes).ok()
}

////////////////////////////////////////////////////////////////////////////////
// Upper case
////////////////////////////////////////////////////////////////////////////////

/// The upper-case equivalent of a text, by the rules of Unicode.
pub uninterp spec fn uppercase(text: Seq<char>) -> Seq<char>;

/// `str::to_uppercase`: the upper-case equivalent of a text, which depends on the
/// text alone.
#[verifier::external_body]
pub(crate) fn str_to_uppercase(text: &str) -> (upper: String)
    ensures
        upper@ == uppercase(text@),
{
    text.to_uppercase()
}

////////////////////////////////////////////////////////////////////////////////
// Trimming
////////////////////////////////////////////////////////////////////////////////

/// Whether a character has the Unicode property `White_Space`.
pub open spec fn is_white_space(c: char) -> bool {
    ||| 0x9 <= c as int <= 0xd
    ||| c as int == 0x20
    ||| c as int == 0x85
    ||| c as int == 0xa0
    ||| c as int == 0x1680
    ||| 0x2000 <= c as int <= 0x200a
    ||| c as int == 0x2028
    ||| c as int == 0x2029
    ||| c as int == 0x202f
    ||| c as int == 0x205f
    ||| c as int == 0x3000
}

/// A text without the white space at its start.
pub open spec fn trimmed_start(text: Seq<char>) -> Seq<char>
    decreases text.len(),
{
    if text.len() > 0 && is_white_space(text.first()) {
        trimmed_start(text.drop_first())
    } else {
        text
    }
}

/// A text without the white space at its end.
pub open spec fn trimmed_end(text: Seq<char>) -> Seq<char>
    decreases text.len(),
{
    if text.len() > 0 && is_white_space(text.last()) {
        trimmed_end(text.drop_last())
    } else {
        text
    }
}

/// A text without the white space around it.
pub open spec fn trimmed(text: Seq<char>) -> Seq<char> {
    trimmed_end(trimmed_start(text))
}

/// `str::trim`: the text without the white space around it.
#[verifier::external_body]
pub(crate) fn str_trim(text: &str) -> (inner: &str)
    ensures
        inner@ == trimmed(text@),
{
    text.trim()
}

////////////////////////////////////////////////////////////////////////////////
// Numbers
////////////////////////////////////////////////////////////////////////////////

/// Whether a character is one of the ten ASCII digits.
pub open spec fn is_digit(c: char) -> bool {
    '0' <= c <= '9'
}

/// The number that a sequence of digits stands for.
pub open spec fn decimal_value(digits: Seq<char>) -> nat
    decreases digits.len(),
{
    if digits.len() == 0 {
        0
    } else {
        10 * decimal_value(digits.drop_last()) + (digits.last() as int - '0' as int) as nat
    }
}

/// Whether all characters are digits.
pub open spec fn all_digits(digits: Seq<char>) -> bool {
    forall|i: int| 0 <= i < digits.len() ==> is_digit(#[trigger] digits[i])
}

/// The number that a text stands for: an optional `+`, and then digits alone.
pub open spec fn parsed(text: Seq<char>) -> Option<nat> {
    let digits = if text.len() > 0 && text[0] == '+' {
        text.drop_first()
    } else {
        text
    };
    if digits.len() > 0 && all_digits(digits) {
        Some(decimal_value(digits))
    } else {
        None
    }
}

/// The number that a text stands for, where it fits into a `usize`.
pub open spec fn parsed_usize(text: Seq<char>) -> Option<usize> {
    match parsed(text) {
        Some(number) => if number <= usize::MAX {
            Some(number as usize)
        } else {
            None
        },
        None => None,
    }
}

/// `str::parse::<usize>`: the number that a text stands for, an optional `+` and
/// digits, where there is one and it fits.
#[verifier::external_body]
pub(crate) fn str_parse_usize(text: &str) -> (number: Option<usize>)
    ensures
        number == parsed_usize(text@),
{
    text.parse::<usize>().ok()
}

////////////////////////////////////////////////////////////////////////////////
// Laws
////////////////////////////////////////////////////////////////////////////////

/// Whether a text is nothing but white space.
pub open spec fn is_blank(text: Seq<char>) -> bool {
    forall|i: int| 0 <= i < text.len() ==> is_white_space(#[trigger] text[i])
}

proof fn lemma_trimmed_start(blank: Seq<char>, text: Seq<char>)
    requires
        is_blank(blank),
        text.len() > 0,
        !is_white_space(text.first()),
    ensures
        trimmed_start(blank + text) == text,
    decreases blank.len(),
{
    if blank.len() == 0 {
        assert(blank + text =~= text);
    } else {
        assert((blank + text).first() == blank[0]);
        assert((blank + text).drop_first() =~= blank.drop_first() + text);
        assert(is_blank(blank.drop_first()));
        lemma_trimmed_start(blank.drop_first(), text);
    }
}

proof fn lemma_trimmed_end(text: Seq<char>, blank: Seq<char>)
    requires
        is_blank(blank),
        text.len() > 0,
        !is_white_space(text.last()),
    ensures
        trimmed_end(text + blank) == text,
    decreases blank.len(),
{
    if blank.len() == 0 {
        assert(text + blank =~= text);
    } else {
        assert((text + blank).last() == blank[blank.len() - 1]);
        assert((text + blank).drop_last() =~= text + blank.drop_last());
        assert(is_blank(blank.drop_last()));
        lemma_trimmed_end(text, blank.drop_last());
    }
}

/// Trimming takes away exactly the white space around a text that neither starts
/// nor ends with any.
pub proof fn law_trimming(before: Seq<char>, text: Seq<char>, after: Seq<char>)
    requires
        is_blank(before),
        is_blank(after),
        text.len() > 0,
        !is_white_space(text.first()),
        !is_white_space(text.last()),
    ensures
        trimmed(before + text + after) == text,
{
    let rest = text + after;
    assert(before + text + after =~= before + rest);
    assert(rest.first() == text.first());
    lemma_trimmed_start(before, rest);
    lemma_trimmed_end(text, after);
}

proof fn lemma_trimmed_start_is_inner(text: Seq<char>) -> (i: int)
    ensures
        0 <= i <= text.len(),
        trimmed_start(text) == text.skip(i),
        is_blank(text.take(i)),
        i < text.len() ==> !is_white_space(text[i]),
    decreases text.len(),
{
    if text.len() > 0 && is_white_space(text.first()) {
        let i = lemma_trimmed_start_is_inner(text.drop_first());
        assert(text.drop_first().skip(i) =~= text.skip(i + 1));
        assert forall|j: int| 0 <= j < i + 1 implies is_white_space(
            #[trigger] text.take(i + 1)[j],
        ) by {
            if j > 0 {
                assert(text.take(i + 1)[j] == text.drop_first().take(i)[j - 1]);
            }
        }
        i + 1
    } else {
        assert(text.skip(0) =~= text);
        0
    }
}

proof fn lemma_trimmed_end_is_inner(text: Seq<char>) -> (i: int)
    ensures
        0 <= i <= text.len(),
        trimmed_end(text) == text.take(i),
        is_blank(text.skip(i)),
        i > 0 ==> !is_white_space(text[i - 1]),
    decreases text.len(),
{
    if text.len() > 0 && is_white_space(text.last()) {
        let i = lemma_trimmed_end_is_inner(text.drop_last());
        assert(text.drop_last().take(i) =~= text.take(i));
        assert forall|j: int| 0 <= j < text.len() - i implies is_white_space(
            #[trigger] text.skip(i)[j],
        ) by {
            if j < text.len() - 1 - i {
                assert(text.skip(i)[j] == text.drop_last().skip(i)[j]);
            }
        }
        i
    } else {
        assert(text.take(text.len() as int) =~= text);
        text.len() as int
    }
}

/// What is left of a text by trimming is a part of it. There is nothing but white space
/// before and after that part, and it neither starts nor ends with any.
pub proof fn law_trimmed_is_the_inner_part(text: Seq<char>) -> (bounds: (int, int))
    ensures
        0 <= bounds.0 <= bounds.1 <= text.len(),
        trimmed(text) == text.subrange(bounds.0, bounds.1),
        forall|i: int|
            0 <= i < bounds.0 || bounds.1 <= i < text.len() ==> is_white_space(#[trigger] text[i]),
        bounds.0 < bounds.1 ==> !is_white_space(text[bounds.0]) && !is_white_space(
            text[bounds.1 - 1],
        ),
{
    let i = lemma_trimmed_start_is_inner(text);
    let rest = text.skip(i);
    let j = lemma_trimmed_end_is_inner(rest);
    assert(rest.take(j) =~= text.subrange(i, i + j));
    assert forall|k: int| 0 <= k < i || i + j <= k < text.len() implies is_white_space(
        #[trigger] text[k],
    ) by {
        if k < i {
            assert(text.take(i)[k] == text[k]);
        } else {
            assert(rest.skip(j)[k - i - j] == text[k]);
        }
    }
    (i, i + j)
}

/// Nothing is left of a text that is nothing but white space.
pub proof fn law_blank_text_is_trimmed_to_nothing(text: Seq<char>)
    requires
        forall|i: int| 0 <= i < text.len() ==> is_white_space(#[trigger] text[i]),
    ensures
        trimmed(text).len() == 0,
{
    let bounds = law_trimmed_is_the_inner_part(text);
    if bounds.0 < bounds.1 {
        assert(is_white_space(text[bounds.0]));
    }
}

/// Of the ASCII characters, tab, line feed, vertical tab, form feed, carriage return
/// and the space are white space, and no others. Of the other characters, these are
/// the next line, the no-break space, the spaces of Unicode and its two separators.
pub proof fn law_white_space(c: char)
    ensures
        (c as int) < 0x80 ==> (is_white_space(c) <==> c == ' ' || c == '\t' || c == '\n' || c
            == '\r' || c as int == 0xb || c as int == 0xc),
        (c as int) >= 0x80 ==> (is_white_space(c) <==> c == '\u{85}' || c == '\u{a0}' || c
            == '\u{1680}' || '\u{2000}' <= c <= '\u{200a}' || c == '\u{2028}' || c == '\u{2029}'
            || c == '\u{202f}' || c == '\u{205f}' || c == '\u{3000}'),
{
}

/// A text that stands for a number is made of digits, after a plus sign or not, and
/// each digit counts ten times as much as the one after it. A text with any other
/// character in it stands for none, and neither does one without a digit.
pub proof fn law_numbers_are_read_by_their_digits(digits: Seq<char>, c: char)
    ensures
        parsed(Seq::empty()) is None,
        parsed(seq!['+']) is None,
        0x30 <= c as int <= 0x39 ==> parsed(seq![c]) == Some((c as int - 0x30) as nat),
        digits.len() > 0 && parsed(digits) is Some && 0x30 <= c as int <= 0x39 ==> parsed(
            digits.push(c),
        ) == Some(10 * parsed(digits)->Some_0 + (c as int - 0x30) as nat),
        digits.len() > 0 && !(0x30 <= c as int <= 0x39) ==> parsed(digits.push(c)) is None,
        digits.len() > 0 && digits != seq!['+'] && parsed(digits) is None ==> parsed(
            digits.push(c),
        ) is None,
        digits.len() > 0 && digits[0] != '+' ==> parsed(seq!['+'] + digits) == parsed(digits),
{
    lemma_parsed_push(Seq::empty(), c);
    lemma_parsed_push(digits, c);
    assert(seq!['+'].drop_first() =~= Seq::<char>::empty());
    assert(Seq::<char>::empty().push(c) =~= seq![c]);
    assert((seq!['+'] + digits).drop_first() =~= digits);
    if digits.len() == 1 && digits[0] == '+' {
        assert(digits =~= seq!['+']);
    }
}

/// The digits of a text: what follows the plus sign, if there is one.
spec fn unsigned(text: Seq<char>) -> Seq<char> {
    if text.len() > 0 && text[0] == '+' {
        text.drop_first()
    } else {
        text
    }
}

proof fn lemma_parsed_push(text: Seq<char>, c: char)
    ensures
        ({
            let digits = unsigned(text);
            let more = unsigned(text.push(c));
            &&& text.len() == 0 && c == '+' ==> more.len() == 0
            &&& text.len() > 0 || c != '+' ==> {
                &&& more == digits.push(c)
                &&& all_digits(more) <==> all_digits(digits) && 0x30 <= c as int <= 0x39
                &&& 0x30 <= c as int <= 0x39 ==> decimal_value(more) == 10 * decimal_value(digits)
                    + (c as int - 0x30) as nat
            }
        }),
        decimal_value(Seq::empty()) == 0,
{
    let digits = unsigned(text);
    let more = unsigned(text.push(c));
    if text.len() > 0 || c != '+' {
        assert(more =~= digits.push(c));
        assert(more.drop_last() =~= digits);
        assert(more[more.len() - 1] == c);
        if all_digits(more) {
            assert forall|i: int| 0 <= i < digits.len() implies is_digit(#[trigger] digits[i]) by {
                assert(more[i] == digits[i]);
            }
        }
    }
}

/// A number is read exactly if it fits into a `usize`.
pub proof fn law_numbers_that_fit_are_read(text: Seq<char>, number: usize)
    ensures
        parsed_usize(text) == Some(number) <==> parsed(text) == Some(number as nat),
        parsed_usize(text) is None <==> parsed(text) is None || parsed(text)->Some_0 > usize::MAX,
{
}

/// The digit for a number below ten.
pub open spec fn digit(number: nat) -> char {
    ('0' as int + number) as char
}

/// A number in decimal notation.
pub open spec fn decimal(number: nat) -> Seq<char>
    decreases number,
{
    if number < 10 {
        seq![digit(number)]
    } else {
        decimal(number / 10).push(digit(number % 10))
    }
}

proof fn lemma_decimal(number: nat)
    ensures
        decimal(number).len() > 0,
        all_digits(decimal(number)),
        decimal_value(decimal(number)) == number,
    decreases number,
{
    if number < 10 {
        let digits = decimal(number);
        assert(digits.drop_last() =~= Seq::<char>::empty());
        assert(digits.last() == digit(number));
        assert(decimal_value(Seq::<char>::empty()) == 0);
    } else {
        lemma_decimal(number / 10);
        let digits = decimal(number);
        assert(digits.drop_last() =~= decimal(number / 10));
        assert(digits.last() == digit(number % 10));
    }
}

/// Parsing a number in decimal notation gives the number back.
pub proof fn law_decimal_parses(number: usize)
    ensures
        parsed_usize(decimal(number as nat)) == Some(number),
        decimal(number as nat).len() > 0,
        !is_white_space(decimal(number as nat).first()),
        !is_white_space(decimal(number as nat).last()),
{
    let digits = decimal(number as nat);
    lemma_decimal(number as nat);
    assert(is_digit(digits[0]));
    assert(is_digit(digits[digits.len() - 1]));
}

} // verus!
