//! What trimming, searching and writing numbers come to.

use vstd::prelude::*;

use crate::text;

verus! {

/// Whether a character is blank: a tab, a line break or a space of one of the kinds that Unicode
/// counts as white space.
pub open spec fn is_blank(c: char) -> bool {
    set![
        0x9int, 0xa, 0xb, 0xc, 0xd, 0x20, 0x85, 0xa0, 0x1680, 0x2000, 0x2001, 0x2002, 0x2003,
        0x2004, 0x2005, 0x2006, 0x2007, 0x2008, 0x2009, 0x200a, 0x2028, 0x2029, 0x202f, 0x205f,
        0x3000,
    ].contains(c as int)
}

proof fn lemma_blank(c: char)
    ensures
        text::is_white_space(c) == is_blank(c),
{
}

/// Whether `part` is what stands in `text` from `start` to `end`, nothing but blanks stand around it,
/// and it neither begins nor ends in one.
pub open spec fn is_core(text: Seq<char>, part: Seq<char>, start: int, end: int) -> bool {
    &&& 0 <= start <= end <= text.len()
    &&& part == text.subrange(start, end)
    &&& forall|i: int| 0 <= i < start ==> is_blank(#[trigger] text[i])
    &&& forall|i: int| end <= i < text.len() ==> is_blank(#[trigger] text[i])
    &&& part.len() > 0 ==> !is_blank(part.first()) && !is_blank(part.last())
}

proof fn lemma_trimmed_start(whole: Seq<char>) -> (start: int)
    ensures
        0 <= start <= whole.len(),
        text::trimmed_start(whole) == whole.skip(start),
        forall|i: int| 0 <= i < start ==> is_blank(#[trigger] whole[i]),
        start < whole.len() ==> !is_blank(whole[start]),
    decreases whole.len(),
{
    if whole.len() > 0 && text::is_white_space(whole.first()) {
        let rest = lemma_trimmed_start(whole.drop_first());
        lemma_blank(whole.first());
        assert(whole.drop_first().skip(rest) =~= whole.skip(rest + 1));
        assert forall|i: int| 0 <= i < rest + 1 implies is_blank(#[trigger] whole[i]) by {
            if i > 0 {
                assert(whole.drop_first()[i - 1] == whole[i]);
            }
        }
        rest + 1
    } else {
        assert(whole.skip(0) =~= whole);
        if whole.len() > 0 {
            lemma_blank(whole.first());
        }
        0
    }
}

proof fn lemma_trimmed_end(whole: Seq<char>) -> (end: int)
    ensures
        0 <= end <= whole.len(),
        text::trimmed_end(whole) == whole.take(end),
        forall|i: int| end <= i < whole.len() ==> is_blank(#[trigger] whole[i]),
        end > 0 ==> !is_blank(whole[end - 1]),
    decreases whole.len(),
{
    if whole.len() > 0 && text::is_white_space(whole.last()) {
        let end = lemma_trimmed_end(whole.drop_last());
        lemma_blank(whole.last());
        assert(whole.drop_last().take(end) =~= whole.take(end));
        assert forall|i: int| end <= i < whole.len() implies is_blank(#[trigger] whole[i]) by {
            if i < whole.len() - 1 {
                assert(whole.drop_last()[i] == whole[i]);
            }
        }
        end
    } else {
        assert(whole.take(whole.len() as int) =~= whole);
        if whole.len() > 0 {
            lemma_blank(whole.last());
        }
        whole.len() as int
    }
}

/// What is left of a text that was trimmed stands in it between blanks, and neither begins nor ends
/// in one.
pub proof fn law_trimming_takes_off_blanks(whole: Seq<char>)
    ensures
        exists|start: int, end: int| is_core(whole, text::trimmed(whole), start, end),
{
    let start = lemma_trimmed_start(whole);
    let rest = whole.skip(start);
    let length = lemma_trimmed_end(rest);
    let end = start + length;
    assert(text::trimmed(whole) =~= whole.subrange(start, end));
    assert forall|i: int| end <= i < whole.len() implies is_blank(#[trigger] whole[i]) by {
        assert(rest[i - start] == whole[i]);
    }
    assert(is_core(whole, text::trimmed(whole), start, end));
}

/// A text occurs in another where that is something, then the text, then something.
pub proof fn law_what_occurs_stands_between(part: Seq<char>, whole: Seq<char>)
    ensures
        text::occurs_in(part, whole) <==> exists|before: Seq<char>, after: Seq<char>|
            whole == #[trigger] (before + part + after),
{
    if text::occurs_in(part, whole) {
        let at = choose|at: int|
            0 <= at <= whole.len() - part.len() && #[trigger] whole.subrange(at, at + part.len())
                == part;
        let before = whole.take(at);
        let after = whole.skip(at + part.len());
        assert(whole =~= before + part + after);
    }
    if exists|before: Seq<char>, after: Seq<char>| whole == #[trigger] (before + part + after) {
        let (before, after) = choose|before: Seq<char>, after: Seq<char>|
            whole == #[trigger] (before + part + after);
        let at = before.len() as int;
        assert(whole.subrange(at, at + part.len()) =~= part);
    }
}

/// What a digit counts for; below zero where a character is none.
pub open spec fn digit_value(c: char) -> int {
    if '0' <= c <= '9' {
        c as int - '0' as int
    } else if 'a' <= c <= 'f' {
        10 + (c as int - 'a' as int)
    } else {
        -1
    }
}

/// The number that digits in a base stand for.
pub open spec fn number_of(digits: Seq<char>, base: int) -> int
    decreases digits.len(),
{
    if digits.len() == 0 {
        0
    } else {
        base * number_of(digits.drop_last(), base) + digit_value(digits.last())
    }
}

/// Whether a text is made of digits of a base, without zeros that could be left out.
pub open spec fn is_plain_numeral(digits: Seq<char>, base: int) -> bool {
    &&& digits.len() > 0
    &&& forall|i: int| 0 <= i < digits.len() ==> 0 <= digit_value(#[trigger] digits[i]) < base
    &&& digits.len() > 1 ==> digits[0] != '0'
}

proof fn lemma_numeral(value: nat, base: nat)
    requires
        2 <= base <= 16,
    ensures
        is_plain_numeral(text::numeral(value, base), base as int),
        number_of(text::numeral(value, base), base as int) == value,
        value > 0 ==> text::numeral(value, base)[0] != '0',
    decreases value,
{
    let digits = text::numeral(value, base);
    if value < base {
        assert(digits.drop_last() =~= Seq::empty());
        assert(number_of(digits.drop_last(), base as int) == 0);
        assert(base * 0 == 0);
    } else {
        assert(value / base < value && value / base > 0 && value == base * (value / base) + value
            % base && 0 <= value % base < base) by (nonlinear_arith)
            requires
                value >= base,
                base >= 2,
        ;
        let before = text::numeral(value / base, base);
        lemma_numeral(value / base, base);
        assert(digits.drop_last() =~= before);
        assert forall|i: int| 0 <= i < digits.len() implies 0 <= digit_value(#[trigger] digits[i])
            < base by {
            if i < before.len() {
                assert(digits[i] == before[i]);
            }
        }
        assert(digits[0] == before[0]);
    }
}

/// A number that is written reads back as it was: its digits stand for it, none of them can be left
/// out, and a minus stands before those of a number below zero and of no other.
pub proof fn law_written_numbers_read_back(value: int)
    ensures
        value >= 0 ==> is_plain_numeral(text::decimal(value), 10) && number_of(
            text::decimal(value),
            10,
        ) == value,
        value < 0 ==> text::decimal(value).len() > 0 && text::decimal(value)[0] == '-'
            && is_plain_numeral(text::decimal(value).drop_first(), 10) && number_of(
            text::decimal(value).drop_first(),
            10,
        ) == -value,
        value >= 0 ==> is_plain_numeral(text::hexadecimal(value as nat), 16) && number_of(
            text::hexadecimal(value as nat),
            16,
        ) == value,
{
    if value >= 0 {
        lemma_numeral(value as nat, 10);
        lemma_numeral(value as nat, 16);
    } else {
        lemma_numeral((-value) as nat, 10);
        assert(text::decimal(value).drop_first() =~= text::numeral((-value) as nat, 10));
    }
}

/// A number below 65536 is written with four hexadecimal digits that stand for it.
pub proof fn law_four_digits_read_back(value: nat)
    requires
        value < 65536,
    ensures
        text::four_digits(value).len() == 4,
        forall|i: int|
            0 <= i < 4 ==> 0 <= digit_value(#[trigger] text::four_digits(value)[i]) < 16,
        number_of(text::four_digits(value), 16) == value,
{
    let digits = text::four_digits(value);
    reveal_with_fuel(number_of, 5);
    assert(digits.drop_last() =~= seq![digits[0], digits[1], digits[2]]);
    assert(digits.drop_last().drop_last() =~= seq![digits[0], digits[1]]);
    assert(digits.drop_last().drop_last().drop_last() =~= seq![digits[0]]);
    assert(digits.drop_last().drop_last().drop_last().drop_last() =~= Seq::empty());
    assert(value / 256 / 16 == value / 4096 && value / 16 / 16 == value / 256) by (nonlinear_arith)
        requires
            value >= 0,
    ;
}

/// The words for truth values, the margin of a line, and the contents of lines are what they are
/// called.
pub proof fn law_words_and_margins(depth: nat, lines: Seq<String>)
    ensures
        text::truth(true) == "true"@,
        text::truth(false) == "false"@,
        text::margin(depth).len() == 2 * depth,
        forall|i: int| 0 <= i < 2 * depth ==> #[trigger] text::margin(depth)[i] == ' ',
        text::texts(lines).len() == lines.len(),
        forall|i: int| 0 <= i < lines.len() ==> #[trigger] text::texts(lines)[i] == lines[i]@,
{
}

/// The first parts of a list, one after the other.
pub open spec fn joined_to(parts: Seq<Seq<char>>, count: nat) -> Seq<char>
    decreases count,
{
    if count == 0 {
        Seq::empty()
    } else if count == 1 {
        parts[0]
    } else {
        joined_to(parts, (count - 1) as nat) + parts[count - 1]
    }
}

/// The parts of a list, one after the other.
pub open spec fn joined(parts: Seq<Seq<char>>) -> Seq<char> {
    joined_to(parts, parts.len())
}

} // verus!
