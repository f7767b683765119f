//! Text as the crate reads and writes it: trimming, searching and writing numbers.

use vstd::prelude::*;
use vstd::string::{StrSliceExecFns, StringExecFns};

verus! {

/// Whether Unicode counts `c` as white space.
pub open spec fn is_white_space(c: char) -> bool {
    let code = c as int;
    ||| 0x9 <= code <= 0xd
    ||| code == 0x20
    ||| code == 0x85
    ||| code == 0xa0
    ||| code == 0x1680
    ||| 0x2000 <= code <= 0x200a
    ||| code == 0x2028
    ||| code == 0x2029
    ||| code == 0x202f
    ||| code == 0x205f
    ||| code == 0x3000
}

/// The text without the white space that it begins with.
pub open spec fn trimmed_start(text: Seq<char>) -> Seq<char>
    decreases text.len(),
{
    if text.len() > 0 && is_white_space(text.first()) {
        trimmed_start(text.drop_first())
    } else {
        text
    }
}

/// The text without the white space that it ends with.
pub open spec fn trimmed_end(text: Seq<char>) -> Seq<char>
    decreases text.len(),
{
    if text.len() > 0 && is_white_space(text.last()) {
        trimmed_end(text.drop_last())
    } else {
        text
    }
}

/// The text without the white space around it.
pub open spec fn trimmed(text: Seq<char>) -> Seq<char> {
    trimmed_end(trimmed_start(text))
}

/// Whether `part` occurs somewhere in `text`.
pub open spec fn occurs_in(part: Seq<char>, text: Seq<char>) -> bool {
    exists|at: int|
        0 <= at <= text.len() - part.len() && #[trigger] text.subrange(at, at + part.len()) == part
}

/// Whether Unicode counts `c` as white space.
fn white_space(c: char) -> (yes: bool)
    ensures
        yes == is_white_space(c),
{
    let code: u32 = c as u32;
    (0x9 <= code && code <= 0xd) || code == 0x20 || code == 0x85 || code == 0xa0 || code == 0x1680
        || (0x2000 <= code && code <= 0x200a) || code == 0x2028 || code == 0x2029 || code == 0x202f
        || code == 0x205f || code == 0x3000
}

/// The characters of a text.
fn chars_of(text: &str) -> (chars: Vec<char>)
    ensures
        chars@ == text@,
{
    let mut chars: Vec<char> = Vec::new();
    for c in it: text.chars()
        invariant
            it.seq() == text@,
            chars@ == text@.take(it.index() as int),
    {
        chars.push(c);
    }
    assert(text@.take(text@.len() as int) =~= text@);
    chars
}

/// The text without the white space around it.
pub fn trim(text: &str) -> (result: String)
    ensures
        result@ == trimmed(text@),
{
    let chars = chars_of(text);
    let mut start: usize = 0;
    assert(text@.skip(0) =~= text@);
    while start < chars.len() && white_space(chars[start])
        invariant
            start <= chars.len(),
            chars@ == text@,
            trimmed_start(text@) == trimmed_start(text@.skip(start as int)),
        decreases chars.len() - start,
    {
        assert(text@.skip(start as int).drop_first() =~= text@.skip(start + 1));
        start = start + 1;
    }
    let ghost rest = text@.skip(start as int);
    assert(trimmed_start(text@) == rest);
    let mut end: usize = chars.len();
    assert(text@.subrange(start as int, end as int) =~= rest);
    while start < end && white_space(chars[end - 1])
        invariant
            start <= end <= chars.len(),
            chars@ == text@,
            trimmed_end(rest) == trimmed_end(text@.subrange(start as int, end as int)),
        decreases end,
    {
        assert(text@.subrange(start as int, end as int).drop_last() =~= text@.subrange(
            start as int,
            end - 1,
        ));
        end = end - 1;
    }
    text.substring_char(start, end).to_owned()
}

/// Whether `part` occurs somewhere in `text`.
pub fn contains(text: &str, part: &str) -> (yes: bool)
    ensures
        yes == occurs_in(part@, text@),
{
    let text_chars = chars_of(text);
    let part_chars = chars_of(part);
    if part_chars.len() > text_chars.len() {
        return false;
    }
    let last: usize = text_chars.len() - part_chars.len();
    let mut at: usize = 0;
    loop
        invariant
            text_chars@ == text@,
            part_chars@ == part@,
            last == text_chars.len() - part_chars.len(),
            at <= last,
            forall|k: int| 0 <= k < at ==> #[trigger] text@.subrange(k, k + part@.len()) != part@,
        decreases last - at,
    {
        let mut i: usize = 0;
        while i < part_chars.len() && text_chars[at + i] == part_chars[i]
            invariant
                text_chars@ == text@,
                part_chars@ == part@,
                at + part_chars.len() <= text_chars.len(),
                i <= part_chars.len(),
                forall|k: int| 0 <= k < i ==> text@[at + k] == #[trigger] part@[k],
            decreases part_chars.len() - i,
        {
            i = i + 1;
        }
        if i == part_chars.len() {
            assert(text@.subrange(at as int, at + part@.len()) =~= part@);
            return true;
        }
        assert(text@.subrange(at as int, at + part@.len())[i as int] != part@[i as int]);
        if at == last {
            return false;
        }
        at = at + 1;
    }
}

/// The digit for a value below sixteen.
pub open spec fn digit(value: int) -> char {
    if value < 10 {
        ('0' as int + value) as char
    } else {
        ('a' as int + value - 10) as char
    }
}

/// A number in the given base, without leading zeros.
pub open spec fn numeral(value: nat, base: nat) -> Seq<char>
    decreases value,
    when base >= 2
{
    if value < base {
        seq![digit(value as int)]
    } else {
        proof {
            assert(value / base < value) by (nonlinear_arith)
                requires
                    value >= base,
                    base >= 2,
            ;
        }
        numeral(value / base, base).push(digit((value % base) as int))
    }
}

/// A number in decimal notation.
pub open spec fn decimal(value: int) -> Seq<char> {
    if value < 0 {
        seq!['-'] + numeral((-value) as nat, 10)
    } else {
        numeral(value as nat, 10)
    }
}

/// A number in lower case hexadecimal notation.
pub open spec fn hexadecimal(value: nat) -> Seq<char> {
    numeral(value, 16)
}

/// A number below 65536 as four hexadecimal digits.
pub open spec fn four_digits(value: nat) -> Seq<char> {
    seq![
        digit((value / 4096) as int),
        digit((value / 256 % 16) as int),
        digit((value / 16 % 16) as int),
        digit((value % 16) as int),
    ]
}

fn digit_text(value: u64) -> (text: &'static str)
    requires
        value < 16,
    ensures
        text@ == seq![digit(value as int)],
{
    proof {
        reveal_strlit("0");
        reveal_strlit("1");
        reveal_strlit("2");
        reveal_strlit("3");
        reveal_strlit("4");
        reveal_strlit("5");
        reveal_strlit("6");
        reveal_strlit("7");
        reveal_strlit("8");
        reveal_strlit("9");
        reveal_strlit("a");
        reveal_strlit("b");
        reveal_strlit("c");
        reveal_strlit("d");
        reveal_strlit("e");
        reveal_strlit("f");
    }
    let text = match value {
        0 => "0",
        1 => "1",
        2 => "2",
        3 => "3",
        4 => "4",
        5 => "5",
        6 => "6",
        7 => "7",
        8 => "8",
        9 => "9",
        10 => "a",
        11 => "b",
        12 => "c",
        13 => "d",
        14 => "e",
        _ => "f",
    };
    assert(text@ =~= seq![digit(value as int)]);
    text
}

fn push_numeral(out: &mut String, value: u64, base: u64)
    requires
        base == 10 || base == 16,
    ensures
        final(out)@ == old(out)@ + numeral(value as nat, base as nat),
    decreases value,
{
    if value >= base {
        push_numeral(out, value / base, base);
    }
    out.append(digit_text(value % base));
    assert(out@ =~= old(out)@ + numeral(value as nat, base as nat));
}

/// Appends a number in decimal notation.
pub fn push_decimal(out: &mut String, value: i64)
    requires
        value > i64::MIN,
    ensures
        final(out)@ == old(out)@ + decimal(value as int),
{
    if value < 0 {
        proof {
            reveal_strlit("-");
        }
        out.append("-");
        assert("-"@ =~= seq!['-']);
        push_numeral(out, (-value) as u64, 10);
    } else {
        push_numeral(out, value as u64, 10);
    }
    assert(out@ =~= old(out)@ + decimal(value as int));
}

/// Appends a number without a sign in decimal notation.
pub fn push_count(out: &mut String, value: u64)
    ensures
        final(out)@ == old(out)@ + decimal(value as int),
{
    push_numeral(out, value, 10);
}

/// Appends a number in lower case hexadecimal notation.
pub fn push_hexadecimal(out: &mut String, value: u64)
    ensures
        final(out)@ == old(out)@ + hexadecimal(value as nat),
{
    push_numeral(out, value, 16);
}

/// Appends a number as four hexadecimal digits.
pub fn push_four_digits(out: &mut String, value: u16)
    ensures
        final(out)@ == old(out)@ + four_digits(value as nat),
{
    out.append(digit_text((value / 4096) as u64));
    out.append(digit_text((value / 256 % 16) as u64));
    out.append(digit_text((value / 16 % 16) as u64));
    out.append(digit_text((value % 16) as u64));
    assert(out@ =~= old(out)@ + four_digits(value as nat));
}

/// The word for a truth value.
pub open spec fn truth(value: bool) -> Seq<char> {
    if value {
        "true"@
    } else {
        "false"@
    }
}

/// Appends the word for a truth value.
pub fn push_truth(out: &mut String, value: bool)
    ensures
        final(out)@ == old(out)@ + truth(value),
{
    out.append(
        if value {
            "true"
        } else {
            "false"
        },
    );
}

/// The margin of a line at this depth.
pub open spec fn margin(depth: nat) -> Seq<char> {
    Seq::new(2 * depth, |i: int| ' ')
}

/// Appends the margin of a line at this depth.
pub fn push_margin(out: &mut String, depth: usize)
    ensures
        final(out)@ == old(out)@ + margin(depth as nat),
{
    let mut i: usize = 0;
    assert(out@ =~= old(out)@ + margin(0));
    while i < depth
        invariant
            i <= depth,
            out@ == old(out)@ + margin(i as nat),
        decreases depth - i,
    {
        proof {
            reveal_strlit("  ");
        }
        out.append("  ");
        i = i + 1;
        assert(out@ =~= old(out)@ + margin(i as nat));
    }
}

/// A text as Rust writes it between quotation marks in debugging output.
pub uninterp spec fn quoted(text: Seq<char>) -> Seq<char>;

/// The `Debug` form of a text: what `format!` writes for `{:?}`. Only that it is determined by the
/// text is claimed; which characters are escaped, and how, is left open.
#[verifier::external_body]
fn debug_form(text: &str) -> (form: String)
    ensures
        form@ == quoted(text@),
{
    format!("{:?}", text)
}

/// Appends a text between quotation marks.
pub fn push_quoted(out: &mut String, text: &str)
    ensures
        final(out)@ == old(out)@ + quoted(text@),
{
    let form = debug_form(text);
    out.append(form.as_str());
}

/// The contents of a list of lines.
pub open spec fn texts(lines: Seq<String>) -> Seq<Seq<char>> {
    lines.map_values(|line: String| line@)
}

} // verus!
