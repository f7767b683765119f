//! Text as the system hands it out: UTF-16 that ends at the first zero.

use vstd::prelude::*;

use crate::error;
use crate::error::{XCapError, XCapResult};
use crate::text;

verus! {

/// The UTF-16 of a character: one unit, or a pair of surrogates.
pub open spec fn units_of(c: char) -> Seq<u16> {
    let code = c as int;
    if code < 0x1_0000 {
        seq![code as u16]
    } else {
        seq![
            (0xd800 + (code - 0x1_0000) / 0x400) as u16,
            (0xdc00 + (code - 0x1_0000) % 0x400) as u16,
        ]
    }
}

/// The UTF-16 of a text.
pub open spec fn utf16(text: Seq<char>) -> Seq<u16>
    decreases text.len(),
{
    if text.len() == 0 {
        Seq::empty()
    } else {
        utf16(text.drop_last()) + units_of(text.last())
    }
}

/// The units before the first zero, all of them where there is none.
pub open spec fn until_zero(units: Seq<u16>) -> Seq<u16>
    decreases units.len(),
{
    if units.len() == 0 || units[0] == 0 {
        Seq::empty()
    } else {
        seq![units[0]] + until_zero(units.skip(1))
    }
}

/// The text that units are the UTF-16 of, where there is one.
pub open spec fn text_of(units: Seq<u16>) -> Option<Seq<char>> {
    if exists|text: Seq<char>| #[trigger] utf16(text) == units {
        Some(choose|text: Seq<char>| #[trigger] utf16(text) == units)
    } else {
        None
    }
}

/// The text that the system has written, where it is one.
pub open spec fn written(units: Seq<u16>) -> Option<Seq<char>> {
    text_of(until_zero(units))
}

/// The text that the system has written; empty where it is none.
pub open spec fn written_or_empty(units: Seq<u16>) -> Seq<char> {
    match written(units) {
        Some(text) => text,
        None => Seq::empty(),
    }
}

/// The type of wide strings that `widestring` offers.
#[verifier::external_type_specification]
#[verifier::external_body]
pub struct ExU16CString(widestring::U16CString);

/// The units of a wide string, without the zero that ends it.
pub uninterp spec fn wide_units(wide: widestring::U16CString) -> Seq<u16>;

/// Makes a wide string with `widestring::U16CString::from_vec_truncate`, which keeps what stands
/// before the first zero.
#[verifier::external_body]
fn wide_from_units(units: Vec<u16>) -> (wide: widestring::U16CString)
    ensures
        wide_units(wide) == until_zero(units@),
{
    widestring::U16CString::from_vec_truncate(units)
}

/// Decodes a wide string with `widestring::U16CStr::to_string`, which gives the text of which it is
/// the UTF-16, and an error where there is no such text; here that is none.
#[verifier::external_body]
fn wide_to_text(wide: &widestring::U16CString) -> (result: Option<String>)
    ensures
        match result {
            Some(text) => utf16(text@) == wide_units(*wide),
            None => forall|text: Seq<char>| #[trigger] utf16(text) != wide_units(*wide),
        },
{
    wide.to_string().ok()
}

/// Whether a zero stands among the units before their end, and the first one at `position`.
pub open spec fn zero_inside(units: Seq<u16>, position: int) -> bool {
    &&& 0 <= position < units.len() - 1
    &&& units[position] == 0
    &&& forall|i: int| 0 <= i < position ==> units[i] != 0
}

/// Makes a wide string with `widestring::U16CString::from_str`. A zero at the end of the text is
/// taken for the end of the string; a zero before it is an error, which tells the place of the
/// first one among the units.
#[verifier::external_body]
fn wide_from_text(text: &str) -> (result: Result<widestring::U16CString, String>)
    ensures
        match result {
            Ok(wide) => {
                &&& wide_units(wide) == until_zero(utf16(text@))
                &&& forall|i: int| !zero_inside(utf16(text@), i)
            },
            Err(message) => exists|i: int|
                #![trigger zero_inside(utf16(text@), i)]
                zero_inside(utf16(text@), i) && message@
                    == "invalid nul value found at position "@ + text::decimal(i),
        },
{
    widestring::U16CString::from_str(text).map_err(|failure| failure.to_string())
}

/// The units of a wide string and the zero that ends it, from
/// `widestring::U16CString::into_vec_with_nul`.
#[verifier::external_body]
fn wide_into_units(wide: widestring::U16CString) -> (units: Vec<u16>)
    ensures
        units@ == wide_units(wide).push(0),
{
    wide.into_vec_with_nul()
}

/// Decodes what the system has written: the text of which the units before the first zero are the
/// UTF-16, and an error where there is no such text.
pub fn decode(units: Vec<u16>) -> (result: XCapResult<String>)
    ensures
        match written(units@) {
            Some(text) => result matches Ok(decoded) && decoded@ == text,
            None => result == Err::<String, XCapError>(XCapError::Utf16Error),
        },
{
    let wide = wide_from_units(units);
    match wide_to_text(&wide) {
        Some(text) => {
            proof {
                law_encoded_decodes(text@);
            }
            Ok(text)
        },
        None => Err(XCapError::Utf16Error),
    }
}

/// Decodes what the system has written; what is no text is taken for none.
pub fn decode_or_default(units: Vec<u16>) -> (result: String)
    ensures
        result@ == written_or_empty(units@),
{
    match decode(units) {
        Ok(text) => text,
        Err(_) => String::new(),
    }
}

/// Encodes a text for the system, with a zero at its end. A zero inside the text is an error.
pub fn encode(text: &str) -> (result: XCapResult<Vec<u16>>)
    ensures
        match result {
            Ok(units) => {
                &&& units@ == until_zero(utf16(text@)).push(0)
                &&& forall|i: int| !zero_inside(utf16(text@), i)
            },
            Err(failure) => exists|i: int|
                #![trigger zero_inside(utf16(text@), i)]
                zero_inside(utf16(text@), i) && failure@ == error::Failure::Error(
                    "invalid nul value found at position "@ + text::decimal(i),
                ),
        },
{
    match wide_from_text(text) {
        Ok(wide) => Ok(wide_into_units(wide)),
        Err(message) => Err(XCapError::new(message.as_str())),
    }
}

proof fn lemma_units_of(c: char)
    ensures
        ({
            let code = c as int;
            let units = units_of(c);
            &&& code <= 0x10_ffff
            &&& !(0xd800 <= code < 0xe000)
            &&& code < 0x1_0000 ==> units.len() == 1 && units[0] == code
            &&& code >= 0x1_0000 ==> {
                &&& units.len() == 2
                &&& 0xd800 <= units[0] < 0xdc00
                &&& 0xdc00 <= units[1] < 0xe000
                &&& code == 0x1_0000 + (units[0] - 0xd800) * 0x400 + (units[1] - 0xdc00)
            }
        }),
{
    let code = c as int;
    let offset = code - 0x1_0000;
    assert(offset == (offset / 0x400) * 0x400 + offset % 0x400);
}

/// No two texts have the same UTF-16.
pub proof fn law_utf16_is_unique(one: Seq<char>, other: Seq<char>)
    requires
        utf16(one) == utf16(other),
    ensures
        one == other,
    decreases one.len(),
{
    if one.len() == 0 {
        if other.len() > 0 {
            assert(utf16(other).len() > 0);
        }
    } else if other.len() == 0 {
        assert(utf16(one).len() > 0);
    } else {
        let units = utf16(one);
        let count = units.len() as int;
        let a = units_of(one.last());
        let b = units_of(other.last());
        let before_one = utf16(one.drop_last());
        let before_other = utf16(other.drop_last());
        lemma_units_of(one.last());
        lemma_units_of(other.last());
        assert(units == before_one + a);
        assert(units == before_other + b);
        assert(a.last() == units[count - 1]);
        assert(b.last() == units[count - 1]);
        if a.len() == 2 && b.len() == 2 {
            assert(a[0] == units[count - 2]);
            assert(b[0] == units[count - 2]);
        }
        assert(a.len() == b.len());
        assert(one.last() == other.last());
        assert(before_one =~= units.take(count - a.len()));
        assert(before_other =~= units.take(count - a.len()));
        law_utf16_is_unique(one.drop_last(), other.drop_last());
        assert(one =~= one.drop_last().push(one.last()));
        assert(other =~= other.drop_last().push(other.last()));
    }
}

/// The UTF-16 of a text is the UTF-16 of that text alone.
pub proof fn law_encoded_decodes(text: Seq<char>)
    ensures
        text_of(utf16(text)) == Some(text),
{
    let found = choose|other: Seq<char>| #[trigger] utf16(other) == utf16(text);
    law_utf16_is_unique(found, text);
}

/// What is handed to the system reads back as the same text, where it holds no zero.
pub proof fn law_handed_over_reads_back(text: Seq<char>)
    requires
        !text.contains('\0'),
    ensures
        forall|i: int| !zero_inside(utf16(text), i),
        written(until_zero(utf16(text)).push(0)) == Some(text),
{
    lemma_no_zero(text);
    lemma_until_zero(utf16(text));
    law_encoded_decodes(text);
}

proof fn lemma_no_zero(text: Seq<char>)
    requires
        !text.contains('\0'),
    ensures
        forall|i: int| 0 <= i < utf16(text).len() ==> utf16(text)[i] != 0,
    decreases text.len(),
{
    if text.len() > 0 {
        let before = text.drop_last();
        assert forall|c: char| before.contains(c) implies text.contains(c) by {
            let k = choose|k: int| 0 <= k < before.len() && before[k] == c;
            assert(text[k] == c);
        }
        assert(text[text.len() - 1] != '\0');
        lemma_no_zero(before);
        lemma_units_of(text.last());
        assert(text.last() as int != 0);
        let units = utf16(text);
        assert forall|i: int| 0 <= i < units.len() implies units[i] != 0 by {
            if i < utf16(before).len() {
                assert(units[i] == utf16(before)[i]);
            } else {
                assert(units[i] == units_of(text.last())[i - utf16(before).len()]);
            }
        }
    }
}

/// There is no zero before the first zero.
pub proof fn lemma_until_zero_has_none(units: Seq<u16>)
    ensures
        forall|i: int| 0 <= i < until_zero(units).len() ==> until_zero(units)[i] != 0,
    decreases units.len(),
{
    if units.len() > 0 && units[0] != 0 {
        let rest = until_zero(units.skip(1));
        lemma_until_zero_has_none(units.skip(1));
        assert forall|i: int| 0 <= i < until_zero(units).len() implies until_zero(units)[i] != 0 by {
            if i > 0 {
                assert(until_zero(units)[i] == rest[i - 1]);
            }
        }
    }
}

proof fn lemma_until_zero(units: Seq<u16>)
    requires
        forall|i: int| 0 <= i < units.len() ==> units[i] != 0,
    ensures
        until_zero(units) == units,
        until_zero(units.push(0)) == units,
    decreases units.len(),
{
    if units.len() > 0 {
        lemma_until_zero(units.skip(1));
        assert(units.push(0).skip(1) =~= units.skip(1).push(0));
        assert(seq![units[0]] + units.skip(1) =~= units);
    }
}

/// Of what the system has written, the units before the first zero count, and all of them where there
/// is none.
pub proof fn law_text_ends_at_the_first_zero(units: Seq<u16>, end: int)
    requires
        0 <= end <= units.len(),
        end < units.len() ==> units[end] == 0,
        forall|i: int| 0 <= i < end ==> units[i] != 0,
    ensures
        until_zero(units) == units.take(end),
    decreases units.len(),
{
    if end > 0 {
        let rest = units.skip(1);
        law_text_ends_at_the_first_zero(rest, end - 1);
        assert(seq![units[0]] + rest.take(end - 1) =~= units.take(end));
    } else {
        assert(until_zero(units) =~= units.take(0));
    }
}

/// What the system has written reads as a text where the units that count are its UTF-16, and as none
/// where they are that of no text.
pub proof fn law_written_text_is_read(units: Seq<u16>, text: Seq<char>)
    ensures
        written(units) == Some(text) <==> utf16(text) == until_zero(units),
        utf16(text) == until_zero(units) ==> written_or_empty(units) == text,
        written(units) is None ==> written_or_empty(units).len() == 0,
{
    if utf16(text) == until_zero(units) {
        law_encoded_decodes(text);
    }
}

/// A character of the first 65536 is one unit, that of its number; any other is a pair, of which the
/// first tells the upper and the second the lower ten bits of how far it is beyond. The units of a text
/// are those of its characters, one after the other.
pub proof fn law_characters_become_units(c: char, first: Seq<char>, rest: Seq<char>)
    ensures
        (c as int) < 0x1_0000 ==> utf16(seq![c]).len() == 1 && utf16(seq![c])[0] as int == c as int,
        c as int >= 0x1_0000 ==> {
            let units = utf16(seq![c]);
            &&& units.len() == 2
            &&& 0xd800 <= units[0] < 0xdc00
            &&& 0xdc00 <= units[1] < 0xe000
            &&& c as int == 0x1_0000 + (units[0] - 0xd800) * 0x400 + (units[1] - 0xdc00)
        },
        utf16(first + rest) == utf16(first) + utf16(rest),
    decreases rest.len(),
{
    lemma_units_of(c);
    reveal_with_fuel(utf16, 2);
    assert(seq![c].drop_last() =~= Seq::empty());
    assert(utf16(seq![c]) =~= units_of(c));
    if rest.len() == 0 {
        assert(first + rest =~= first);
        assert(utf16(first + rest) =~= utf16(first) + utf16(rest));
    } else {
        law_characters_become_units(c, first, rest.drop_last());
        assert((first + rest).drop_last() =~= first + rest.drop_last());
        assert(utf16(first + rest) =~= utf16(first) + utf16(rest));
    }
}

/// All units of a text without a zero count.
pub proof fn lemma_whole_text(text: Seq<char>)
    requires
        !text.contains('\0'),
    ensures
        until_zero(utf16(text)) == utf16(text),
{
    lemma_no_zero(text);
    lemma_until_zero(utf16(text));
}

} // verus!
