//! Identifiers of the object instances of an area, written
//! `area:list:index`, and the list that holds each category of instance.
use crate::bytes::{decimal_digits, lemma_decimal_digits_ascii, push_decimal};
use crate::error::EditError;
use crate::resource::{ascii_chars, ascii_string, text_equal};
use crate::text::{ascii_lowercase, char_vec, lower_text, push_char, string_of_chars};
use vstd::prelude::*;
use vstd::string::StringExecFns;

verus! {

/// An ASCII decimal digit.
pub open spec fn digit_char(c: char) -> bool {
    '0' <= c <= '9'
}

/// The number that a sequence of decimal digits spells.
pub open spec fn decimal_value(digits: Seq<char>) -> nat
    decreases digits.len(),
{
    if digits.len() == 0 {
        0
    } else {
        (decimal_value(digits.drop_last()) * 10 + ((digits.last() as u32) - 48)) as nat
    }
}

/// The digits of an unsigned number's text: the text less one leading `+`.
pub open spec fn unsigned_digits(text: Seq<char>) -> Seq<char> {
    if text.len() > 0 && text[0] == '+' {
        text.drop_first()
    } else {
        text
    }
}

/// Every character is a decimal digit.
pub open spec fn all_digits(text: Seq<char>) -> bool {
    forall|i: int| 0 <= i < text.len() ==> digit_char(#[trigger] text[i])
}

/// What `usize::from_str` reads from a text: an optional `+` and one or more
/// decimal digits whose number fits in a `usize`.
pub open spec fn spec_parse_usize(text: Seq<char>) -> Option<usize> {
    let digits = unsigned_digits(text);
    if digits.len() == 0 || !all_digits(digits) || decimal_value(digits) > usize::MAX {
        None
    } else {
        Some(decimal_value(digits) as usize)
    }
}

/// The position of the last colon of a text.
pub open spec fn last_colon(text: Seq<char>) -> Option<int>
    decreases text.len(),
{
    if text.len() == 0 {
        None
    } else if text.last() == ':' {
        Some(text.len() - 1)
    } else {
        last_colon(text.drop_last())
    }
}

/// What an instance identifier names within an area: the identifier starts
/// with the area's name and a colon; what follows is cut at its last colon
/// into a list label and an index.
pub open spec fn spec_parse_instance_id(area: Seq<char>, id: Seq<char>) -> Option<(Seq<char>, usize)> {
    let prefix = area.push(':');
    if id.len() < prefix.len() || id.take(prefix.len() as int) != prefix {
        None
    } else {
        let identity = id.skip(prefix.len() as int);
        match last_colon(identity) {
            None => None,
            Some(k) => match spec_parse_usize(identity.skip(k + 1)) {
                None => None,
                Some(index) => Some((identity.take(k), index)),
            },
        }
    }
}

proof fn lemma_last_colon(text: Seq<char>)
    ensures
        last_colon(text) matches Some(k) ==> 0 <= k < text.len() && text[k] == ':',
    decreases text.len(),
{
    if text.len() > 0 && text.last() != ':' {
        lemma_last_colon(text.drop_last());
    }
}

/// The identifier of the instance at `index` of the list `label` of an area.
pub open spec fn spec_area_instance_id(area: Seq<char>, label: Seq<char>, index: usize) -> Seq<char> {
    area + seq![':'] + label + seq![':'] + ascii_chars(decimal_digits(index as nat))
}

/// A number read from a prefix of digits never exceeds the number read from
/// all of them.
proof fn lemma_decimal_value_grows(digits: Seq<char>, k: int)
    requires
        0 <= k <= digits.len(),
        forall|i: int| 0 <= i < digits.len() ==> digit_char(#[trigger] digits[i]),
    ensures
        decimal_value(digits.take(k)) <= decimal_value(digits),
    decreases digits.len() - k,
{
    if k < digits.len() {
        lemma_decimal_value_grows(digits, k + 1);
        let next = digits.take(k + 1);
        assert(next.drop_last() =~= digits.take(k));
        assert(digit_char(next.last()));
    } else {
        assert(digits.take(k) =~= digits);
    }
}

/// Reads a `usize` from `chars[from..to]` as `usize::from_str` does.
fn parse_usize(chars: &[char], from: usize, to: usize) -> (parsed: Option<usize>)
    requires
        from <= to <= chars@.len(),
    ensures
        parsed == spec_parse_usize(chars@.subrange(from as int, to as int)),
{
    let ghost text = chars@.subrange(from as int, to as int);
    let mut start = from;
    if from < to && chars[from] == '+' {
        start = from + 1;
    }
    let ghost digits = chars@.subrange(start as int, to as int);
    proof {
        if from < to && chars@[from as int] == '+' {
            assert(text.drop_first() =~= digits);
        } else {
            assert(text =~= digits);
        }
    }
    if start == to {
        return None;
    }
    let mut value: usize = 0;
    let mut i: usize = start;
    while i < to
        invariant
            from <= start <= i <= to,
            to <= chars@.len(),
            text == chars@.subrange(from as int, to as int),
            digits == unsigned_digits(text),
            digits.len() > 0,
            digits == chars@.subrange(start as int, to as int),
            forall|j: int| 0 <= j < i - start ==> digit_char(#[trigger] digits[j]),
            value == decimal_value(digits.take(i - start)),
        decreases to - i,
    {
        let c = chars[i];
        if !('0' <= c && c <= '9') {
            assert(!digit_char(digits[i - start]));
            return None;
        }
        proof {
            let step = digits.take(i - start + 1);
            assert(step.drop_last() =~= digits.take(i - start));
            assert(step.last() == c);
        }
        let digit: usize = (c as u32 - 48) as usize;
        match value.checked_mul(10) {
            Some(scaled) => match scaled.checked_add(digit) {
                Some(next) => {
                    value = next;
                },
                None => {
                    proof {
                        lemma_overflow_persists(digits, i - start + 1);
                    }
                    return None;
                },
            },
            None => {
                proof {
                    lemma_overflow_persists(digits, i - start + 1);
                }
                return None;
            },
        }
        i = i + 1;
    }
    proof {
        assert(digits.take(to - start) =~= digits);
    }
    Some(value)
}

/// Once the digits read so far spell more than `usize::MAX`, the text reads
/// as no `usize`, whatever follows.
proof fn lemma_overflow_persists(digits: Seq<char>, k: int)
    requires
        0 < k <= digits.len(),
        forall|j: int| 0 <= j < k ==> digit_char(#[trigger] digits[j]),
        decimal_value(digits.take(k)) > usize::MAX,
    ensures
        !all_digits(digits) || decimal_value(digits) > usize::MAX,
{
    if all_digits(digits) {
        lemma_decimal_value_grows(digits, k);
    }
}

/// Finds the last colon of `chars[from..to]`, as a position in `chars`.
fn find_last_colon(chars: &[char], from: usize, to: usize) -> (found: Option<usize>)
    requires
        from <= to <= chars@.len(),
    ensures
        match last_colon(chars@.subrange(from as int, to as int)) {
            Some(k) => found == Some((from + k) as usize),
            None => found is None,
        },
{
    let ghost text = chars@.subrange(from as int, to as int);
    let mut end = to;
    assert(text.take(to - from) =~= text);
    while end > from
        invariant
            from <= end <= to,
            to <= chars@.len(),
            text == chars@.subrange(from as int, to as int),
            last_colon(text) == last_colon(text.take(end - from)),
        decreases end - from,
    {
        proof {
            let prefix = text.take(end - from);
            assert(prefix.last() == chars@[end - 1]);
        }
        if chars[end - 1] == ':' {
            return Some(end - 1);
        }
        assert(text.take(end - from).drop_last() =~= text.take(end - 1 - from));
        end = end - 1;
    }
    assert(text.take(0) =~= Seq::<char>::empty());
    None
}

/// Reads an instance identifier of `area`: the list label and the index it
/// names.
pub fn parse_area_instance_id(area: &str, instance_id: &str) -> (parsed: Result<
    (String, usize),
    EditError,
>)
    ensures
        match spec_parse_instance_id(area@, instance_id@) {
            Some((label, index)) => parsed matches Ok((found, at)) && found@ == label && at
                == index,
            None => parsed == Err::<(String, usize), EditError>(EditError::AreaInstanceIdInvalid),
        },
{
    let area_chars = char_vec(area);
    let id = char_vec(instance_id);
    let ghost prefix = area@.push(':');
    if id.len() <= area_chars.len() {
        return Err(EditError::AreaInstanceIdInvalid);
    }
    let prefix_len = area_chars.len() + 1;
    let mut i: usize = 0;
    while i < area_chars.len()
        invariant
            i <= area_chars@.len(),
            area_chars@ == area@,
            id@ == instance_id@,
            prefix == area@.push(':'),
            prefix_len == area_chars@.len() + 1,
            prefix_len <= id@.len(),
            forall|j: int| 0 <= j < i ==> id@[j] == area@[j],
        decreases area_chars@.len() - i,
    {
        if id[i] != area_chars[i] {
            assert(id@.take(prefix_len as int)[i as int] != prefix[i as int]);
            return Err(EditError::AreaInstanceIdInvalid);
        }
        i = i + 1;
    }
    if id[area_chars.len()] != ':' {
        assert(id@.take(prefix_len as int)[area_chars@.len() as int] != prefix[area_chars@.len() as int]);
        return Err(EditError::AreaInstanceIdInvalid);
    }
    assert(id@.take(prefix_len as int) =~= prefix);
    let ghost identity = instance_id@.skip(prefix_len as int);
    assert(id@.subrange(prefix_len as int, id@.len() as int) =~= identity);
    let colon = match find_last_colon(id.as_slice(), prefix_len, id.len()) {
        Some(position) => position,
        None => {
            return Err(EditError::AreaInstanceIdInvalid);
        },
    };
    proof {
        lemma_last_colon(id@.subrange(prefix_len as int, id@.len() as int));
    }
    let ghost k = colon - prefix_len;
    assert(id@.subrange(colon + 1, id@.len() as int) =~= identity.skip(k + 1));
    assert(id@.subrange(prefix_len as int, colon as int) =~= identity.take(k));
    match parse_usize(id.as_slice(), colon + 1, id.len()) {
        Some(index) => Ok((string_of_chars(id.as_slice(), prefix_len, colon), index)),
        None => Err(EditError::AreaInstanceIdInvalid),
    }
}

/// The identifier of the instance at `index` of the list `label` of an area.
pub fn area_instance_id(area: &str, label: &str, index: usize) -> (id: String)
    ensures
        id@ == spec_area_instance_id(area@, label@, index),
{
    let mut digits: Vec<u8> = Vec::new();
    push_decimal(&mut digits, index);
    proof {
        assert(digits@ =~= decimal_digits(index as nat));
        lemma_decimal_digits_ascii(index as nat);
    }
    let number = ascii_string(digits);
    let mut id = String::from_str(area);
    push_char(&mut id, ':');
    let id = id.concat(label);
    let mut id = id;
    push_char(&mut id, ':');
    let id = id.concat(number.as_str());
    assert(id@ =~= spec_area_instance_id(area@, label@, index));
    id
}

/// The list of an area that holds instances of a category (named in any
/// ASCII case).
pub open spec fn spec_instance_list_label(category: Seq<char>) -> Option<Seq<char>> {
    let c = lower_text(category);
    if c == "creature"@ {
        Some("Creature List"@)
    } else if c == "door"@ {
        Some("Door List"@)
    } else if c == "encounter"@ {
        Some("Encounter List"@)
    } else if c == "item"@ {
        Some("List"@)
    } else if c == "placeable"@ {
        Some("Placeable List"@)
    } else if c == "sound"@ {
        Some("SoundList"@)
    } else if c == "store"@ {
        Some("StoreList"@)
    } else if c == "trigger"@ {
        Some("TriggerList"@)
    } else if c == "waypoint"@ {
        Some("WaypointList"@)
    } else {
        None
    }
}

/// The list of an area that holds instances of a category.
pub fn instance_list_label(category: &str) -> (label: Result<&'static str, EditError>)
    ensures
        match spec_instance_list_label(category@) {
            Some(expected) => label matches Ok(found) && found@ == expected,
            None => label == Err::<&'static str, EditError>(EditError::InstanceCategoryUnsupported),
        },
{
    let lower = ascii_lowercase(category);
    let c = lower.as_str();
    if text_equal(c, "creature") {
        Ok("Creature List")
    } else if text_equal(c, "door") {
        Ok("Door List")
    } else if text_equal(c, "encounter") {
        Ok("Encounter List")
    } else if text_equal(c, "item") {
        Ok("List")
    } else if text_equal(c, "placeable") {
        Ok("Placeable List")
    } else if text_equal(c, "sound") {
        Ok("SoundList")
    } else if text_equal(c, "store") {
        Ok("StoreList")
    } else if text_equal(c, "trigger") {
        Ok("TriggerList")
    } else if text_equal(c, "waypoint") {
        Ok("WaypointList")
    } else {
        Err(EditError::InstanceCategoryUnsupported)
    }
}

/// The digits of a number, read back, give the number.
proof fn lemma_decimal_digits_read_back(n: nat)
    ensures
        ascii_chars(decimal_digits(n)).len() > 0,
        all_digits(ascii_chars(decimal_digits(n))),
        decimal_value(ascii_chars(decimal_digits(n))) == n,
    decreases n,
{
    let text = ascii_chars(decimal_digits(n));
    if n < 10 {
        assert(text.drop_last() =~= Seq::<char>::empty());
        assert(text.last() == ((48 + n) as u8) as char);
        assert(((48 + n) as u8) as char as u32 == 48 + n);
        assert(decimal_value(text) == decimal_value(text.drop_last()) * 10 + ((text.last() as u32) - 48));
    } else {
        lemma_decimal_digits_read_back(n / 10);
        let front = ascii_chars(decimal_digits(n / 10));
        assert(text.drop_last() =~= front);
        let last = (48 + n % 10) as u8;
        assert(text.last() == last as char);
        assert((last as char) as u32 == 48 + n % 10);
        assert(n == (n / 10) * 10 + n % 10);
        assert(decimal_value(text) == decimal_value(front) * 10 + ((text.last() as u32) - 48));
        assert forall|i: int| 0 <= i < text.len() implies digit_char(#[trigger] text[i]) by {
            if i < front.len() {
                assert(text[i] == front[i]);
            }
        }
    }
}

/// The last colon of a text that ends with a colon and then no other.
proof fn lemma_last_colon_of_suffix(head: Seq<char>, tail: Seq<char>)
    requires
        !tail.contains(':'),
    ensures
        last_colon(head + seq![':'] + tail) == Some(head.len() as int),
    decreases tail.len(),
{
    let text = head + seq![':'] + tail;
    if tail.len() == 0 {
        assert(text =~= head.push(':'));
    } else {
        assert(text.last() == tail.last());
        assert(tail.last() != ':') by {
            if tail.last() == ':' {
                assert(tail.contains(tail[tail.len() - 1]));
            }
        }
        assert(!tail.drop_last().contains(':')) by {
            if tail.drop_last().contains(':') {
                let k = choose|k: int| 0 <= k < tail.drop_last().len() && tail.drop_last()[k] == ':';
                assert(tail[k] == ':');
            }
        }
        assert(text.drop_last() =~= head + seq![':'] + tail.drop_last());
        lemma_last_colon_of_suffix(head, tail.drop_last());
    }
}

/// An instance identifier made for a list label without colons reads back as
/// that label and index.
pub proof fn law_instance_id_round_trip(area: Seq<char>, label: Seq<char>, index: usize)
    requires
        !label.contains(':'),
    ensures
        spec_parse_instance_id(area, spec_area_instance_id(area, label, index)) == Some(
            (label, index),
        ),
{
    let digits = ascii_chars(decimal_digits(index as nat));
    let id = spec_area_instance_id(area, label, index);
    let prefix = area.push(':');
    lemma_decimal_digits_read_back(index as nat);
    assert(id.take(prefix.len() as int) =~= prefix);
    let identity = id.skip(prefix.len() as int);
    assert(identity =~= label + seq![':'] + digits);
    assert(!digits.contains(':')) by {
        if digits.contains(':') {
            let k = choose|k: int| 0 <= k < digits.len() && digits[k] == ':';
            assert(digit_char(digits[k]));
        }
    }
    lemma_last_colon_of_suffix(label, digits);
    let k = label.len() as int;
    assert(identity.skip(k + 1) =~= digits);
    assert(identity.take(k) =~= label);
    assert(digits[0] != '+') by {
        assert(digit_char(digits[0]));
    }
    assert(unsigned_digits(digits) == digits);
}

} // verus!
