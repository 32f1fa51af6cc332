//! Checks on names and identifiers that the editor accepts.
use crate::error::EditError;
use crate::resource::text_bytes;
use vstd::prelude::*;
use vstd::std_specs::iter::IteratorSpec;

verus! {

/// A character with the Unicode `White_Space` property, the set that
/// `char::is_whitespace` and `str::trim` use.
pub open spec fn is_unicode_whitespace(c: char) -> bool {
    let v = c as u32;
    ||| 9 <= v <= 13
    ||| v == 32
    ||| v == 0x85
    ||| v == 0xA0
    ||| v == 0x1680
    ||| 0x2000 <= v <= 0x200A
    ||| v == 0x2028
    ||| v == 0x2029
    ||| v == 0x202F
    ||| v == 0x205F
    ||| v == 0x3000
}

/// The text holds only white space (or nothing).
pub open spec fn is_blank_text(text: Seq<char>) -> bool {
    forall|i: int| 0 <= i < text.len() ==> is_unicode_whitespace(#[trigger] text[i])
}

/// The text without its leading white space.
pub open spec fn trim_start_text(text: Seq<char>) -> Seq<char>
    decreases text.len(),
{
    if text.len() > 0 && is_unicode_whitespace(text[0]) {
        trim_start_text(text.drop_first())
    } else {
        text
    }
}

/// The text without its trailing white space.
pub open spec fn trim_end_text(text: Seq<char>) -> Seq<char>
    decreases text.len(),
{
    if text.len() > 0 && is_unicode_whitespace(text.last()) {
        trim_end_text(text.drop_last())
    } else {
        text
    }
}

/// The text without its leading and trailing white space.
pub open spec fn trim_spec(text: Seq<char>) -> Seq<char> {
    trim_end_text(trim_start_text(text))
}

proof fn lemma_trim_start_blank(text: Seq<char>)
    ensures
        (trim_start_text(text).len() == 0) == is_blank_text(text),
    decreases text.len(),
{
    if text.len() > 0 && is_unicode_whitespace(text[0]) {
        lemma_trim_start_blank(text.drop_first());
        if is_blank_text(text.drop_first()) {
            assert forall|i: int| 0 <= i < text.len() implies is_unicode_whitespace(#[trigger] text[i]) by {
                if i > 0 {
                    assert(text[i] == text.drop_first()[i - 1]);
                }
            }
        } else {
            let i = choose|i: int| 0 <= i < text.drop_first().len() && !is_unicode_whitespace(#[trigger] text.drop_first()[i]);
            assert(text[i + 1] == text.drop_first()[i]);
        }
    }
}

proof fn lemma_trim_end_empty(text: Seq<char>)
    ensures
        text.len() > 0 && !is_unicode_whitespace(text[0]) ==> trim_end_text(text).len() > 0,
    decreases text.len(),
{
    if text.len() > 0 && is_unicode_whitespace(text.last()) {
        lemma_trim_end_empty(text.drop_last());
        if text.len() > 1 {
            assert(text.drop_last()[0] == text[0]);
        }
    }
}

proof fn lemma_trim_start_head(text: Seq<char>)
    ensures
        trim_start_text(text).len() > 0 ==> !is_unicode_whitespace(trim_start_text(text)[0]),
    decreases text.len(),
{
    if text.len() > 0 && is_unicode_whitespace(text[0]) {
        lemma_trim_start_head(text.drop_first());
    }
}

/// The trimmed text is empty exactly when the text holds only white space.
pub proof fn lemma_trim_blank(text: Seq<char>)
    ensures
        (trim_spec(text).len() == 0) == is_blank_text(text),
{
    lemma_trim_start_blank(text);
    lemma_trim_start_head(text);
    lemma_trim_end_empty(trim_start_text(text));
}

/// `str::trim` (std): the text without its leading and trailing white space,
/// white space being the characters with the Unicode `White_Space` property.
#[verifier::external_body]
pub(crate) fn trim_text(text: &str) -> (trimmed: &str)
    ensures
        trimmed@ == trim_spec(text@),
{
    text.trim()
}

/// `String::push` (std): the character appended to the end of the text.
#[verifier::external_body]
pub(crate) fn push_char(text: &mut String, c: char)
    ensures
        final(text)@ == old(text)@.push(c),
{
    text.push(c);
}

/// ASCII lower case of a character.
pub open spec fn lower_char(c: char) -> char {
    if 'A' <= c <= 'Z' {
        ((c as u32) + 32) as char
    } else {
        c
    }
}

/// The text with its ASCII letters in lower case.
pub open spec fn lower_text(text: Seq<char>) -> Seq<char> {
    text.map_values(|c: char| lower_char(c))
}

/// ASCII lower case of a character.
pub fn ascii_lower_char(c: char) -> (lower: char)
    ensures
        lower == lower_char(c),
{
    if 'A' <= c && c <= 'Z' {
        let code: u8 = c as u8;
        assert(code as u32 == c as u32);
        (code + 32) as char
    } else {
        c
    }
}

/// Appends `text` with its ASCII letters in lower case.
pub fn push_lowercase(out: &mut String, text: &str)
    ensures
        final(out)@ == old(out)@ + lower_text(text@),
{
    broadcast use vstd::string::axiom_spec_iter, vstd::string::next_postcondition;

    let mut chars = text.chars();
    let ghost start = out@;
    let ghost mut k: int = 0;
    loop
        invariant
            0 <= k <= text@.len(),
            chars.remaining() == text@.skip(k),
            chars.obeys_prophetic_iter_laws(),
            out@ == start + lower_text(text@.take(k)),
            start == old(out)@,
        ensures
            out@ == start + lower_text(text@),
        decreases text@.len() - k,
    {
        let next = chars.next();
        match next {
            Some(c) => {
                proof {
                    assert(text@.skip(k)[0] == text@[k]);
                    assert(text@.skip(k).drop_first() =~= text@.skip(k + 1));
                }
                push_char(out, ascii_lower_char(c));
                proof {
                    assert(lower_text(text@.take(k + 1)) =~= lower_text(text@.take(k)).push(
                        lower_char(c),
                    ));
                    k = k + 1;
                }
            },
            None => {
                proof {
                    assert(text@.skip(k).len() == 0);
                    assert(text@.take(k) =~= text@);
                }
                break;
            },
        }
    }
}

/// The text with its ASCII letters in lower case (`str::to_ascii_lowercase`).
pub fn ascii_lowercase(text: &str) -> (lower: String)
    ensures
        lower@ == lower_text(text@),
{
    let mut out = String::new();
    push_lowercase(&mut out, text);
    assert(out@ =~= lower_text(text@));
    out
}

/// The characters of a text.
pub fn char_vec(text: &str) -> (chars: Vec<char>)
    ensures
        chars@ == text@,
{
    broadcast use vstd::string::axiom_spec_iter, vstd::string::next_postcondition;

    let mut iter = text.chars();
    let mut chars: Vec<char> = Vec::new();
    loop
        invariant
            chars@.len() <= text@.len(),
            iter.remaining() == text@.skip(chars@.len() as int),
            iter.obeys_prophetic_iter_laws(),
            chars@ == text@.take(chars@.len() as int),
        ensures
            chars@ == text@,
        decreases text@.len() - chars@.len(),
    {
        let ghost k = chars@.len() as int;
        match iter.next() {
            Some(c) => {
                proof {
                    assert(text@.skip(k)[0] == text@[k]);
                    assert(text@.skip(k).drop_first() =~= text@.skip(k + 1));
                }
                chars.push(c);
                assert(chars@ =~= text@.take(k + 1));
            },
            None => {
                assert(text@.take(k) =~= text@);
                break;
            },
        }
    }
    chars
}

/// The text of the characters `chars[from..to]`.
pub fn string_of_chars(chars: &[char], from: usize, to: usize) -> (text: String)
    requires
        from <= to <= chars@.len(),
    ensures
        text@ == chars@.subrange(from as int, to as int),
{
    let mut text = String::new();
    let mut i: usize = from;
    while i < to
        invariant
            from <= i <= to,
            to <= chars@.len(),
            text@ == chars@.subrange(from as int, i as int),
        decreases to - i,
    {
        push_char(&mut text, chars[i]);
        assert(text@ =~= chars@.subrange(from as int, i + 1));
        i = i + 1;
    }
    text
}

/// Whether `text` is empty once trimmed.
pub fn is_blank(text: &str) -> (blank: bool)
    ensures
        blank == is_blank_text(text@),
{
    proof {
        lemma_trim_blank(text@);
    }
    trim_text(text).is_empty()
}

/// All bytes satisfy `allowed`.
pub open spec fn all_bytes(bytes: Seq<u8>, allowed: spec_fn(u8) -> bool) -> bool {
    forall|i: int| 0 <= i < bytes.len() ==> allowed(#[trigger] bytes[i])
}

pub open spec fn resref_byte(b: u8) -> bool {
    (97 <= b <= 122) || (48 <= b <= 57) || b == 95
}

/// A ResRef that the editor writes: 1 to 16 bytes of `[a-z0-9_]`.
pub open spec fn valid_resref_text(value: Seq<char>) -> bool {
    let bytes = text_bytes(value);
    &&& 0 < bytes.len() <= 16
    &&& all_bytes(bytes, |b: u8| resref_byte(b))
}

fn bytes_are_resref(bytes: &[u8]) -> (valid: bool)
    ensures
        valid == all_bytes(bytes@, |b: u8| resref_byte(b)),
{
    let mut index: usize = 0;
    while index < bytes.len()
        invariant
            index <= bytes@.len(),
            forall|i: int| 0 <= i < index ==> resref_byte(#[trigger] bytes@[i]),
        decreases bytes@.len() - index,
    {
        let b = bytes[index];
        if !((97 <= b && b <= 122) || (48 <= b && b <= 57) || b == 95) {
            return false;
        }
        index += 1;
    }
    true
}

/// Checks a ResRef that the editor is about to write.
pub fn validate_resref(value: &str) -> (result: Result<(), EditError>)
    ensures
        result is Ok == valid_resref_text(value@),
        result matches Err(error) ==> error == EditError::ResrefInvalid,
{
    let bytes = value.as_bytes();
    if bytes.len() == 0 || bytes.len() > 16 || !bytes_are_resref(bytes) {
        return Err(EditError::ResrefInvalid);
    }
    Ok(())
}

/// Checks a walkmesh ResRef (same rule as other ResRefs, its own error).
pub fn validate_walkmesh_resref(value: &str) -> (result: Result<(), EditError>)
    ensures
        result is Ok == valid_resref_text(value@),
        result matches Err(error) ==> error == EditError::WalkmeshResrefInvalid,
{
    match validate_resref(value) {
        Ok(()) => Ok(()),
        Err(_) => Err(EditError::WalkmeshResrefInvalid),
    }
}

pub open spec fn journal_tag_byte(b: u8) -> bool {
    (97 <= b <= 122) || (65 <= b <= 90) || (48 <= b <= 57) || b == 95 || b == 45
}

/// A journal category tag: 1 to 64 ASCII letters, digits, `_` or `-`.
pub open spec fn valid_journal_tag(tag: Seq<char>) -> bool {
    let bytes = text_bytes(tag);
    &&& 0 < bytes.len() <= 64
    &&& all_bytes(bytes, |b: u8| journal_tag_byte(b))
}

fn bytes_are_journal_tag(bytes: &[u8]) -> (valid: bool)
    ensures
        valid == all_bytes(bytes@, |b: u8| journal_tag_byte(b)),
{
    let mut index: usize = 0;
    while index < bytes.len()
        invariant
            index <= bytes@.len(),
            forall|i: int| 0 <= i < index ==> journal_tag_byte(#[trigger] bytes@[i]),
        decreases bytes@.len() - index,
    {
        let b = bytes[index];
        if !((97 <= b && b <= 122) || (65 <= b && b <= 90) || (48 <= b && b <= 57) || b == 95
            || b == 45) {
            return false;
        }
        index += 1;
    }
    true
}

pub fn validate_journal_tag(tag: &str) -> (result: Result<(), EditError>)
    ensures
        result is Ok == valid_journal_tag(tag@),
        result matches Err(error) ==> error == EditError::JournalTagInvalid,
{
    let bytes = tag.as_bytes();
    if bytes.len() == 0 || bytes.len() > 64 || !bytes_are_journal_tag(bytes) {
        return Err(EditError::JournalTagInvalid);
    }
    Ok(())
}

/// The longest faction name, in bytes.
pub const MAX_FACTION_NAME_BYTES: usize = 255;

/// A faction name: 1 to 255 bytes without NUL, CR or LF.
pub open spec fn valid_faction_name(name: Seq<char>) -> bool {
    let bytes = text_bytes(name);
    &&& 0 < bytes.len() <= MAX_FACTION_NAME_BYTES
    &&& all_bytes(bytes, |b: u8| faction_name_byte(b))
}

pub open spec fn faction_name_byte(b: u8) -> bool {
    b != 0 && b != 13 && b != 10
}

fn bytes_are_faction_name(bytes: &[u8]) -> (valid: bool)
    ensures
        valid == all_bytes(bytes@, |b: u8| faction_name_byte(b)),
{
    let mut index: usize = 0;
    while index < bytes.len()
        invariant
            index <= bytes@.len(),
            forall|i: int| 0 <= i < index ==> faction_name_byte(#[trigger] bytes@[i]),
        decreases bytes@.len() - index,
    {
        let b = bytes[index];
        if b == 0 || b == 13 || b == 10 {
            return false;
        }
        index += 1;
    }
    true
}

pub fn validate_faction_name(name: &str) -> (result: Result<(), EditError>)
    ensures
        result is Ok == valid_faction_name(name@),
        result matches Err(error) ==> error == EditError::FactionNameInvalid,
{
    let bytes = name.as_bytes();
    if bytes.len() == 0 || bytes.len() > 255 || !bytes_are_faction_name(bytes) {
        return Err(EditError::FactionNameInvalid);
    }
    Ok(())
}

/// ASCII lower case of a byte.
pub open spec fn lower_byte(b: u8) -> u8 {
    if 65 <= b <= 90 {
        (b + 32) as u8
    } else {
        b
    }
}

/// Whether the two byte strings are equal ignoring ASCII case.
pub open spec fn equal_ignoring_ascii_case(a: Seq<u8>, b: Seq<u8>) -> bool {
    a.len() == b.len() && forall|i: int| 0 <= i < a.len() ==> lower_byte(#[trigger] a[i]) == lower_byte(b[i])
}

pub fn bytes_equal_ignoring_ascii_case(a: &[u8], b: &[u8]) -> (equal: bool)
    ensures
        equal == equal_ignoring_ascii_case(a@, b@),
{
    if a.len() != b.len() {
        return false;
    }
    let mut index: usize = 0;
    while index < a.len()
        invariant
            a@.len() == b@.len(),
            index <= a@.len(),
            forall|i: int| 0 <= i < index ==> lower_byte(#[trigger] a@[i]) == lower_byte(b@[i]),
        decreases a@.len() - index,
    {
        let x = a[index];
        let y = b[index];
        let lx = if 65 <= x && x <= 90 {
            x + 32
        } else {
            x
        };
        let ly = if 65 <= y && y <= 90 {
            y + 32
        } else {
            y
        };
        if lx != ly {
            return false;
        }
        index += 1;
    }
    true
}

/// Whether `text` ends with `suffix`, ignoring ASCII case.
pub open spec fn ends_with_ignoring_ascii_case(text: Seq<u8>, suffix: Seq<u8>) -> bool {
    text.len() >= suffix.len() && equal_ignoring_ascii_case(
        text.subrange(text.len() - suffix.len(), text.len() as int),
        suffix,
    )
}

pub fn bytes_end_with_ignoring_ascii_case(text: &[u8], suffix: &[u8]) -> (ends: bool)
    ensures
        ends == ends_with_ignoring_ascii_case(text@, suffix@),
{
    if text.len() < suffix.len() {
        return false;
    }
    let tail = vstd::slice::slice_subrange(text, text.len() - suffix.len(), text.len());
    bytes_equal_ignoring_ascii_case(tail, suffix)
}

} // verus!
