//! Resource identities (ResRef plus resource type), the resource type table of
//! the Aurora engine and the byte and text helpers that the formats share.
use vstd::prelude::*;
use vstd::utf8::*;

verus! {

broadcast use vstd::utf8::group_utf8_lib;

/// The UTF-8 bytes of a text value, as `str::as_bytes` returns them.
pub open spec fn text_bytes(text: Seq<char>) -> Seq<u8> {
    encode_utf8(text)
}

/// The characters that a sequence of ASCII bytes spells.
pub open spec fn ascii_chars(bytes: Seq<u8>) -> Seq<char> {
    Seq::new(bytes.len(), |i: int| bytes[i] as char)
}

pub open spec fn all_ascii(bytes: Seq<u8>) -> bool {
    forall|i: int| 0 <= i < bytes.len() ==> #[trigger] bytes[i] < 128
}

pub proof fn lemma_ascii_chars_bytes(bytes: Seq<u8>)
    requires
        all_ascii(bytes),
    ensures
        is_ascii_chars(ascii_chars(bytes)),
        text_bytes(ascii_chars(bytes)) == bytes,
{
    let chars = ascii_chars(bytes);
    assert(is_ascii_chars(chars)) by {
        assert forall|i| 0 <= i < chars.len() implies '\0' <= #[trigger] chars[i] <= '\u{7f}' by {
            assert(bytes[i] < 128);
        }
    }
    vstd::utf8::is_ascii_chars_encode_utf8(chars);
    assert(text_bytes(chars) =~= bytes);
}

/// Two texts are equal exactly when their UTF-8 encodings are.
pub proof fn lemma_text_bytes_injective(a: Seq<char>, b: Seq<char>)
    ensures
        (text_bytes(a) == text_bytes(b)) == (a == b),
{
    if text_bytes(a) == text_bytes(b) {
        assert(decode_utf8(encode_utf8(a)) == a);
        assert(decode_utf8(encode_utf8(b)) == b);
    }
}

/// Compares two byte sequences.
pub fn bytes_equal(a: &[u8], b: &[u8]) -> (equal: bool)
    ensures
        equal == (a@ == b@),
{
    if a.len() != b.len() {
        return false;
    }
    let mut index: usize = 0;
    while index < a.len()
        invariant
            a@.len() == b@.len(),
            index <= a@.len(),
            forall|k: int| 0 <= k < index ==> a@[k] == b@[k],
        decreases a@.len() - index,
    {
        if a[index] != b[index] {
            return false;
        }
        index += 1;
    }
    assert(a@ =~= b@);
    true
}

/// Compares two texts.
pub fn text_equal(a: &str, b: &str) -> (equal: bool)
    ensures
        equal == (a@ == b@),
{
    let result = bytes_equal(a.as_bytes(), b.as_bytes());
    proof {
        lemma_text_bytes_injective(a@, b@);
    }
    result
}

/// Copies a byte slice into a new vector.
pub fn copy_bytes(source: &[u8]) -> (copy: Vec<u8>)
    ensures
        copy@ == source@,
{
    let mut copy: Vec<u8> = Vec::with_capacity(source.len());
    let mut index: usize = 0;
    while index < source.len()
        invariant
            index <= source@.len(),
            copy@ == source@.subrange(0, index as int),
        decreases source@.len() - index,
    {
        copy.push(source[index]);
        index += 1;
        assert(copy@ =~= source@.subrange(0, index as int));
    }
    assert(copy@ =~= source@);
    copy
}

/// Appends a byte slice to a vector.
pub fn append_bytes(output: &mut Vec<u8>, source: &[u8])
    ensures
        final(output)@ == old(output)@ + source@,
{
    let mut index: usize = 0;
    while index < source.len()
        invariant
            index <= source@.len(),
            output@ == old(output)@ + source@.subrange(0, index as int),
        decreases source@.len() - index,
    {
        output.push(source[index]);
        index += 1;
        assert(output@ =~= old(output)@ + source@.subrange(0, index as int));
    }
    assert(source@.subrange(0, source@.len() as int) =~= source@);
}

/// `String::from_utf8` (std): for valid UTF-8 bytes, the text they encode.
#[verifier::external_body]
fn string_from_utf8(bytes: Vec<u8>) -> (text: String)
    requires
        valid_utf8(bytes@),
    ensures
        text@ == decode_utf8(bytes@),
{
    match String::from_utf8(bytes) {
        Ok(text) => text,
        Err(_) => String::new(),
    }
}

/// UTF-8 encoding distributes over concatenation.
pub proof fn lemma_text_bytes_concat(a: Seq<char>, b: Seq<char>)
    ensures
        text_bytes(a + b) == text_bytes(a) + text_bytes(b),
    decreases a.len(),
{
    if a.len() > 0 {
        lemma_text_bytes_concat(a.drop_first(), b);
        assert((a + b).drop_first() =~= a.drop_first() + b);
        assert((a + b)[0] == a[0]);
        assert(encode_utf8(a + b) =~= encode_utf8(a) + encode_utf8(b));
    } else {
        assert(a + b =~= b);
    }
}

/// The text whose UTF-8 encoding is `bytes`.
pub(crate) fn text_from_bytes(bytes: Vec<u8>, Ghost(text): Ghost<Seq<char>>) -> (result: String)
    requires
        text_bytes(text) == bytes@,
    ensures
        result@ == text,
{
    proof {
        encode_utf8_valid_utf8(text);
        encode_utf8_decode_utf8(text);
    }
    string_from_utf8(bytes)
}

/// Builds a `String` from ASCII bytes.
pub fn ascii_string(bytes: Vec<u8>) -> (text: String)
    requires
        all_ascii(bytes@),
    ensures
        text@ == ascii_chars(bytes@),
        text_bytes(text@) == bytes@,
        is_ascii_chars(text@),
{
    proof {
        lemma_ascii_chars_bytes(bytes@);
    }
    text_from_bytes(bytes, Ghost(ascii_chars(bytes@)))
}

/// Copies a `String` and states that the copy is the same text.
pub fn copy_string(text: &String) -> (copy: String)
    ensures
        copy@ == text@,
{
    text.clone()
}

/// The identity of an Aurora resource: its ResRef and its numeric type.
#[derive(Debug, Clone, PartialEq, Eq, Hash, PartialOrd, Ord)]
pub struct ResourceKey {
    pub resref: String,
    pub resource_type: u16,
}

impl ResourceKey {
    /// The ResRef as UTF-8 bytes.
    pub open spec fn resref_bytes(&self) -> Seq<u8> {
        text_bytes(self.resref@)
    }

    /// The key as a pair of plain values, ordered as `Ord` orders keys.
    pub open spec fn key(&self) -> (Seq<u8>, u16) {
        (self.resref_bytes(), self.resource_type)
    }

    pub fn new(resref: &str, resource_type: u16) -> (key: ResourceKey)
        ensures
            key.resref@ == resref@,
            key.resource_type == resource_type,
    {
        ResourceKey { resref: resref.to_owned(), resource_type }
    }

    /// A copy of the key with the same ResRef text and type.
    pub fn copy_key(&self) -> (copy: ResourceKey)
        ensures
            copy.resref@ == self.resref@,
            copy.resource_type == self.resource_type,
    {
        ResourceKey { resref: copy_string(&self.resref), resource_type: self.resource_type }
    }

    /// Whether two keys name the same resource.
    pub fn same_key(&self, other: &ResourceKey) -> (same: bool)
        ensures
            same == (self.key() == other.key()),
            same == (self.resref@ == other.resref@ && self.resource_type
                == other.resource_type),
    {
        proof {
            lemma_text_bytes_injective(self.resref@, other.resref@);
        }
        self.resource_type == other.resource_type && text_equal(
            self.resref.as_str(),
            other.resref.as_str(),
        )
    }
}

/// Strict lexicographic order of byte strings, the order of `[u8]`'s `Ord`.
pub open spec fn bytes_lt(a: Seq<u8>, b: Seq<u8>) -> bool
    decreases a.len(),
{
    if a.len() == 0 {
        b.len() > 0
    } else if b.len() == 0 {
        false
    } else if a[0] != b[0] {
        a[0] < b[0]
    } else {
        bytes_lt(a.drop_first(), b.drop_first())
    }
}

pub proof fn lemma_bytes_lt_irreflexive(a: Seq<u8>)
    ensures
        !bytes_lt(a, a),
    decreases a.len(),
{
    if a.len() > 0 {
        lemma_bytes_lt_irreflexive(a.drop_first());
    }
}

pub proof fn lemma_bytes_lt_asymmetric(a: Seq<u8>, b: Seq<u8>)
    ensures
        !(bytes_lt(a, b) && bytes_lt(b, a)),
    decreases a.len(),
{
    if a.len() > 0 && b.len() > 0 && a[0] == b[0] {
        lemma_bytes_lt_asymmetric(a.drop_first(), b.drop_first());
    }
}

pub proof fn lemma_bytes_lt_transitive(a: Seq<u8>, b: Seq<u8>, c: Seq<u8>)
    requires
        bytes_lt(a, b),
        bytes_lt(b, c),
    ensures
        bytes_lt(a, c),
    decreases a.len(),
{
    if a.len() > 0 && b.len() > 0 && c.len() > 0 && a[0] == b[0] && b[0] == c[0] {
        lemma_bytes_lt_transitive(a.drop_first(), b.drop_first(), c.drop_first());
    }
}

pub proof fn lemma_bytes_lt_total(a: Seq<u8>, b: Seq<u8>)
    ensures
        a == b || bytes_lt(a, b) || bytes_lt(b, a),
    decreases a.len(),
{
    if a.len() > 0 && b.len() > 0 && a[0] == b[0] {
        lemma_bytes_lt_total(a.drop_first(), b.drop_first());
        if a.drop_first() == b.drop_first() {
            assert(a =~= seq![a[0]] + a.drop_first());
            assert(b =~= seq![b[0]] + b.drop_first());
        }
    } else if a.len() == 0 && b.len() == 0 {
        assert(a =~= b);
    }
}

/// Strict order of resource keys: ResRef bytes first, then the type.
pub open spec fn key_lt(a: (Seq<u8>, u16), b: (Seq<u8>, u16)) -> bool {
    bytes_lt(a.0, b.0) || (a.0 == b.0 && a.1 < b.1)
}

pub open spec fn key_le(a: (Seq<u8>, u16), b: (Seq<u8>, u16)) -> bool {
    key_lt(a, b) || a == b
}

pub proof fn lemma_key_le_antisymmetric(a: (Seq<u8>, u16), b: (Seq<u8>, u16))
    requires
        key_le(a, b),
        key_le(b, a),
    ensures
        a == b,
{
    lemma_bytes_lt_asymmetric(a.0, b.0);
    lemma_bytes_lt_irreflexive(a.0);
}

pub proof fn lemma_key_le_transitive(a: (Seq<u8>, u16), b: (Seq<u8>, u16), c: (Seq<u8>, u16))
    requires
        key_le(a, b),
        key_le(b, c),
    ensures
        key_le(a, c),
        key_lt(a, b) ==> key_lt(a, c),
        key_lt(b, c) ==> key_lt(a, c),
{
    if bytes_lt(a.0, b.0) && bytes_lt(b.0, c.0) {
        lemma_bytes_lt_transitive(a.0, b.0, c.0);
    }
}

pub proof fn lemma_key_total(a: (Seq<u8>, u16), b: (Seq<u8>, u16))
    ensures
        key_lt(a, b) || a == b || key_lt(b, a),
{
    lemma_bytes_lt_total(a.0, b.0);
}

/// Compares two byte strings in lexicographic order.
pub fn compare_bytes_lt(a: &[u8], b: &[u8]) -> (less: bool)
    ensures
        less == bytes_lt(a@, b@),
{
    let mut index: usize = 0;
    assert(a@.skip(0) =~= a@);
    assert(b@.skip(0) =~= b@);
    while index < a.len() && index < b.len()
        invariant
            index <= a@.len(),
            index <= b@.len(),
            forall|k: int| 0 <= k < index ==> a@[k] == b@[k],
            bytes_lt(a@, b@) == bytes_lt(a@.skip(index as int), b@.skip(index as int)),
        decreases a@.len() - index,
    {
        if a[index] != b[index] {
            return a[index] < b[index];
        }
        assert(a@.skip(index as int).drop_first() =~= a@.skip(index + 1));
        assert(b@.skip(index as int).drop_first() =~= b@.skip(index + 1));
        index += 1;
    }
    index == a.len() && index < b.len()
}

/// Whether resource key `a` orders strictly before `b`.
pub fn resource_key_lt(a: &ResourceKey, b: &ResourceKey) -> (less: bool)
    ensures
        less == key_lt(a.key(), b.key()),
{
    let ab = a.resref.as_str().as_bytes();
    let bb = b.resref.as_str().as_bytes();
    if compare_bytes_lt(ab, bb) {
        true
    } else if bytes_equal(ab, bb) {
        a.resource_type < b.resource_type
    } else {
        false
    }
}

/// Extension of each resource type of the Aurora engine that the editor knows.
pub open spec fn spec_resource_extension(resource_type: u16) -> Option<Seq<char>> {
    match resource_type {
        1 => Some("bmp"@),
        3 => Some("tga"@),
        4 => Some("wav"@),
        6 => Some("plt"@),
        7 => Some("ini"@),
        10 => Some("txt"@),
        2002 => Some("mdl"@),
        2009 => Some("nss"@),
        2010 => Some("ncs"@),
        2011 => Some("mod"@),
        2012 => Some("are"@),
        2013 => Some("set"@),
        2014 => Some("ifo"@),
        2015 => Some("bic"@),
        2016 => Some("wok"@),
        2017 => Some("2da"@),
        2018 => Some("tlk"@),
        2022 => Some("txi"@),
        2023 => Some("git"@),
        2025 => Some("uti"@),
        2027 => Some("utc"@),
        2029 => Some("dlg"@),
        2030 => Some("itp"@),
        2032 => Some("utt"@),
        2033 => Some("dds"@),
        2035 => Some("uts"@),
        2036 => Some("ltr"@),
        2037 => Some("gff"@),
        2038 => Some("fac"@),
        2040 => Some("ute"@),
        2042 => Some("utd"@),
        2044 => Some("utp"@),
        2045 => Some("dft"@),
        2046 => Some("gic"@),
        2047 => Some("gui"@),
        2051 => Some("utm"@),
        2052 => Some("dwk"@),
        2053 => Some("pwk"@),
        2056 => Some("jrl"@),
        2057 => Some("sav"@),
        2058 => Some("utw"@),
        2060 => Some("ssf"@),
        2061 => Some("hak"@),
        2062 => Some("nwm"@),
        2064 => Some("ndb"@),
        2065 => Some("ptm"@),
        2066 => Some("ptt"@),
        _ => None,
    }
}

/// The resource types of the Aurora engine and their file extensions, by the
/// engine's numbers: a bitmap is 1, a script source 2009 and its compiled
/// form 2010, an area 2012, module information 2014, an item blueprint 2025,
/// a creature blueprint 2027, a dialogue 2029, a journal 2056, and the
/// others below; no other type has an extension.
pub proof fn law_resource_type_numbers()
    ensures
        spec_resource_extension(1) == Some(seq!['b', 'm', 'p']),
        spec_resource_extension(3) == Some(seq!['t', 'g', 'a']),
        spec_resource_extension(4) == Some(seq!['w', 'a', 'v']),
        spec_resource_extension(6) == Some(seq!['p', 'l', 't']),
        spec_resource_extension(7) == Some(seq!['i', 'n', 'i']),
        spec_resource_extension(10) == Some(seq!['t', 'x', 't']),
        spec_resource_extension(2002) == Some(seq!['m', 'd', 'l']),
        spec_resource_extension(2009) == Some(seq!['n', 's', 's']),
        spec_resource_extension(2010) == Some(seq!['n', 'c', 's']),
        spec_resource_extension(2011) == Some(seq!['m', 'o', 'd']),
        spec_resource_extension(2012) == Some(seq!['a', 'r', 'e']),
        spec_resource_extension(2013) == Some(seq!['s', 'e', 't']),
        spec_resource_extension(2014) == Some(seq!['i', 'f', 'o']),
        spec_resource_extension(2015) == Some(seq!['b', 'i', 'c']),
        spec_resource_extension(2016) == Some(seq!['w', 'o', 'k']),
        spec_resource_extension(2017) == Some(seq!['2', 'd', 'a']),
        spec_resource_extension(2018) == Some(seq!['t', 'l', 'k']),
        spec_resource_extension(2022) == Some(seq!['t', 'x', 'i']),
        spec_resource_extension(2023) == Some(seq!['g', 'i', 't']),
        spec_resource_extension(2025) == Some(seq!['u', 't', 'i']),
        spec_resource_extension(2027) == Some(seq!['u', 't', 'c']),
        spec_resource_extension(2029) == Some(seq!['d', 'l', 'g']),
        spec_resource_extension(2030) == Some(seq!['i', 't', 'p']),
        spec_resource_extension(2032) == Some(seq!['u', 't', 't']),
        spec_resource_extension(2033) == Some(seq!['d', 'd', 's']),
        spec_resource_extension(2035) == Some(seq!['u', 't', 's']),
        spec_resource_extension(2036) == Some(seq!['l', 't', 'r']),
        spec_resource_extension(2037) == Some(seq!['g', 'f', 'f']),
        spec_resource_extension(2038) == Some(seq!['f', 'a', 'c']),
        spec_resource_extension(2040) == Some(seq!['u', 't', 'e']),
        spec_resource_extension(2042) == Some(seq!['u', 't', 'd']),
        spec_resource_extension(2044) == Some(seq!['u', 't', 'p']),
        spec_resource_extension(2045) == Some(seq!['d', 'f', 't']),
        spec_resource_extension(2046) == Some(seq!['g', 'i', 'c']),
        spec_resource_extension(2047) == Some(seq!['g', 'u', 'i']),
        spec_resource_extension(2051) == Some(seq!['u', 't', 'm']),
        spec_resource_extension(2052) == Some(seq!['d', 'w', 'k']),
        spec_resource_extension(2053) == Some(seq!['p', 'w', 'k']),
        spec_resource_extension(2056) == Some(seq!['j', 'r', 'l']),
        spec_resource_extension(2057) == Some(seq!['s', 'a', 'v']),
        spec_resource_extension(2058) == Some(seq!['u', 't', 'w']),
        spec_resource_extension(2060) == Some(seq!['s', 's', 'f']),
        spec_resource_extension(2061) == Some(seq!['h', 'a', 'k']),
        spec_resource_extension(2062) == Some(seq!['n', 'w', 'm']),
        spec_resource_extension(2064) == Some(seq!['n', 'd', 'b']),
        spec_resource_extension(2065) == Some(seq!['p', 't', 'm']),
        spec_resource_extension(2066) == Some(seq!['p', 't', 't']),
        forall|t: u16|
            #![trigger spec_resource_extension(t)]
            !(t == 1 || t == 3 || t == 4 || t == 6 || t == 7 || t == 10 || t == 2002
                || t == 2009 || t == 2010 || t == 2011 || t == 2012 || t == 2013 || t == 2014
                || t == 2015 || t == 2016 || t == 2017 || t == 2018 || t == 2022 || t == 2023
                || t == 2025 || t == 2027 || t == 2029 || t == 2030 || t == 2032 || t == 2033
                || t == 2035 || t == 2036 || t == 2037 || t == 2038 || t == 2040 || t == 2042
                || t == 2044 || t == 2045 || t == 2046 || t == 2047 || t == 2051 || t == 2052
                || t == 2053 || t == 2056 || t == 2057 || t == 2058 || t == 2060 || t == 2061
                || t == 2062 || t == 2064 || t == 2065 || t == 2066) ==> spec_resource_extension(t) is None,
{
    reveal_strlit("bmp");
    reveal_strlit("tga");
    reveal_strlit("wav");
    reveal_strlit("plt");
    reveal_strlit("ini");
    reveal_strlit("txt");
    reveal_strlit("mdl");
    reveal_strlit("nss");
    reveal_strlit("ncs");
    reveal_strlit("mod");
    reveal_strlit("are");
    reveal_strlit("set");
    reveal_strlit("ifo");
    reveal_strlit("bic");
    reveal_strlit("wok");
    reveal_strlit("2da");
    reveal_strlit("tlk");
    reveal_strlit("txi");
    reveal_strlit("git");
    reveal_strlit("uti");
    reveal_strlit("utc");
    reveal_strlit("dlg");
    reveal_strlit("itp");
    reveal_strlit("utt");
    reveal_strlit("dds");
    reveal_strlit("uts");
    reveal_strlit("ltr");
    reveal_strlit("gff");
    reveal_strlit("fac");
    reveal_strlit("ute");
    reveal_strlit("utd");
    reveal_strlit("utp");
    reveal_strlit("dft");
    reveal_strlit("gic");
    reveal_strlit("gui");
    reveal_strlit("utm");
    reveal_strlit("dwk");
    reveal_strlit("pwk");
    reveal_strlit("jrl");
    reveal_strlit("sav");
    reveal_strlit("utw");
    reveal_strlit("ssf");
    reveal_strlit("hak");
    reveal_strlit("nwm");
    reveal_strlit("ndb");
    reveal_strlit("ptm");
    reveal_strlit("ptt");
}

/// The file extension of a resource type, when the type is a known one.
pub fn resource_extension(resource_type: u16) -> (extension: Option<&'static str>)
    ensures
        match extension {
            Some(text) => spec_resource_extension(resource_type) == Some(text@),
            None => spec_resource_extension(resource_type) is None,
        },
{
    match resource_type {
        1 => Some("bmp"),
        3 => Some("tga"),
        4 => Some("wav"),
        6 => Some("plt"),
        7 => Some("ini"),
        10 => Some("txt"),
        2002 => Some("mdl"),
        2009 => Some("nss"),
        2010 => Some("ncs"),
        2011 => Some("mod"),
        2012 => Some("are"),
        2013 => Some("set"),
        2014 => Some("ifo"),
        2015 => Some("bic"),
        2016 => Some("wok"),
        2017 => Some("2da"),
        2018 => Some("tlk"),
        2022 => Some("txi"),
        2023 => Some("git"),
        2025 => Some("uti"),
        2027 => Some("utc"),
        2029 => Some("dlg"),
        2030 => Some("itp"),
        2032 => Some("utt"),
        2033 => Some("dds"),
        2035 => Some("uts"),
        2036 => Some("ltr"),
        2037 => Some("gff"),
        2038 => Some("fac"),
        2040 => Some("ute"),
        2042 => Some("utd"),
        2044 => Some("utp"),
        2045 => Some("dft"),
        2046 => Some("gic"),
        2047 => Some("gui"),
        2051 => Some("utm"),
        2052 => Some("dwk"),
        2053 => Some("pwk"),
        2056 => Some("jrl"),
        2057 => Some("sav"),
        2058 => Some("utw"),
        2060 => Some("ssf"),
        2061 => Some("hak"),
        2062 => Some("nwm"),
        2064 => Some("ndb"),
        2065 => Some("ptm"),
        2066 => Some("ptt"),
        _ => None,
    }
}

/// The extension of a resource type as an owned text.
pub fn resource_extension_string(resource_type: u16) -> (extension: Option<String>)
    ensures
        match extension {
            Some(text) => spec_resource_extension(resource_type) == Some(text@),
            None => spec_resource_extension(resource_type) is None,
        },
{
    match resource_extension(resource_type) {
        Some(text) => Some(text.to_owned()),
        None => None,
    }
}

/// The resource type that a file extension names: the smallest type whose
/// extension is exactly `extension`.
pub fn resource_type_for_extension(extension: &str) -> (resource_type: Option<u16>)
    ensures
        match resource_type {
            Some(t) => spec_resource_extension(t) == Some(extension@) && forall|u: u16|
                u < t ==> spec_resource_extension(u) != Some(extension@),
            None => forall|u: u16| spec_resource_extension(u) != Some(extension@),
        },
{
    let mut candidate: u32 = 0;
    while candidate <= 0xffff
        invariant
            candidate <= 0x10000,
            forall|u: u16| u < candidate ==> spec_resource_extension(u) != Some(extension@),
        decreases 0x10000 - candidate,
    {
        let t = candidate as u16;
        if let Some(known) = resource_extension(t) {
            if text_equal(known, extension) {
                return Some(t);
            }
        }
        candidate += 1;
    }
    None
}

/// The kinds of walkmesh that NWN stores as standalone resources.
#[derive(Debug, Clone, Copy, PartialEq, Eq)]
pub enum WalkmeshKind {
    Wok,
    Pwk,
    Dwk,
}

impl WalkmeshKind {
    pub open spec fn spec_resource_type(self) -> u16 {
        match self {
            WalkmeshKind::Wok => 2016,
            WalkmeshKind::Dwk => 2052,
            WalkmeshKind::Pwk => 2053,
        }
    }

    /// The NWN resource type number under which this walkmesh kind is stored.
    pub fn resource_type(self) -> (t: u16)
        ensures
            t == self.spec_resource_type(),
    {
        match self {
            WalkmeshKind::Wok => 2016,
            WalkmeshKind::Dwk => 2052,
            WalkmeshKind::Pwk => 2053,
        }
    }
}

pub open spec fn spec_walkmesh_extension(kind: WalkmeshKind) -> Seq<char> {
    match kind {
        WalkmeshKind::Wok => "wok"@,
        WalkmeshKind::Pwk => "pwk"@,
        WalkmeshKind::Dwk => "dwk"@,
    }
}

/// The file extension of a walkmesh kind.
pub fn walkmesh_extension(kind: WalkmeshKind) -> (extension: &'static str)
    ensures
        extension@ == spec_walkmesh_extension(kind),
        spec_resource_extension(kind.spec_resource_type()) == Some(extension@),
{
    match kind {
        WalkmeshKind::Wok => "wok",
        WalkmeshKind::Pwk => "pwk",
        WalkmeshKind::Dwk => "dwk",
    }
}

/// The extension of the file that holds a resource of `resource_type`: the
/// type's known extension, else the type number in decimal.
pub open spec fn spec_file_extension(resource_type: u16) -> Seq<char> {
    match spec_resource_extension(resource_type) {
        Some(extension) => extension,
        None => ascii_chars(crate::bytes::decimal_digits(resource_type as nat)),
    }
}

impl ResourceKey {
    /// The file name of the resource: its ResRef, a dot and its extension.
    pub open spec fn spec_file_name(&self) -> Seq<char> {
        self.resref@ + seq!['.'] + spec_file_extension(self.resource_type)
    }

    /// The file name of the resource: its ResRef, a dot and its extension.
    pub fn file_name(&self) -> (name: String)
        ensures
            name@ == self.spec_file_name(),
    {
        let mut bytes = copy_bytes(self.resref.as_str().as_bytes());
        bytes.push(46);
        let ghost extension = spec_file_extension(self.resource_type);
        match resource_extension(self.resource_type) {
            Some(known) => {
                append_bytes(&mut bytes, known.as_bytes());
            },
            None => {
                crate::bytes::push_decimal(&mut bytes, self.resource_type as usize);
                proof {
                    crate::bytes::lemma_decimal_digits_ascii(self.resource_type as nat);
                    lemma_ascii_chars_bytes(crate::bytes::decimal_digits(self.resource_type as nat));
                }
            },
        }
        proof {
            lemma_text_bytes_concat(self.resref@, seq!['.']);
            lemma_text_bytes_concat(self.resref@ + seq!['.'], extension);
            is_ascii_chars_encode_utf8(seq!['.']);
            assert(text_bytes(seq!['.']) =~= seq![46u8]);
            assert(bytes@ =~= text_bytes(self.spec_file_name()));
        }
        text_from_bytes(bytes, Ghost(self.spec_file_name()))
    }
}

} // verus!
