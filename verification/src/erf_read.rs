//! Reading ERF containers: header checks, localized strings, the key and
//! resource tables, and single resources.
use crate::bytes::{little_u16, little_u32, read_u16_le, read_u32_le};
use crate::erf_format::{
    erf_version, is_erf_file_type, is_erf_version, localized_strings_complete,
    localized_strings_valid, valid_erf_type, ErfArchiveMetadata, ErfMetadataView,
    DEFAULT_MAX_ENTRIES, DEFAULT_MAX_LOCALIZED_STRING_BYTES, DEFAULT_MAX_RESOURCE_BYTES,
};
use crate::error::ErfError;
use crate::resource::{
    all_ascii, ascii_chars, ascii_string, copy_bytes, resource_extension_string,
    spec_resource_extension, ResourceKey,
};
use vstd::prelude::*;
use vstd::slice::slice_subrange;

verus! {

/// The fixed fields of an ERF header.
#[derive(Debug)]
pub struct ErfHeader {
    pub file_type: Vec<u8>,
    pub file_version: Vec<u8>,
    pub localized_string_count: u32,
    pub localized_string_size: u64,
    pub entry_count: u32,
    pub localized_string_offset: u64,
    pub key_offset: u64,
    pub resource_offset: u64,
    pub build_year: u32,
    pub build_day: u32,
    pub description_string_ref: u32,
}

/// The header fields as plain values.
pub struct ErfHeaderView {
    pub file_type: Seq<u8>,
    pub file_version: Seq<u8>,
    pub localized_string_count: u32,
    pub localized_string_size: u64,
    pub entry_count: u32,
    pub localized_string_offset: u64,
    pub key_offset: u64,
    pub resource_offset: u64,
    pub build_year: u32,
    pub build_day: u32,
    pub description_string_ref: u32,
}

impl View for ErfHeader {
    type V = ErfHeaderView;

    open spec fn view(&self) -> ErfHeaderView {
        ErfHeaderView {
            file_type: self.file_type@,
            file_version: self.file_version@,
            localized_string_count: self.localized_string_count,
            localized_string_size: self.localized_string_size,
            entry_count: self.entry_count,
            localized_string_offset: self.localized_string_offset,
            key_offset: self.key_offset,
            resource_offset: self.resource_offset,
            build_year: self.build_year,
            build_day: self.build_day,
            description_string_ref: self.description_string_ref,
        }
    }
}

/// The header stored in the first 160 bytes of `bytes`.
pub open spec fn spec_header(bytes: Seq<u8>) -> ErfHeaderView {
    ErfHeaderView {
        file_type: bytes.subrange(0, 4),
        file_version: bytes.subrange(4, 8),
        localized_string_count: read_u32_le(bytes, 8) as u32,
        localized_string_size: read_u32_le(bytes, 12) as u64,
        entry_count: read_u32_le(bytes, 16) as u32,
        localized_string_offset: read_u32_le(bytes, 20) as u64,
        key_offset: read_u32_le(bytes, 24) as u64,
        resource_offset: read_u32_le(bytes, 28) as u64,
        build_year: read_u32_le(bytes, 32) as u32,
        build_day: read_u32_le(bytes, 36) as u32,
        description_string_ref: read_u32_le(bytes, 40) as u32,
    }
}

/// The first header problem for a file of `file_size` bytes.
pub open spec fn header_error(header: ErfHeaderView, file_size: int, max_entries: u32) -> Option<
    ErfError,
> {
    if !valid_erf_type(header.file_type) {
        Some(ErfError::UnsupportedType)
    } else if header.file_version != erf_version() {
        Some(ErfError::UnsupportedVersion)
    } else if header.entry_count > max_entries {
        Some(ErfError::EntryLimitExceeded)
    } else if header.localized_string_offset + header.localized_string_size > file_size {
        Some(ErfError::LocalizedStringsOutOfBounds)
    } else if header.localized_string_size > DEFAULT_MAX_LOCALIZED_STRING_BYTES {
        Some(ErfError::LocalizedStringLimitExceeded)
    } else if header.key_offset + 24 * header.entry_count > file_size {
        Some(ErfError::KeyTableOutOfBounds)
    } else if header.resource_offset + 8 * header.entry_count > file_size {
        Some(ErfError::ResourceTableOutOfBounds)
    } else {
        None
    }
}

impl ErfHeader {
    /// Decodes the fixed header fields.
    pub fn parse(bytes: &[u8]) -> (header: ErfHeader)
        requires
            bytes@.len() >= 160,
        ensures
            header@ == spec_header(bytes@),
    {
        ErfHeader {
            file_type: copy_bytes(slice_subrange(bytes, 0, 4)),
            file_version: copy_bytes(slice_subrange(bytes, 4, 8)),
            localized_string_count: little_u32(bytes, 8),
            localized_string_size: little_u32(bytes, 12) as u64,
            entry_count: little_u32(bytes, 16),
            localized_string_offset: little_u32(bytes, 20) as u64,
            key_offset: little_u32(bytes, 24) as u64,
            resource_offset: little_u32(bytes, 28) as u64,
            build_year: little_u32(bytes, 32),
            build_day: little_u32(bytes, 36),
            description_string_ref: little_u32(bytes, 40),
        }
    }
}

/// The header fields are plausible for a file of `file_size` bytes.
pub fn validate_header(header: &ErfHeader, file_size: u64, max_entries: u32) -> (result: Result<
    (),
    ErfError,
>)
    requires
        header.localized_string_offset <= u32::MAX,
        header.localized_string_size <= u32::MAX,
        header.key_offset <= u32::MAX,
        header.resource_offset <= u32::MAX,
    ensures
        match result {
            Ok(()) => header_error(header@, file_size as int, max_entries) is None,
            Err(error) => header_error(header@, file_size as int, max_entries) == Some(error),
        },
{
    if !is_erf_file_type(header.file_type.as_slice()) {
        return Err(ErfError::UnsupportedType);
    }
    if !is_erf_version(header.file_version.as_slice()) {
        return Err(ErfError::UnsupportedVersion);
    }
    if header.entry_count > max_entries {
        return Err(ErfError::EntryLimitExceeded);
    }
    if header.localized_string_offset + header.localized_string_size > file_size {
        return Err(ErfError::LocalizedStringsOutOfBounds);
    }
    if header.localized_string_size > 16777216 {
        return Err(ErfError::LocalizedStringLimitExceeded);
    }
    let count = header.entry_count as u64;
    if header.key_offset + 24 * count > file_size {
        return Err(ErfError::KeyTableOutOfBounds);
    }
    if header.resource_offset + 8 * count > file_size {
        return Err(ErfError::ResourceTableOutOfBounds);
    }
    Ok(())
}

/// The localized string table holds exactly the declared strings.
pub fn validate_localized_strings(count: u32, bytes: &[u8]) -> (result: Result<(), ErfError>)
    ensures
        result is Ok == localized_strings_valid(count as nat, bytes@),
        result matches Err(error) ==> error == ErfError::LocalizedStringsInvalid,
{
    if localized_strings_complete(count, bytes) {
        Ok(())
    } else {
        Err(ErfError::LocalizedStringsInvalid)
    }
}

/// A hexadecimal digit in upper case.
pub open spec fn hex_digit(value: int) -> u8 {
    if value < 10 {
        (48 + value) as u8
    } else {
        (55 + value) as u8
    }
}

/// A ResRef byte as text: printable ASCII as itself, anything else as `\xNN`.
pub open spec fn escaped_byte(byte: u8) -> Seq<u8> {
    if 32 <= byte <= 126 {
        seq![byte]
    } else {
        seq![92u8, 120u8, hex_digit(byte as int / 16), hex_digit(byte as int % 16)]
    }
}

/// The text of a 16-byte ResRef field: the bytes up to the first NUL, escaped.
pub open spec fn decoded_resref(field: Seq<u8>) -> Seq<u8>
    decreases field.len(),
{
    if field.len() == 0 || field[0] == 0 {
        seq![]
    } else {
        escaped_byte(field[0]) + decoded_resref(field.drop_first())
    }
}

proof fn lemma_escaped_ascii(byte: u8)
    ensures
        all_ascii(escaped_byte(byte)),
{
}

proof fn lemma_decoded_ascii(field: Seq<u8>)
    ensures
        all_ascii(decoded_resref(field)),
    decreases field.len(),
{
    if field.len() > 0 && field[0] != 0 {
        lemma_decoded_ascii(field.drop_first());
        lemma_escaped_ascii(field[0]);
        let a = escaped_byte(field[0]);
        let b = decoded_resref(field.drop_first());
        assert forall|i: int| 0 <= i < (a + b).len() implies #[trigger] (a + b)[i] < 128 by {
            if i < a.len() {
                assert((a + b)[i] == a[i]);
            } else {
                assert((a + b)[i] == b[i - a.len()]);
            }
        }
    }
}

/// Decodes a ResRef field into its text.
pub fn decode_resref(field: &[u8]) -> (text: String)
    ensures
        text@ == ascii_chars(decoded_resref(field@)),
{
    let mut output: Vec<u8> = Vec::new();
    let mut index: usize = 0;
    assert(field@.skip(0) =~= field@);
    while index < field.len() && field[index] != 0
        invariant
            index <= field@.len(),
            forall|k: int| 0 <= k < index ==> field@[k] != 0,
            decoded_resref(field@) == output@ + decoded_resref(field@.skip(index as int)),
        decreases field@.len() - index,
    {
        let byte = field[index];
        proof {
            assert(field@.skip(index as int).drop_first() =~= field@.skip(index + 1));
        }
        if 32 <= byte && byte <= 126 {
            output.push(byte);
        } else {
            let high = byte / 16;
            let low = byte % 16;
            output.push(92u8);
            output.push(120u8);
            output.push(
                if high < 10 {
                    48 + high
                } else {
                    55 + high
                },
            );
            output.push(
                if low < 10 {
                    48 + low
                } else {
                    55 + low
                },
            );
        }
        proof {
            assert(output@ + decoded_resref(field@.skip(index + 1)) =~= (output@.take(
                output@.len() - escaped_byte(byte).len(),
            ) + escaped_byte(byte)) + decoded_resref(field@.skip(index + 1)));
        }
        index += 1;
    }
    proof {
        if index == field@.len() {
            assert(field@.skip(index as int).len() == 0);
        }
        assert(output@ =~= decoded_resref(field@));
        lemma_decoded_ascii(field@);
    }
    ascii_string(output)
}

/// One resource listed in a container.
#[derive(Debug, Clone, PartialEq, Eq)]
pub struct ContainerResource {
    pub key: ResourceKey,
    pub resource_id: u32,
    pub extension: Option<String>,
    pub offset: u64,
    pub size: u64,
}

/// A listed resource as plain values.
pub struct ContainerResourceView {
    pub resref: Seq<char>,
    pub resource_type: u16,
    pub resource_id: u32,
    pub extension: Option<Seq<char>>,
    pub offset: u64,
    pub size: u64,
}

pub open spec fn text_option(value: Option<String>) -> Option<Seq<char>> {
    match value {
        Some(text) => Some(text@),
        None => None,
    }
}

impl View for ContainerResource {
    type V = ContainerResourceView;

    open spec fn view(&self) -> ContainerResourceView {
        ContainerResourceView {
            resref: self.key.resref@,
            resource_type: self.key.resource_type,
            resource_id: self.resource_id,
            extension: text_option(self.extension),
            offset: self.offset,
            size: self.size,
        }
    }
}

/// How many listed resources there are of one type, and their total size.
#[derive(Debug, Clone, PartialEq, Eq)]
pub struct ResourceTypeSummary {
    pub resource_type: u16,
    pub extension: Option<String>,
    pub count: u32,
    pub total_size: u64,
}

/// The inventory of a container, without its payloads.
#[derive(Debug, Clone, PartialEq, Eq)]
pub struct ContainerInventory {
    pub file_type: String,
    pub file_version: String,
    pub build_year: u32,
    pub build_day: u32,
    pub resource_count: u32,
    pub resources: Vec<ContainerResource>,
    pub type_summaries: Vec<ResourceTypeSummary>,
}

/// The resource id stored in key record `i`.
pub open spec fn entry_id(keys: Seq<u8>, i: int) -> int {
    read_u32_le(keys, 24 * i + 16)
}

/// The listed resource of key record `i`, whose data record is `entry_id`.
pub open spec fn entry_view(keys: Seq<u8>, table: Seq<u8>, i: int) -> ContainerResourceView {
    let id = entry_id(keys, i);
    let resource_type = read_u16_le(keys, 24 * i + 20) as u16;
    ContainerResourceView {
        resref: ascii_chars(decoded_resref(keys.subrange(24 * i, 24 * i + 16))),
        resource_type,
        resource_id: id as u32,
        extension: spec_resource_extension(resource_type),
        offset: read_u32_le(table, 8 * id) as u64,
        size: read_u32_le(table, 8 * id + 4) as u64,
    }
}

/// The first problem among key records `i..entry_count`.
pub open spec fn entries_read_error(
    keys: Seq<u8>,
    table: Seq<u8>,
    entry_count: int,
    file_size: int,
    i: int,
) -> Option<ErfError>
    decreases entry_count - i,
{
    if i < 0 || i >= entry_count {
        None
    } else if entry_id(keys, i) >= entry_count {
        Some(ErfError::ResourceIdInvalid)
    } else if read_u32_le(table, 8 * entry_id(keys, i)) + read_u32_le(
        table,
        8 * entry_id(keys, i) + 4,
    ) > file_size {
        Some(ErfError::ResourceOutOfBounds)
    } else {
        entries_read_error(keys, table, entry_count, file_size, i + 1)
    }
}

/// Number of listed resources of type `t`.
pub open spec fn type_count(resources: Seq<ContainerResourceView>, t: u16) -> nat
    decreases resources.len(),
{
    if resources.len() == 0 {
        0
    } else {
        type_count(resources.drop_last(), t) + if resources.last().resource_type == t {
            1nat
        } else {
            0nat
        }
    }
}

/// Total size of the listed resources of type `t`.
pub open spec fn type_total(resources: Seq<ContainerResourceView>, t: u16) -> int
    decreases resources.len(),
{
    if resources.len() == 0 {
        0
    } else {
        type_total(resources.drop_last(), t) + if resources.last().resource_type == t {
            resources.last().size as int
        } else {
            0
        }
    }
}

/// Type `t` has a summary.
pub open spec fn summarized(summaries: Seq<ResourceTypeSummary>, t: u16) -> bool {
    exists|k: int| 0 <= k < summaries.len() && (#[trigger] summaries[k]).resource_type == t
}

/// The summaries list every listed type once, in increasing type order,
/// with its count and total size.
pub open spec fn summaries_match(
    summaries: Seq<ResourceTypeSummary>,
    resources: Seq<ContainerResourceView>,
) -> bool {
    &&& forall|a: int, b: int|
        0 <= a < b < summaries.len() ==> (#[trigger] summaries[a]).resource_type
            < (#[trigger] summaries[b]).resource_type
    &&& forall|k: int|
        0 <= k < summaries.len() ==> {
            let s = #[trigger] summaries[k];
            &&& s.count as int == type_count(resources, s.resource_type)
            &&& s.total_size as int == type_total(resources, s.resource_type)
            &&& s.count > 0
            &&& text_option(s.extension) == spec_resource_extension(s.resource_type)
        }
    &&& forall|i: int|
        0 <= i < resources.len() ==> #[trigger] summarized(summaries, resources[i].resource_type)
}

proof fn lemma_type_bounds(resources: Seq<ContainerResourceView>, t: u16)
    requires
        forall|i: int| 0 <= i < resources.len() ==> (#[trigger] resources[i]).size <= u32::MAX,
    ensures
        type_count(resources, t) <= resources.len(),
        type_total(resources, t) <= type_count(resources, t) * 4294967295,
        type_total(resources, t) >= 0,
    decreases resources.len(),
{
    if resources.len() > 0 {
        lemma_type_bounds(resources.drop_last(), t);
    }
}

proof fn lemma_type_absent(resources: Seq<ContainerResourceView>, t: u16)
    requires
        forall|i: int| 0 <= i < resources.len() ==> (#[trigger] resources[i]).resource_type != t,
    ensures
        type_count(resources, t) == 0,
        type_total(resources, t) == 0,
    decreases resources.len(),
{
    if resources.len() > 0 {
        lemma_type_absent(resources.drop_last(), t);
    }
}

/// Adds one listed resource to the summaries.
fn add_to_summaries(
    summaries: &mut Vec<ResourceTypeSummary>,
    resource_type: u16,
    size: u64,
    Ghost(before): Ghost<Seq<ContainerResourceView>>,
    Ghost(added): Ghost<ContainerResourceView>,
)
    requires
        summaries_match(old(summaries)@, before),
        added.resource_type == resource_type,
        added.size == size,
        size <= u32::MAX,
        before.len() < u32::MAX,
        forall|i: int| 0 <= i < before.len() ==> (#[trigger] before[i]).size <= u32::MAX,
    ensures
        summaries_match(final(summaries)@, before.push(added)),
{
    let ghost after = before.push(added);
    proof {
        assert(after.drop_last() =~= before);
        assert forall|i: int| 0 <= i < after.len() implies (#[trigger] after[i]).size
            <= u32::MAX by {
            if i < before.len() {
                assert(after[i] == before[i]);
            }
        }
        lemma_type_bounds(after, resource_type);
    }
    let mut position: usize = 0;
    while position < summaries.len() && summaries[position].resource_type < resource_type
        invariant
            position <= summaries@.len(),
            forall|k: int| 0 <= k < position ==> (#[trigger] summaries@[k]).resource_type
                < resource_type,
        decreases summaries@.len() - position,
    {
        position += 1;
    }
    let ghost old_summaries = summaries@;
    if position < summaries.len() && summaries[position].resource_type == resource_type {
        let count = summaries[position].count;
        let total = summaries[position].total_size;
        proof {
            lemma_type_bounds(before, resource_type);
        }
        let updated = ResourceTypeSummary {
            resource_type,
            extension: resource_extension_string(resource_type),
            count: count + 1,
            total_size: total + size,
        };
        summaries.set(position, updated);
        proof {
            assert forall|k: int| 0 <= k < summaries@.len() implies {
                let s = #[trigger] summaries@[k];
                &&& s.count as int == type_count(after, s.resource_type)
                &&& s.total_size as int == type_total(after, s.resource_type)
                &&& s.count > 0
                &&& text_option(s.extension) == spec_resource_extension(s.resource_type)
            } by {
                if k != position {
                    assert(summaries@[k] == old_summaries[k]);
                    assert(old_summaries[k].resource_type != resource_type);
                }
            }
            assert forall|i: int| 0 <= i < after.len() implies #[trigger] summarized(
                summaries@,
                after[i].resource_type,
            ) by {
                if i < before.len() {
                    assert(after[i] == before[i]);
                    assert(summarized(old_summaries, before[i].resource_type));
                    let k = choose|k: int|
                        0 <= k < old_summaries.len() && (#[trigger] old_summaries[k]).resource_type
                            == before[i].resource_type;
                    assert(summaries@[k].resource_type == old_summaries[k].resource_type);
                } else {
                    assert(summaries@[position as int].resource_type == resource_type);
                }
            }
        }
    } else {
        proof {
            assert forall|i: int| 0 <= i < before.len() implies (#[trigger] before[i]).resource_type
                != resource_type by {
                assert(summarized(old_summaries, before[i].resource_type));
                let k = choose|k: int|
                    0 <= k < old_summaries.len() && (#[trigger] old_summaries[k]).resource_type
                        == before[i].resource_type;
                if k < position {
                } else if k == position {
                } else {
                    assert(old_summaries[position as int].resource_type
                        < old_summaries[k].resource_type);
                }
            }
            lemma_type_absent(before, resource_type);
        }
        let fresh = ResourceTypeSummary {
            resource_type,
            extension: resource_extension_string(resource_type),
            count: 1,
            total_size: size,
        };
        summaries.insert(position, fresh);
        proof {
            assert forall|a: int, b: int| 0 <= a < b < summaries@.len() implies (
            #[trigger] summaries@[a]).resource_type < (#[trigger] summaries@[b]).resource_type by {
                if a < position && b == position {
                } else if a < position && b > position {
                    assert(summaries@[b] == old_summaries[b - 1]);
                    if position < old_summaries.len() {
                        assert(old_summaries[position as int].resource_type > resource_type);
                        if b - 1 > position {
                            assert(old_summaries[position as int].resource_type
                                < old_summaries[b - 1].resource_type);
                        }
                    }
                } else if a == position {
                    assert(summaries@[b] == old_summaries[b - 1]);
                    assert(old_summaries[position as int].resource_type > resource_type);
                    if b - 1 > position {
                        assert(old_summaries[position as int].resource_type
                            < old_summaries[b - 1].resource_type);
                    }
                } else if a > position {
                    assert(summaries@[a] == old_summaries[a - 1]);
                    assert(summaries@[b] == old_summaries[b - 1]);
                }
            }
            assert forall|k: int| 0 <= k < summaries@.len() implies {
                let s = #[trigger] summaries@[k];
                &&& s.count as int == type_count(after, s.resource_type)
                &&& s.total_size as int == type_total(after, s.resource_type)
                &&& s.count > 0
                &&& text_option(s.extension) == spec_resource_extension(s.resource_type)
            } by {
                if k < position {
                    assert(summaries@[k] == old_summaries[k]);
                } else if k > position {
                    assert(summaries@[k] == old_summaries[k - 1]);
                    assert(old_summaries[k - 1].resource_type != resource_type);
                }
            }
            assert forall|i: int| 0 <= i < after.len() implies #[trigger] summarized(
                summaries@,
                after[i].resource_type,
            ) by {
                if i < before.len() {
                    assert(after[i] == before[i]);
                    assert(summarized(old_summaries, before[i].resource_type));
                    let k = choose|k: int|
                        0 <= k < old_summaries.len() && (#[trigger] old_summaries[k]).resource_type
                            == before[i].resource_type;
                    if k < position {
                        assert(summaries@[k] == old_summaries[k]);
                    } else {
                        assert(summaries@[k + 1] == old_summaries[k]);
                    }
                } else {
                    assert(summaries@[position as int].resource_type == resource_type);
                }
            }
        }
    }
}

pub open spec fn resource_views(resources: Seq<ContainerResource>) -> Seq<ContainerResourceView> {
    resources.map_values(|r: ContainerResource| r@)
}

/// Decodes the key and resource tables of `entry_count` entries in a file of
/// `file_size` bytes, and summarizes them by type.
pub fn parse_entries(keys: &[u8], table: &[u8], entry_count: u32, file_size: u64) -> (result:
    Result<(Vec<ContainerResource>, Vec<ResourceTypeSummary>), ErfError>)
    requires
        keys@.len() == 24 * entry_count,
        table@.len() == 8 * entry_count,
    ensures
        match result {
            Ok((resources, summaries)) => {
                &&& entries_read_error(keys@, table@, entry_count as int, file_size as int, 0)
                    is None
                &&& resources@.len() == entry_count
                &&& forall|i: int|
                    0 <= i < entry_count ==> (#[trigger] resources@[i])@ == entry_view(
                        keys@,
                        table@,
                        i,
                    )
                &&& summaries_match(summaries@, resource_views(resources@))
            },
            Err(error) => entries_read_error(
                keys@,
                table@,
                entry_count as int,
                file_size as int,
                0,
            ) == Some(error),
        },
{
    let mut resources: Vec<ContainerResource> = Vec::new();
    let mut summaries: Vec<ResourceTypeSummary> = Vec::new();
    let mut index: u32 = 0;
    let keys_len = keys.len();
    let table_len = table.len();
    while index < entry_count
        invariant
            keys_len == keys@.len(),
            table_len == table@.len(),
            keys@.len() == 24 * entry_count,
            table@.len() == 8 * entry_count,
            index <= entry_count,
            resources@.len() == index,
            forall|i: int|
                0 <= i < index ==> (#[trigger] resources@[i])@ == entry_view(keys@, table@, i),
            forall|i: int| 0 <= i < index ==> (#[trigger] resources@[i]).size <= u32::MAX,
            summaries_match(summaries@, resource_views(resources@)),
            entries_read_error(keys@, table@, entry_count as int, file_size as int, 0)
                == entries_read_error(
                keys@,
                table@,
                entry_count as int,
                file_size as int,
                index as int,
            ),
        decreases entry_count - index,
    {
        let key_start = 24 * (index as usize);
        let resource_id = little_u32(keys, key_start + 16);
        let resource_type = little_u16(keys, key_start + 20);
        if resource_id >= entry_count {
            return Err(ErfError::ResourceIdInvalid);
        }
        let record_start = 8 * (resource_id as usize);
        let offset = little_u32(table, record_start) as u64;
        let size = little_u32(table, record_start + 4) as u64;
        if offset + size > file_size {
            return Err(ErfError::ResourceOutOfBounds);
        }
        let resref = decode_resref(slice_subrange(keys, key_start, key_start + 16));
        let resource = ContainerResource {
            key: ResourceKey { resref, resource_type },
            resource_id,
            extension: resource_extension_string(resource_type),
            offset,
            size,
        };
        assert(resource@ == entry_view(keys@, table@, index as int));
        let ghost before = resource_views(resources@);
        proof {
            assert forall|i: int| 0 <= i < before.len() implies (#[trigger] before[i]).size
                <= u32::MAX by {
                assert(before[i] == resources@[i]@);
            }
        }
        add_to_summaries(&mut summaries, resource_type, size, Ghost(before), Ghost(resource@));
        resources.push(resource);
        proof {
            assert(resource_views(resources@) =~= before.push(resource@));
        }
        index += 1;
    }
    Ok((resources, summaries))
}

/// The key table of the container `bytes` with header `header`.
pub open spec fn key_table_of(bytes: Seq<u8>, header: ErfHeaderView) -> Seq<u8> {
    bytes.subrange(
        header.key_offset as int,
        header.key_offset + 24 * header.entry_count,
    )
}

/// The resource table of the container `bytes` with header `header`.
pub open spec fn resource_table_of(bytes: Seq<u8>, header: ErfHeaderView) -> Seq<u8> {
    bytes.subrange(
        header.resource_offset as int,
        header.resource_offset + 8 * header.entry_count,
    )
}

/// The localized string table of the container `bytes` with header `header`.
pub open spec fn localized_table_of(bytes: Seq<u8>, header: ErfHeaderView) -> Seq<u8> {
    bytes.subrange(
        header.localized_string_offset as int,
        header.localized_string_offset + header.localized_string_size,
    )
}

/// The first problem in the header part of a container (everything the
/// metadata depends on).
pub open spec fn erf_metadata_error(bytes: Seq<u8>, max_entries: u32) -> Option<ErfError> {
    if bytes.len() < 160 {
        Some(ErfError::HeaderTooShort)
    } else {
        let header = spec_header(bytes);
        match header_error(header, bytes.len() as int, max_entries) {
            Some(error) => Some(error),
            None => if !localized_strings_valid(
                header.localized_string_count as nat,
                localized_table_of(bytes, header),
            ) {
                Some(ErfError::LocalizedStringsInvalid)
            } else {
                None
            },
        }
    }
}

/// The first problem that makes reading the inventory of `bytes` fail.
pub open spec fn erf_inventory_error(bytes: Seq<u8>, max_entries: u32) -> Option<ErfError> {
    match erf_metadata_error(bytes, max_entries) {
        Some(error) => Some(error),
        None => {
            let header = spec_header(bytes);
            entries_read_error(
                key_table_of(bytes, header),
                resource_table_of(bytes, header),
                header.entry_count as int,
                bytes.len() as int,
                0,
            )
        },
    }
}

/// The inventory that reading `bytes` gives, when it succeeds.
pub open spec fn inventory_matches(
    inventory: ContainerInventory,
    bytes: Seq<u8>,
) -> bool {
    let header = spec_header(bytes);
    inventory_from(inventory, header, key_table_of(bytes, header), resource_table_of(bytes, header))
}

/// The inventory is that of a container with this header and these key and
/// resource tables: the header's type, version (both ASCII), build year
/// counted from 1900 (saturating), day and entry count, and each entry as
/// the tables give it.
pub open spec fn inventory_from(
    inventory: ContainerInventory,
    header: ErfHeaderView,
    keys: Seq<u8>,
    table: Seq<u8>,
) -> bool {
    &&& inventory.file_type@ == ascii_chars(header.file_type)
    &&& inventory.file_version@ == ascii_chars(header.file_version)
    &&& inventory.build_year == if header.build_year + 1900 > u32::MAX {
        u32::MAX as int
    } else {
        header.build_year + 1900
    }
    &&& inventory.build_day == header.build_day
    &&& inventory.resource_count == header.entry_count
    &&& inventory.resources@.len() == header.entry_count
    &&& forall|i: int|
        0 <= i < header.entry_count ==> (#[trigger] inventory.resources@[i])@ == entry_view(
            keys,
            table,
            i,
        )
    &&& summaries_match(inventory.type_summaries@, resource_views(inventory.resources@))
}

/// The metadata stored in `bytes`, when reading it succeeds.
pub open spec fn stored_metadata(bytes: Seq<u8>) -> ErfMetadataView {
    let header = spec_header(bytes);
    ErfMetadataView {
        localized_string_count: header.localized_string_count,
        localized_string_bytes: localized_table_of(bytes, header),
        build_year: header.build_year,
        build_day: header.build_day,
        description_string_ref: header.description_string_ref,
    }
}

/// Reads ERF containers, refusing those that declare more entries than a limit.
#[derive(Debug, Clone, Copy)]
pub struct ErfReader {
    max_entries: u32,
}

impl Default for ErfReader {
    fn default() -> (reader: Self)
        ensures
            reader.entry_limit() == DEFAULT_MAX_ENTRIES,
    {
        ErfReader { max_entries: 250000 }
    }
}

proof fn lemma_header_reads_fit(bytes: Seq<u8>)
    requires
        bytes.len() >= 160,
    ensures
        ({
            let header = spec_header(bytes);
            &&& header.localized_string_offset <= u32::MAX
            &&& header.localized_string_size <= u32::MAX
            &&& header.key_offset <= u32::MAX
            &&& header.resource_offset <= u32::MAX
        }),
{
}

impl ErfReader {
    /// The largest entry count that this reader accepts.
    pub closed spec fn entry_limit(&self) -> u32 {
        self.max_entries
    }

    pub fn with_max_entries(max_entries: u32) -> (reader: ErfReader)
        ensures
            reader.entry_limit() == max_entries,
    {
        ErfReader { max_entries }
    }

    pub fn max_entries(&self) -> (limit: u32)
        ensures
            limit == self.entry_limit(),
    {
        self.max_entries
    }

    /// Checks the header and localized strings of a complete container held in memory.
    fn checked_header(&self, bytes: &[u8]) -> (result: Result<ErfHeader, ErfError>)
        ensures
            match result {
                Ok(header) => erf_metadata_error(bytes@, self.entry_limit()) is None && header@
                    == spec_header(bytes@),
                Err(error) => erf_metadata_error(bytes@, self.entry_limit()) == Some(error),
            },
    {
        if bytes.len() < 160 {
            return Err(ErfError::HeaderTooShort);
        }
        let header = ErfHeader::parse(bytes);
        proof {
            lemma_header_reads_fit(bytes@);
        }
        match validate_header(&header, bytes.len() as u64, self.max_entries) {
            Err(error) => {
                return Err(error);
            },
            Ok(()) => {},
        }
        let start = header.localized_string_offset as usize;
        let end = start + header.localized_string_size as usize;
        let localized = slice_subrange(bytes, start, end);
        match validate_localized_strings(header.localized_string_count, localized) {
            Err(error) => Err(error),
            Ok(()) => Ok(header),
        }
    }

    /// Reads the inventory of a complete container held in memory.
    pub fn read_inventory_bytes(&self, bytes: &[u8]) -> (result: Result<
        ContainerInventory,
        ErfError,
    >)
        ensures
            match result {
                Ok(inventory) => erf_inventory_error(bytes@, self.entry_limit()) is None
                    && inventory_matches(inventory, bytes@),
                Err(error) => erf_inventory_error(bytes@, self.entry_limit()) == Some(error),
            },
    {
        let header = match self.checked_header(bytes) {
            Err(error) => {
                return Err(error);
            },
            Ok(header) => header,
        };
        let length = bytes.len();
        assert(header_error(header@, length as int, self.entry_limit()) is None);
        let count = header.entry_count as usize;
        let key_start = header.key_offset as usize;
        let keys = slice_subrange(bytes, key_start, key_start + 24 * count);
        let table_start = header.resource_offset as usize;
        let table = slice_subrange(bytes, table_start, table_start + 8 * count);
        inventory_from_tables(header, keys, table, bytes.len() as u64)
    }

    /// Reads the archive metadata of a complete container held in memory.
    pub fn read_archive_metadata_bytes(&self, bytes: &[u8]) -> (result: Result<
        ErfArchiveMetadata,
        ErfError,
    >)
        ensures
            match result {
                Ok(metadata) => erf_metadata_error(bytes@, self.entry_limit()) is None
                    && metadata@ == stored_metadata(bytes@),
                Err(error) => erf_metadata_error(bytes@, self.entry_limit()) == Some(error),
            },
    {
        let header = match self.checked_header(bytes) {
            Err(error) => {
                return Err(error);
            },
            Ok(header) => header,
        };
        let length = bytes.len();
        assert(header_error(header@, length as int, self.entry_limit()) is None);
        let start = header.localized_string_offset as usize;
        let end = start + header.localized_string_size as usize;
        let localized_string_bytes = copy_bytes(slice_subrange(bytes, start, end));
        Ok(
            ErfArchiveMetadata {
                localized_string_count: header.localized_string_count,
                localized_string_bytes,
                build_year: header.build_year,
                build_day: header.build_day,
                description_string_ref: header.description_string_ref,
            },
        )
    }

    /// Reads one listed resource of a complete container held in memory.
    pub fn read_resource_bytes(&self, bytes: &[u8], resource: &ContainerResource) -> (result:
        Result<Vec<u8>, ErfError>)
        ensures
            resource.size > DEFAULT_MAX_RESOURCE_BYTES ==> result == Err::<Vec<u8>, ErfError>(
                ErfError::ResourceLimitExceeded,
            ),
            resource.size <= DEFAULT_MAX_RESOURCE_BYTES && resource.offset + resource.size
                > bytes@.len() ==> result == Err::<Vec<u8>, ErfError>(
                ErfError::ResourceOutOfBounds,
            ),
            resource.size <= DEFAULT_MAX_RESOURCE_BYTES && resource.offset + resource.size
                <= bytes@.len() ==> (result matches Ok(payload) && payload@ == bytes@.subrange(
                resource.offset as int,
                resource.offset + resource.size,
            )),
    {
        if let Err(error) = check_resource_size(resource) {
            return Err(error);
        }
        if let Err(error) = check_resource_bounds(resource, bytes.len() as u64) {
            return Err(error);
        }
        let start = resource.offset as usize;
        let end = start + resource.size as usize;
        Ok(copy_bytes(slice_subrange(bytes, start, end)))
    }
}

/// Checks that a listed resource is small enough to be read into memory.
pub fn check_resource_size(resource: &ContainerResource) -> (result: Result<(), ErfError>)
    ensures
        result is Err == (resource.size > DEFAULT_MAX_RESOURCE_BYTES),
        result matches Err(error) ==> error == ErfError::ResourceLimitExceeded,
{
    if resource.size > 16777216 {
        Err(ErfError::ResourceLimitExceeded)
    } else {
        Ok(())
    }
}

/// Checks that a listed resource lies within a container of `file_size`
/// bytes.
pub fn check_resource_bounds(resource: &ContainerResource, file_size: u64) -> (result: Result<(), ErfError>)
    ensures
        result is Err == (resource.offset + resource.size > file_size),
        result matches Err(error) ==> error == ErfError::ResourceOutOfBounds,
{
    if resource.offset > file_size || resource.size > file_size - resource.offset {
        Err(ErfError::ResourceOutOfBounds)
    } else {
        Ok(())
    }
}

/// The inventory of a container whose header names a supported type and
/// version, from its key and resource tables in a file of `file_size` bytes.
pub fn inventory_from_tables(header: ErfHeader, keys: &[u8], table: &[u8], file_size: u64) -> (result: Result<
    ContainerInventory,
    ErfError,
>)
    requires
        valid_erf_type(header@.file_type),
        header@.file_version == erf_version(),
        keys@.len() == 24 * header@.entry_count,
        table@.len() == 8 * header@.entry_count,
    ensures
        match result {
            Ok(inventory) => entries_read_error(
                keys@,
                table@,
                header@.entry_count as int,
                file_size as int,
                0,
            ) is None && inventory_from(inventory, header@, keys@, table@),
            Err(error) => entries_read_error(
                keys@,
                table@,
                header@.entry_count as int,
                file_size as int,
                0,
            ) == Some(error),
        },
{
    match parse_entries(keys, table, header.entry_count, file_size) {
        Err(error) => Err(error),
        Ok((resources, type_summaries)) => {
            let file_type = ascii_or_escaped(header.file_type);
            let file_version = ascii_or_escaped(header.file_version);
            Ok(
                ContainerInventory {
                    file_type,
                    file_version,
                    build_year: header.build_year.saturating_add(1900),
                    build_day: header.build_day,
                    resource_count: header.entry_count,
                    resources,
                    type_summaries,
                },
            )
        },
    }
}

/// The text of header bytes that are known to be ASCII.
fn ascii_or_escaped(bytes: Vec<u8>) -> (text: String)
    requires
        valid_erf_type(bytes@) || bytes@ == erf_version(),
    ensures
        text@ == ascii_chars(bytes@),
{
    ascii_string(bytes)
}

} // verus!
