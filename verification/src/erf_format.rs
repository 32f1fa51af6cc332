//! The layout of an ERF V1.0 container (ERF, HAK, MOD, NWM, SAV) as a
//! function of its resources, and the checks that its writer and its reader
//! share.
use crate::bytes::{little_u32, push_zeros, read_u32_le, u16_le, u32_le, zeros};
use crate::error::ErfError;
use crate::resource::{key_le, text_bytes, ResourceKey};
use vstd::prelude::*;

verus! {

pub const ERF_HEADER_SIZE: u64 = 160;
pub const ERF_KEY_SIZE: u64 = 24;
pub const ERF_RESOURCE_SIZE: u64 = 8;
pub const DEFAULT_MAX_ENTRIES: u32 = 250000;
pub const DEFAULT_MAX_RESOURCE_BYTES: u64 = 16777216;
pub const DEFAULT_MAX_LOCALIZED_STRING_BYTES: u64 = 16777216;

/// The archive-wide fields of an ERF header that a rebuild must preserve.
#[derive(Debug, Clone, PartialEq, Eq)]
pub struct ErfArchiveMetadata {
    pub localized_string_count: u32,
    pub localized_string_bytes: Vec<u8>,
    pub build_year: u32,
    pub build_day: u32,
    pub description_string_ref: u32,
}

/// The archive-wide header fields as plain values.
pub struct ErfMetadataView {
    pub localized_string_count: u32,
    pub localized_string_bytes: Seq<u8>,
    pub build_year: u32,
    pub build_day: u32,
    pub description_string_ref: u32,
}

impl View for ErfArchiveMetadata {
    type V = ErfMetadataView;

    open spec fn view(&self) -> ErfMetadataView {
        ErfMetadataView {
            localized_string_count: self.localized_string_count,
            localized_string_bytes: self.localized_string_bytes@,
            build_year: self.build_year,
            build_day: self.build_day,
            description_string_ref: self.description_string_ref,
        }
    }
}

/// The metadata of a freshly built container of `file_type`.
pub open spec fn default_metadata(file_type: Seq<u8>) -> ErfMetadataView {
    ErfMetadataView {
        localized_string_count: if uses_module_description(file_type) {
            1
        } else {
            0
        },
        localized_string_bytes: if uses_module_description(file_type) {
            zeros(8)
        } else {
            seq![]
        },
        build_year: 0,
        build_day: 0,
        description_string_ref: u32::MAX,
    }
}

/// One resource to store in a container that is built in memory.
#[derive(Debug, Clone, PartialEq, Eq)]
pub struct ErfResourceInput {
    pub key: ResourceKey,
    pub bytes: Vec<u8>,
}

/// The four file-type bytes that an ERF V1.0 container may carry.
pub open spec fn valid_erf_type(file_type: Seq<u8>) -> bool {
    &&& file_type.len() == 4
    &&& file_type[3] == 32
    &&& {
        ||| (file_type[0] == 69 && file_type[1] == 82 && file_type[2] == 70)  // ERF
        ||| (file_type[0] == 72 && file_type[1] == 65 && file_type[2] == 75)  // HAK
        ||| (file_type[0] == 77 && file_type[1] == 79 && file_type[2] == 68)  // MOD
        ||| (file_type[0] == 78 && file_type[1] == 87 && file_type[2] == 77)  // NWM
        ||| (file_type[0] == 83 && file_type[1] == 65 && file_type[2] == 86)  // SAV

    }
}

/// Whether the file type uses a module description (MOD, NWM, SAV).
pub open spec fn uses_module_description(file_type: Seq<u8>) -> bool {
    &&& file_type.len() == 4
    &&& file_type[3] == 32
    &&& {
        ||| (file_type[0] == 77 && file_type[1] == 79 && file_type[2] == 68)
        ||| (file_type[0] == 78 && file_type[1] == 87 && file_type[2] == 77)
        ||| (file_type[0] == 83 && file_type[1] == 65 && file_type[2] == 86)
    }
}

/// The version bytes `V1.0`.
pub open spec fn erf_version() -> Seq<u8> {
    seq![86u8, 49u8, 46u8, 48u8]
}

pub fn is_erf_file_type(file_type: &[u8]) -> (valid: bool)
    ensures
        valid == valid_erf_type(file_type@),
{
    if file_type.len() != 4 || file_type[3] != 32 {
        return false;
    }
    let (a, b, c) = (file_type[0], file_type[1], file_type[2]);
    (a == 69 && b == 82 && c == 70) || (a == 72 && b == 65 && c == 75) || (a == 77 && b == 79 && c
        == 68) || (a == 78 && b == 87 && c == 77) || (a == 83 && b == 65 && c == 86)
}

pub fn is_module_description_type(file_type: &[u8]) -> (uses: bool)
    ensures
        uses == uses_module_description(file_type@),
{
    if file_type.len() != 4 || file_type[3] != 32 {
        return false;
    }
    let (a, b, c) = (file_type[0], file_type[1], file_type[2]);
    (a == 77 && b == 79 && c == 68) || (a == 78 && b == 87 && c == 77) || (a == 83 && b == 65 && c
        == 86)
}

pub fn is_erf_version(version: &[u8]) -> (valid: bool)
    ensures
        valid == (version@ == erf_version()),
{
    let valid = version.len() == 4 && version[0] == 86 && version[1] == 49 && version[2] == 46
        && version[3] == 48;
    if valid {
        assert(version@ =~= erf_version());
    }
    valid
}

impl ErfArchiveMetadata {
    /// The metadata of a freshly built container: one empty localized
    /// description for module-like types, none otherwise, a zero build date
    /// and no description string reference.
    pub fn deterministic_default(file_type: &str) -> (metadata: Self)
        ensures
            metadata@ == default_metadata(text_bytes(file_type@)),
    {
        let uses = is_module_description_type(file_type.as_bytes());
        let mut bytes: Vec<u8> = Vec::new();
        if uses {
            push_zeros(&mut bytes, 8);
        }
        assert(uses ==> bytes@ =~= zeros(8));
        assert(!uses ==> bytes@ =~= seq![]);
        ErfArchiveMetadata {
            localized_string_count: if uses {
                1
            } else {
                0
            },
            localized_string_bytes: bytes,
            build_year: 0,
            build_day: 0,
            description_string_ref: u32::MAX,
        }
    }
}

/// Walks `count` localized strings (language id, size, text) from `cursor`,
/// giving the position after the last one, or `None` when one does not fit.
pub open spec fn localized_walk(bytes: Seq<u8>, count: nat, cursor: int) -> Option<int>
    decreases count,
{
    if count == 0 {
        Some(cursor)
    } else if cursor + 8 > bytes.len() {
        None
    } else {
        let end = cursor + 8 + read_u32_le(bytes, cursor + 4);
        if end > bytes.len() {
            None
        } else {
            localized_walk(bytes, (count - 1) as nat, end)
        }
    }
}

/// A localized string table holds exactly `count` complete strings.
pub open spec fn localized_strings_valid(count: nat, bytes: Seq<u8>) -> bool {
    localized_walk(bytes, count, 0) == Some(bytes.len() as int)
}

pub proof fn lemma_localized_walk_monotone(bytes: Seq<u8>, count: nat, cursor: int)
    requires
        0 <= cursor,
    ensures
        localized_walk(bytes, count, cursor) matches Some(end) ==> cursor <= end <= bytes.len()
            || (count == 0 && end == cursor),
    decreases count,
{
    if count > 0 && cursor + 8 <= bytes.len() {
        let end = cursor + 8 + read_u32_le(bytes, cursor + 4);
        if end <= bytes.len() {
            lemma_localized_walk_monotone(bytes, (count - 1) as nat, end);
        }
    }
}

/// Checks that `bytes` holds exactly `count` localized strings.
pub fn localized_strings_complete(count: u32, bytes: &[u8]) -> (valid: bool)
    ensures
        valid == localized_strings_valid(count as nat, bytes@),
{
    let mut cursor: usize = 0;
    let mut index: u32 = 0;
    while index < count
        invariant
            index <= count,
            cursor <= bytes@.len(),
            localized_walk(bytes@, count as nat, 0) == localized_walk(
                bytes@,
                (count - index) as nat,
                cursor as int,
            ),
        decreases count - index,
    {
        if bytes.len() < 8 || cursor > bytes.len() - 8 {
            return false;
        }
        let size = little_u32(bytes, cursor + 4) as usize;
        let header_end = cursor + 8;
        if size > bytes.len() - header_end {
            return false;
        }
        cursor = header_end + size;
        index += 1;
    }
    cursor == bytes.len()
}

/// A ResRef that the writer accepts: 1 to 16 ASCII bytes without NUL.
pub open spec fn valid_resref_bytes(name: Seq<u8>) -> bool {
    &&& 0 < name.len() <= 16
    &&& forall|i: int| 0 <= i < name.len() ==> #[trigger] name[i] != 0 && name[i] < 128
}

pub fn is_valid_resref_bytes(name: &[u8]) -> (valid: bool)
    ensures
        valid == valid_resref_bytes(name@),
{
    if name.len() == 0 || name.len() > 16 {
        return false;
    }
    let mut index: usize = 0;
    while index < name.len()
        invariant
            index <= name@.len(),
            forall|i: int| 0 <= i < index ==> #[trigger] name@[i] != 0 && name@[i] < 128,
        decreases name@.len() - index,
    {
        if name[index] == 0 || name[index] >= 128 {
            return false;
        }
        index += 1;
    }
    true
}

/// What the tables of a container record of one resource: its ResRef
/// bytes, its type and its payload size.
pub struct EntryShape {
    pub resref: Seq<u8>,
    pub resource_type: u16,
    pub size: int,
}

impl EntryShape {
    pub open spec fn key(self) -> (Seq<u8>, u16) {
        (self.resref, self.resource_type)
    }
}

/// The shape of an in-memory resource.
pub open spec fn input_shape(resource: ErfResourceInput) -> EntryShape {
    EntryShape {
        resref: resource.key.resref_bytes(),
        resource_type: resource.key.resource_type,
        size: resource.bytes@.len() as int,
    }
}

/// The shapes of in-memory resources.
pub open spec fn input_shapes(resources: Seq<ErfResourceInput>) -> Seq<EntryShape> {
    resources.map_values(|r: ErfResourceInput| input_shape(r))
}

/// The 24-byte key record of `entry` stored as entry `index`.
pub open spec fn key_record(entry: EntryShape, index: int) -> Seq<u8> {
    entry.resref + zeros(16 - entry.resref.len()) + u32_le(index) + u16_le(
        entry.resource_type as int,
    ) + zeros(2)
}

/// The key table of `ordered`.
pub open spec fn key_table(ordered: Seq<EntryShape>) -> Seq<u8>
    decreases ordered.len(),
{
    if ordered.len() == 0 {
        seq![]
    } else {
        key_table(ordered.drop_last()) + key_record(ordered.last(), ordered.len() - 1)
    }
}

/// The total payload size of `ordered`.
pub open spec fn payload_size(ordered: Seq<EntryShape>) -> int
    decreases ordered.len(),
{
    if ordered.len() == 0 {
        0
    } else {
        payload_size(ordered.drop_last()) + ordered.last().size
    }
}

/// The resource table (offset, size) of `ordered` whose data starts at `data_offset`.
pub open spec fn resource_table(ordered: Seq<EntryShape>, data_offset: int) -> Seq<u8>
    decreases ordered.len(),
{
    if ordered.len() == 0 {
        seq![]
    } else {
        resource_table(ordered.drop_last(), data_offset) + u32_le(
            data_offset + payload_size(ordered.drop_last()),
        ) + u32_le(ordered.last().size)
    }
}

/// The payloads of `ordered`, one after the other.
pub open spec fn payloads(ordered: Seq<ErfResourceInput>) -> Seq<u8>
    decreases ordered.len(),
{
    if ordered.len() == 0 {
        seq![]
    } else {
        payloads(ordered.drop_last()) + ordered.last().bytes@
    }
}

/// Where the payloads start for a localized table of `localized_size` bytes
/// and `entry_count` entries.
pub open spec fn data_offset(localized_size: int, entry_count: int) -> int {
    160 + localized_size + 24 * entry_count + 8 * entry_count
}

/// The 160-byte header.
pub open spec fn erf_header(
    file_type: Seq<u8>,
    metadata: ErfMetadataView,
    entry_count: int,
) -> Seq<u8> {
    let localized_size = metadata.localized_string_bytes.len() as int;
    file_type + erf_version() + u32_le(metadata.localized_string_count as int) + u32_le(
        localized_size,
    ) + u32_le(entry_count) + u32_le(160) + u32_le(160 + localized_size) + u32_le(
        160 + localized_size + 24 * entry_count,
    ) + u32_le(metadata.build_year as int) + u32_le(metadata.build_day as int) + u32_le(
        metadata.description_string_ref as int,
    ) + zeros(116)
}

/// Everything before the payloads: header, localized strings, key table and
/// resource table of the entries `ordered`, in this order.
pub open spec fn erf_tables(
    file_type: Seq<u8>,
    metadata: ErfMetadataView,
    ordered: Seq<EntryShape>,
) -> Seq<u8> {
    let n = ordered.len() as int;
    erf_header(file_type, metadata, n) + metadata.localized_string_bytes + key_table(ordered)
        + resource_table(ordered, data_offset(metadata.localized_string_bytes.len() as int, n))
}

/// The complete container that stores `ordered` in this order.
pub open spec fn erf_image(
    file_type: Seq<u8>,
    metadata: ErfMetadataView,
    ordered: Seq<ErfResourceInput>,
) -> Seq<u8> {
    erf_tables(file_type, metadata, input_shapes(ordered)) + payloads(ordered)
}

/// The first problem among the entries from position `i` on: an invalid
/// ResRef, or an offset or size that does not fit in 32 bits.
pub open spec fn entries_error(ordered: Seq<EntryShape>, data_offset: int, i: int) -> Option<
    ErfError,
>
    decreases ordered.len() - i,
{
    if i < 0 || i >= ordered.len() {
        None
    } else if !valid_resref_bytes(ordered[i].resref) {
        Some(ErfError::WriteResrefInvalid)
    } else if data_offset + payload_size(ordered.take(i)) > u32::MAX || ordered[i].size
        > u32::MAX {
        Some(ErfError::WriteSizeOverflow)
    } else {
        entries_error(ordered, data_offset, i + 1)
    }
}

/// `perm` lists each position of a sequence of length `n` once.
pub open spec fn is_rearrangement(perm: Seq<int>, n: int) -> bool {
    &&& perm.len() == n
    &&& forall|k: int| 0 <= k < n ==> 0 <= #[trigger] perm[k] < n
    &&& forall|a: int, b: int| 0 <= a < b < n ==> perm[a] != perm[b]
}

/// `items` reordered by `perm`.
pub open spec fn permuted<A>(items: Seq<A>, perm: Seq<int>) -> Seq<A> {
    Seq::new(perm.len(), |k: int| items[perm[k]])
}

/// `perm` orders `entries` by key, as the writer stores them.
pub open spec fn is_key_order(entries: Seq<EntryShape>, perm: Seq<int>) -> bool {
    &&& is_rearrangement(perm, entries.len() as int)
    &&& forall|a: int, b: int|
        0 <= a < b < entries.len() ==> key_le(
            #[trigger] entries[perm[a]].key(),
            #[trigger] entries[perm[b]].key(),
        )
}

/// Two entries share a key.
pub open spec fn has_duplicate_keys(entries: Seq<EntryShape>) -> bool {
    exists|a: int, b: int|
        0 <= a < b < entries.len() && #[trigger] entries[a].key() == #[trigger] entries[b].key()
}

/// The checks that do not depend on the storage order, in the order the
/// writer makes them.
pub open spec fn erf_write_precheck(
    file_type: Seq<u8>,
    entries: Seq<EntryShape>,
    metadata: ErfMetadataView,
) -> Option<ErfError> {
    if !valid_erf_type(file_type) {
        Some(ErfError::WriteTypeInvalid)
    } else if entries.len() > DEFAULT_MAX_ENTRIES {
        Some(ErfError::WriteEntryLimitExceeded)
    } else if has_duplicate_keys(entries) {
        Some(ErfError::WriteDuplicateResource)
    } else if metadata.localized_string_bytes.len() > DEFAULT_MAX_LOCALIZED_STRING_BYTES {
        Some(ErfError::WriteLocalizedStringLimitExceeded)
    } else if !localized_strings_valid(
        metadata.localized_string_count as nat,
        metadata.localized_string_bytes,
    ) {
        Some(ErfError::WriteLocalizedStringsInvalid)
    } else {
        None
    }
}

/// What building the tables of `entries` in the order `perm` gives.
pub open spec fn erf_tables_outcome(
    file_type: Seq<u8>,
    entries: Seq<EntryShape>,
    metadata: ErfMetadataView,
    perm: Seq<int>,
) -> Result<Seq<u8>, ErfError> {
    match erf_write_precheck(file_type, entries, metadata) {
        Some(error) => Err(error),
        None => {
            let ordered = permuted(entries, perm);
            match entries_error(
                ordered,
                data_offset(
                    metadata.localized_string_bytes.len() as int,
                    entries.len() as int,
                ),
                0,
            ) {
                Some(error) => Err(error),
                None => Ok(erf_tables(file_type, metadata, ordered)),
            }
        },
    }
}

/// What writing `resources` in the order `perm` gives.
pub open spec fn erf_write_outcome(
    file_type: Seq<u8>,
    resources: Seq<ErfResourceInput>,
    metadata: ErfMetadataView,
    perm: Seq<int>,
) -> Result<Seq<u8>, ErfError> {
    match erf_tables_outcome(file_type, input_shapes(resources), metadata, perm) {
        Err(error) => Err(error),
        Ok(tables) => Ok(tables + payloads(permuted(resources, perm))),
    }
}

pub proof fn lemma_permuted_shapes(resources: Seq<ErfResourceInput>, perm: Seq<int>)
    requires
        is_rearrangement(perm, resources.len() as int),
    ensures
        permuted(input_shapes(resources), perm) == input_shapes(permuted(resources, perm)),
{
    assert(permuted(input_shapes(resources), perm) =~= input_shapes(permuted(resources, perm)));
}

/// Writing in memory stores the tables of the resources and then their payloads.
pub proof fn lemma_write_outcome_image(
    file_type: Seq<u8>,
    resources: Seq<ErfResourceInput>,
    metadata: ErfMetadataView,
    perm: Seq<int>,
)
    requires
        is_rearrangement(perm, resources.len() as int),
        erf_write_outcome(file_type, resources, metadata, perm) is Ok,
    ensures
        erf_write_outcome(file_type, resources, metadata, perm) == Ok::<Seq<u8>, ErfError>(
            erf_image(file_type, metadata, permuted(resources, perm)),
        ),
{
    lemma_permuted_shapes(resources, perm);
}

} // verus!
