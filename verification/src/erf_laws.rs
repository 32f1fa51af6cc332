//! What reading gives back of a container that the writer built.
use crate::bytes::{read_u16_le, read_u32_le, u16_le, u32_le, zeros};
use crate::erf_format::{
    data_offset, entries_error, erf_header, erf_image, erf_tables, erf_tables_outcome, erf_version,
    erf_write_outcome, erf_write_precheck, input_shape, input_shapes, is_key_order, is_rearrangement, key_record, key_table,
    lemma_permuted_shapes, lemma_write_outcome_image, localized_strings_valid, payload_size,
    payloads, permuted, resource_table, valid_erf_type, valid_resref_bytes, EntryShape,
    ErfMetadataView, ErfResourceInput, DEFAULT_MAX_ENTRIES, DEFAULT_MAX_LOCALIZED_STRING_BYTES,
};
use crate::erf_read::{
    decoded_resref, entries_read_error, entry_id, entry_view, erf_inventory_error,
    erf_metadata_error, escaped_byte, header_error, key_table_of, localized_table_of,
    resource_table_of, spec_header, stored_metadata, ContainerResourceView, ErfHeaderView,
};
use crate::error::ErfError;
use crate::resource::{
    all_ascii, ascii_chars, lemma_ascii_chars_bytes, lemma_text_bytes_injective,
    spec_resource_extension, text_bytes,
};
use vstd::prelude::*;

verus! {

/// Reading four bytes that hold `u32_le(value)` gives `value`.
proof fn lemma_read_u32(bytes: Seq<u8>, offset: int, value: int)
    requires
        0 <= offset,
        offset + 4 <= bytes.len(),
        0 <= value <= u32::MAX,
        bytes.subrange(offset, offset + 4) == u32_le(value),
    ensures
        read_u32_le(bytes, offset) == value,
{
    let piece = bytes.subrange(offset, offset + 4);
    assert(bytes[offset] == piece[0]);
    assert(bytes[offset + 1] == piece[1]);
    assert(bytes[offset + 2] == piece[2]);
    assert(bytes[offset + 3] == piece[3]);
    crate::bytes::lemma_u32_le_roundtrip(value, seq![], seq![]);
    assert(seq![] + u32_le(value) + seq![] =~= u32_le(value));
}

proof fn lemma_read_u16(bytes: Seq<u8>, offset: int, value: int)
    requires
        0 <= offset,
        offset + 2 <= bytes.len(),
        0 <= value <= u16::MAX,
        bytes.subrange(offset, offset + 2) == u16_le(value),
    ensures
        read_u16_le(bytes, offset) == value,
{
    let piece = bytes.subrange(offset, offset + 2);
    assert(bytes[offset] == piece[0]);
    assert(bytes[offset + 1] == piece[1]);
    crate::bytes::lemma_u16_le_roundtrip(value, seq![], seq![]);
    assert(seq![] + u16_le(value) + seq![] =~= u16_le(value));
}

/// All ResRefs of `ordered` are valid.
pub open spec fn valid_resrefs(ordered: Seq<EntryShape>) -> bool {
    forall|i: int| 0 <= i < ordered.len() ==> valid_resref_bytes(#[trigger] ordered[i].resref)
}

proof fn lemma_valid_resrefs_prefix(ordered: Seq<EntryShape>)
    requires
        ordered.len() > 0,
        valid_resrefs(ordered),
    ensures
        valid_resrefs(ordered.drop_last()),
        valid_resref_bytes(ordered.last().resref),
{
    let rest = ordered.drop_last();
    assert forall|i: int| 0 <= i < rest.len() implies valid_resref_bytes(#[trigger] rest[i].resref) by {
        assert(rest[i] == ordered[i]);
    }
    assert(valid_resref_bytes(ordered[ordered.len() - 1].resref));
}

proof fn lemma_key_table_length(ordered: Seq<EntryShape>)
    requires
        valid_resrefs(ordered),
    ensures
        key_table(ordered).len() == 24 * ordered.len(),
    decreases ordered.len(),
{
    if ordered.len() > 0 {
        lemma_valid_resrefs_prefix(ordered);
        lemma_key_table_length(ordered.drop_last());
    }
}

proof fn lemma_key_table_at(ordered: Seq<EntryShape>, k: int)
    requires
        valid_resrefs(ordered),
        0 <= k < ordered.len(),
    ensures
        key_table(ordered).subrange(24 * k, 24 * k + 24) == key_record(ordered[k], k),
    decreases ordered.len(),
{
    let rest = ordered.drop_last();
    lemma_valid_resrefs_prefix(ordered);
    lemma_key_table_length(rest);
    assert(key_record(ordered.last(), ordered.len() - 1).len() == 24);
    if k < rest.len() {
        lemma_key_table_at(rest, k);
        assert(rest[k] == ordered[k]);
        assert(key_table(ordered).subrange(24 * k, 24 * k + 24) =~= key_table(rest).subrange(
            24 * k,
            24 * k + 24,
        ));
    } else {
        assert(key_table(ordered).subrange(24 * k, 24 * k + 24) =~= key_record(
            ordered.last(),
            ordered.len() - 1,
        ));
    }
}

proof fn lemma_payload_size_take(ordered: Seq<EntryShape>, i: int)
    requires
        0 <= i <= ordered.len(),
        forall|k: int| 0 <= k < ordered.len() ==> (#[trigger] ordered[k]).size >= 0,
    ensures
        0 <= payload_size(ordered.take(i)) <= payload_size(ordered),
        i < ordered.len() ==> payload_size(ordered.take(i + 1)) == payload_size(ordered.take(i))
            + ordered[i].size,
    decreases ordered.len(),
{
    if i < ordered.len() {
        assert(ordered.take(i + 1).drop_last() =~= ordered.take(i));
    }
    if ordered.len() > 0 {
        let rest = ordered.drop_last();
        assert forall|k: int| 0 <= k < rest.len() implies (#[trigger] rest[k]).size >= 0 by {
            assert(rest[k] == ordered[k]);
        }
        assert(ordered[ordered.len() - 1].size >= 0);
        if i == ordered.len() {
            assert(ordered.take(i) =~= ordered);
            lemma_payload_size_take(rest, i - 1);
            assert(rest.take(i - 1) =~= rest);
        } else {
            lemma_payload_size_take(rest, i);
            assert(rest.take(i) =~= ordered.take(i));
        }
    }
}

proof fn lemma_resource_table_length(ordered: Seq<EntryShape>, d: int)
    ensures
        resource_table(ordered, d).len() == 8 * ordered.len(),
    decreases ordered.len(),
{
    if ordered.len() > 0 {
        lemma_resource_table_length(ordered.drop_last(), d);
    }
}

proof fn lemma_resource_table_at(ordered: Seq<EntryShape>, d: int, k: int)
    requires
        0 <= k < ordered.len(),
    ensures
        resource_table(ordered, d).subrange(8 * k, 8 * k + 4) == u32_le(
            d + payload_size(ordered.take(k)),
        ),
        resource_table(ordered, d).subrange(8 * k + 4, 8 * k + 8) == u32_le(ordered[k].size),
    decreases ordered.len(),
{
    let rest = ordered.drop_last();
    lemma_resource_table_length(rest, d);
    let table = resource_table(ordered, d);
    if k < rest.len() {
        lemma_resource_table_at(rest, d, k);
        assert(rest[k] == ordered[k]);
        assert(rest.take(k) =~= ordered.take(k));
        assert(table.subrange(8 * k, 8 * k + 4) =~= resource_table(rest, d).subrange(
            8 * k,
            8 * k + 4,
        ));
        assert(table.subrange(8 * k + 4, 8 * k + 8) =~= resource_table(rest, d).subrange(
            8 * k + 4,
            8 * k + 8,
        ));
    } else {
        assert(ordered.take(k) =~= rest);
        assert(table.subrange(8 * k, 8 * k + 4) =~= u32_le(d + payload_size(rest)));
        assert(table.subrange(8 * k + 4, 8 * k + 8) =~= u32_le(ordered.last().size));
    }
}

proof fn lemma_shapes_take(ordered: Seq<ErfResourceInput>, i: int)
    requires
        0 <= i <= ordered.len(),
    ensures
        input_shapes(ordered).take(i) == input_shapes(ordered.take(i)),
        input_shapes(ordered).len() == ordered.len(),
        forall|k: int|
            0 <= k < ordered.len() ==> #[trigger] input_shapes(ordered)[k] == input_shape(
                ordered[k],
            ),
{
    assert(input_shapes(ordered).take(i) =~= input_shapes(ordered.take(i)));
}

proof fn lemma_payloads_length(ordered: Seq<ErfResourceInput>)
    ensures
        payloads(ordered).len() == payload_size(input_shapes(ordered)),
    decreases ordered.len(),
{
    if ordered.len() > 0 {
        lemma_payloads_length(ordered.drop_last());
        assert(input_shapes(ordered).drop_last() =~= input_shapes(ordered.drop_last()));
    }
}

proof fn lemma_payload_at(ordered: Seq<ErfResourceInput>, i: int)
    requires
        0 <= i < ordered.len(),
    ensures
        payloads(ordered).subrange(
            payload_size(input_shapes(ordered).take(i)),
            payload_size(input_shapes(ordered).take(i)) + ordered[i].bytes@.len(),
        ) == ordered[i].bytes@,
    decreases ordered.len(),
{
    let rest = ordered.drop_last();
    lemma_payloads_length(rest);
    lemma_shapes_take(ordered, i);
    if i < rest.len() {
        lemma_payload_at(rest, i);
        lemma_shapes_take(rest, i);
        assert(rest[i] == ordered[i]);
        assert(rest.take(i) =~= ordered.take(i));
        let s = payload_size(input_shapes(ordered).take(i));
        lemma_shape_sizes(rest);
        lemma_payload_size_take(input_shapes(rest), i);
        lemma_payload_size_take(input_shapes(rest), i + 1);
        assert(input_shapes(rest).take(i + 1) =~= input_shapes(rest.take(i + 1)));
        assert(payloads(ordered).subrange(s, s + ordered[i].bytes@.len()) =~= payloads(
            rest,
        ).subrange(s, s + ordered[i].bytes@.len()));
    } else {
        assert(ordered.take(i) =~= rest);
        assert(payloads(ordered).subrange(
            payload_size(input_shapes(ordered).take(i)),
            payload_size(input_shapes(ordered).take(i)) + ordered[i].bytes@.len(),
        ) =~= ordered.last().bytes@);
    }
}

proof fn lemma_shape_sizes(ordered: Seq<ErfResourceInput>)
    ensures
        forall|k: int|
            0 <= k < input_shapes(ordered).len() ==> (#[trigger] input_shapes(ordered)[k]).size
                >= 0,
{
}

/// Every entry of `ordered` passes the writer's entry checks.
proof fn lemma_entries_ok(ordered: Seq<EntryShape>, start: int, i: int)
    requires
        0 <= i <= ordered.len(),
        entries_error(ordered, start, i) is None,
    ensures
        forall|k: int|
            i <= k < ordered.len() ==> valid_resref_bytes((#[trigger] ordered[k]).resref) && start
                + payload_size(ordered.take(k)) <= u32::MAX && ordered[k].size <= u32::MAX,
    decreases ordered.len() - i,
{
    if i < ordered.len() {
        lemma_entries_ok(ordered, start, i + 1);
    }
}

/// A ResRef of printable ASCII, padded with NUL bytes, decodes to itself.
proof fn lemma_decoded_printable(name: Seq<u8>, padding: Seq<u8>)
    requires
        printable_resref(name),
        forall|i: int| 0 <= i < padding.len() ==> #[trigger] padding[i] == 0,
    ensures
        decoded_resref(name + padding) == name,
    decreases name.len(),
{
    if name.len() == 0 {
        assert(name + padding =~= padding);
    } else {
        lemma_decoded_printable(name.drop_first(), padding);
        assert((name + padding).drop_first() =~= name.drop_first() + padding);
        assert(escaped_byte(name[0]) =~= seq![name[0]]);
        assert(name =~= seq![name[0]] + name.drop_first());
    }
}

/// The ResRef bytes are printable ASCII.
pub open spec fn printable_resref(name: Seq<u8>) -> bool {
    forall|i: int| 0 <= i < name.len() ==> 32 <= #[trigger] name[i] <= 126
}

proof fn lemma_resref_text(text: Seq<char>)
    requires
        all_ascii(text_bytes(text)),
    ensures
        ascii_chars(text_bytes(text)) == text,
{
    lemma_ascii_chars_bytes(text_bytes(text));
    lemma_text_bytes_injective(ascii_chars(text_bytes(text)), text);
}

/// Where entry `i` of `ordered` stores its payload.
pub open spec fn stored_offset(
    ordered: Seq<ErfResourceInput>,
    metadata: ErfMetadataView,
    i: int,
) -> int {
    data_offset(metadata.localized_string_bytes.len() as int, ordered.len() as int) + payload_size(
        input_shapes(ordered).take(i),
    )
}

/// The listed resource that reading back entry `i` of `ordered` gives.
pub open spec fn listed_entry(
    ordered: Seq<ErfResourceInput>,
    metadata: ErfMetadataView,
    i: int,
) -> ContainerResourceView {
    ContainerResourceView {
        resref: ordered[i].key.resref@,
        resource_type: ordered[i].key.resource_type,
        resource_id: i as u32,
        extension: spec_resource_extension(ordered[i].key.resource_type),
        offset: stored_offset(ordered, metadata, i) as u64,
        size: ordered[i].bytes@.len() as u64,
    }
}

/// Entry `k` reads back as written and lies inside the file.
pub open spec fn entry_reads_back(
    keys: Seq<u8>,
    table: Seq<u8>,
    ordered: Seq<ErfResourceInput>,
    metadata: ErfMetadataView,
    file_size: int,
    k: int,
) -> bool {
    &&& entry_id(keys, k) == k
    &&& read_u32_le(table, 8 * k) == stored_offset(ordered, metadata, k)
    &&& read_u32_le(table, 8 * k + 4) == ordered[k].bytes@.len()
    &&& stored_offset(ordered, metadata, k) + ordered[k].bytes@.len() <= file_size
}

proof fn lemma_entries_read_ok(
    keys: Seq<u8>,
    table: Seq<u8>,
    ordered: Seq<ErfResourceInput>,
    metadata: ErfMetadataView,
    file_size: int,
    i: int,
)
    requires
        0 <= i <= ordered.len(),
        forall|k: int|
            0 <= k < ordered.len() ==> #[trigger] entry_reads_back(
                keys,
                table,
                ordered,
                metadata,
                file_size,
                k,
            ),
    ensures
        entries_read_error(keys, table, ordered.len() as int, file_size, i) is None,
    decreases ordered.len() - i,
{
    if i < ordered.len() {
        assert(entry_reads_back(keys, table, ordered, metadata, file_size, i));
        lemma_entries_read_ok(keys, table, ordered, metadata, file_size, i + 1);
    }
}

/// The header that the writer stores.
pub open spec fn written_header(
    file_type: Seq<u8>,
    metadata: ErfMetadataView,
    n: int,
) -> ErfHeaderView {
    let loc = metadata.localized_string_bytes.len() as int;
    ErfHeaderView {
        file_type,
        file_version: erf_version(),
        localized_string_count: metadata.localized_string_count,
        localized_string_size: loc as u64,
        entry_count: n as u32,
        localized_string_offset: 160,
        key_offset: (160 + loc) as u64,
        resource_offset: (160 + loc + 24 * n) as u64,
        build_year: metadata.build_year,
        build_day: metadata.build_day,
        description_string_ref: metadata.description_string_ref,
    }
}

#[verifier::rlimit(50)]
proof fn lemma_image_header(file_type: Seq<u8>, metadata: ErfMetadataView, rest: Seq<u8>, n: int)
    requires
        file_type.len() == 4,
        0 <= n <= DEFAULT_MAX_ENTRIES,
        metadata.localized_string_bytes.len() <= DEFAULT_MAX_LOCALIZED_STRING_BYTES,
    ensures
        spec_header(erf_header(file_type, metadata, n) + rest) == written_header(
            file_type,
            metadata,
            n,
        ),
        erf_header(file_type, metadata, n).len() == 160,
{
    let loc = metadata.localized_string_bytes.len() as int;
    let key_start: int = 160 + loc;
    let table_start: int = key_start + 24 * n;
    let image = erf_header(file_type, metadata, n) + rest;
    assert(image.subrange(0, 4) =~= file_type);
    assert(image.subrange(4, 8) =~= erf_version());
    assert(image.subrange(8, 12) =~= u32_le(metadata.localized_string_count as int));
    assert(image.subrange(12, 16) =~= u32_le(loc));
    assert(image.subrange(16, 20) =~= u32_le(n));
    assert(image.subrange(20, 24) =~= u32_le(160));
    assert(image.subrange(24, 28) =~= u32_le(key_start));
    assert(image.subrange(28, 32) =~= u32_le(table_start));
    assert(image.subrange(32, 36) =~= u32_le(metadata.build_year as int));
    assert(image.subrange(36, 40) =~= u32_le(metadata.build_day as int));
    assert(image.subrange(40, 44) =~= u32_le(metadata.description_string_ref as int));
    lemma_read_u32(image, 8, metadata.localized_string_count as int);
    lemma_read_u32(image, 12, loc);
    lemma_read_u32(image, 16, n);
    lemma_read_u32(image, 20, 160);
    lemma_read_u32(image, 24, key_start);
    lemma_read_u32(image, 28, table_start);
    lemma_read_u32(image, 32, metadata.build_year as int);
    lemma_read_u32(image, 36, metadata.build_day as int);
    lemma_read_u32(image, 40, metadata.description_string_ref as int);
}

proof fn lemma_key_record_read(ordered: Seq<EntryShape>, k: int)
    requires
        0 <= k < ordered.len(),
        ordered.len() <= DEFAULT_MAX_ENTRIES,
        valid_resrefs(ordered),
        printable_resref(ordered[k].resref),
    ensures
        entry_id(key_table(ordered), k) == k,
        read_u16_le(key_table(ordered), 24 * k + 20) == ordered[k].resource_type,
        decoded_resref(key_table(ordered).subrange(24 * k, 24 * k + 16)) == ordered[k].resref,
{
    let keys = key_table(ordered);
    lemma_key_table_length(ordered);
    lemma_key_table_at(ordered, k);
    let r = ordered[k];
    let name = r.resref;
    let record = key_record(r, k);
    assert(valid_resref_bytes(name));
    assert(record.subrange(16, 20) =~= u32_le(k));
    assert(keys.subrange(24 * k + 16, 24 * k + 20) =~= record.subrange(16, 20));
    lemma_read_u32(keys, 24 * k + 16, k);
    assert(record.subrange(20, 22) =~= u16_le(r.resource_type as int));
    assert(keys.subrange(24 * k + 20, 24 * k + 22) =~= record.subrange(20, 22));
    lemma_read_u16(keys, 24 * k + 20, r.resource_type as int);
    let field = keys.subrange(24 * k, 24 * k + 16);
    assert(field =~= name + zeros(16 - name.len()));
    lemma_decoded_printable(name, zeros(16 - name.len()));
}

proof fn lemma_resource_record_read(ordered: Seq<EntryShape>, d: int, k: int)
    requires
        0 <= k < ordered.len(),
        0 <= d + payload_size(ordered.take(k)) <= u32::MAX,
        0 <= ordered[k].size <= u32::MAX,
    ensures
        read_u32_le(resource_table(ordered, d), 8 * k) == d + payload_size(ordered.take(k)),
        read_u32_le(resource_table(ordered, d), 8 * k + 4) == ordered[k].size,
{
    lemma_resource_table_length(ordered, d);
    lemma_resource_table_at(ordered, d, k);
    let table = resource_table(ordered, d);
    lemma_read_u32(table, 8 * k, d + payload_size(ordered.take(k)));
    lemma_read_u32(table, 8 * k + 4, ordered[k].size);
}

/// The facts about the writer's output that the reading law uses.
proof fn lemma_written_facts(
    file_type: Seq<u8>,
    resources: Seq<ErfResourceInput>,
    metadata: ErfMetadataView,
    perm: Seq<int>,
    image: Seq<u8>,
)
    requires
        is_rearrangement(perm, resources.len() as int),
        erf_write_outcome(file_type, resources, metadata, perm) == Ok::<Seq<u8>, ErfError>(image),
    ensures
        ({
            let ordered = permuted(resources, perm);
            let shapes = input_shapes(ordered);
            let n = resources.len() as int;
            let d = data_offset(metadata.localized_string_bytes.len() as int, n);
            &&& valid_erf_type(file_type)
            &&& n <= DEFAULT_MAX_ENTRIES
            &&& ordered.len() == n
            &&& metadata.localized_string_bytes.len() <= DEFAULT_MAX_LOCALIZED_STRING_BYTES
            &&& localized_strings_valid(
                metadata.localized_string_count as nat,
                metadata.localized_string_bytes,
            )
            &&& image == erf_image(file_type, metadata, ordered)
            &&& entries_error(shapes, d, 0) is None
        }),
{
    let ordered = permuted(resources, perm);
    let n = resources.len() as int;
    let d = data_offset(metadata.localized_string_bytes.len() as int, n);
    let all_shapes = input_shapes(resources);
    assert(all_shapes.len() == n);
    lemma_permuted_shapes(resources, perm);
    assert(permuted(all_shapes, perm) == input_shapes(ordered));
    assert(erf_tables_outcome(file_type, all_shapes, metadata, perm) is Ok);
    assert(erf_write_precheck(file_type, all_shapes, metadata) is None);
    assert(entries_error(input_shapes(ordered), d, 0) is None);
    assert(erf_tables_outcome(file_type, all_shapes, metadata, perm) == Ok::<Seq<u8>, ErfError>(
        erf_tables(file_type, metadata, input_shapes(ordered)),
    ));
    assert(image == erf_image(file_type, metadata, ordered));
}

proof fn lemma_five_parts(a: Seq<u8>, b: Seq<u8>, c: Seq<u8>, d: Seq<u8>, e: Seq<u8>)
    ensures
        ({
            let s = a + b + c + d + e;
            let pb = a.len() as int;
            let pc = pb + b.len();
            let pd = pc + c.len();
            let pe = pd + d.len();
            &&& s == a + (b + c + d + e)
            &&& s.len() == pe + e.len()
            &&& s.subrange(pb, pc) == b
            &&& s.subrange(pc, pd) == c
            &&& s.subrange(pd, pe) == d
            &&& s.subrange(pe, pe + e.len()) == e
        }),
{
    let s = a + b + c + d + e;
    let pb = a.len() as int;
    let pc = pb + b.len();
    let pd = pc + c.len();
    let pe = pd + d.len();
    assert(s =~= a + (b + c + d + e));
    assert(s.subrange(pb, pc) =~= b);
    assert(s.subrange(pc, pd) =~= c);
    assert(s.subrange(pd, pe) =~= d);
    assert(s.subrange(pe, pe + e.len()) =~= e);
}

#[verifier::rlimit(50)]
proof fn lemma_written_layout(
    file_type: Seq<u8>,
    metadata: ErfMetadataView,
    ordered: Seq<ErfResourceInput>,
    image: Seq<u8>,
)
    requires
        valid_erf_type(file_type),
        ordered.len() <= DEFAULT_MAX_ENTRIES,
        metadata.localized_string_bytes.len() <= DEFAULT_MAX_LOCALIZED_STRING_BYTES,
        localized_strings_valid(
            metadata.localized_string_count as nat,
            metadata.localized_string_bytes,
        ),
        image == erf_image(file_type, metadata, ordered),
        valid_resrefs(input_shapes(ordered)),
    ensures
        ({
            let shapes = input_shapes(ordered);
            let n = ordered.len() as int;
            let d = data_offset(metadata.localized_string_bytes.len() as int, n);
            let header = spec_header(image);
            &&& header == written_header(file_type, metadata, n)
            &&& image.len() == d + payload_size(shapes)
            &&& erf_metadata_error(image, DEFAULT_MAX_ENTRIES) is None
            &&& stored_metadata(image) == metadata
            &&& key_table_of(image, header) == key_table(shapes)
            &&& resource_table_of(image, header) == resource_table(shapes, d)
            &&& image.subrange(d, d + payload_size(shapes)) == payloads(ordered)
        }),
{
    let shapes = input_shapes(ordered);
    let n = ordered.len() as int;
    let loc = metadata.localized_string_bytes;
    let d = data_offset(loc.len() as int, n);
    let header_bytes = erf_header(file_type, metadata, n);
    let keys = key_table(shapes);
    let table = resource_table(shapes, d);
    let data = payloads(ordered);
    assert(shapes.len() == n);
    lemma_key_table_length(shapes);
    lemma_resource_table_length(shapes, d);
    lemma_payloads_length(ordered);
    lemma_five_parts(header_bytes, loc, keys, table, data);
    assert(image == header_bytes + loc + keys + table + data);
    lemma_image_header(file_type, metadata, loc + keys + table + data, n);
    let header = spec_header(image);
    assert(header == written_header(file_type, metadata, n));
    assert(header_error(header, image.len() as int, DEFAULT_MAX_ENTRIES) is None);
    assert(localized_table_of(image, header) == loc);
    assert(key_table_of(image, header) == keys);
    assert(resource_table_of(image, header) == table);
    assert(stored_metadata(image) =~= metadata);
}

/// Reading a container that the writer built gives back its header, its
/// metadata, and for each resource in storage order its key, its position,
/// its size and its bytes. ResRefs must be printable ASCII for their text to
/// come back unchanged; any other byte is read back escaped.
#[verifier::rlimit(40)]
pub proof fn law_written_container_reads_back(
    file_type: Seq<u8>,
    resources: Seq<ErfResourceInput>,
    metadata: ErfMetadataView,
    perm: Seq<int>,
    image: Seq<u8>,
)
    requires
        is_key_order(input_shapes(resources), perm),
        erf_write_outcome(file_type, resources, metadata, perm) == Ok::<Seq<u8>, ErfError>(image),
        forall|k: int|
            0 <= k < resources.len() ==> printable_resref(
                (#[trigger] resources[k]).key.resref_bytes(),
            ),
    ensures
        ({
            let ordered = permuted(resources, perm);
            let header = spec_header(image);
            &&& erf_inventory_error(image, DEFAULT_MAX_ENTRIES) is None
            &&& erf_metadata_error(image, DEFAULT_MAX_ENTRIES) is None
            &&& stored_metadata(image) == metadata
            &&& header.file_type == file_type
            &&& header.file_version == erf_version()
            &&& header.entry_count == resources.len()
            &&& forall|i: int|
                0 <= i < ordered.len() ==> entry_view(
                    key_table_of(image, header),
                    resource_table_of(image, header),
                    i,
                ) == #[trigger] listed_entry(ordered, metadata, i)
            &&& forall|i: int|
                0 <= i < ordered.len() ==> image.subrange(
                    stored_offset(ordered, metadata, i),
                    stored_offset(ordered, metadata, i) + ordered[i].bytes@.len(),
                ) == (#[trigger] ordered[i]).bytes@
        }),
{
    let ordered = permuted(resources, perm);
    let shapes = input_shapes(ordered);
    let n = resources.len() as int;
    let d = data_offset(metadata.localized_string_bytes.len() as int, n);
    lemma_written_facts(file_type, resources, metadata, perm, image);
    lemma_entries_ok(shapes, d, 0);
    assert(valid_resrefs(shapes));
    lemma_written_layout(file_type, metadata, ordered, image);
    lemma_shape_sizes(ordered);
    let header = spec_header(image);
    let keys = key_table(shapes);
    let table = resource_table(shapes, d);
    assert forall|k: int| 0 <= k < n implies #[trigger] entry_reads_back(
        keys,
        table,
        ordered,
        metadata,
        image.len() as int,
        k,
    ) && entry_view(keys, table, k) == listed_entry(ordered, metadata, k) by {
        assert(0 <= perm[k] < n);
        assert(ordered[k] == resources[perm[k]]);
        assert(printable_resref(resources[perm[k]].key.resref_bytes()));
        lemma_shapes_take(ordered, k);
        assert(shapes[k] == input_shape(ordered[k]));
        lemma_key_record_read(shapes, k);
        lemma_payload_size_take(shapes, k);
        lemma_resource_record_read(shapes, d, k);
        lemma_payload_size_take(shapes, k + 1);
        assert(all_ascii(ordered[k].key.resref_bytes()));
        lemma_resref_text(ordered[k].key.resref@);
        assert(entry_view(keys, table, k) =~= listed_entry(ordered, metadata, k));
    }
    lemma_entries_read_ok(keys, table, ordered, metadata, image.len() as int, 0);
    assert forall|i: int| 0 <= i < n implies image.subrange(
        stored_offset(ordered, metadata, i),
        stored_offset(ordered, metadata, i) + ordered[i].bytes@.len(),
    ) == (#[trigger] ordered[i]).bytes@ by {
        lemma_shapes_take(ordered, i);
        lemma_payload_size_take(shapes, i);
        lemma_payload_size_take(shapes, i + 1);
        lemma_payload_at(ordered, i);
        assert(image.subrange(
            stored_offset(ordered, metadata, i),
            stored_offset(ordered, metadata, i) + ordered[i].bytes@.len(),
        ) =~= payloads(ordered).subrange(
            payload_size(shapes.take(i)),
            payload_size(shapes.take(i)) + ordered[i].bytes@.len(),
        ));
    }
    assert forall|i: int| 0 <= i < ordered.len() implies entry_view(
        key_table_of(image, header),
        resource_table_of(image, header),
        i,
    ) == #[trigger] listed_entry(ordered, metadata, i) by {
        assert(entry_reads_back(keys, table, ordered, metadata, image.len() as int, i));
    }
}

} // verus!
