//! Building ERF containers: the tables of a container and, for in-memory
//! resources, the whole container.
use crate::bytes::{push_u16_le, push_u32_le, push_zeros, u16_le, u32_le, zeros};
use crate::erf_format::{
    data_offset, default_metadata, entries_error, erf_header, erf_tables, erf_tables_outcome,
    erf_write_outcome, erf_write_precheck, has_duplicate_keys, input_shapes, is_erf_file_type,
    is_key_order, is_valid_resref_bytes, key_table, localized_strings_complete, payload_size,
    payloads, permuted, resource_table, EntryShape, ErfArchiveMetadata, ErfResourceInput,
    DEFAULT_MAX_ENTRIES, DEFAULT_MAX_LOCALIZED_STRING_BYTES,
};
use crate::error::ErfError;
use crate::resource::{
    append_bytes, bytes_equal, bytes_lt, copy_bytes, key_le, lemma_key_le_antisymmetric,
    text_bytes, ResourceKey,
};
use vstd::prelude::*;

verus! {

/// An entry to order: the ResRef bytes, the type and the input position.
pub open spec fn sort_view(entry: (Vec<u8>, u16, usize)) -> (Seq<u8>, u16, usize) {
    (entry.0@, entry.1, entry.2)
}

/// The order of `Ord` on `(Vec<u8>, u16, usize)`: lexicographic, field by field.
pub open spec fn sort_le(a: (Seq<u8>, u16, usize), b: (Seq<u8>, u16, usize)) -> bool {
    bytes_lt(a.0, b.0) || (a.0 == b.0 && (a.1 < b.1 || (a.1 == b.1 && a.2 <= b.2)))
}

/// `slice::sort` of std on `(Vec<u8>, u16, usize)` tuples: the result is a
/// rearrangement of the entries in non-decreasing lexicographic order.
#[verifier::external_body]
fn sort_entries(entries: &mut Vec<(Vec<u8>, u16, usize)>)
    ensures
        final(entries)@.len() == old(entries)@.len(),
        final(entries)@.map_values(|e: (Vec<u8>, u16, usize)| sort_view(e)).to_multiset()
            == old(entries)@.map_values(|e: (Vec<u8>, u16, usize)| sort_view(e)).to_multiset(),
        forall|a: int, b: int|
            0 <= a < b < final(entries)@.len() ==> sort_le(
                sort_view(#[trigger] final(entries)@[a]),
                sort_view(#[trigger] final(entries)@[b]),
            ),
{
    entries.sort();
}

/// One resource of a container as its tables record it: its key and its
/// payload size. The streaming writer builds the tables from these before it
/// copies the payloads.
#[derive(Debug, Clone, PartialEq, Eq)]
pub struct ErfTableEntry {
    pub key: ResourceKey,
    pub size: u64,
}

pub open spec fn table_shape(entry: ErfTableEntry) -> EntryShape {
    EntryShape {
        resref: entry.key.resref_bytes(),
        resource_type: entry.key.resource_type,
        size: entry.size as int,
    }
}

pub open spec fn table_shapes(entries: Seq<ErfTableEntry>) -> Seq<EntryShape> {
    entries.map_values(|e: ErfTableEntry| table_shape(e))
}

/// The entries before ordering.
pub open spec fn unsorted_views(entries: Seq<EntryShape>) -> Seq<(Seq<u8>, u16, usize)> {
    Seq::new(entries.len(), |k: int| (entries[k].resref, entries[k].resource_type, k as usize))
}

/// Every position below `n` appears in `perm`.
pub open spec fn covers(perm: Seq<int>, n: int) -> bool {
    forall|j: int| 0 <= j < n ==> #[trigger] listed(perm, n, j)
}

/// Position `j` appears among the first `n` entries of `perm`.
pub open spec fn listed(perm: Seq<int>, n: int, j: int) -> bool {
    exists|k: int| 0 <= k < n && #[trigger] perm[k] == j
}

proof fn lemma_sorted_entries_order(
    entries: Seq<EntryShape>,
    before: Seq<(Seq<u8>, u16, usize)>,
    after: Seq<(Seq<u8>, u16, usize)>,
)
    requires
        before == unsorted_views(entries),
        entries.len() <= usize::MAX,
        after.len() == before.len(),
        after.to_multiset() == before.to_multiset(),
        forall|a: int, b: int| 0 <= a < b < after.len() ==> sort_le(#[trigger] after[a], #[trigger] after[b]),
    ensures
        ({
            let perm = after.map_values(|e: (Seq<u8>, u16, usize)| e.2 as int);
            &&& is_key_order(entries, perm)
            &&& covers(perm, entries.len() as int)
            &&& forall|k: int|
                0 <= k < after.len() ==> #[trigger] after[k] == (
                    entries[perm[k]].resref,
                    entries[perm[k]].resource_type,
                    after[k].2,
                )
        }),
{
    broadcast use vstd::seq_lib::to_multiset_contains;

    let n = entries.len() as int;
    let perm = after.map_values(|e: (Seq<u8>, u16, usize)| e.2 as int);
    assert(before.no_duplicates()) by {
        assert forall|i: int, j: int| 0 <= i < n && 0 <= j < n && i != j implies before[i]
            != before[j] by {
            assert(before[i].2 == i as usize);
            assert(before[j].2 == j as usize);
        }
    }
    before.lemma_multiset_has_no_duplicates();
    after.lemma_multiset_has_no_duplicates_conv();
    assert forall|k: int| 0 <= k < n implies #[trigger] after[k] == (
        entries[perm[k]].resref,
        entries[perm[k]].resource_type,
        after[k].2,
    ) && 0 <= perm[k] < n by {
        assert(after.contains(after[k]));
        assert(after.to_multiset().count(after[k]) > 0);
        assert(before.to_multiset().count(after[k]) > 0);
        assert(before.contains(after[k]));
        let j = choose|j: int| 0 <= j < n && before[j] == after[k];
        assert(before[j].2 == j as usize);
    }
    assert forall|j: int| 0 <= j < n implies #[trigger] listed(perm, n, j) by {
        assert(before.contains(before[j]));
        assert(before.to_multiset().count(before[j]) > 0);
        assert(after.to_multiset().count(before[j]) > 0);
        assert(after.contains(before[j]));
        let k = choose|k: int| 0 <= k < n && after[k] == before[j];
        assert(perm[k] == j);
    }
    assert forall|a: int, b: int| 0 <= a < b < n implies perm[a] != perm[b] by {
        if perm[a] == perm[b] {
            assert(after[a] == after[b]);
        }
    }
    assert forall|a: int, b: int| 0 <= a < b < n implies key_le(
        #[trigger] entries[perm[a]].key(),
        #[trigger] entries[perm[b]].key(),
    ) by {
        assert(sort_le(after[a], after[b]));
    }
}

proof fn lemma_duplicates_adjacent(entries: Seq<EntryShape>, perm: Seq<int>)
    requires
        is_key_order(entries, perm),
        covers(perm, entries.len() as int),
    ensures
        has_duplicate_keys(entries) <==> exists|k: int|
            0 <= k < entries.len() - 1 && #[trigger] entries[perm[k]].key() == entries[perm[k
                + 1]].key(),
{
    let n = entries.len() as int;
    if has_duplicate_keys(entries) {
        let (a, b) = choose|a: int, b: int|
            0 <= a < b < n && #[trigger] entries[a].key() == #[trigger] entries[b].key();
        assert(listed(perm, n, a));
        assert(listed(perm, n, b));
        let pa = choose|k: int| 0 <= k < n && #[trigger] perm[k] == a;
        let pb = choose|k: int| 0 <= k < n && #[trigger] perm[k] == b;
        let p = if pa < pb {
            pa
        } else {
            pb
        };
        let q = if pa < pb {
            pb
        } else {
            pa
        };
        assert(p < q);
        assert(entries[perm[p]].key() == entries[perm[q]].key());
        if p + 1 < q {
            assert(key_le(entries[perm[p]].key(), entries[perm[p + 1]].key()));
            assert(key_le(entries[perm[p + 1]].key(), entries[perm[q]].key()));
            lemma_key_le_antisymmetric(entries[perm[p]].key(), entries[perm[p + 1]].key());
        }
        assert(entries[perm[p]].key() == entries[perm[p + 1]].key());
    }
    if exists|k: int|
        0 <= k < n - 1 && #[trigger] entries[perm[k]].key() == entries[perm[k + 1]].key() {
        let k = choose|k: int|
            0 <= k < n - 1 && #[trigger] entries[perm[k]].key() == entries[perm[k + 1]].key();
        let a = perm[k];
        let b = perm[k + 1];
        assert(a != b);
        if a < b {
            assert(entries[a].key() == entries[b].key());
        } else {
            assert(entries[b].key() == entries[a].key());
        }
    }
}

/// Orders `entries` by key: the positions of the entries in storage order,
/// and whether two entries share a key.
fn key_order(entries: &[ErfTableEntry]) -> (order: (Vec<usize>, bool))
    requires
        entries@.len() <= DEFAULT_MAX_ENTRIES,
    ensures
        order.0@.len() == entries@.len(),
        is_key_order(table_shapes(entries@), order.0@.map_values(|i: usize| i as int)),
        order.1 == has_duplicate_keys(table_shapes(entries@)),
{
    let ghost shapes = table_shapes(entries@);
    let n = entries.len();
    let mut sortable: Vec<(Vec<u8>, u16, usize)> = Vec::with_capacity(n);
    let mut index: usize = 0;
    while index < n
        invariant
            n == entries@.len(),
            shapes == table_shapes(entries@),
            index <= n,
            sortable@.len() == index,
            forall|k: int|
                0 <= k < index ==> #[trigger] sort_view(sortable@[k]) == unsorted_views(shapes)[k],
        decreases n - index,
    {
        let name = copy_bytes(entries[index].key.resref.as_str().as_bytes());
        sortable.push((name, entries[index].key.resource_type, index));
        index += 1;
    }
    let ghost before = sortable@.map_values(|e: (Vec<u8>, u16, usize)| sort_view(e));
    assert(before =~= unsorted_views(shapes));
    sort_entries(&mut sortable);
    let ghost after = sortable@.map_values(|e: (Vec<u8>, u16, usize)| sort_view(e));
    proof {
        assert forall|a: int, b: int| 0 <= a < b < after.len() implies sort_le(
            #[trigger] after[a],
            #[trigger] after[b],
        ) by {
            assert(sort_le(sort_view(sortable@[a]), sort_view(sortable@[b])));
        }
        lemma_sorted_entries_order(shapes, before, after);
    }
    let ghost perm = after.map_values(|e: (Seq<u8>, u16, usize)| e.2 as int);
    let mut order: Vec<usize> = Vec::with_capacity(n);
    let mut duplicate = false;
    let mut k: usize = 0;
    while k < n
        invariant
            n == shapes.len(),
            sortable@.len() == n,
            after == sortable@.map_values(|e: (Vec<u8>, u16, usize)| sort_view(e)),
            perm == after.map_values(|e: (Seq<u8>, u16, usize)| e.2 as int),
            k <= n,
            order@.len() == k,
            forall|j: int| 0 <= j < k ==> #[trigger] order@[j] as int == perm[j],
            is_key_order(shapes, perm),
            forall|j: int|
                0 <= j < after.len() ==> #[trigger] after[j] == (
                    shapes[perm[j]].resref,
                    shapes[perm[j]].resource_type,
                    after[j].2,
                ),
            duplicate == exists|j: int|
                0 <= j < k - 1 && #[trigger] shapes[perm[j]].key() == shapes[perm[j + 1]].key(),
        decreases n - k,
    {
        let position = sortable[k].2;
        assert(sort_view(sortable@[k as int]) == after[k as int]);
        if k > 0 {
            let same = sortable[k - 1].1 == sortable[k].1 && bytes_equal(
                sortable[k - 1].0.as_slice(),
                sortable[k].0.as_slice(),
            );
            assert(sort_view(sortable@[k - 1]) == after[k - 1]);
            assert(same == (shapes[perm[k - 1]].key() == shapes[perm[(k - 1) + 1]].key()));
            if same {
                duplicate = true;
            }
        }
        order.push(position);
        k += 1;
    }
    proof {
        lemma_duplicates_adjacent(shapes, perm);
        assert(order@.map_values(|i: usize| i as int) =~= perm);
    }
    (order, duplicate)
}

/// Builds the 160-byte header.
fn push_header(
    output: &mut Vec<u8>,
    file_type: &[u8],
    metadata: &ErfArchiveMetadata,
    entry_count: u32,
)
    requires
        file_type@.len() == 4,
        metadata.localized_string_bytes@.len() <= DEFAULT_MAX_LOCALIZED_STRING_BYTES,
        entry_count <= DEFAULT_MAX_ENTRIES,
    ensures
        final(output)@ == old(output)@ + erf_header(file_type@, metadata@, entry_count as int),
{
    let localized_size = metadata.localized_string_bytes.len() as u32;
    append_bytes(output, file_type);
    output.push(86u8);
    output.push(49u8);
    output.push(46u8);
    output.push(48u8);
    push_u32_le(output, metadata.localized_string_count);
    push_u32_le(output, localized_size);
    push_u32_le(output, entry_count);
    push_u32_le(output, 160);
    push_u32_le(output, 160 + localized_size);
    push_u32_le(output, 160 + localized_size + 24 * entry_count);
    push_u32_le(output, metadata.build_year);
    push_u32_le(output, metadata.build_day);
    push_u32_le(output, metadata.description_string_ref);
    push_zeros(output, 116);
    assert(final(output)@ =~= old(output)@ + erf_header(
        file_type@,
        metadata@,
        entry_count as int,
    ));
}

/// The key table and resource table of the entries in storage order, or
/// the first entry problem.
fn entry_tables(entries: &[ErfTableEntry], order: &Vec<usize>, data_start: u64) -> (tables:
    Result<(Vec<u8>, Vec<u8>), ErfError>)
    requires
        order@.len() == entries@.len(),
        entries@.len() <= DEFAULT_MAX_ENTRIES,
        data_start <= u32::MAX,
        forall|k: int| 0 <= k < order@.len() ==> #[trigger] order@[k] < entries@.len(),
    ensures
        ({
            let ordered = permuted(table_shapes(entries@), order@.map_values(|i: usize| i as int));
            match tables {
                Ok((keys, table)) => entries_error(ordered, data_start as int, 0) is None
                    && keys@ == key_table(ordered) && table@ == resource_table(
                    ordered,
                    data_start as int,
                ),
                Err(error) => entries_error(ordered, data_start as int, 0) == Some(error),
            }
        }),
{
    let ghost perm = order@.map_values(|i: usize| i as int);
    let ghost ordered = permuted(table_shapes(entries@), perm);
    let n = order.len();
    let mut keys: Vec<u8> = Vec::new();
    let mut table: Vec<u8> = Vec::new();
    let mut cursor: u64 = data_start;
    let mut k: usize = 0;
    while k < n
        invariant
            n == order@.len(),
            n <= DEFAULT_MAX_ENTRIES,
            order@.len() == entries@.len(),
            forall|j: int| 0 <= j < order@.len() ==> #[trigger] order@[j] < entries@.len(),
            perm == order@.map_values(|i: usize| i as int),
            ordered == permuted(table_shapes(entries@), perm),
            k <= n,
            cursor == data_start + payload_size(ordered.take(k as int)),
            cursor <= u32::MAX + u32::MAX,
            entries_error(ordered, data_start as int, 0) == entries_error(
                ordered,
                data_start as int,
                k as int,
            ),
            keys@ == key_table(ordered.take(k as int)),
            table@ == resource_table(ordered.take(k as int), data_start as int),
        decreases n - k,
    {
        let entry = &entries[order[k]];
        assert(ordered[k as int] == table_shape(*entry));
        let name = entry.key.resref.as_str().as_bytes();
        if !is_valid_resref_bytes(name) {
            return Err(ErfError::WriteResrefInvalid);
        }
        if cursor > 0xffff_ffff || entry.size > 0xffff_ffff {
            return Err(ErfError::WriteSizeOverflow);
        }
        let size = entry.size as u32;
        append_bytes(&mut keys, name);
        push_zeros(&mut keys, 16 - name.len());
        push_u32_le(&mut keys, k as u32);
        push_u16_le(&mut keys, entry.key.resource_type);
        push_zeros(&mut keys, 2);
        push_u32_le(&mut table, cursor as u32);
        push_u32_le(&mut table, size);
        proof {
            let next = ordered.take(k + 1);
            assert(next.drop_last() =~= ordered.take(k as int));
            assert(next.last() == ordered[k as int]);
            assert(keys@ =~= key_table(next));
            assert(table@ =~= resource_table(next, data_start as int));
        }
        cursor = cursor + size as u64;
        k += 1;
    }
    proof {
        assert(ordered.take(n as int) =~= ordered);
    }
    Ok((keys, table))
}

/// Appends the payloads in storage order.
fn push_payloads(output: &mut Vec<u8>, resources: &[ErfResourceInput], order: &Vec<usize>)
    requires
        order@.len() == resources@.len(),
        forall|k: int| 0 <= k < order@.len() ==> #[trigger] order@[k] < resources@.len(),
    ensures
        final(output)@ == old(output)@ + payloads(
            permuted(resources@, order@.map_values(|i: usize| i as int)),
        ),
{
    let ghost ordered = permuted(resources@, order@.map_values(|i: usize| i as int));
    let n = order.len();
    let mut k: usize = 0;
    while k < n
        invariant
            n == order@.len(),
            order@.len() == resources@.len(),
            forall|j: int| 0 <= j < order@.len() ==> #[trigger] order@[j] < resources@.len(),
            ordered == permuted(resources@, order@.map_values(|i: usize| i as int)),
            k <= n,
            output@ == old(output)@ + payloads(ordered.take(k as int)),
        decreases n - k,
    {
        let resource = &resources[order[k]];
        assert(ordered[k as int] == *resource);
        append_bytes(output, resource.bytes.as_slice());
        proof {
            let next = ordered.take(k + 1);
            assert(next.drop_last() =~= ordered.take(k as int));
            assert(output@ =~= old(output)@ + payloads(next));
        }
        k += 1;
    }
    proof {
        assert(ordered.take(n as int) =~= ordered);
    }
}

pub open spec fn order_view(order: Vec<usize>) -> Seq<int> {
    order@.map_values(|i: usize| i as int)
}

/// The checks on a container to write that come before its entries' own:
/// its type, its number of entries, distinct keys and its localized strings;
/// where they pass, the positions of the entries in storage (key) order.
pub fn erf_storage_order(file_type: &str, entries: &[ErfTableEntry], metadata: &ErfArchiveMetadata) -> (result:
    Result<Vec<usize>, ErfError>)
    ensures
        ({
            let shapes = table_shapes(entries@);
            let file_type_bytes = text_bytes(file_type@);
            match erf_write_precheck(file_type_bytes, shapes, metadata@) {
                Some(error) => result == Err::<Vec<usize>, ErfError>(error),
                None => result matches Ok(order) && order@.len() == entries@.len() && is_key_order(
                    shapes,
                    order_view(order),
                ),
            }
        }),
{
    let file_type_bytes = file_type.as_bytes();
    if !is_erf_file_type(file_type_bytes) {
        return Err(ErfError::WriteTypeInvalid);
    }
    if entries.len() > 250000 {
        return Err(ErfError::WriteEntryLimitExceeded);
    }
    let (order, duplicate) = key_order(entries);
    if duplicate {
        return Err(ErfError::WriteDuplicateResource);
    }
    if metadata.localized_string_bytes.len() > 16777216 {
        return Err(ErfError::WriteLocalizedStringLimitExceeded);
    }
    if !localized_strings_complete(
        metadata.localized_string_count,
        metadata.localized_string_bytes.as_slice(),
    ) {
        return Err(ErfError::WriteLocalizedStringsInvalid);
    }
    Ok(order)
}

/// Builds everything of a container before its payloads: header, localized
/// strings, key table and resource table, with the entries stored in key
/// order. Gives the tables and the storage order.
pub fn write_erf_tables(
    file_type: &str,
    entries: &[ErfTableEntry],
    metadata: &ErfArchiveMetadata,
) -> (result: Result<(Vec<u8>, Vec<usize>), ErfError>)
    ensures
        ({
            let shapes = table_shapes(entries@);
            let file_type_bytes = text_bytes(file_type@);
            &&& erf_write_precheck(file_type_bytes, shapes, metadata@) matches Some(error)
                ==> result == Err::<(Vec<u8>, Vec<usize>), ErfError>(error)
            &&& erf_write_precheck(file_type_bytes, shapes, metadata@) is None ==> match result {
                Ok((tables, order)) => is_key_order(shapes, order_view(order))
                    && erf_tables_outcome(file_type_bytes, shapes, metadata@, order_view(order))
                    == Ok::<Seq<u8>, ErfError>(tables@),
                Err(error) => exists|perm: Seq<int>|
                    #![trigger is_key_order(shapes, perm)]
                    is_key_order(shapes, perm) && erf_tables_outcome(
                        file_type_bytes,
                        shapes,
                        metadata@,
                        perm,
                    ) == Err::<Seq<u8>, ErfError>(error),
            }
        }),
{
    let ghost shapes = table_shapes(entries@);
    let file_type_bytes = file_type.as_bytes();
    let order = match erf_storage_order(file_type, entries, metadata) {
        Err(error) => {
            return Err(error);
        },
        Ok(order) => order,
    };
    let ghost perm = order_view(order);
    assert(order@.len() == perm.len());
    let entry_count = entries.len() as u32;
    let localized_size = metadata.localized_string_bytes.len() as u64;
    let data_start: u64 = 160 + localized_size + 24 * (entry_count as u64) + 8 * (
    entry_count as u64);
    assert(forall|k: int| 0 <= k < order@.len() ==> #[trigger] order@[k] < entries@.len()) by {
        assert forall|k: int| 0 <= k < order@.len() implies #[trigger] order@[k]
            < entries@.len() by {
            assert(perm[k] == order@[k] as int);
        }
    }
    match entry_tables(entries, &order, data_start) {
        Err(error) => Err(error),
        Ok((keys, table)) => {
            let mut output: Vec<u8> = Vec::new();
            push_header(&mut output, file_type_bytes, metadata, entry_count);
            append_bytes(&mut output, metadata.localized_string_bytes.as_slice());
            append_bytes(&mut output, keys.as_slice());
            append_bytes(&mut output, table.as_slice());
            proof {
                let ordered = permuted(shapes, perm);
                assert(output@ =~= erf_tables(file_type_bytes@, metadata@, ordered));
            }
            Ok((output, order))
        },
    }
}

/// The table entries of in-memory resources.
fn table_entries(resources: &[ErfResourceInput]) -> (entries: Vec<ErfTableEntry>)
    ensures
        table_shapes(entries@) == input_shapes(resources@),
{
    let mut entries: Vec<ErfTableEntry> = Vec::with_capacity(resources.len());
    let mut index: usize = 0;
    while index < resources.len()
        invariant
            index <= resources@.len(),
            entries@.len() == index,
            forall|k: int|
                0 <= k < index ==> table_shape(#[trigger] entries@[k]) == input_shapes(
                    resources@,
                )[k],
        decreases resources@.len() - index,
    {
        let resource = &resources[index];
        entries.push(ErfTableEntry { key: resource.key.copy_key(), size: resource.bytes.len() as u64 });
        index += 1;
    }
    assert(table_shapes(entries@) =~= input_shapes(resources@));
    entries
}

/// Builds an ERF container in memory from `resources`, stored in key order,
/// with the given archive metadata.
pub fn write_erf_with_metadata(
    file_type: &str,
    resources: &[ErfResourceInput],
    metadata: &ErfArchiveMetadata,
) -> (result: Result<Vec<u8>, ErfError>)
    ensures
        ({
            let shapes = input_shapes(resources@);
            let file_type_bytes = text_bytes(file_type@);
            &&& erf_write_precheck(file_type_bytes, shapes, metadata@) matches Some(error)
                ==> result == Err::<Vec<u8>, ErfError>(error)
            &&& erf_write_precheck(file_type_bytes, shapes, metadata@) is None ==> exists|
                perm: Seq<int>,
            |
                #![trigger is_key_order(shapes, perm)]
                is_key_order(shapes, perm) && match result {
                    Ok(bytes) => erf_write_outcome(file_type_bytes, resources@, metadata@, perm)
                        == Ok::<Seq<u8>, ErfError>(bytes@),
                    Err(error) => erf_write_outcome(
                        file_type_bytes,
                        resources@,
                        metadata@,
                        perm,
                    ) == Err::<Seq<u8>, ErfError>(error),
                }
        }),
{
    let entries = table_entries(resources);
    match write_erf_tables(file_type, entries.as_slice(), metadata) {
        Err(error) => Err(error),
        Ok((tables, order)) => {
            let ghost perm = order_view(order);
            assert(forall|k: int| 0 <= k < order@.len() ==> #[trigger] order@[k] < resources@.len())
                by {
                assert forall|k: int| 0 <= k < order@.len() implies #[trigger] order@[k]
                    < resources@.len() by {
                    assert(perm[k] == order@[k] as int);
                }
            }
            let mut output = tables;
            push_payloads(&mut output, resources, &order);
            Ok(output)
        },
    }
}

/// Builds an ERF container in memory with the deterministic default
/// metadata of its file type.
pub fn write_erf(file_type: &str, resources: &[ErfResourceInput]) -> (result: Result<
    Vec<u8>,
    ErfError,
>)
    ensures
        ({
            let shapes = input_shapes(resources@);
            let file_type_bytes = text_bytes(file_type@);
            let metadata = default_metadata(file_type_bytes);
            &&& erf_write_precheck(file_type_bytes, shapes, metadata) matches Some(error)
                ==> result == Err::<Vec<u8>, ErfError>(error)
            &&& erf_write_precheck(file_type_bytes, shapes, metadata) is None ==> exists|
                perm: Seq<int>,
            |
                #![trigger is_key_order(shapes, perm)]
                is_key_order(shapes, perm) && match result {
                    Ok(bytes) => erf_write_outcome(file_type_bytes, resources@, metadata, perm)
                        == Ok::<Seq<u8>, ErfError>(bytes@),
                    Err(error) => erf_write_outcome(file_type_bytes, resources@, metadata, perm)
                        == Err::<Seq<u8>, ErfError>(error),
                }
        }),
{
    let metadata = ErfArchiveMetadata::deterministic_default(file_type);
    write_erf_with_metadata(file_type, resources, &metadata)
}

/// The size of a byte range of a source file of `file_size` bytes, when the
/// range lies inside the file.
pub fn range_source_size(offset: u64, size: u64, file_size: u64) -> (result: Result<u64, ErfError>)
    ensures
        offset + size > file_size ==> result == Err::<u64, ErfError>(ErfError::WriteRangeInvalid),
        offset + size <= file_size ==> result == Ok::<u64, ErfError>(size),
{
    if offset > file_size || size > file_size - offset {
        Err(ErfError::WriteRangeInvalid)
    } else {
        Ok(size)
    }
}

} // verus!
