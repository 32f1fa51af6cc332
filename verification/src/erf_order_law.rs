//! A container does not depend on the order in which its resources are
//! given: the writer stores them in key order, and with distinct keys that
//! order is unique.
use crate::erf_format::{
    erf_tables_outcome, erf_write_outcome, erf_write_precheck, has_duplicate_keys, input_shapes,
    is_key_order, is_rearrangement, lemma_permuted_shapes, payloads, permuted, EntryShape,
    ErfMetadataView, ErfResourceInput,
};
use crate::erf_write::{table_shapes, ErfTableEntry};
use crate::error::ErfError;
use crate::resource::lemma_key_le_antisymmetric;
use vstd::prelude::*;
use vstd::relations::injective_on;
use vstd::set_lib::{lemma_int_range, lemma_map_size, lemma_subset_equality, set_int_range};

verus! {

/// A rearrangement of `n` positions reaches every position.
proof fn lemma_rearrangement_onto(perm: Seq<int>, n: int, j: int)
    requires
        is_rearrangement(perm, n),
        0 <= j < n,
    ensures
        exists|k: int| 0 <= k < n && perm[k] == j,
{
    let range = set_int_range(0, n);
    let f = |k: int| perm[k];
    lemma_int_range(0, n);
    let image = range.map(f);
    assert(injective_on(f, range)) by {
        assert forall|a: int, b: int|
            range.contains(a) && range.contains(b) && #[trigger] f(a) == #[trigger] f(b) implies a == b by {
            if a < b {
                assert(perm[a] != perm[b]);
            } else if b < a {
                assert(perm[b] != perm[a]);
            }
        }
    }
    lemma_map_size(range, image, f);
    assert(image.subset_of(range)) by {
        assert forall|x: int| image.contains(x) implies range.contains(x) by {
            let k = choose|k: int| range.contains(k) && f(k) == x;
            assert(0 <= perm[k] < n);
        }
    }
    lemma_subset_equality(image, range);
    assert(range.contains(j));
    assert(image.contains(j));
    let k = choose|k: int| range.contains(k) && f(k) == j;
    assert(0 <= k < n && perm[k] == j);
}

/// No two entries share a key.
pub open spec fn distinct_keys(entries: Seq<EntryShape>) -> bool {
    forall|a: int, b: int|
        0 <= a < entries.len() && 0 <= b < entries.len() && a != b ==> #[trigger] entries[a].key()
            != #[trigger] entries[b].key()
}

/// With distinct keys, there is one key order.
proof fn lemma_key_order_unique(entries: Seq<EntryShape>, first: Seq<int>, second: Seq<int>)
    requires
        distinct_keys(entries),
        is_key_order(entries, first),
        is_key_order(entries, second),
    ensures
        first == second,
{
    let n = entries.len() as int;
    assert forall|i: int| 0 <= i < n implies first[i] == second[i] by {
        lemma_key_order_prefix(entries, first, second, i);
    }
    assert(first =~= second);
}

proof fn lemma_key_order_prefix(entries: Seq<EntryShape>, first: Seq<int>, second: Seq<int>, i: int)
    requires
        distinct_keys(entries),
        is_key_order(entries, first),
        is_key_order(entries, second),
        0 <= i < entries.len(),
    ensures
        first[i] == second[i],
    decreases i,
{
    let n = entries.len() as int;
    assert forall|k: int| 0 <= k < i implies first[k] == second[k] by {
        lemma_key_order_prefix(entries, first, second, k);
    }
    lemma_rearrangement_onto(second, n, first[i]);
    let j = choose|j: int| 0 <= j < n && second[j] == first[i];
    if j < i {
        assert(first[j] == second[j]);
        assert(first[j] != first[i]);
    }
    lemma_rearrangement_onto(first, n, second[i]);
    let m = choose|m: int| 0 <= m < n && first[m] == second[i];
    if m < i {
        assert(first[m] == second[m]);
        assert(second[m] != second[i]);
    }
    if j > i {
        assert(crate::resource::key_le(entries[second[i]].key(), entries[second[j]].key()));
    }
    if m > i {
        assert(crate::resource::key_le(entries[first[i]].key(), entries[first[m]].key()));
    }
    lemma_key_le_antisymmetric(entries[first[i]].key(), entries[second[i]].key());
    if first[i] != second[i] {
        assert(entries[first[i]].key() != entries[second[i]].key());
    }
}

/// Without duplicate keys, keys are distinct.
proof fn lemma_no_duplicates_distinct(entries: Seq<EntryShape>)
    requires
        !has_duplicate_keys(entries),
    ensures
        distinct_keys(entries),
{
    assert forall|a: int, b: int|
        0 <= a < entries.len() && 0 <= b < entries.len() && a != b implies #[trigger] entries[a].key()
            != #[trigger] entries[b].key() by {
        if a < b {
            assert(!(entries[a].key() == entries[b].key()));
        } else {
            assert(!(entries[b].key() == entries[a].key()));
        }
    }
}

/// Rearranged entries share a key exactly where the entries do.
pub proof fn lemma_duplicates_rearranged(entries: Seq<EntryShape>, order: Seq<int>)
    requires
        is_rearrangement(order, entries.len() as int),
    ensures
        has_duplicate_keys(permuted(entries, order)) == has_duplicate_keys(entries),
{
    let n = entries.len() as int;
    let moved = permuted(entries, order);
    if has_duplicate_keys(moved) {
        let (a, b) = choose|a: int, b: int|
            0 <= a < b < moved.len() && #[trigger] moved[a].key() == #[trigger] moved[b].key();
        let (x, y) = (order[a], order[b]);
        if x < y {
            assert(entries[x].key() == entries[y].key());
        } else {
            assert(entries[y].key() == entries[x].key());
        }
    }
    if has_duplicate_keys(entries) {
        let (x, y) = choose|x: int, y: int|
            0 <= x < y < entries.len() && #[trigger] entries[x].key() == #[trigger] entries[y].key();
        lemma_rearrangement_onto(order, n, x);
        lemma_rearrangement_onto(order, n, y);
        let a = choose|k: int| 0 <= k < n && order[k] == x;
        let b = choose|k: int| 0 <= k < n && order[k] == y;
        if a < b {
            assert(moved[a].key() == moved[b].key());
        } else {
            assert(moved[b].key() == moved[a].key());
        }
    }
}

/// Where the checks before the entries pass, the key order of a list and
/// of its rearrangement store the same resources in the same places.
#[verifier::rlimit(30)]
proof fn lemma_key_orders_agree(
    file_type: Seq<u8>,
    resources: Seq<ErfResourceInput>,
    order: Seq<int>,
    metadata: ErfMetadataView,
    stored: Seq<int>,
    rearranged_stored: Seq<int>,
)
    requires
        is_rearrangement(order, resources.len() as int),
        is_key_order(input_shapes(resources), stored),
        is_key_order(input_shapes(permuted(resources, order)), rearranged_stored),
    ensures
        erf_write_precheck(file_type, input_shapes(permuted(resources, order)), metadata)
            == erf_write_precheck(file_type, input_shapes(resources), metadata),
        erf_write_precheck(file_type, input_shapes(resources), metadata) is None ==> erf_write_outcome(
            file_type,
            permuted(resources, order),
            metadata,
            rearranged_stored,
        ) == erf_write_outcome(file_type, resources, metadata, stored),
{
    let n = resources.len() as int;
    let shapes = input_shapes(resources);
    let moved = permuted(resources, order);
    lemma_permuted_shapes(resources, order);
    lemma_duplicates_rearranged(shapes, order);
    if erf_write_precheck(file_type, shapes, metadata) is None {
        lemma_no_duplicates_distinct(shapes);
        let through = Seq::new(n as nat, |k: int| order[rearranged_stored[k]]);
        assert(is_key_order(shapes, through)) by {
            assert forall|k: int| 0 <= k < n implies 0 <= #[trigger] through[k] < n by {
                assert(0 <= rearranged_stored[k] < n);
            }
            assert forall|a: int, b: int| 0 <= a < b < n implies through[a] != through[b] by {
                assert(rearranged_stored[a] != rearranged_stored[b]);
                if rearranged_stored[a] < rearranged_stored[b] {
                    assert(order[rearranged_stored[a]] != order[rearranged_stored[b]]);
                } else {
                    assert(order[rearranged_stored[b]] != order[rearranged_stored[a]]);
                }
            }
            assert forall|a: int, b: int| 0 <= a < b < n implies crate::resource::key_le(
                #[trigger] shapes[through[a]].key(),
                #[trigger] shapes[through[b]].key(),
            ) by {
                assert(input_shapes(moved)[rearranged_stored[a]] == shapes[through[a]]);
                assert(input_shapes(moved)[rearranged_stored[b]] == shapes[through[b]]);
            }
        }
        lemma_key_order_unique(shapes, stored, through);
        assert(permuted(moved, rearranged_stored) =~= permuted(resources, stored));
        lemma_permuted_shapes(moved, rearranged_stored);
        lemma_permuted_shapes(resources, stored);
        assert(permuted(input_shapes(moved), rearranged_stored) == permuted(shapes, stored));
    }
}

/// The writer's result does not depend on the order in which the resources
/// are given. Rearranging them (`order`) keeps the verdict of the checks
/// before the entries; where one of them fails, both lists give that error
/// whatever the storage order; where they pass, storing each list in key
/// order gives the same container, or the same error.
pub proof fn law_container_ignores_resource_order(
    file_type: Seq<u8>,
    resources: Seq<ErfResourceInput>,
    order: Seq<int>,
    metadata: ErfMetadataView,
)
    requires
        is_rearrangement(order, resources.len() as int),
    ensures
        erf_write_precheck(file_type, input_shapes(permuted(resources, order)), metadata)
            == erf_write_precheck(file_type, input_shapes(resources), metadata),
        erf_write_precheck(file_type, input_shapes(resources), metadata) is Some ==> forall|
            stored: Seq<int>,
            rearranged_stored: Seq<int>,
        |
            #![trigger erf_write_outcome(file_type, resources, metadata, stored), erf_write_outcome(file_type, permuted(resources, order), metadata, rearranged_stored)]
            erf_write_outcome(file_type, permuted(resources, order), metadata, rearranged_stored)
                == erf_write_outcome(file_type, resources, metadata, stored),
        forall|stored: Seq<int>, rearranged_stored: Seq<int>|
            #![trigger erf_write_outcome(file_type, resources, metadata, stored), erf_write_outcome(file_type, permuted(resources, order), metadata, rearranged_stored)]
            is_key_order(input_shapes(resources), stored) && is_key_order(
                input_shapes(permuted(resources, order)),
                rearranged_stored,
            ) ==> erf_write_outcome(file_type, permuted(resources, order), metadata, rearranged_stored)
                == erf_write_outcome(file_type, resources, metadata, stored),
{
    let shapes = input_shapes(resources);
    lemma_permuted_shapes(resources, order);
    lemma_duplicates_rearranged(shapes, order);
    assert forall|stored: Seq<int>, rearranged_stored: Seq<int>|
        is_key_order(input_shapes(resources), stored) && is_key_order(
            input_shapes(permuted(resources, order)),
            rearranged_stored,
        ) implies #[trigger] erf_write_outcome(file_type, permuted(resources, order), metadata, rearranged_stored)
            == #[trigger] erf_write_outcome(file_type, resources, metadata, stored) by {
        lemma_key_orders_agree(file_type, resources, order, metadata, stored, rearranged_stored);
    }
}

/// Writing a container as a stream gives the container that the in-memory
/// writer gives: where the entries (keys and sizes) of the resources give
/// tables in their key order `stored`, those tables followed by the
/// resources' payloads in that order are what writing the resources in any
/// key order gives.
pub proof fn law_streamed_container_is_written_container(
    file_type: Seq<u8>,
    resources: Seq<ErfResourceInput>,
    entries: Seq<ErfTableEntry>,
    metadata: ErfMetadataView,
    stored: Seq<int>,
    tables: Seq<u8>,
)
    requires
        table_shapes(entries) == input_shapes(resources),
        is_key_order(table_shapes(entries), stored),
        erf_tables_outcome(file_type, table_shapes(entries), metadata, stored) == Ok::<
            Seq<u8>,
            ErfError,
        >(tables),
    ensures
        forall|perm: Seq<int>|
            #![trigger is_key_order(input_shapes(resources), perm)]
            is_key_order(input_shapes(resources), perm) ==> erf_write_outcome(
                file_type,
                resources,
                metadata,
                perm,
            ) == Ok::<Seq<u8>, ErfError>(tables + payloads(permuted(resources, stored))),
{
    let shapes = input_shapes(resources);
    assert(!has_duplicate_keys(shapes));
    assert(distinct_keys(shapes)) by {
        assert forall|a: int, b: int|
            0 <= a < shapes.len() && 0 <= b < shapes.len() && a != b implies #[trigger] shapes[a].key()
            != #[trigger] shapes[b].key() by {
            if a < b {
                if shapes[a].key() == shapes[b].key() {
                    assert(has_duplicate_keys(shapes));
                }
            } else {
                if shapes[b].key() == shapes[a].key() {
                    assert(has_duplicate_keys(shapes));
                }
            }
        }
    }
    assert forall|perm: Seq<int>| #[trigger] is_key_order(shapes, perm) implies erf_write_outcome(
        file_type,
        resources,
        metadata,
        perm,
    ) == Ok::<Seq<u8>, ErfError>(tables + payloads(permuted(resources, stored))) by {
        lemma_key_order_unique(shapes, perm, stored);
    }
}

} // verus!
