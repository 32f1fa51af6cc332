use aurora_forge::erf_format::{
    ErfArchiveMetadata, ErfResourceInput, DEFAULT_MAX_RESOURCE_BYTES, ERF_HEADER_SIZE,
    ERF_KEY_SIZE, ERF_RESOURCE_SIZE,
};
use aurora_forge::erf_read::{check_resource_bounds, check_resource_size, inventory_from_tables, ContainerResource, ErfHeader, ErfReader};
use aurora_forge::error::ErfError;
use aurora_forge::erf_write::{erf_storage_order, write_erf, write_erf_tables, write_erf_with_metadata, ErfTableEntry};
use aurora_forge::resource::ResourceKey;

fn put_u32(bytes: &mut [u8], offset: usize, value: u32) {
    bytes[offset..offset + 4].copy_from_slice(&value.to_le_bytes());
}

fn put_key(bytes: &mut [u8], offset: usize, name: &[u8], id: u32, resource_type: u16) {
    bytes[offset..offset + name.len()].copy_from_slice(name);
    put_u32(bytes, offset + 16, id);
    bytes[offset + 20..offset + 22].copy_from_slice(&resource_type.to_le_bytes());
}

fn synthetic_erf() -> Vec<u8> {
    let entry_count = 2_u32;
    let key_offset = ERF_HEADER_SIZE as usize;
    let resource_offset = key_offset + entry_count as usize * ERF_KEY_SIZE as usize;
    let data_offset = resource_offset + entry_count as usize * ERF_RESOURCE_SIZE as usize;
    let mut bytes = vec![0_u8; data_offset];
    bytes[0..4].copy_from_slice(b"MOD ");
    bytes[4..8].copy_from_slice(b"V1.0");
    put_u32(&mut bytes, 16, entry_count);
    put_u32(&mut bytes, 20, ERF_HEADER_SIZE as u32);
    put_u32(&mut bytes, 24, key_offset as u32);
    put_u32(&mut bytes, 28, resource_offset as u32);
    put_u32(&mut bytes, 32, 126);
    put_u32(&mut bytes, 36, 213);
    put_key(&mut bytes, key_offset, b"module", 0, 2014);
    put_key(&mut bytes, key_offset + ERF_KEY_SIZE as usize, b"start", 1, 2009);
    put_u32(&mut bytes, resource_offset, data_offset as u32);
    put_u32(&mut bytes, resource_offset + 4, 4);
    put_u32(&mut bytes, resource_offset + 8, data_offset as u32 + 4);
    put_u32(&mut bytes, resource_offset + 12, 3);
    bytes.extend_from_slice(b"IFO!NSS");
    bytes
}

#[test]
fn reads_metadata_without_loading_resource_payloads() {
    let inventory = ErfReader::default()
        .read_inventory_bytes(&synthetic_erf())
        .expect("valid inventory");
    assert_eq!(inventory.file_type, "MOD ");
    assert_eq!(inventory.file_version, "V1.0");
    assert_eq!(inventory.build_year, 2026);
    assert_eq!(inventory.resource_count, 2);
    assert_eq!(inventory.resources[0].key.resref, "module");
    assert_eq!(inventory.resources[0].extension.as_deref(), Some("ifo"));
    assert_eq!(inventory.resources[1].size, 3);
}

#[test]
fn writer_builds_a_deterministic_reopenable_container() {
    let resources = vec![
        ErfResourceInput {
            key: ResourceKey::new("start", 2009),
            bytes: b"void main() {}".to_vec(),
        },
        ErfResourceInput {
            key: ResourceKey::new("module", 2014),
            bytes: b"IFO!".to_vec(),
        },
    ];
    let first = write_erf("MOD ", &resources).expect("write MOD");
    assert_eq!(first, write_erf("MOD ", &resources).expect("deterministic MOD"));
    let reader = ErfReader::default();
    let inventory = reader.read_inventory_bytes(&first).expect("inventory");
    assert_eq!(inventory.resource_count, 2);
    assert_eq!(inventory.resources[0].key, ResourceKey::new("module", 2014));
    assert_eq!(
        reader
            .read_resource_bytes(&first, &inventory.resources[1])
            .expect("NSS"),
        b"void main() {}"
    );
}

#[test]
fn writer_preserves_archive_metadata_without_decoding_localized_bytes() {
    let metadata = ErfArchiveMetadata {
        localized_string_count: 1,
        localized_string_bytes: vec![0, 0, 0, 0, 3, 0, 0, 0, 0x80, b'A', b'B'],
        build_year: 126,
        build_day: 213,
        description_string_ref: u32::MAX,
    };
    let bytes = write_erf_with_metadata(
        "MOD ",
        &[ErfResourceInput {
            key: ResourceKey::new("module", 2014),
            bytes: b"IFO!".to_vec(),
        }],
        &metadata,
    )
    .expect("metadata-preserving MOD");
    assert_eq!(
        ErfReader::default()
            .read_archive_metadata_bytes(&bytes)
            .expect("reopen metadata"),
        metadata
    );
}

#[test]
fn streaming_writer_accepts_a_resource_larger_than_the_reader_memory_limit() {
    let metadata = ErfArchiveMetadata::deterministic_default("MOD ");
    let (mut module, order) = write_erf_tables(
        "MOD ",
        &[ErfTableEntry {
            key: ResourceKey::new("large", 2015),
            size: DEFAULT_MAX_RESOURCE_BYTES + 1,
        }],
        &metadata,
    )
    .expect("streaming MOD");
    assert_eq!(order, vec![0]);
    module.resize(module.len() + DEFAULT_MAX_RESOURCE_BYTES as usize + 1, 0);
    let inventory = ErfReader::default()
        .read_inventory_bytes(&module)
        .expect("large inventory");
    assert_eq!(inventory.resources[0].size, DEFAULT_MAX_RESOURCE_BYTES + 1);
}

#[test]
fn rejects_a_resource_outside_the_file() {
    let mut bytes = synthetic_erf();
    let resource_table = ERF_HEADER_SIZE as usize + 2 * ERF_KEY_SIZE as usize;
    put_u32(&mut bytes, resource_table + 4, u32::MAX);
    let error = ErfReader::default()
        .read_inventory_bytes(&bytes)
        .expect_err("invalid resource range");
    assert_eq!(error.code(), "ERF_RESOURCE_OUT_OF_BOUNDS");
}

#[test]
fn rejects_unsupported_versions_and_entry_bombs() {
    let mut version_bytes = synthetic_erf();
    version_bytes[4..8].copy_from_slice(b"V9.9");
    let version_error = ErfReader::default()
        .read_inventory_bytes(&version_bytes)
        .expect_err("unsupported version");
    assert_eq!(version_error.code(), "ERF_UNSUPPORTED_VERSION");

    let mut bomb_bytes = synthetic_erf();
    put_u32(&mut bomb_bytes, 16, 3);
    let bomb_error = ErfReader::with_max_entries(2)
        .read_inventory_bytes(&bomb_bytes)
        .expect_err("entry limit");
    assert_eq!(bomb_error.code(), "ERF_ENTRY_LIMIT_EXCEEDED");
}

#[test]
fn reads_one_bounded_resource_on_demand() {
    let bytes = synthetic_erf();
    let reader = ErfReader::default();
    let inventory = reader.read_inventory_bytes(&bytes).expect("valid inventory");
    let payload = reader
        .read_resource_bytes(&bytes, &inventory.resources[0])
        .expect("read one resource");
    assert_eq!(payload, b"IFO!");
}

#[test]
fn storage_order_follows_the_checks_before_the_entries() {
    let entry = |resref: &str, resource_type: u16| ErfTableEntry { key: ResourceKey::new(resref, resource_type), size: 0 };
    let metadata = ErfArchiveMetadata::deterministic_default("MOD ");
    let entries = vec![entry("start", 2009), entry("module", 2014), entry("area", 2012)];
    assert_eq!(erf_storage_order("MOD ", &entries, &metadata), Ok(vec![2, 1, 0]));
    assert_eq!(
        erf_storage_order("TXT ", &entries, &metadata).unwrap_err().code(),
        "ERF_WRITE_TYPE_INVALID"
    );
    let twice = vec![entry("start", 2009), entry("start", 2009)];
    assert_eq!(erf_storage_order("MOD ", &twice, &metadata).unwrap_err().code(), "ERF_WRITE_DUPLICATE_RESOURCE");
    let unchecked = vec![entry("Not A ResRef!!!!!!!", 2009)];
    assert_eq!(erf_storage_order("MOD ", &unchecked, &metadata).map(|order| order.len()), Ok(1));
}

#[test]
fn inventories_are_read_from_their_tables() {
    let resources = vec![ErfResourceInput { key: ResourceKey::new("module", 2014), bytes: b"IFO!".to_vec() }];
    let bytes = write_erf("MOD ", &resources).expect("write MOD");
    let header = ErfHeader::parse(&bytes);
    let keys = bytes[header.key_offset as usize..header.key_offset as usize + 24].to_vec();
    let table = bytes[header.resource_offset as usize..header.resource_offset as usize + 8].to_vec();
    let from_tables = inventory_from_tables(header, &keys, &table, bytes.len() as u64).expect("inventory");
    let whole = ErfReader::default().read_inventory_bytes(&bytes).expect("inventory");
    assert_eq!(from_tables.build_year, whole.build_year);
    assert_eq!(from_tables.file_type, "MOD ");
    assert_eq!(from_tables.resources, whole.resources);
}

#[test]
fn the_order_of_the_given_resources_does_not_matter() {
    let resource = |resref: &str, resource_type: u16, bytes: &[u8]| ErfResourceInput {
        key: ResourceKey::new(resref, resource_type),
        bytes: bytes.to_vec(),
    };
    let given = vec![resource("start", 2009, b"void main() {}"), resource("module", 2014, b"IFO!"), resource("area", 2012, b"ARE")];
    let mut reversed = given.clone();
    reversed.reverse();
    assert_eq!(write_erf("MOD ", &given).expect("given"), write_erf("MOD ", &reversed).expect("reversed"));
}

fn listed(offset: u64, size: u64) -> ContainerResource {
    ContainerResource { key: ResourceKey::new("start", 2009), resource_id: 0, extension: None, offset, size }
}

#[test]
fn a_listed_resource_is_read_only_within_its_limit_and_its_file() {
    assert_eq!(check_resource_size(&listed(0, 16 * 1024 * 1024)), Ok(()));
    assert_eq!(check_resource_size(&listed(0, 16 * 1024 * 1024 + 1)), Err(ErfError::ResourceLimitExceeded));
    assert_eq!(check_resource_bounds(&listed(100, 50), 150), Ok(()));
    assert_eq!(check_resource_bounds(&listed(100, 51), 150), Err(ErfError::ResourceOutOfBounds));
    assert_eq!(check_resource_bounds(&listed(200, 0), 150), Err(ErfError::ResourceOutOfBounds));
    assert_eq!(check_resource_bounds(&listed(u64::MAX, u64::MAX), 150), Err(ErfError::ResourceOutOfBounds));
}

#[test]
fn streamed_tables_and_payloads_equal_the_written_container() {
    let metadata = ErfArchiveMetadata::deterministic_default("HAK ");
    let resources = vec![
        ErfResourceInput { key: ResourceKey::new("zeta", 2009), bytes: b"void main() {}".to_vec() },
        ErfResourceInput { key: ResourceKey::new("alpha", 2014), bytes: b"IFO".to_vec() },
        ErfResourceInput { key: ResourceKey::new("alpha", 2009), bytes: Vec::new() },
    ];
    let entries: Vec<ErfTableEntry> = resources
        .iter()
        .map(|resource| ErfTableEntry { key: resource.key.clone(), size: resource.bytes.len() as u64 })
        .collect();
    let (mut streamed, order) = write_erf_tables("HAK ", &entries, &metadata).expect("tables");
    for index in &order {
        streamed.extend_from_slice(&resources[*index].bytes);
    }
    assert_eq!(streamed, write_erf_with_metadata("HAK ", &resources, &metadata).expect("container"));
}
