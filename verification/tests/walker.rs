use std::io::Write;

use esm_terrain::esm::{
    spend, ByteReader, Cell, DataHeader, DataVersion, ESMInfo, ESMReader, EsmError, GroupHeader,
    Land, RecordHeader,
};
use flate2::write::ZlibEncoder;
use flate2::Compression;

const COMPRESSED: u32 = 0x0004_0000;

fn header_size(version: DataVersion) -> usize {
    match version {
        DataVersion::Skyrim => 24,
        DataVersion::Oblivion => 20,
    }
}

fn tail(version: DataVersion) -> Vec<u8> {
    vec![0; header_size(version) - 16]
}

fn record(ty: &[u8; 4], flags: u32, payload: &[u8], version: DataVersion) -> Vec<u8> {
    let mut bytes = ty.to_vec();
    bytes.extend_from_slice(&(payload.len() as u32).to_le_bytes());
    bytes.extend_from_slice(&flags.to_le_bytes());
    bytes.extend_from_slice(&0x0100_0001u32.to_le_bytes());
    bytes.extend_from_slice(&tail(version));
    bytes.extend_from_slice(payload);
    bytes
}

fn group(label: &[u8; 4], group_ty: i32, contents: &[u8], version: DataVersion) -> Vec<u8> {
    let mut bytes = b"GRUP".to_vec();
    bytes.extend_from_slice(&((header_size(version) + contents.len()) as u32).to_le_bytes());
    bytes.extend_from_slice(label);
    bytes.extend_from_slice(&group_ty.to_le_bytes());
    bytes.extend_from_slice(&tail(version));
    bytes.extend_from_slice(contents);
    bytes
}

fn field(ty: &[u8; 4], value: &[u8]) -> Vec<u8> {
    let mut bytes = ty.to_vec();
    bytes.extend_from_slice(&(value.len() as u16).to_le_bytes());
    bytes.extend_from_slice(value);
    bytes
}

fn packed(fields: &[u8]) -> Vec<u8> {
    let mut encoder = ZlibEncoder::new(Vec::new(), Compression::default());
    encoder.write_all(fields).unwrap();
    let mut bytes = (fields.len() as u32).to_le_bytes().to_vec();
    bytes.extend_from_slice(&encoder.finish().unwrap());
    bytes
}

fn cell_record(x: i32, y: i32, compressed: bool, version: DataVersion) -> Vec<u8> {
    let mut fields = field(b"EDID", b"Wilderness\0");
    fields.extend_from_slice(&field(b"DATA", &vec![0x02; if version == DataVersion::Skyrim { 2 } else { 1 }]));
    let mut value = x.to_le_bytes().to_vec();
    value.extend_from_slice(&y.to_le_bytes());
    if version == DataVersion::Skyrim {
        value.extend_from_slice(&[0; 4]);
    }
    fields.extend_from_slice(&field(b"XCLC", &value));
    if compressed {
        record(b"CELL", COMPRESSED, &packed(&fields), version)
    } else {
        record(b"CELL", 0, &fields, version)
    }
}

fn samples(seed: i8) -> Vec<i8> {
    (0..1089).map(|i| ((i % 5) as i8 - 2).wrapping_mul(seed)).collect()
}

fn land_record(offset: f32, samples: &[i8], compressed: bool, version: DataVersion) -> Vec<u8> {
    let mut fields = field(b"DATA", &[0x1f, 0, 0, 0]);
    fields.extend_from_slice(&field(b"VNML", &[0x40; 3267]));
    let mut value = offset.to_le_bytes().to_vec();
    value.extend(samples.iter().map(|s| *s as u8));
    value.extend_from_slice(&[0; 3]);
    fields.extend_from_slice(&field(b"VHGT", &value));
    fields.extend_from_slice(&field(b"VCLR", &[0x7f; 3267]));
    if compressed {
        record(b"LAND", COMPRESSED, &packed(&fields), version)
    } else {
        record(b"LAND", 0, &fields, version)
    }
}

/// A terrain unit with its children: an optional group of persistent
/// children, then the temporary children with the given records.
fn unit(x: i32, y: i32, persistent: bool, temporary: &[u8], version: DataVersion) -> Vec<u8> {
    let mut children = Vec::new();
    if persistent {
        let refr = record(b"REFR", 0, &field(b"NAME", &[1, 2, 3, 4]), version);
        children.extend_from_slice(&group(&[1, 0, 0, 1], 8, &refr, version));
    }
    children.extend_from_slice(&group(&[1, 0, 0, 1], 9, temporary, version));
    let mut bytes = cell_record(x, y, true, version);
    bytes.extend_from_slice(&group(&[1, 0, 0, 1], 6, &children, version));
    bytes
}

fn plain_unit(x: i32, y: i32, offset: f32, seed: i8, version: DataVersion) -> Vec<u8> {
    let mut temporary = record(b"NAVM", 0, &[0xee; 40], version);
    temporary.extend_from_slice(&land_record(offset, &samples(seed), true, version));
    temporary.extend_from_slice(&record(b"REFR", COMPRESSED, &[0xdd; 17], version));
    unit(x, y, false, &temporary, version)
}

fn world_record(name: &[u8], version: DataVersion) -> Vec<u8> {
    let mut fields = field(b"EDID", name);
    fields.extend_from_slice(&field(b"FULL", &[9, 9, 9, 9]));
    fields.extend_from_slice(&field(b"DATA", &[1]));
    record(b"WRLD", 0, &fields, version)
}

fn archive_with(children: &[u8], version: DataVersion) -> Vec<u8> {
    let mut bytes = record(b"TES4", 0, &field(b"HEDR", &[0; 12]), version);
    bytes.extend_from_slice(&group(b"GMST", 0, &record(b"GMST", 0, &[1, 2, 3], version), version));
    bytes.extend_from_slice(&group(b"KYWD", 0, &[], version));
    let mut worlds = world_record(b"Tamriel\0", version);
    worlds.extend_from_slice(&group(&[0x3c, 0, 0, 0], 1, children, version));
    bytes.extend_from_slice(&group(b"WRLD", 0, &worlds, version));
    bytes.extend_from_slice(&group(b"DIAL", 0, &[0xaa; 5], version));
    bytes
}

fn subblock_contents(version: DataVersion, first: i32) -> Vec<u8> {
    let mut contents = plain_unit(first, 0, 16.0, 1, version);
    contents.extend_from_slice(&plain_unit(first + 1, 0, -2048.0, 2, version));
    contents
}

/// The children of a worldspace: the first terrain unit, a block of two
/// subblocks, and a block of one.
fn children(version: DataVersion) -> Vec<u8> {
    let mut bytes = Vec::new();
    if version == DataVersion::Oblivion {
        bytes.extend_from_slice(&record(b"ROAD", 0, &[0x55; 33], version));
    }
    bytes.extend_from_slice(&plain_unit(0, 0, 0.0, 0, version));
    let mut block = group(&[0, 0, 0, 0], 5, &subblock_contents(version, 10), version);
    block.extend_from_slice(&group(&[1, 0, 0, 0], 5, &subblock_contents(version, 20), version));
    bytes.extend_from_slice(&group(&[0, 0, 0, 0], 4, &block, version));
    let block = group(&[2, 0, 0, 0], 5, &plain_unit(-7, -9, 8.0, 3, version), version);
    bytes.extend_from_slice(&group(&[1, 0, 0, 0], 4, &block, version));
    bytes
}

fn cell(x: i32, y: i32) -> Cell {
    Cell { x, y, water_height: Some(0) }
}

#[test]
fn the_walker_finds_the_children_of_the_worldspace() {
    for version in [DataVersion::Skyrim, DataVersion::Oblivion] {
        let contents = children(version);
        let bytes = archive_with(&contents, version);
        let mut walker = ESMReader { info: ESMInfo::new(version), reader: ByteReader::new(bytes.clone()) };
        let group = walker.grab_world_children().unwrap();
        assert_eq!(group.ty, *b"GRUP");
        assert_eq!(group.group_ty, 1);
        assert_eq!(group.label, [0x3c, 0, 0, 0]);
        assert_eq!(group.total_size as usize, header_size(version) + contents.len());
        let at = walker.reader.position() as usize;
        assert_eq!(&bytes[at..at + contents.len()], &contents[..]);
    }
}

#[test]
fn an_archive_that_starts_with_another_record_is_refused() {
    let mut bytes = archive_with(&children(DataVersion::Skyrim), DataVersion::Skyrim);
    bytes[3] = b'3';
    let mut walker = ESMReader { info: ESMInfo::new(DataVersion::Skyrim), reader: ByteReader::new(bytes) };
    assert_eq!(walker.grab_world_children(), Err(EsmError::Mismatch));
}

#[test]
fn an_archive_without_worldspaces_is_truncated() {
    let version = DataVersion::Skyrim;
    let mut bytes = record(b"TES4", 0, &[], version);
    bytes.extend_from_slice(&group(b"GMST", 0, &[1, 2, 3], version));
    let mut walker = ESMReader { info: ESMInfo::new(version), reader: ByteReader::new(bytes) };
    assert_eq!(walker.grab_world_children(), Err(EsmError::Truncated));
    let mut walker = ESMReader { info: ESMInfo::new(version), reader: ByteReader::new(Vec::new()) };
    assert_eq!(walker.grab_world_children(), Err(EsmError::Truncated));
}

#[test]
fn a_group_smaller_than_its_header_breaks_the_budget() {
    let version = DataVersion::Oblivion;
    let mut bytes = record(b"TES4", 0, &[], version);
    let mut bad = group(b"GMST", 0, &[], version);
    bad[4..8].copy_from_slice(&19u32.to_le_bytes());
    bytes.extend_from_slice(&bad);
    bytes.extend_from_slice(&group(b"WRLD", 0, &[], version));
    let mut walker = ESMReader { info: ESMInfo::new(version), reader: ByteReader::new(bytes) };
    assert_eq!(walker.grab_world_children(), Err(EsmError::Budget));
}

#[test]
fn another_worldspace_name_is_refused() {
    let version = DataVersion::Skyrim;
    for name in [&b"Tamriel"[..], b"Tamrael\0", b"tamriel\0", b"Tamriel \0", b"Sovngarde\0", b""] {
        let mut bytes = record(b"TES4", 0, &[], version);
        let mut worlds = world_record(name, version);
        worlds.extend_from_slice(&group(&[0x3c, 0, 0, 0], 1, &[], version));
        bytes.extend_from_slice(&group(b"WRLD", 0, &worlds, version));
        let mut walker = ESMReader { info: ESMInfo::new(version), reader: ByteReader::new(bytes) };
        assert_eq!(walker.grab_world_children(), Err(EsmError::Mismatch));
    }
}

#[test]
fn a_worldspace_group_must_start_with_its_record() {
    let version = DataVersion::Skyrim;
    let mut bytes = record(b"TES4", 0, &[], version);
    let worlds = record(b"CELL", 0, &field(b"EDID", b"Tamriel\0"), version);
    bytes.extend_from_slice(&group(b"WRLD", 0, &worlds, version));
    let mut walker = ESMReader { info: ESMInfo::new(version), reader: ByteReader::new(bytes) };
    assert_eq!(walker.grab_world_children(), Err(EsmError::Mismatch));
}

#[test]
fn a_worldspace_record_too_small_for_its_name_breaks_the_budget() {
    let version = DataVersion::Skyrim;
    let mut bytes = record(b"TES4", 0, &[], version);
    let mut worlds = record(b"WRLD", 0, &field(b"EDID", b"Tamriel\0"), version);
    worlds[4..8].copy_from_slice(&13u32.to_le_bytes());
    bytes.extend_from_slice(&group(b"WRLD", 0, &worlds, version));
    let mut walker = ESMReader { info: ESMInfo::new(version), reader: ByteReader::new(bytes) };
    assert_eq!(walker.grab_world_children(), Err(EsmError::Budget));
}

#[test]
fn the_worldspace_is_cut_into_its_subblocks() {
    for version in [DataVersion::Skyrim, DataVersion::Oblivion] {
        let bytes = archive_with(&children(version), version);
        let world = ESMReader::read(version, ByteReader::new(bytes.clone())).unwrap();
        assert_eq!(world.cell, cell(0, 0));
        assert_eq!(
            world.lands,
            vec![Land { cell: cell(0, 0), offset_height: (0.0f32).to_bits(), height_gradient: samples(0) }]
        );
        assert_eq!(world.subblocks.len(), 3);
        let expected = [
            subblock_contents(version, 10),
            subblock_contents(version, 20),
            plain_unit(-7, -9, 8.0, 3, version),
        ];
        for (i, subblock) in world.subblocks.iter().enumerate() {
            assert_eq!(subblock.header.ty, *b"GRUP");
            assert_eq!(subblock.header.group_ty, 5);
            assert_eq!(subblock.header.label, [i as u8, 0, 0, 0]);
            assert_eq!(subblock.header.total_size as usize, header_size(version) + expected[i].len());
            assert_eq!(subblock.data, expected[i]);
            let at = subblock.offset as usize;
            assert_eq!(&bytes[at..at + 4], b"GRUP");
            assert_eq!(&bytes[at + header_size(version)..at + subblock.header.total_size as usize], &expected[i][..]);
        }
        assert!(world.subblocks[0].offset < world.subblocks[1].offset);
        assert!(world.subblocks[1].offset < world.subblocks[2].offset);
    }
}

#[test]
fn a_subblock_is_decoded_on_its_own() {
    for version in [DataVersion::Skyrim, DataVersion::Oblivion] {
        let bytes = archive_with(&children(version), version);
        let world = ESMReader::read(version, ByteReader::new(bytes)).unwrap();
        let info = ESMInfo::new(version);
        let mut lands = Vec::new();
        for subblock in world.subblocks {
            lands.push(ESMReader::read_subblock(subblock.data, info, subblock.header).unwrap());
        }
        assert_eq!(
            lands,
            vec![
                vec![
                    Land { cell: cell(10, 0), offset_height: (16.0f32).to_bits(), height_gradient: samples(1) },
                    Land { cell: cell(11, 0), offset_height: (-2048.0f32).to_bits(), height_gradient: samples(2) },
                ],
                vec![
                    Land { cell: cell(20, 0), offset_height: (16.0f32).to_bits(), height_gradient: samples(1) },
                    Land { cell: cell(21, 0), offset_height: (-2048.0f32).to_bits(), height_gradient: samples(2) },
                ],
                vec![Land { cell: cell(-7, -9), offset_height: (8.0f32).to_bits(), height_gradient: samples(3) }],
            ]
        );
    }
}

#[test]
fn a_worldspace_of_one_terrain_unit_has_no_subblocks() {
    let version = DataVersion::Skyrim;
    let bytes = archive_with(&plain_unit(3, 4, 0.0, 1, version), version);
    let world = ESMReader::read(version, ByteReader::new(bytes)).unwrap();
    assert_eq!(world.cell, cell(3, 4));
    assert_eq!(world.lands.len(), 1);
    assert!(world.subblocks.is_empty());
}

#[test]
fn the_wrong_layout_is_not_decoded() {
    let bytes = archive_with(&children(DataVersion::Skyrim), DataVersion::Skyrim);
    assert!(ESMReader::read(DataVersion::Oblivion, ByteReader::new(bytes)).is_err());
    let bytes = archive_with(&children(DataVersion::Oblivion), DataVersion::Oblivion);
    assert!(ESMReader::read(DataVersion::Skyrim, ByteReader::new(bytes)).is_err());
}

#[test]
fn a_children_group_that_declares_too_little_breaks_the_budget() {
    let version = DataVersion::Skyrim;
    let contents = children(version);
    let mut bytes = archive_with(&contents, version);
    let at = bytes.len() - group(b"DIAL", 0, &[0xaa; 5], version).len() - contents.len() - 24 + 4;
    let declared = u32::from_le_bytes([bytes[at], bytes[at + 1], bytes[at + 2], bytes[at + 3]]);
    assert_eq!(declared as usize, 24 + contents.len());
    bytes[at..at + 4].copy_from_slice(&(declared - 1).to_le_bytes());
    assert_eq!(ESMReader::read(version, ByteReader::new(bytes.clone())).err(), Some(EsmError::Budget));
    // Too small even for the first terrain unit.
    bytes[at..at + 4].copy_from_slice(&30u32.to_le_bytes());
    assert_eq!(ESMReader::read(version, ByteReader::new(bytes)).err(), Some(EsmError::Budget));
}

#[test]
fn an_archive_cut_inside_a_subblock_is_truncated() {
    let version = DataVersion::Skyrim;
    let mut bytes = archive_with(&children(version), version);
    bytes.truncate(bytes.len() - group(b"DIAL", 0, &[0xaa; 5], version).len() - 1);
    assert_eq!(ESMReader::read(version, ByteReader::new(bytes)).err(), Some(EsmError::Truncated));
}

#[test]
fn the_heightfield_is_found_behind_a_group_of_persistent_children() {
    let version = DataVersion::Skyrim;
    let temporary = land_record(24.0, &samples(1), true, version);
    let contents = unit(5, 6, true, &temporary, version);
    let header = GroupHeader::read(&mut ByteReader::new(group(&[0; 4], 5, &contents, version)), version).unwrap();
    let lands = ESMReader::read_subblock(contents, ESMInfo::new(version), header).unwrap();
    assert_eq!(lands, vec![Land { cell: cell(5, 6), offset_height: (24.0f32).to_bits(), height_gradient: samples(1) }]);
}

#[test]
fn only_one_group_is_passed_over_before_the_temporary_children() {
    let version = DataVersion::Skyrim;
    let land = land_record(24.0, &samples(1), true, version);
    let mut children = group(&[0; 4], 8, &[], version);
    children.extend_from_slice(&group(&[0; 4], 10, &[], version));
    children.extend_from_slice(&group(&[0; 4], 9, &land, version));
    let mut contents = cell_record(1, 1, false, version);
    contents.extend_from_slice(&group(&[0; 4], 6, &children, version));
    let mut reader = ByteReader::new(contents);
    let header = RecordHeader::read(&mut reader, version).unwrap();
    // The second group is scanned, though it holds no temporary children: it is
    // empty, so no heightfield is found, and the stream stays behind it.
    let (total, unit, lands) = ESMReader::read_cell(&mut reader, ESMInfo::new(version), header).unwrap();
    assert_eq!(unit, cell(1, 1));
    assert!(lands.is_empty());
    assert_eq!(total as usize, 24 + header.data_size as usize + 24 + children.len());
    assert_eq!(reader.position() as usize, 24 + header.data_size as usize + 24 + 48);
}

#[test]
fn every_heightfield_of_a_terrain_unit_is_decoded() {
    let version = DataVersion::Oblivion;
    let mut temporary = land_record(1.0, &samples(1), true, version);
    temporary.extend_from_slice(&record(b"PGRD", 0, &[3; 9], version));
    temporary.extend_from_slice(&land_record(2.0, &samples(2), false, version));
    let contents = unit(0, 0, false, &temporary, version);
    let mut reader = ByteReader::new(contents.clone());
    let header = RecordHeader::read(&mut reader, version).unwrap();
    let (total, unit, lands) = ESMReader::read_cell(&mut reader, ESMInfo::new(version), header).unwrap();
    assert_eq!(total as usize, contents.len());
    assert_eq!(reader.position() as usize, contents.len());
    assert_eq!(unit, cell(0, 0));
    assert_eq!(
        lands,
        vec![
            Land { cell: cell(0, 0), offset_height: (1.0f32).to_bits(), height_gradient: samples(1) },
            Land { cell: cell(0, 0), offset_height: (2.0f32).to_bits(), height_gradient: samples(2) },
        ]
    );
}

#[test]
fn the_children_of_a_terrain_unit_are_read_by_their_budget() {
    let version = DataVersion::Skyrim;
    let land = land_record(0.0, &samples(1), true, version);
    let mut children = group(&[0; 4], 6, &group(&[0; 4], 9, &land, version), version);
    let whole = children.len();
    children.extend_from_slice(b"what follows");
    let mut reader = ByteReader::new(children);
    let (bytes, lands) = ESMReader::read_cell_refs(&mut reader, ESMInfo::new(version), cell(2, 3)).unwrap();
    assert_eq!(bytes as usize, whole);
    assert_eq!(reader.position() as usize, whole);
    assert_eq!(lands.len(), 1);
    assert_eq!(lands[0].cell, cell(2, 3));
}

#[test]
fn children_that_are_no_group_are_refused() {
    let version = DataVersion::Skyrim;
    let land = land_record(0.0, &samples(1), true, version);
    let good = group(&[0; 4], 6, &group(&[0; 4], 9, &land, version), version);
    let info = ESMInfo::new(version);
    let mut bad = good.clone();
    bad[0] = b'g';
    assert_eq!(ESMReader::read_cell_refs(&mut ByteReader::new(bad), info, cell(0, 0)).err(), Some(EsmError::Mismatch));
    let mut bad = good.clone();
    bad[24 + 3] = b'Q';
    assert_eq!(ESMReader::read_cell_refs(&mut ByteReader::new(bad), info, cell(0, 0)).err(), Some(EsmError::Mismatch));
    assert!(ESMReader::read_cell_refs(&mut ByteReader::new(good), info, cell(0, 0)).is_ok());
}

#[test]
fn a_record_larger_than_its_group_breaks_the_budget() {
    let version = DataVersion::Skyrim;
    let land = land_record(0.0, &samples(1), true, version);
    let mut children = group(&[0; 4], 6, &group(&[0; 4], 9, &land, version), version);
    let declared = (24 + land.len() - 1) as u32;
    children[28..32].copy_from_slice(&declared.to_le_bytes());
    let info = ESMInfo::new(version);
    assert_eq!(ESMReader::read_cell_refs(&mut ByteReader::new(children), info, cell(0, 0)).err(), Some(EsmError::Budget));
}

#[test]
fn a_terrain_unit_without_coordinates_is_refused_before_its_children() {
    let version = DataVersion::Skyrim;
    let mut contents = record(b"CELL", 0, &field(b"EDID", b"Hall\0"), version);
    contents.extend_from_slice(b"no group at all");
    let mut reader = ByteReader::new(contents);
    let header = RecordHeader::read(&mut reader, version).unwrap();
    assert_eq!(
        ESMReader::read_cell(&mut reader, ESMInfo::new(version), header).err(),
        Some(EsmError::MissingCoordinates)
    );
}

#[test]
fn a_land_record_without_a_heightfield_is_refused() {
    let version = DataVersion::Skyrim;
    let land = record(b"LAND", COMPRESSED, &packed(&field(b"VNML", &[0; 3267])), version);
    let contents = unit(0, 0, false, &land, version);
    let header = GroupHeader::read(&mut ByteReader::new(group(&[0; 4], 5, &contents, version)), version).unwrap();
    assert_eq!(
        ESMReader::read_subblock(contents, ESMInfo::new(version), header),
        Err(EsmError::MissingHeightfield)
    );
}

#[test]
fn a_land_record_with_a_wrong_declared_length_is_refused() {
    let version = DataVersion::Skyrim;
    let mut land = land_record(0.0, &samples(1), true, version);
    land[24] = land[24].wrapping_add(1);
    let contents = unit(0, 0, false, &land, version);
    let header = GroupHeader::read(&mut ByteReader::new(group(&[0; 4], 5, &contents, version)), version).unwrap();
    assert_eq!(ESMReader::read_subblock(contents, ESMInfo::new(version), header), Err(EsmError::Decompress));
}

#[test]
fn an_empty_subblock_has_no_heightfields() {
    for (version, size) in [(DataVersion::Skyrim, 24u32), (DataVersion::Oblivion, 20u32)] {
        let header = GroupHeader::read(&mut ByteReader::new(group(&[0; 4], 5, &[], version)), version).unwrap();
        assert_eq!(header.total_size, size);
        assert_eq!(ESMReader::read_subblock(Vec::new(), ESMInfo::new(version), header), Ok(Vec::new()));
        let mut small = header;
        small.total_size = size - 1;
        assert_eq!(ESMReader::read_subblock(Vec::new(), ESMInfo::new(version), small), Err(EsmError::Budget));
    }
}

#[test]
fn a_subblock_that_declares_more_than_it_holds_is_truncated() {
    let version = DataVersion::Skyrim;
    let contents = plain_unit(1, 2, 0.0, 1, version);
    let mut header = GroupHeader::read(&mut ByteReader::new(group(&[0; 4], 5, &contents, version)), version).unwrap();
    header.total_size += 1;
    assert_eq!(ESMReader::read_subblock(contents.clone(), ESMInfo::new(version), header), Err(EsmError::Truncated));
    header.total_size -= 2;
    assert_eq!(ESMReader::read_subblock(contents, ESMInfo::new(version), header), Err(EsmError::Budget));
}

#[test]
fn the_configuration_keeps_its_version() {
    assert_eq!(ESMInfo::new(DataVersion::Skyrim).version(), DataVersion::Skyrim);
    assert_eq!(ESMInfo::new(DataVersion::Oblivion).version(), DataVersion::Oblivion);
}

#[test]
fn a_budget_is_spent_down_to_zero_and_no_further() {
    assert_eq!(spend(100, 24), Ok(76));
    assert_eq!(spend(24, 24), Ok(0));
    assert_eq!(spend(0, 0), Ok(0));
    assert_eq!(spend(u32::MAX, u64::from(u32::MAX)), Ok(0));
    assert_eq!(spend(23, 24), Err(EsmError::Budget));
    assert_eq!(spend(0, 1), Err(EsmError::Budget));
    assert_eq!(spend(u32::MAX, u64::from(u32::MAX) + 1), Err(EsmError::Budget));
    assert_eq!(spend(5, u64::MAX), Err(EsmError::Budget));
}

#[test]
fn the_units_of_a_subblock_are_decoded_one_by_one() {
    for version in [DataVersion::Skyrim, DataVersion::Oblivion] {
        let contents = subblock_contents(version, 10);
        let whole = contents.len();
        let first = plain_unit(10, 0, 16.0, 1, version).len();
        let info = ESMInfo::new(version);
        let mut reader = ByteReader::new(contents);
        let mut left = whole as u32;

        let (used, unit, lands) = ESMReader::read_unit(&mut reader, info).unwrap();
        assert_eq!(used as usize, first);
        assert_eq!(reader.position() as usize, first);
        assert_eq!(unit, cell(10, 0));
        assert_eq!(lands.len(), 1);
        assert_eq!(lands[0].offset_height, 16.0f32.to_bits());
        left = spend(left, u64::from(used)).unwrap();
        assert!(left > 0);

        let (used, unit, lands) = ESMReader::read_unit(&mut reader, info).unwrap();
        assert_eq!(unit, cell(11, 0));
        assert_eq!(lands[0].offset_height, (-2048.0f32).to_bits());
        assert_eq!(lands[0].height_gradient, samples(2));
        assert_eq!(spend(left, u64::from(used)), Ok(0));
        assert_eq!(reader.position() as usize, whole);

        assert_eq!(ESMReader::read_unit(&mut reader, info).err(), Some(EsmError::Truncated));
    }
}
