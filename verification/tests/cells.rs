use esm_terrain::esm::cell::parse_cell_fields;
use esm_terrain::esm::ieee::{single_floor, single_has_fraction, single_is_nan};
use esm_terrain::esm::land::parse_land_fields;
use esm_terrain::esm::{Cell, DataVersion, EsmError, Land};

fn field(ty: &[u8; 4], value: &[u8]) -> Vec<u8> {
    let mut bytes = ty.to_vec();
    bytes.extend_from_slice(&(value.len() as u16).to_le_bytes());
    bytes.extend_from_slice(value);
    bytes
}

fn coords(x: i32, y: i32, version: DataVersion) -> Vec<u8> {
    let mut value = x.to_le_bytes().to_vec();
    value.extend_from_slice(&y.to_le_bytes());
    if version == DataVersion::Skyrim {
        value.extend_from_slice(&[0xff; 4]);
    }
    field(b"XCLC", &value)
}

fn heightfield(offset: f32, samples: &[i8]) -> Vec<u8> {
    let mut value = offset.to_le_bytes().to_vec();
    value.extend(samples.iter().map(|s| *s as u8));
    value.extend_from_slice(&[0; 3]);
    field(b"VHGT", &value)
}

#[test]
fn coordinates_are_two_signed_integers() {
    for version in [DataVersion::Skyrim, DataVersion::Oblivion] {
        let fields = coords(-3, 70000, version);
        assert_eq!(
            parse_cell_fields(fields, version),
            Ok(Cell { x: -3, y: 70000, water_height: None })
        );
    }
}

#[test]
fn fields_before_and_after_the_coordinates_are_skipped() {
    let mut fields = field(b"EDID", b"Wilderness\0");
    fields.extend_from_slice(&field(b"FULL", &[]));
    fields.extend_from_slice(&coords(12, -12, DataVersion::Skyrim));
    fields.extend_from_slice(&field(b"XCLL", &[0x5a; 92]));
    assert_eq!(
        parse_cell_fields(fields, DataVersion::Skyrim),
        Ok(Cell { x: 12, y: -12, water_height: None })
    );
}

#[test]
fn a_unit_without_coordinates_is_refused() {
    assert_eq!(parse_cell_fields(Vec::new(), DataVersion::Skyrim), Err(EsmError::MissingCoordinates));
    let fields = field(b"EDID", b"Nowhere\0");
    assert_eq!(parse_cell_fields(fields, DataVersion::Oblivion), Err(EsmError::MissingCoordinates));
}

#[test]
fn the_largest_coordinate_is_a_coordinate() {
    let fields = coords(i32::MAX, i32::MIN, DataVersion::Oblivion);
    assert_eq!(
        parse_cell_fields(fields, DataVersion::Oblivion),
        Ok(Cell { x: i32::MAX, y: i32::MIN, water_height: None })
    );
}

#[test]
fn the_water_flag_sets_a_height_of_zero() {
    let mut fields = field(b"DATA", &[0x02, 0x00]);
    fields.extend_from_slice(&coords(1, 2, DataVersion::Skyrim));
    assert_eq!(
        parse_cell_fields(fields, DataVersion::Skyrim),
        Ok(Cell { x: 1, y: 2, water_height: Some(0) })
    );
    let mut fields = field(b"DATA", &[0x43]);
    fields.extend_from_slice(&coords(1, 2, DataVersion::Oblivion));
    assert_eq!(
        parse_cell_fields(fields, DataVersion::Oblivion),
        Ok(Cell { x: 1, y: 2, water_height: Some(0) })
    );
}

#[test]
fn without_the_water_flag_there_is_no_water() {
    let mut fields = field(b"DATA", &[0xfd, 0xff]);
    fields.extend_from_slice(&coords(1, 2, DataVersion::Skyrim));
    fields.extend_from_slice(&field(b"XCLW", &100.0f32.to_le_bytes()));
    assert_eq!(
        parse_cell_fields(fields, DataVersion::Skyrim),
        Ok(Cell { x: 1, y: 2, water_height: None })
    );
}

#[test]
fn a_water_field_overrides_the_height() {
    let bits = (-14000.0f32).to_bits();
    for (version, flags) in [(DataVersion::Skyrim, vec![0x02u8, 0x00]), (DataVersion::Oblivion, vec![0x02u8])] {
        let mut fields = field(b"DATA", &flags);
        fields.extend_from_slice(&coords(0, 0, version));
        fields.extend_from_slice(&field(b"XCLW", &bits.to_le_bytes()));
        assert_eq!(
            parse_cell_fields(fields, version),
            Ok(Cell { x: 0, y: 0, water_height: Some(bits) })
        );
    }
}

#[test]
fn the_sentinel_heights_mean_no_height_in_the_newer_layout() {
    for sentinel in [0x7F7F_FFFFu32, 0x4F7F_FFC9, 0xCF00_0000] {
        let mut fields = field(b"DATA", &[0x02, 0x00]);
        fields.extend_from_slice(&coords(0, 0, DataVersion::Skyrim));
        fields.extend_from_slice(&field(b"XCLW", &sentinel.to_le_bytes()));
        assert_eq!(
            parse_cell_fields(fields, DataVersion::Skyrim),
            Ok(Cell { x: 0, y: 0, water_height: None })
        );
        let mut fields = field(b"DATA", &[0x02]);
        fields.extend_from_slice(&coords(0, 0, DataVersion::Oblivion));
        fields.extend_from_slice(&field(b"XCLW", &sentinel.to_le_bytes()));
        assert_eq!(
            parse_cell_fields(fields, DataVersion::Oblivion),
            Ok(Cell { x: 0, y: 0, water_height: Some(sentinel) })
        );
    }
}

#[test]
fn a_field_cut_short_is_truncated() {
    let mut fields = coords(5, 6, DataVersion::Skyrim);
    fields.truncate(fields.len() - 1);
    assert_eq!(parse_cell_fields(fields, DataVersion::Skyrim), Err(EsmError::Truncated));
    assert_eq!(parse_cell_fields(b"XCLC\x08".to_vec(), DataVersion::Oblivion), Err(EsmError::Truncated));
    assert_eq!(parse_cell_fields(b"DATA\x02\x00\x02".to_vec(), DataVersion::Skyrim), Err(EsmError::Truncated));
}

#[test]
fn a_field_larger_than_what_is_left_breaks_the_budget() {
    let mut fields = coords(5, 6, DataVersion::Oblivion);
    fields.extend_from_slice(b"EDID\x09\x00abc");
    assert_eq!(parse_cell_fields(fields, DataVersion::Oblivion), Err(EsmError::Budget));
}

#[test]
fn the_floor_of_a_number_is_the_whole_number_below_it() {
    assert_eq!(single_floor(0.0f32.to_bits()), 0);
    assert_eq!(single_floor((-0.0f32).to_bits()), 0);
    assert_eq!(single_floor(1.0f32.to_bits()), 1);
    assert_eq!(single_floor(0.5f32.to_bits()), 0);
    assert_eq!(single_floor(0.999f32.to_bits()), 0);
    assert_eq!(single_floor((-0.999f32).to_bits()), -1);
    assert_eq!(single_floor(2.5f32.to_bits()), 2);
    assert_eq!(single_floor((-2.5f32).to_bits()), -3);
    assert_eq!(single_floor((-2048.0f32).to_bits()), -2048);
    assert_eq!(single_floor((-2048.125f32).to_bits()), -2049);
    assert_eq!(single_floor(16777216.0f32.to_bits()), 16777216);
    assert_eq!(single_floor(33554432.0f32.to_bits()), 33554432);
    assert_eq!(single_floor(2147483648.0f32.to_bits()), 2147483648);
    assert_eq!(single_floor((-2147483648.0f32).to_bits()), -2147483648);
    assert_eq!(single_floor(f32::MIN_POSITIVE.to_bits()), 0);
    assert_eq!(single_floor((-f32::MIN_POSITIVE).to_bits()), -1);
    assert_eq!(single_floor(1u32), 0);
    assert_eq!(single_floor(0x8000_0001), -1);
}

#[test]
fn a_number_has_a_fraction_where_it_is_no_whole_number() {
    for whole in [0.0f32, -0.0, 1.0, -1.0, 2048.0, -8388608.0, 16777216.0, 1.0e30, f32::INFINITY] {
        assert!(!single_has_fraction(whole.to_bits()), "{whole}");
    }
    for broken in [0.5f32, -0.5, 0.125, 2.5, -2048.125, 8388607.5, f32::MIN_POSITIVE, 1.0e-40] {
        assert!(single_has_fraction(broken.to_bits()), "{broken}");
    }
    assert!(single_has_fraction(1u32));
    assert!(!single_has_fraction(f32::NAN.to_bits()));
}

#[test]
fn a_floor_beyond_the_reach_is_held() {
    let reach: i64 = 1 << 40;
    assert_eq!(single_floor(1099511627776.0f32.to_bits()), reach);
    assert_eq!(single_floor(1099511562240.0f32.to_bits()), 1099511562240);
    assert_eq!(single_floor((-1099511562240.0f32).to_bits()), -1099511562240);
    assert_eq!(single_floor(1.0e30f32.to_bits()), reach);
    assert_eq!(single_floor((-1.0e30f32).to_bits()), -reach);
    assert_eq!(single_floor(f32::MAX.to_bits()), reach);
    assert_eq!(single_floor(f32::INFINITY.to_bits()), reach);
    assert_eq!(single_floor(f32::NEG_INFINITY.to_bits()), -reach);
}

#[test]
fn what_is_no_number_is_told_apart() {
    assert!(single_is_nan(f32::NAN.to_bits()));
    assert!(single_is_nan(0xffc0_0001));
    assert!(single_is_nan(0x7f80_0001));
    assert!(!single_is_nan(f32::INFINITY.to_bits()));
    assert!(!single_is_nan(f32::NEG_INFINITY.to_bits()));
    assert!(!single_is_nan(0.0f32.to_bits()));
    assert!(!single_is_nan(f32::MAX.to_bits()));
}

#[test]
fn floor_and_fraction_agree_with_the_numbers_of_the_machine() {
    let reach = (1u64 << 40) as f32;
    let mut bits: u32 = 0;
    loop {
        let value = f32::from_bits(bits);
        assert_eq!(single_is_nan(bits), value.is_nan(), "bits {bits:#x}");
        if !value.is_nan() {
            let floor = value.floor().clamp(-reach, reach) as i64;
            assert_eq!(single_floor(bits), floor, "bits {bits:#x}");
            let fraction = value.is_finite() && value.fract() != 0.0;
            assert_eq!(single_has_fraction(bits), fraction, "bits {bits:#x}");
        }
        match bits.checked_add(0x0003_0d43) {
            Some(next) => bits = next,
            None => break,
        }
    }
}

#[test]
fn a_heightfield_is_an_offset_and_1089_samples() {
    let mut samples = vec![0i8; 1089];
    samples[0] = -128;
    samples[1] = 127;
    samples[1088] = -1;
    let cell = Cell { x: 4, y: -4, water_height: Some(7) };
    let mut fields = field(b"DATA", &[0; 4]);
    fields.extend_from_slice(&field(b"VNML", &[0x11; 3267]));
    fields.extend_from_slice(&heightfield(-2048.0, &samples));
    fields.extend_from_slice(&field(b"VCLR", &[0x22; 3267]));
    for version in [DataVersion::Skyrim, DataVersion::Oblivion] {
        let land = parse_land_fields(fields.clone(), version, cell).unwrap();
        assert_eq!(
            land,
            Land {
                cell,
                offset_height: (-2048.0f32).to_bits(),
                height_gradient: samples.clone()
            }
        );
    }
}

#[test]
fn the_stored_offset_is_handed_on_bit_by_bit() {
    let cell = Cell { x: 0, y: 0, water_height: None };
    for offset in [0.5f32, -0.0, 1.0e30, f32::NEG_INFINITY, f32::from_bits(0x7fc0_1234)] {
        let fields = heightfield(offset, &vec![0i8; 1089]);
        let land = parse_land_fields(fields, DataVersion::Oblivion, cell).unwrap();
        assert_eq!(land.offset_height, offset.to_bits());
    }
}

#[test]
fn a_record_without_a_heightfield_is_refused() {
    let cell = Cell { x: 0, y: 0, water_height: None };
    assert_eq!(parse_land_fields(Vec::new(), DataVersion::Skyrim, cell), Err(EsmError::MissingHeightfield));
    let fields = field(b"VNML", &[0x11; 3267]);
    assert_eq!(parse_land_fields(fields, DataVersion::Skyrim, cell), Err(EsmError::MissingHeightfield));
}

#[test]
fn a_heightfield_with_too_few_samples_is_truncated() {
    let cell = Cell { x: 0, y: 0, water_height: None };
    let mut fields = heightfield(0.0, &vec![0i8; 1089]);
    fields.truncate(6 + 4 + 1088);
    assert_eq!(parse_land_fields(fields, DataVersion::Skyrim, cell), Err(EsmError::Truncated));
}

#[test]
fn the_scan_for_the_heightfield_keeps_the_budget() {
    let cell = Cell { x: 0, y: 0, water_height: None };
    let fields = b"VNML\x05\x00abc".to_vec();
    assert_eq!(parse_land_fields(fields, DataVersion::Skyrim, cell), Err(EsmError::Budget));
    let fields = b"VNML\x05".to_vec();
    assert_eq!(parse_land_fields(fields, DataVersion::Skyrim, cell), Err(EsmError::Truncated));
}
