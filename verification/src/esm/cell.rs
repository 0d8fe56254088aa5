//! The fields of a terrain unit: its coordinates and its water plane.
use vstd::prelude::*;

use crate::esm::header::{DataHeader, FieldHeader};
use crate::esm::stream::{advance, available, le_i32_at, le_u16_at, le_u32_at, tag_at, ByteReader};
use crate::esm::tags::{tag_eq, DATA, XCLC, XCLW};
use crate::esm::{DataVersion, EsmError};

verus! {

/// One terrain unit of the world grid.
#[derive(Clone, Copy, Debug, PartialEq, Eq)]
pub struct Cell {
    pub x: i32,
    pub y: i32,
    /// The height of the water plane as the bit pattern of a single-precision
    /// number, or `None` where the unit has no water or no explicit height.
    pub water_height: Option<u32>,
}

/// What a scan of a terrain unit's fields has found so far.
#[derive(Clone, Copy, Debug, PartialEq, Eq)]
pub struct CellFields {
    pub coords: Option<(i32, i32)>,
    pub has_water: bool,
    pub water_height: Option<u32>,
}

/// The number of bytes that the coordinate field is read for.
pub open spec fn coord_len(version: DataVersion) -> int {
    match version {
        DataVersion::Skyrim => 12,
        DataVersion::Oblivion => 8,
    }
}

/// Whether the leading flags of a `DATA` field at `at` announce water.
pub open spec fn water_flag_at(fields: Seq<u8>, at: int, version: DataVersion) -> bool {
    match version {
        DataVersion::Skyrim => le_u16_at(fields, at) & 0x0002 == 0x0002,
        DataVersion::Oblivion => fields[at] & 0x02 == 0x02,
    }
}

/// The number of bytes that the flags of a `DATA` field occupy.
pub open spec fn water_flag_len(version: DataVersion) -> int {
    match version {
        DataVersion::Skyrim => 2,
        DataVersion::Oblivion => 1,
    }
}

/// Whether `bits` is one of the patterns that stand for "no water height".
pub open spec fn is_no_water(bits: u32, version: DataVersion) -> bool {
    match version {
        DataVersion::Skyrim => bits == 0x7F7F_FFFF || bits == 0x4F7F_FFC9 || bits == 0xCF00_0000,
        DataVersion::Oblivion => false,
    }
}

/// The water height that an `XCLW` field with the value `bits` sets.
pub open spec fn water_of(bits: u32, version: DataVersion) -> Option<u32> {
    if is_no_water(bits, version) {
        None
    } else {
        Some(bits)
    }
}

/// Reads one field whose header starts at `pos`: the position behind what was
/// read or skipped of it, and what is known after it.
pub open spec fn cell_field_at(fields: Seq<u8>, pos: int, version: DataVersion, st: CellFields)
    -> Result<(int, CellFields), EsmError> {
    let body = pos + 6;
    let tag = tag_at(fields, pos);
    if !available(fields, pos, 6) {
        Err(EsmError::Truncated)
    } else if tag == XCLC@ {
        if !available(fields, body, coord_len(version)) {
            Err(EsmError::Truncated)
        } else {
            Ok(
                (
                    body + coord_len(version),
                    CellFields {
                        coords: Some((le_i32_at(fields, body), le_i32_at(fields, body + 4))),
                        ..st
                    },
                ),
            )
        }
    } else if tag == DATA@ {
        if !available(fields, body, water_flag_len(version)) {
            Err(EsmError::Truncated)
        } else {
            let has_water = water_flag_at(fields, body, version);
            Ok(
                (
                    body + water_flag_len(version),
                    CellFields {
                        has_water,
                        water_height: if has_water {
                            Some(0u32)
                        } else {
                            st.water_height
                        },
                        ..st
                    },
                ),
            )
        }
    } else if tag == XCLW@ && st.has_water {
        if !available(fields, body, 4) {
            Err(EsmError::Truncated)
        } else {
            Ok(
                (
                    body + 4,
                    CellFields { water_height: water_of(le_u32_at(fields, body), version), ..st },
                ),
            )
        }
    } else {
        match advance(body, le_u16_at(fields, pos + 4) as int) {
            Ok(next) => Ok((next, st)),
            Err(e) => Err(e),
        }
    }
}

/// Scans fields from `pos` on until `budget` bytes of declared sizes are used
/// up. Each field takes its header and its declared size from the budget,
/// whatever was read of it.
pub open spec fn cell_fields_from(
    fields: Seq<u8>,
    pos: int,
    budget: int,
    version: DataVersion,
    st: CellFields,
) -> Result<CellFields, EsmError>
    decreases budget,
{
    if budget <= 0 {
        Ok(st)
    } else {
        match cell_field_at(fields, pos, version, st) {
            Err(e) => Err(e),
            Ok((next, found)) => {
                let used = 6 + le_u16_at(fields, pos + 4);
                if budget < used {
                    Err(EsmError::Budget)
                } else {
                    cell_fields_from(fields, next, budget - used, version, found)
                }
            },
        }
    }
}

/// Nothing found yet.
pub open spec fn no_fields() -> CellFields {
    CellFields { coords: None, has_water: false, water_height: None }
}

/// The terrain unit that a whole field stream describes.
pub open spec fn cell_of_fields(fields: Seq<u8>, version: DataVersion) -> Result<Cell, EsmError> {
    match cell_fields_from(fields, 0, fields.len() as int, version, no_fields()) {
        Err(e) => Err(e),
        Ok(found) => match found.coords {
            None => Err(EsmError::MissingCoordinates),
            Some((x, y)) => Ok(Cell { x, y, water_height: found.water_height }),
        },
    }
}

/// Reads one field at the reader's position and updates what is known.
fn read_cell_field(reader: &mut ByteReader, version: DataVersion, st: CellFields) -> (r: Result<
    (FieldHeader, CellFields),
    EsmError,
>)
    ensures
        final(reader).data == old(reader).data,
        match r {
            Ok((field, found)) => cell_field_at(
                old(reader).data@,
                old(reader).pos as int,
                version,
                st,
            ) == Ok::<(int, CellFields), EsmError>((final(reader).pos as int, found))
                && field.decoded_from(old(reader).data@, old(reader).pos as int, version),
            Err(e) => cell_field_at(old(reader).data@, old(reader).pos as int, version, st)
                == Err::<(int, CellFields), EsmError>(e),
        },
{
    let field = FieldHeader::read(reader, version)?;
    let mut found = st;
    if tag_eq(&field.ty, &XCLC) {
        let x = reader.read_i32()?;
        let y = reader.read_i32()?;
        if matches!(version, DataVersion::Skyrim) {
            let _quads = reader.read_u32()?;
        }
        found.coords = Some((x, y));
    } else if tag_eq(&field.ty, &DATA) {
        let has_water = match version {
            DataVersion::Oblivion => {
                let flags = reader.read_u8()?;
                flags & 0x02 == 0x02
            },
            DataVersion::Skyrim => {
                let flags = reader.read_u16()?;
                flags & 0x0002 == 0x0002
            },
        };
        found.has_water = has_water;
        if has_water {
            found.water_height = Some(0);
        }
    } else if tag_eq(&field.ty, &XCLW) && st.has_water {
        let bits = reader.read_u32()?;
        let sentinel = matches!(version, DataVersion::Skyrim) && (bits == 0x7F7F_FFFF || bits
            == 0x4F7F_FFC9 || bits == 0xCF00_0000);
        found.water_height = if sentinel {
            None
        } else {
            Some(bits)
        };
    } else {
        field.skip_data(reader)?;
    }
    Ok((field, found))
}

/// Decodes the field stream of a terrain unit. The scan runs over the whole
/// stream; a stream without a coordinate field is refused.
pub fn parse_cell_fields(fields: Vec<u8>, version: DataVersion) -> (r: Result<Cell, EsmError>)
    ensures
        r == cell_of_fields(fields@, version),
{
    let ghost data = fields@;
    let mut budget: usize = fields.len();
    let mut reader = ByteReader::new(fields);
    let mut found = CellFields { coords: None, has_water: false, water_height: None };
    while budget > 0
        invariant
            data == fields@,
            reader.data@ == data,
            cell_fields_from(data, 0, data.len() as int, version, no_fields()) == cell_fields_from(
                data,
                reader.pos as int,
                budget as int,
                version,
                found,
            ),
        decreases budget,
    {
        let (field, next) = match read_cell_field(&mut reader, version, found) {
            Ok(step) => step,
            Err(e) => {
                return Err(e);
            },
        };
        let used: usize = 6 + field.size as usize;
        if budget < used {
            return Err(EsmError::Budget);
        }
        budget = budget - used;
        found = next;
    }
    match found.coords {
        None => Err(EsmError::MissingCoordinates),
        Some((x, y)) => Ok(Cell { x, y, water_height: found.water_height }),
    }
}

} // verus!
