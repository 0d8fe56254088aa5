//! The heightfield record of a terrain unit.
use vstd::prelude::*;

use crate::esm::cell::Cell;
use crate::esm::header::{DataHeader, FieldHeader, RecordHeader};
use crate::esm::payload::payload_at;
use crate::esm::stream::{advance, available, le_u16_at, le_u32_at, tag_at, ByteReader};
use crate::esm::tags::{tag_eq, VHGT};
use crate::esm::{DataVersion, ESMInfo, EsmError};

verus! {

/// The number of samples of a heightfield: a grid of 33 by 33.
pub const SAMPLES: usize = 1089;

/// The heightfield of one terrain unit.
#[derive(Debug, PartialEq, Eq)]
pub struct Land {
    pub cell: Cell,
    /// The stored offset, from which the heights of the samples are counted:
    /// the bit pattern of a single-precision number, in eighths of a block.
    pub offset_height: u32,
    /// The samples row by row, each the difference to its predecessor.
    pub height_gradient: Vec<i8>,
}

/// A heightfield as a mathematical value.
pub struct LandView {
    pub cell: Cell,
    pub offset_height: u32,
    pub height_gradient: Seq<i8>,
}

impl View for Land {
    type V = LandView;

    open spec fn view(&self) -> LandView {
        LandView {
            cell: self.cell,
            offset_height: self.offset_height,
            height_gradient: self.height_gradient@,
        }
    }
}

/// The two's-complement reading of a byte.
pub open spec fn as_signed_byte(b: u8) -> i8 {
    if b >= 128 {
        (b as int - 256) as i8
    } else {
        b as i8
    }
}

/// The 1089 signed samples that start at `at`.
pub open spec fn gradient_at(fields: Seq<u8>, at: int) -> Seq<i8> {
    Seq::new(SAMPLES as nat, |i: int| as_signed_byte(fields[at + i]))
}

/// Scans fields from `pos` on for the heightfield field. The scan ends at the
/// first such field; a budget that runs out before is an error.
pub open spec fn land_fields_from(fields: Seq<u8>, pos: int, budget: int, cell: Cell) -> Result<
    LandView,
    EsmError,
>
    decreases budget,
{
    let size = le_u16_at(fields, pos + 4);
    if budget <= 0 {
        Err(EsmError::MissingHeightfield)
    } else if !available(fields, pos, 6) {
        Err(EsmError::Truncated)
    } else if tag_at(fields, pos) == VHGT@ {
        if !available(fields, pos + 6, 4 + SAMPLES) {
            Err(EsmError::Truncated)
        } else {
            Ok(
                LandView {
                    cell,
                    offset_height: le_u32_at(fields, pos + 6),
                    height_gradient: gradient_at(fields, pos + 10),
                },
            )
        }
    } else {
        match advance(pos + 6, size as int) {
            Err(e) => Err(e),
            Ok(next) => if budget < 6 + size {
                Err(EsmError::Budget)
            } else {
                land_fields_from(fields, next, budget - (6 + size), cell)
            },
        }
    }
}

/// The heightfield that a whole field stream describes.
pub open spec fn land_of_fields(fields: Seq<u8>, cell: Cell) -> Result<LandView, EsmError> {
    land_fields_from(fields, 0, fields.len() as int, cell)
}

/// The heightfield of the record whose payload of `data_size` bytes starts at
/// `pos`.
pub open spec fn land_at(data: Seq<u8>, pos: int, data_size: u32, compressed: bool, cell: Cell)
    -> Result<LandView, EsmError> {
    match payload_at(data, pos, data_size, compressed) {
        Err(e) => Err(e),
        Ok(fields) => land_of_fields(fields, cell),
    }
}

/// Reads the offset and the 1089 samples of a heightfield field whose value
/// starts at the reader's position.
fn read_heightfield(reader: &mut ByteReader, cell: Cell) -> (r: Result<Land, EsmError>)
    ensures
        final(reader).data == old(reader).data,
        match r {
            Ok(land) => old(reader).has(4 + SAMPLES) && land@ == (LandView {
                cell,
                offset_height: le_u32_at(old(reader).data@, old(reader).pos as int),
                height_gradient: gradient_at(old(reader).data@, old(reader).pos + 4),
            }),
            Err(e) => e == EsmError::Truncated && !old(reader).has(4 + SAMPLES),
        },
{
    if !reader.can_read(4 + SAMPLES) {
        return Err(EsmError::Truncated);
    }
    let ghost at = reader.pos as int;
    let bits = reader.read_u32()?;
    let raw = reader.read_exact(SAMPLES)?;
    let mut height_gradient: Vec<i8> = Vec::with_capacity(SAMPLES);
    let mut i: usize = 0;
    while i < SAMPLES
        invariant
            i <= SAMPLES,
            raw@.len() == SAMPLES,
            height_gradient@.len() == i,
            forall|k: int| 0 <= k < i ==> height_gradient@[k] == as_signed_byte(#[trigger] raw@[k]),
        decreases SAMPLES - i,
    {
        let b = raw[i];
        let s: i8 = if b >= 128 {
            (b as i16 - 256) as i8
        } else {
            b as i8
        };
        height_gradient.push(s);
        i += 1;
    }
    proof {
        assert forall|k: int| 0 <= k < SAMPLES implies height_gradient@[k] == gradient_at(
            reader.data@,
            at + 4,
        )[k] by {
            assert(raw@[k] == reader.data@[at + 4 + k]);
        }
        assert(height_gradient@ =~= gradient_at(reader.data@, at + 4));
    }
    Ok(Land { cell, offset_height: bits, height_gradient })
}

/// Decodes the field stream of a heightfield record.
pub fn parse_land_fields(fields: Vec<u8>, version: DataVersion, cell: Cell) -> (r: Result<
    Land,
    EsmError,
>)
    ensures
        match r {
            Ok(land) => land_of_fields(fields@, cell) == Ok::<LandView, EsmError>(land@),
            Err(e) => land_of_fields(fields@, cell) == Err::<LandView, EsmError>(e),
        },
{
    let ghost data = fields@;
    let mut budget: usize = fields.len();
    let mut reader = ByteReader::new(fields);
    while budget > 0
        invariant
            data == fields@,
            reader.data@ == data,
            land_of_fields(data, cell) == land_fields_from(
                data,
                reader.pos as int,
                budget as int,
                cell,
            ),
        decreases budget,
    {
        let field = match FieldHeader::read(&mut reader, version) {
            Ok(field) => field,
            Err(e) => {
                return Err(e);
            },
        };
        if tag_eq(&field.ty, &VHGT) {
            return read_heightfield(&mut reader, cell);
        }
        match field.skip_data(&mut reader) {
            Ok(_) => {},
            Err(e) => {
                return Err(e);
            },
        }
        let used: usize = 6 + field.size as usize;
        if budget < used {
            return Err(EsmError::Budget);
        }
        budget = budget - used;
    }
    Err(EsmError::MissingHeightfield)
}

impl Land {
    /// Reads the heightfield record whose header `land` was just read: its
    /// payload, inflated where flagged, and in it the heightfield field.
    pub fn read(reader: &mut ByteReader, info: ESMInfo, cell: Cell, land: &RecordHeader) -> (r:
        Result<Land, EsmError>)
        ensures
            final(reader).data == old(reader).data,
            match r {
                Ok(found) => land_at(
                    old(reader).data@,
                    old(reader).pos as int,
                    land.data_size,
                    land.is_compressed(),
                    cell,
                ) == Ok::<LandView, EsmError>(found@) && final(reader).pos == old(reader).pos
                    + land.data_size,
                Err(e) => land_at(
                    old(reader).data@,
                    old(reader).pos as int,
                    land.data_size,
                    land.is_compressed(),
                    cell,
                ) == Err::<LandView, EsmError>(e) && (final(reader).pos == old(reader).pos
                    || final(reader).pos == old(reader).pos + land.data_size),
            },
    {
        let fields = land.read_payload(reader)?;
        parse_land_fields(fields, info.version(), cell)
    }
}

} // verus!
