//! The layout of the archive, stated over its bytes: where the worldspace,
//! its blocks and subblocks, its terrain units and their heightfields lie, and
//! what decoding them gives.
use vstd::prelude::*;

use crate::esm::cell::{cell_of_fields, Cell};
use crate::esm::header::{wide_header_len, COMPRESSED};
use crate::esm::land::{land_at, Land, LandView};
use crate::esm::payload::payload_at;
use crate::esm::stream::{advance, available, le_i32_at, le_u32_at, remaining, tag_at};
use crate::esm::tags::{GRUP, LAND, TES4, WORLD_NAME, WRLD};
use crate::esm::{DataVersion, EsmError};

verus! {

/// The group type of the "temporary children" of a terrain unit, where its
/// heightfield record is stored.
pub const TEMPORARY_CHILDREN: i32 = 9;

/// The heightfields of `lands` as mathematical values.
pub open spec fn land_views(lands: Seq<Land>) -> Seq<LandView> {
    lands.map_values(|land: Land| land@)
}

/// Whether the record flags `flags` mark a compressed payload.
pub open spec fn compressed_flag(flags: u32) -> bool {
    flags & COMPRESSED == COMPRESSED
}

/// Reads the record whose header starts at `pos`: the size of its payload,
/// and the heightfields known after it. A heightfield record is decoded and
/// added; any other record is passed over.
#[verifier::opaque]
pub open spec fn land_record_at(
    data: Seq<u8>,
    pos: int,
    version: DataVersion,
    cell: Cell,
    found: Seq<LandView>,
) -> Result<(u32, Seq<LandView>), EsmError> {
    let hs = wide_header_len(version) as int;
    let size = le_u32_at(data, pos + 4);
    if !available(data, pos, hs) {
        Err(EsmError::Truncated)
    } else if tag_at(data, pos) == LAND@ {
        match land_at(data, pos + hs, size, compressed_flag(le_u32_at(data, pos + 8)), cell) {
            Err(e) => Err(e),
            Ok(land) => Ok((size, found.push(land))),
        }
    } else {
        match advance(pos + hs, size as int) {
            Err(e) => Err(e),
            Ok(_) => Ok((size, found)),
        }
    }
}

/// Scans the records that start at `pos` until `left` bytes of declared sizes
/// are used up, and decodes each heightfield record among them. It gives the
/// position behind the last record and the heightfields in their order.
pub open spec fn lands_from(
    data: Seq<u8>,
    pos: int,
    left: int,
    version: DataVersion,
    cell: Cell,
    found: Seq<LandView>,
) -> Result<(int, Seq<LandView>), EsmError>
    decreases left,
{
    let hs = wide_header_len(version) as int;
    if left <= 0 {
        Ok((pos, found))
    } else {
        match land_record_at(data, pos, version, cell, found) {
            Err(e) => Err(e),
            Ok((size, lands)) => if left < size + hs {
                Err(EsmError::Budget)
            } else {
                lands_from(data, pos + hs + size, left - (size + hs), version, cell, lands)
            },
        }
    }
}

/// A scan of records that succeeds ends exactly where its budget ends: every
/// record takes from the budget what it moves the position by.
pub proof fn lemma_lands_end(
    data: Seq<u8>,
    pos: int,
    left: int,
    version: DataVersion,
    cell: Cell,
    found: Seq<LandView>,
)
    requires
        0 <= left,
    ensures
        match lands_from(data, pos, left, version, cell, found) {
            Ok((end, lands)) => end == pos + left && lands.len() >= found.len(),
            Err(e) => true,
        },
    decreases left,
{
    reveal(land_record_at);
    let hs = wide_header_len(version) as int;
    if left > 0 {
        match land_record_at(data, pos, version, cell, found) {
            Ok((size, lands)) => {
                if left >= size + hs {
                    let rest = left - (size + hs);
                    lemma_lands_end(data, pos + hs + size, rest, version, cell, lands);
                }
            },
            Err(e) => {},
        }
    }
}

/// The position of the header of the group that is scanned for heightfield
/// records: the group at `first` where it holds temporary children, else the
/// group that follows it.
pub open spec fn scanned_group_at(data: Seq<u8>, first: int, version: DataVersion) -> Result<
    int,
    EsmError,
> {
    let hs = wide_header_len(version) as int;
    let total = le_u32_at(data, first + 4);
    if !available(data, first, hs) {
        Err(EsmError::Truncated)
    } else if le_i32_at(data, first + 12) == TEMPORARY_CHILDREN {
        Ok(first)
    } else if total < hs {
        Err(EsmError::Budget)
    } else {
        match advance(first + hs, total - hs) {
            Err(e) => Err(e),
            Ok(second) => if !available(data, second, hs) {
                Err(EsmError::Truncated)
            } else {
                Ok(second)
            },
        }
    }
}

/// Decodes the children of a terrain unit, whose group header starts at
/// `pos`: the position behind what was read, the declared size of the group,
/// and the heightfields found.
pub open spec fn cell_refs_at(data: Seq<u8>, pos: int, version: DataVersion, cell: Cell) -> Result<
    (int, u32, Seq<LandView>),
    EsmError,
> {
    let hs = wide_header_len(version) as int;
    let grup = GRUP@;
    if !available(data, pos, hs) {
        Err(EsmError::Truncated)
    } else if tag_at(data, pos) != grup {
        Err(EsmError::Mismatch)
    } else {
        match scanned_group_at(data, pos + hs, version) {
            Err(e) => Err(e),
            Ok(group) => {
                let total = le_u32_at(data, group + 4);
                if tag_at(data, group) != grup {
                    Err(EsmError::Mismatch)
                } else if total < hs {
                    Err(EsmError::Budget)
                } else {
                    match lands_from(data, group + hs, total - hs, version, cell, Seq::empty()) {
                        Err(e) => Err(e),
                        Ok((end, lands)) => Ok((end, le_u32_at(data, pos + 4), lands)),
                    }
                }
            },
        }
    }
}

/// Decodes the terrain unit whose record payload of `data_size` bytes starts
/// at `pos`, and its children behind it: the position behind what was read,
/// the bytes that the unit and its children declare, the unit, and its
/// heightfields.
pub open spec fn cell_at(
    data: Seq<u8>,
    pos: int,
    version: DataVersion,
    data_size: u32,
    compressed: bool,
) -> Result<(int, u32, Cell, Seq<LandView>), EsmError> {
    let hs = wide_header_len(version) as int;
    match payload_at(data, pos, data_size, compressed) {
        Err(e) => Err(e),
        Ok(fields) => match cell_of_fields(fields, version) {
            Err(e) => Err(e),
            Ok(cell) => match cell_refs_at(data, pos + data_size, version, cell) {
                Err(e) => Err(e),
                Ok((end, children, lands)) => if children + data_size + hs > u32::MAX {
                    Err(EsmError::Budget)
                } else {
                    Ok((end, (children + data_size + hs) as u32, cell, lands))
                },
            },
        },
    }
}

/// Decodes the terrain unit whose record header starts at `pos`, and its
/// children: as `cell_at` does from behind the header.
#[verifier::opaque]
pub open spec fn unit_at(data: Seq<u8>, pos: int, version: DataVersion) -> Result<
    (int, u32, Cell, Seq<LandView>),
    EsmError,
> {
    let hs = wide_header_len(version) as int;
    if !available(data, pos, hs) {
        Err(EsmError::Truncated)
    } else {
        cell_at(
            data,
            pos + hs,
            version,
            le_u32_at(data, pos + 4),
            compressed_flag(le_u32_at(data, pos + 8)),
        )
    }
}

/// A terrain unit and its children declare at least the unit's own header.
pub proof fn lemma_unit_size(data: Seq<u8>, pos: int, version: DataVersion)
    ensures
        match unit_at(data, pos, version) {
            Ok((end, total, cell, lands)) => total >= wide_header_len(version),
            Err(e) => true,
        },
{
    reveal(unit_at);
}

/// Decodes the terrain units that start at `pos` until `left` bytes of
/// declared sizes are used up, and collects their heightfields.
pub open spec fn cells_from(
    data: Seq<u8>,
    pos: int,
    left: int,
    version: DataVersion,
    found: Seq<LandView>,
) -> Result<Seq<LandView>, EsmError>
    decreases left,
{
    if left <= 0 {
        Ok(found)
    } else {
        match unit_at(data, pos, version) {
            Err(e) => Err(e),
            Ok((end, total, cell, lands)) => if left < total {
                Err(EsmError::Budget)
            } else {
                proof {
                    lemma_unit_size(data, pos, version);
                }
                cells_from(data, end, left - total, version, found + lands)
            },
        }
    }
}

/// The heightfields of a subblock whose group declares `total_size` bytes and
/// whose contents are `data`.
pub open spec fn subblock_lands(data: Seq<u8>, version: DataVersion, total_size: u32) -> Result<
    Seq<LandView>,
    EsmError,
> {
    let hs = wide_header_len(version) as int;
    if total_size < hs {
        Err(EsmError::Budget)
    } else {
        cells_from(data, 0, total_size - hs, version, Seq::empty())
    }
}

/// Scans the top-level groups from `pos` on for the first whose label is
/// `WRLD`, and gives the position behind its header. Every other group is
/// passed over by its declared size.
pub open spec fn world_group_from(data: Seq<u8>, pos: int, version: DataVersion) -> Result<
    int,
    EsmError,
>
    decreases remaining(data, pos),
{
    let hs = wide_header_len(version) as int;
    let total = le_u32_at(data, pos + 4);
    if !available(data, pos, hs) {
        Err(EsmError::Truncated)
    } else if tag_at(data, pos + 8) == WRLD@ {
        Ok(pos + hs)
    } else if total < hs {
        Err(EsmError::Budget)
    } else if pos + total > u64::MAX {
        Err(EsmError::Truncated)
    } else {
        world_group_from(data, pos + total, version)
    }
}

/// Reads the worldspace record whose header starts at `pos`, holds its first
/// field against the expected name, and passes over the rest of its payload.
/// It gives the position of the header of the group that follows: the
/// children of the worldspace.
#[verifier::opaque]
pub open spec fn world_record_at(data: Seq<u8>, pos: int, version: DataVersion) -> Result<
    int,
    EsmError,
> {
    let hs = wide_header_len(version) as int;
    let size = le_u32_at(data, pos + 4);
    let name = pos + hs + 6;
    if !available(data, pos, hs) {
        Err(EsmError::Truncated)
    } else if tag_at(data, pos) != WRLD@ {
        Err(EsmError::Mismatch)
    } else if !available(data, pos + hs, 6) {
        Err(EsmError::Truncated)
    } else if !(available(data, name, 8) && data.subrange(name, name + 8) == WORLD_NAME@) {
        Err(EsmError::Mismatch)
    } else if size < 14 {
        Err(EsmError::Budget)
    } else {
        match advance(name + 8, size - 14) {
            Err(e) => Err(e),
            Ok(children) => if !available(data, children, hs) {
                Err(EsmError::Truncated)
            } else {
                Ok(children)
            },
        }
    }
}

/// Walks from the leading record of the archive at `pos` to the children of
/// the worldspace, and gives the position of the header of that group.
pub open spec fn world_children_at(data: Seq<u8>, pos: int, version: DataVersion) -> Result<
    int,
    EsmError,
> {
    let hs = wide_header_len(version) as int;
    if !available(data, pos, hs) {
        Err(EsmError::Truncated)
    } else if tag_at(data, pos) != TES4@ {
        Err(EsmError::Mismatch)
    } else {
        match advance(pos + hs, le_u32_at(data, pos + 4) as int) {
            Err(e) => Err(e),
            Ok(groups) => match world_group_from(data, groups, version) {
                Err(e) => Err(e),
                Ok(record) => world_record_at(data, record, version),
            },
        }
    }
}

/// Walks the subblocks of one block, from `pos` on until `left` bytes of
/// declared sizes are used up. It gives the position behind the last and the
/// positions of their headers, added to `found`. The contents of each
/// subblock must lie in the archive.
pub open spec fn subblocks_from(
    data: Seq<u8>,
    pos: int,
    left: int,
    version: DataVersion,
    found: Seq<int>,
) -> Result<(int, Seq<int>), EsmError>
    decreases left,
{
    let hs = wide_header_len(version) as int;
    let total = le_u32_at(data, pos + 4);
    if left <= 0 {
        Ok((pos, found))
    } else if !available(data, pos, hs) {
        Err(EsmError::Truncated)
    } else if left < total || total < hs {
        Err(EsmError::Budget)
    } else if !available(data, pos + hs, total - hs) {
        Err(EsmError::Truncated)
    } else {
        subblocks_from(data, pos + total, left - total, version, found.push(pos))
    }
}

/// A walk over subblocks that succeeds ends exactly where its budget ends,
/// and every subblock that it finds lies whole in the archive, behind those
/// found before it.
pub proof fn lemma_subblocks_end(
    data: Seq<u8>,
    pos: int,
    left: int,
    version: DataVersion,
    found: Seq<int>,
)
    requires
        0 <= left,
    ensures
        match subblocks_from(data, pos, left, version, found) {
            Ok((end, all)) => end == pos + left && all.len() >= found.len() && all.subrange(
                0,
                found.len() as int,
            ) == found && forall|i: int|
                found.len() <= i < all.len() ==> pos <= #[trigger] all[i] && available(
                    data,
                    all[i],
                    le_u32_at(data, all[i] + 4) as int,
                ) && all[i] + le_u32_at(data, all[i] + 4) <= end,
            Err(e) => true,
        },
    decreases left,
{
    let hs = wide_header_len(version) as int;
    let total = le_u32_at(data, pos + 4);
    if left > 0 && available(data, pos, hs) && left >= total && total >= hs && available(
        data,
        pos + hs,
        total - hs,
    ) {
        lemma_subblocks_end(data, pos + total, left - total, version, found.push(pos));
        match subblocks_from(data, pos, left, version, found) {
            Ok((end, all)) => {
                let n = found.len() as int;
                assert(all.subrange(0, n) =~= all.subrange(0, n + 1).subrange(0, n));
                assert(all[n] == all.subrange(0, n + 1)[n]);
            },
            Err(e) => {},
        }
    } else if left <= 0 {
        assert(found.subrange(0, found.len() as int) =~= found);
    }
}

/// Reads the block whose header starts at `pos`: its declared size, the
/// position behind its subblocks, and the positions of their headers, added to
/// `found`.
#[verifier::opaque]
pub open spec fn block_at(data: Seq<u8>, pos: int, version: DataVersion, found: Seq<int>)
    -> Result<(u32, int, Seq<int>), EsmError> {
    let hs = wide_header_len(version) as int;
    let total = le_u32_at(data, pos + 4);
    if !available(data, pos, hs) {
        Err(EsmError::Truncated)
    } else if total < hs {
        Err(EsmError::Budget)
    } else {
        match subblocks_from(data, pos + hs, total - hs, version, found) {
            Err(e) => Err(e),
            Ok((end, all)) => Ok((total, end, all)),
        }
    }
}

/// A block declares at least its own header.
pub proof fn lemma_block_size(data: Seq<u8>, pos: int, version: DataVersion, found: Seq<int>)
    ensures
        match block_at(data, pos, version, found) {
            Ok((total, end, all)) => total >= wide_header_len(version),
            Err(e) => true,
        },
{
    reveal(block_at);
}

/// Walks the blocks from `pos` on until `left` bytes of declared sizes are
/// used up, and gives the positions of the headers of all their subblocks, in
/// the order of the archive.
pub open spec fn blocks_from(
    data: Seq<u8>,
    pos: int,
    left: int,
    version: DataVersion,
    found: Seq<int>,
) -> Result<Seq<int>, EsmError>
    decreases left,
{
    if left <= 0 {
        Ok(found)
    } else {
        match block_at(data, pos, version, found) {
            Err(e) => Err(e),
            Ok((total, end, all)) => if left < total {
                Err(EsmError::Budget)
            } else {
                proof {
                    lemma_block_size(data, pos, version, found);
                }
                blocks_from(data, end, left - total, version, all)
            },
        }
    }
}

/// Passes over the record that precedes the first terrain unit in the older
/// layout: the position behind it and the bytes that it declares. The newer
/// layout has no such record.
#[verifier::opaque]
pub open spec fn road_at(data: Seq<u8>, pos: int, version: DataVersion) -> Result<
    (int, u32),
    EsmError,
> {
    let hs = wide_header_len(version) as int;
    let size = le_u32_at(data, pos + 4);
    match version {
        DataVersion::Skyrim => Ok((pos, 0u32)),
        DataVersion::Oblivion => if !available(data, pos, hs) {
            Err(EsmError::Truncated)
        } else {
            match advance(pos + hs, size as int) {
                Err(e) => Err(e),
                Ok(next) => if size + hs > u32::MAX {
                    Err(EsmError::Budget)
                } else {
                    Ok((next, (size + hs) as u32))
                },
            }
        },
    }
}

/// What the worldspace holds: its first terrain unit with its heightfields,
/// and the positions of the headers of its subblocks.
pub struct WorldspaceView {
    pub cell: Cell,
    pub lands: Seq<LandView>,
    pub subblocks: Seq<int>,
}

/// Decodes what lies behind the header of the worldspace's children group,
/// which declares `total_size` bytes: an optional leading record, the first
/// terrain unit, and the blocks with their subblocks.
pub open spec fn world_contents_at(data: Seq<u8>, pos: int, version: DataVersion, total_size: u32)
    -> Result<WorldspaceView, EsmError> {
    let hs = wide_header_len(version) as int;
    match road_at(data, pos, version) {
        Err(e) => Err(e),
        Ok((unit, road)) => match unit_at(data, unit, version) {
            Err(e) => Err(e),
            Ok((blocks, first, cell, lands)) => if total_size < hs + first + road {
                Err(EsmError::Budget)
            } else {
                match blocks_from(
                    data,
                    blocks,
                    total_size - (hs + first + road),
                    version,
                    Seq::empty(),
                ) {
                    Err(e) => Err(e),
                    Ok(subblocks) => Ok(WorldspaceView { cell, lands, subblocks }),
                }
            },
        },
    }
}

/// Decodes the archive from `pos` on: finds the children of the worldspace
/// and decodes what they hold.
pub open spec fn world_at(data: Seq<u8>, pos: int, version: DataVersion) -> Result<
    WorldspaceView,
    EsmError,
> {
    match world_children_at(data, pos, version) {
        Err(e) => Err(e),
        Ok(children) => world_contents_at(
            data,
            children + wide_header_len(version),
            version,
            le_u32_at(data, children + 4),
        ),
    }
}

} // verus!
