//! The tree walker: from the start of the archive down to the heightfields.
use vstd::prelude::*;

use crate::esm::cell::{parse_cell_fields, Cell};
use crate::esm::header::{wide_header_len, DataHeader, FieldHeader, GroupHeader, RecordHeader};
use crate::esm::land::{Land, LandView};
use crate::esm::layout::{
    block_at, blocks_from, cell_at, cell_refs_at, cells_from, land_record_at, land_views,
    lands_from, lemma_block_size, lemma_unit_size, road_at, scanned_group_at, subblock_lands,
    subblocks_from, unit_at, world_at, world_children_at, world_contents_at, world_group_from,
    world_record_at, WorldspaceView, TEMPORARY_CHILDREN,
};
use crate::esm::stream::{le_u32_at, remaining, ByteReader};
use crate::esm::tags::{tag_eq, GRUP, LAND, TES4, WORLD_NAME, WRLD};
use crate::esm::{DataVersion, ESMInfo, EsmError};

verus! {

/// The contents of one subblock, cut out of the archive for a worker.
#[derive(Debug, PartialEq, Eq)]
pub struct Subblock {
    /// The header of the subblock's group.
    pub header: GroupHeader,
    /// The position of that header in the archive.
    pub offset: u64,
    /// What the group holds behind its header.
    pub data: Vec<u8>,
}

impl Subblock {
    /// Whether this is the subblock of `data` whose group header starts at
    /// `self.offset`.
    pub open spec fn cut_from(&self, data: Seq<u8>, version: DataVersion) -> bool {
        &&& self.header.decoded_from(data, self.offset as int, version)
        &&& self.data@ == data.subrange(
            self.offset + wide_header_len(version),
            self.offset + le_u32_at(data, self.offset + 4),
        )
    }
}

/// Whether each of `subblocks` is cut from `data` at its own offset.
pub open spec fn all_cut_from(subblocks: Seq<Subblock>, data: Seq<u8>, version: DataVersion)
    -> bool {
    forall|i: int| 0 <= i < subblocks.len() ==> (#[trigger] subblocks[i]).cut_from(data, version)
}

/// The offsets of `subblocks`, in their order.
pub open spec fn offsets(subblocks: Seq<Subblock>) -> Seq<int> {
    subblocks.map_values(|subblock: Subblock| subblock.offset as int)
}

/// The worldspace as the walker hands it on: the first terrain unit is
/// decoded, the subblocks are cut out for workers to decode.
#[derive(Debug, PartialEq, Eq)]
pub struct Worldspace {
    pub cell: Cell,
    pub lands: Vec<Land>,
    pub subblocks: Vec<Subblock>,
}

impl Worldspace {
    /// Whether this is what `view` describes of the archive `data`.
    pub open spec fn decoded_from(&self, data: Seq<u8>, version: DataVersion, view: WorldspaceView)
        -> bool {
        &&& self.cell == view.cell
        &&& land_views(self.lands@) == view.lands
        &&& offsets(self.subblocks@) == view.subblocks
        &&& all_cut_from(self.subblocks@, data, version)
    }
}

/// Pushing a heightfield and taking the views commute.
proof fn lemma_views_push(lands: Seq<Land>, land: Land)
    ensures
        land_views(lands.push(land)) == land_views(lands).push(land@),
{
    assert(land_views(lands.push(land)) =~= land_views(lands).push(land@));
}

/// Concatenating heightfields and taking the views commute.
proof fn lemma_views_add(a: Seq<Land>, b: Seq<Land>)
    ensures
        land_views(a + b) == land_views(a) + land_views(b),
{
    assert(land_views(a + b) =~= land_views(a) + land_views(b));
}

/// Takes `used` bytes from a byte budget. A budget that would become
/// negative is an error: what was decoded declares more than the level
/// around it.
pub fn spend(budget: u32, used: u64) -> (r: Result<u32, EsmError>)
    ensures
        match r {
            Ok(rest) => used <= budget && rest == budget - used,
            Err(e) => e == EsmError::Budget && used > budget,
        },
{
    if (budget as u64) < used {
        Err(EsmError::Budget)
    } else {
        Ok(budget - (used as u32))
    }
}

/// The walker over one archive.
pub struct ESMReader {
    pub info: ESMInfo,
    pub reader: ByteReader,
}

impl ESMReader {
    /// Reads one record of a terrain unit's children and adds the heightfield
    /// that it may hold to `lands`. Returns the size of the record's payload.
    fn read_land_record(
        reader: &mut ByteReader,
        info: ESMInfo,
        cell: Cell,
        lands: &mut Vec<Land>,
    ) -> (r: Result<u32, EsmError>)
        ensures
            final(reader).data == old(reader).data,
            match r {
                Ok(size) => land_record_at(
                    old(reader).data@,
                    old(reader).pos as int,
                    info.version(),
                    cell,
                    land_views(old(lands)@),
                ) == Ok::<(u32, Seq<LandView>), EsmError>((size, land_views(final(lands)@)))
                    && final(reader).pos == old(reader).pos + wide_header_len(info.version())
                    + size,
                Err(e) => land_record_at(
                    old(reader).data@,
                    old(reader).pos as int,
                    info.version(),
                    cell,
                    land_views(old(lands)@),
                ) == Err::<(u32, Seq<LandView>), EsmError>(e),
            },
    {
        proof {
            reveal(land_record_at);
        }
        let record_header = RecordHeader::read(reader, info.version())?;
        if tag_eq(&record_header.ty, &LAND) {
            let land = Land::read(reader, info, cell, &record_header)?;
            proof {
                lemma_views_push(lands@, land);
            }
            lands.push(land);
        } else {
            record_header.skip_data(reader)?;
        }
        Ok(record_header.data_size)
    }

    /// Reads the header of the group that holds the heightfield record: the
    /// next group where it holds temporary children, else the one behind it.
    fn read_scanned_group(reader: &mut ByteReader, version: DataVersion) -> (r: Result<
        GroupHeader,
        EsmError,
    >)
        ensures
            final(reader).data == old(reader).data,
            match r {
                Ok(group) => scanned_group_at(old(reader).data@, old(reader).pos as int, version)
                    == Ok::<int, EsmError>(final(reader).pos - wide_header_len(version))
                    && group.decoded_from(
                    old(reader).data@,
                    final(reader).pos - wide_header_len(version),
                    version,
                ),
                Err(e) => scanned_group_at(old(reader).data@, old(reader).pos as int, version)
                    == Err::<int, EsmError>(e),
            },
    {
        let first = GroupHeader::read(reader, version)?;
        if first.group_ty == TEMPORARY_CHILDREN {
            return Ok(first);
        }
        first.skip_data(reader)?;
        GroupHeader::read(reader, version)
    }

    /// Decodes the children of the terrain unit `cell`, whose group header
    /// is next in the stream. Returns the declared size of that group and the
    /// heightfields found in it.
    pub fn read_cell_refs(reader: &mut ByteReader, info: ESMInfo, cell: Cell) -> (r: Result<
        (u32, Vec<Land>),
        EsmError,
    >)
        ensures
            final(reader).data == old(reader).data,
            match r {
                Ok((bytes, lands)) => cell_refs_at(
                    old(reader).data@,
                    old(reader).pos as int,
                    info.version(),
                    cell,
                ) == Ok::<(int, u32, Seq<LandView>), EsmError>(
                    (final(reader).pos as int, bytes, land_views(lands@)),
                ),
                Err(e) => cell_refs_at(
                    old(reader).data@,
                    old(reader).pos as int,
                    info.version(),
                    cell,
                ) == Err::<(int, u32, Seq<LandView>), EsmError>(e),
            },
    {
        let version = info.version();
        let ghost data = reader.data@;
        let ghost start = reader.pos as int;
        let cell_child_grp = GroupHeader::read(reader, version)?;
        if !tag_eq(&cell_child_grp.ty, &GRUP) {
            return Err(EsmError::Mismatch);
        }
        let temp_child = Self::read_scanned_group(reader, version)?;
        if !tag_eq(&temp_child.ty, &GRUP) {
            return Err(EsmError::Mismatch);
        }
        let hs = GroupHeader::header_size(version);
        if temp_child.total_size < hs {
            return Err(EsmError::Budget);
        }
        let mut left_to_read: u32 = temp_child.total_size - hs;
        let mut lands: Vec<Land> = Vec::new();
        let ghost first = reader.pos as int;
        let ghost budget = left_to_read as int;
        proof {
            assert(land_views(lands@) =~= Seq::<LandView>::empty());
        }
        while left_to_read > 0
            invariant
                reader.data == old(reader).data,
                reader.data@ == data,
                start == old(reader).pos,
                version == info.version(),
                hs == wide_header_len(version),
                cell_refs_at(data, start, version, cell) == match lands_from(
                    data,
                    first,
                    budget,
                    version,
                    cell,
                    Seq::empty(),
                ) {
                    Err(e) => Err::<(int, u32, Seq<LandView>), EsmError>(e),
                    Ok((end, found)) => Ok((end, cell_child_grp.total_size, found)),
                },
                lands_from(data, first, budget, version, cell, Seq::empty()) == lands_from(
                    data,
                    reader.pos as int,
                    left_to_read as int,
                    version,
                    cell,
                    land_views(lands@),
                ),
            decreases left_to_read,
        {
            let size = match Self::read_land_record(reader, info, cell, &mut lands) {
                Ok(size) => size,
                Err(e) => {
                    return Err(e);
                },
            };
            left_to_read = match spend(left_to_read, size as u64 + hs as u64) {
                Ok(rest) => rest,
                Err(e) => {
                    return Err(e);
                },
            };
        }
        Ok((cell_child_grp.total_size, lands))
    }

    /// Decodes the terrain unit whose record header `cell` was just read:
    /// its own fields, then its children. Returns the bytes that the unit and
    /// its children declare, the unit, and its heightfields.
    pub fn read_cell(reader: &mut ByteReader, info: ESMInfo, cell: RecordHeader) -> (r: Result<
        (u32, Cell, Vec<Land>),
        EsmError,
    >)
        ensures
            final(reader).data == old(reader).data,
            match r {
                Ok((total, unit, lands)) => cell_at(
                    old(reader).data@,
                    old(reader).pos as int,
                    info.version(),
                    cell.data_size,
                    cell.is_compressed(),
                ) == Ok::<(int, u32, Cell, Seq<LandView>), EsmError>(
                    (final(reader).pos as int, total, unit, land_views(lands@)),
                ),
                Err(e) => cell_at(
                    old(reader).data@,
                    old(reader).pos as int,
                    info.version(),
                    cell.data_size,
                    cell.is_compressed(),
                ) == Err::<(int, u32, Cell, Seq<LandView>), EsmError>(e),
            },
    {
        let fields = cell.read_payload(reader)?;
        let unit = parse_cell_fields(fields, info.version())?;
        let (children, lands) = Self::read_cell_refs(reader, info, unit)?;
        let total: u64 = children as u64 + cell.data_size as u64 + RecordHeader::header_size(
            info.version(),
        ) as u64;
        if total > u32::MAX as u64 {
            return Err(EsmError::Budget);
        }
        Ok((total as u32, unit, lands))
    }

    /// Reads the record header of a terrain unit and decodes the unit with
    /// its children. Returns the bytes that the unit and its children declare,
    /// which the caller takes from the budget of the level around it, the
    /// unit, and its heightfields.
    pub fn read_unit(reader: &mut ByteReader, info: ESMInfo) -> (r: Result<
        (u32, Cell, Vec<Land>),
        EsmError,
    >)
        ensures
            final(reader).data == old(reader).data,
            match r {
                Ok((total, unit, lands)) => unit_at(
                    old(reader).data@,
                    old(reader).pos as int,
                    info.version(),
                ) == Ok::<(int, u32, Cell, Seq<LandView>), EsmError>(
                    (final(reader).pos as int, total, unit, land_views(lands@)),
                ),
                Err(e) => unit_at(old(reader).data@, old(reader).pos as int, info.version())
                    == Err::<(int, u32, Cell, Seq<LandView>), EsmError>(e),
            },
    {
        proof {
            reveal(unit_at);
        }
        let cell = RecordHeader::read(reader, info.version())?;
        Self::read_cell(reader, info, cell)
    }

    /// Decodes every terrain unit of a subblock, whose contents are `buf` and
    /// whose group header is `subblock`, and returns their heightfields in
    /// the order of the archive.
    pub fn read_subblock(buf: Vec<u8>, info: ESMInfo, subblock: GroupHeader) -> (r: Result<
        Vec<Land>,
        EsmError,
    >)
        ensures
            match r {
                Ok(lands) => subblock_lands(buf@, info.version(), subblock.total_size) == Ok::<
                    Seq<LandView>,
                    EsmError,
                >(land_views(lands@)),
                Err(e) => subblock_lands(buf@, info.version(), subblock.total_size) == Err::<
                    Seq<LandView>,
                    EsmError,
                >(e),
            },
    {
        let ghost data = buf@;
        let hs = GroupHeader::header_size(info.version());
        if subblock.total_size < hs {
            return Err(EsmError::Budget);
        }
        let mut reader = ByteReader::new(buf);
        let mut subblock_left_to_read: u32 = subblock.total_size - hs;
        let mut found: Vec<Land> = Vec::new();
        proof {
            assert(land_views(found@) =~= Seq::<LandView>::empty());
        }
        while subblock_left_to_read > 0
            invariant
                data == buf@,
                reader.data@ == data,
                hs == wide_header_len(info.version()),
                subblock.total_size >= hs,
                subblock_lands(data, info.version(), subblock.total_size) == cells_from(
                    data,
                    reader.pos as int,
                    subblock_left_to_read as int,
                    info.version(),
                    land_views(found@),
                ),
            decreases subblock_left_to_read,
        {
            let ghost old_pos = reader.pos as int;
            let (left, _unit, mut lands) = match Self::read_unit(&mut reader, info) {
                Ok(unit) => unit,
                Err(e) => {
                    return Err(e);
                },
            };
            let rest = match spend(subblock_left_to_read, left as u64) {
                Ok(rest) => rest,
                Err(e) => {
                    return Err(e);
                },
            };
            proof {
                lemma_views_add(found@, lands@);
                lemma_unit_size(data, old_pos, info.version());
            }
            found.append(&mut lands);
            subblock_left_to_read = rest;
        }
        Ok(found)
    }

    /// Reads top-level groups until one is labelled `WRLD`, and returns its
    /// header; the groups before it are passed over.
    fn find_world_group(reader: &mut ByteReader, version: DataVersion) -> (r: Result<
        GroupHeader,
        EsmError,
    >)
        ensures
            final(reader).data == old(reader).data,
            match r {
                Ok(group) => world_group_from(old(reader).data@, old(reader).pos as int, version)
                    == Ok::<int, EsmError>(final(reader).pos as int) && group.decoded_from(
                    old(reader).data@,
                    final(reader).pos - wide_header_len(version),
                    version,
                ),
                Err(e) => world_group_from(old(reader).data@, old(reader).pos as int, version)
                    == Err::<int, EsmError>(e),
            },
    {
        loop
            invariant
                reader.data == old(reader).data,
                world_group_from(old(reader).data@, old(reader).pos as int, version)
                    == world_group_from(reader.data@, reader.pos as int, version),
            decreases remaining(reader.data@, reader.pos as int),
        {
            let group = match GroupHeader::read(reader, version) {
                Ok(group) => group,
                Err(e) => {
                    return Err(e);
                },
            };
            if tag_eq(&group.label, &WRLD) {
                return Ok(group);
            }
            match group.skip_data(reader) {
                Ok(_) => {},
                Err(e) => {
                    return Err(e);
                },
            }
        }
    }

    /// Reads the worldspace record, checks the name in its first field, and
    /// returns the header of the group behind the record.
    fn read_world_record(reader: &mut ByteReader, version: DataVersion) -> (r: Result<
        GroupHeader,
        EsmError,
    >)
        ensures
            final(reader).data == old(reader).data,
            match r {
                Ok(group) => world_record_at(old(reader).data@, old(reader).pos as int, version)
                    == Ok::<int, EsmError>(final(reader).pos - wide_header_len(version))
                    && group.decoded_from(
                    old(reader).data@,
                    final(reader).pos - wide_header_len(version),
                    version,
                ),
                Err(e) => world_record_at(old(reader).data@, old(reader).pos as int, version)
                    == Err::<int, EsmError>(e),
            },
    {
        proof {
            reveal(world_record_at);
        }
        let world_record = RecordHeader::read(reader, version)?;
        if !tag_eq(&world_record.ty, &WRLD) {
            return Err(EsmError::Mismatch);
        }
        let _edid = FieldHeader::read(reader, version)?;
        if !reader.can_read(8) {
            return Err(EsmError::Mismatch);
        }
        let name = reader.read_exact(8)?;
        let named = name[0] == WORLD_NAME[0] && name[1] == WORLD_NAME[1] && name[2] == WORLD_NAME[2]
            && name[3] == WORLD_NAME[3] && name[4] == WORLD_NAME[4] && name[5] == WORLD_NAME[5]
            && name[6] == WORLD_NAME[6] && name[7] == WORLD_NAME[7];
        proof {
            if named {
                assert(name@ =~= WORLD_NAME@);
            }
        }
        if !named {
            return Err(EsmError::Mismatch);
        }
        if world_record.data_size < 14 {
            return Err(EsmError::Budget);
        }
        reader.skip((world_record.data_size - 14) as u64)?;
        GroupHeader::read(reader, version)
    }

    /// Walks from the start of the archive to the children of the
    /// worldspace: past the leading record, past every top-level group before
    /// the worldspaces, and past the worldspace record. Returns the header of
    /// the children group, with the stream behind it.
    pub fn grab_world_children(&mut self) -> (r: Result<GroupHeader, EsmError>)
        ensures
            final(self).reader.data == old(self).reader.data,
            final(self).info == old(self).info,
            match r {
                Ok(group) => world_children_at(
                    old(self).reader.data@,
                    old(self).reader.pos as int,
                    old(self).info.version(),
                ) == Ok::<int, EsmError>(
                    final(self).reader.pos - wide_header_len(old(self).info.version()),
                ) && group.decoded_from(
                    old(self).reader.data@,
                    final(self).reader.pos - wide_header_len(old(self).info.version()),
                    old(self).info.version(),
                ),
                Err(e) => world_children_at(
                    old(self).reader.data@,
                    old(self).reader.pos as int,
                    old(self).info.version(),
                ) == Err::<int, EsmError>(e),
            },
    {
        let version = self.info.version();
        let tes4 = RecordHeader::read(&mut self.reader, version)?;
        if !tag_eq(&tes4.ty, &TES4) {
            return Err(EsmError::Mismatch);
        }
        tes4.skip_data(&mut self.reader)?;
        let _worlds = Self::find_world_group(&mut self.reader, version)?;
        Self::read_world_record(&mut self.reader, version)
    }

    /// Cuts the subblocks of one block out of the stream, until `left` bytes
    /// of declared sizes are used up, and adds them to `found`.
    fn read_subblocks(
        reader: &mut ByteReader,
        version: DataVersion,
        left: u32,
        found: &mut Vec<Subblock>,
    ) -> (r: Result<(), EsmError>)
        requires
            all_cut_from(old(found)@, old(reader).data@, version),
        ensures
            final(reader).data == old(reader).data,
            match r {
                Ok(_) => subblocks_from(
                    old(reader).data@,
                    old(reader).pos as int,
                    left as int,
                    version,
                    offsets(old(found)@),
                ) == Ok::<(int, Seq<int>), EsmError>(
                    (final(reader).pos as int, offsets(final(found)@)),
                ) && all_cut_from(final(found)@, old(reader).data@, version),
                Err(e) => subblocks_from(
                    old(reader).data@,
                    old(reader).pos as int,
                    left as int,
                    version,
                    offsets(old(found)@),
                ) == Err::<(int, Seq<int>), EsmError>(e),
            },
    {
        let ghost data = reader.data@;
        let hs = GroupHeader::header_size(version);
        let mut block_left_to_read = left;
        while block_left_to_read > 0
            invariant
                reader.data == old(reader).data,
                data == old(reader).data@,
                hs == wide_header_len(version),
                all_cut_from(found@, data, version),
                subblocks_from(
                    data,
                    old(reader).pos as int,
                    left as int,
                    version,
                    offsets(old(found)@),
                ) == subblocks_from(
                    data,
                    reader.pos as int,
                    block_left_to_read as int,
                    version,
                    offsets(found@),
                ),
            decreases block_left_to_read,
        {
            let offset = reader.position();
            let subblock = match GroupHeader::read(reader, version) {
                Ok(group) => group,
                Err(e) => {
                    return Err(e);
                },
            };
            if block_left_to_read < subblock.total_size || subblock.total_size < hs {
                return Err(EsmError::Budget);
            }
            block_left_to_read = block_left_to_read - subblock.total_size;
            let subblock_buf = match reader.read_exact((subblock.total_size - hs) as usize) {
                Ok(buf) => buf,
                Err(e) => {
                    return Err(e);
                },
            };
            let cut = Subblock { header: subblock, offset, data: subblock_buf };
            proof {
                assert(cut.cut_from(data, version));
                assert(offsets(found@.push(cut)) =~= offsets(found@).push(offset as int));
            }
            found.push(cut);
        }
        Ok(())
    }

    /// Reads one block: its header, then its subblocks, which are added to
    /// `found`. Returns the size that the block declares.
    fn read_block(reader: &mut ByteReader, version: DataVersion, found: &mut Vec<Subblock>)
        -> (r: Result<u32, EsmError>)
        requires
            all_cut_from(old(found)@, old(reader).data@, version),
        ensures
            final(reader).data == old(reader).data,
            match r {
                Ok(total) => block_at(
                    old(reader).data@,
                    old(reader).pos as int,
                    version,
                    offsets(old(found)@),
                ) == Ok::<(u32, int, Seq<int>), EsmError>(
                    (total, final(reader).pos as int, offsets(final(found)@)),
                ) && all_cut_from(final(found)@, old(reader).data@, version),
                Err(e) => block_at(
                    old(reader).data@,
                    old(reader).pos as int,
                    version,
                    offsets(old(found)@),
                ) == Err::<(u32, int, Seq<int>), EsmError>(e),
            },
    {
        proof {
            reveal(block_at);
        }
        let block = GroupHeader::read(reader, version)?;
        let hs = GroupHeader::header_size(version);
        if block.total_size < hs {
            return Err(EsmError::Budget);
        }
        Self::read_subblocks(reader, version, block.total_size - hs, found)?;
        Ok(block.total_size)
    }

    /// Passes over the record that precedes the first terrain unit in the
    /// older layout, and returns the bytes that it declares.
    fn skip_road(reader: &mut ByteReader, version: DataVersion) -> (r: Result<u32, EsmError>)
        ensures
            final(reader).data == old(reader).data,
            match r {
                Ok(road) => road_at(old(reader).data@, old(reader).pos as int, version) == Ok::<
                    (int, u32),
                    EsmError,
                >((final(reader).pos as int, road)),
                Err(e) => road_at(old(reader).data@, old(reader).pos as int, version) == Err::<
                    (int, u32),
                    EsmError,
                >(e),
            },
    {
        proof {
            reveal(road_at);
        }
        match version {
            DataVersion::Skyrim => Ok(0),
            DataVersion::Oblivion => {
                let road = RecordHeader::read(reader, version)?;
                road.skip_data(reader)?;
                let hs = RecordHeader::header_size(version);
                if road.data_size > u32::MAX - hs {
                    return Err(EsmError::Budget);
                }
                Ok(road.data_size + hs)
            },
        }
    }

    /// Decodes what the children group `world_group` of the worldspace
    /// holds, from behind its header on: the first terrain unit, and the
    /// subblocks, each cut out for a worker.
    fn read_world_contents(reader: &mut ByteReader, info: ESMInfo, world_group: &GroupHeader)
        -> (r: Result<Worldspace, EsmError>)
        ensures
            final(reader).data == old(reader).data,
            match r {
                Ok(world) => {
                    let spec_world = world_contents_at(
                        old(reader).data@,
                        old(reader).pos as int,
                        info.version(),
                        world_group.total_size,
                    );
                    spec_world is Ok && world.decoded_from(
                        old(reader).data@,
                        info.version(),
                        spec_world.unwrap(),
                    )
                },
                Err(e) => world_contents_at(
                    old(reader).data@,
                    old(reader).pos as int,
                    info.version(),
                    world_group.total_size,
                ) == Err::<WorldspaceView, EsmError>(e),
            },
    {
        let version = info.version();
        let ghost data = reader.data@;
        let ghost start = reader.pos as int;
        let road_read = Self::skip_road(reader, version)?;
        let (cell_total_read, cell, lands) = Self::read_unit(reader, info)?;
        let used: u64 = GroupHeader::header_size(version) as u64 + cell_total_read as u64
            + road_read as u64;
        if (world_group.total_size as u64) < used {
            return Err(EsmError::Budget);
        }
        let mut world_bytes_left: u32 = world_group.total_size - (used as u32);
        let mut subblocks: Vec<Subblock> = Vec::new();
        let ghost first = reader.pos as int;
        let ghost budget = world_bytes_left as int;
        proof {
            assert(offsets(subblocks@) =~= Seq::<int>::empty());
        }
        while world_bytes_left > 0
            invariant
                reader.data == old(reader).data,
                data == old(reader).data@,
                all_cut_from(subblocks@, data, version),
                blocks_from(data, first, budget, version, Seq::empty()) == blocks_from(
                    data,
                    reader.pos as int,
                    world_bytes_left as int,
                    version,
                    offsets(subblocks@),
                ),
                start == old(reader).pos,
                version == info.version(),
                world_contents_at(data, start, version, world_group.total_size)
                    == match blocks_from(data, first, budget, version, Seq::empty()) {
                    Err(e) => Err::<WorldspaceView, EsmError>(e),
                    Ok(all) => Ok(
                        WorldspaceView { cell, lands: land_views(lands@), subblocks: all },
                    ),
                },
            decreases world_bytes_left,
        {
            let ghost here = reader.pos as int;
            let ghost before = offsets(subblocks@);
            let total = match Self::read_block(reader, version, &mut subblocks) {
                Ok(total) => total,
                Err(e) => {
                    return Err(e);
                },
            };
            let rest = match spend(world_bytes_left, total as u64) {
                Ok(rest) => rest,
                Err(e) => {
                    return Err(e);
                },
            };
            proof {
                lemma_block_size(data, here, version, before);
            }
            world_bytes_left = rest;
        }
        Ok(Worldspace { cell, lands, subblocks })
    }

    /// Decodes an archive up to its subblocks. The walker finds the
    /// worldspace and its children, decodes the first terrain unit, and cuts
    /// the contents of every subblock out of the stream, in the order of the
    /// archive, so that each can be decoded on its own by `read_subblock`.
    pub fn read(version: DataVersion, reader: ByteReader) -> (r: Result<Worldspace, EsmError>)
        ensures
            match r {
                Ok(world) => {
                    let spec_world = world_at(reader.data@, reader.pos as int, version);
                    spec_world is Ok && world.decoded_from(
                        reader.data@,
                        version,
                        spec_world.unwrap(),
                    )
                },
                Err(e) => world_at(reader.data@, reader.pos as int, version) == Err::<
                    WorldspaceView,
                    EsmError,
                >(e),
            },
    {
        let info = ESMInfo::new(version);
        let mut esm_reader = ESMReader { info, reader };
        let world_group = esm_reader.grab_world_children()?;
        Self::read_world_contents(&mut esm_reader.reader, info, &world_group)
    }
}

} // verus!
