//! The three header shapes of the archive: record, group and field.
use vstd::prelude::*;

use crate::esm::stream::{le_i32_at, le_u16_at, le_u32_at, tag_at, ByteReader};
use crate::esm::{DataVersion, EsmError};

verus! {

/// The number of bytes of a record header, and of a group header.
pub open spec fn wide_header_len(version: DataVersion) -> nat {
    match version {
        DataVersion::Skyrim => 24,
        DataVersion::Oblivion => 20,
    }
}

/// The number of bytes of a field header.
pub open spec fn field_header_len() -> nat {
    6
}

/// A header that is read from the stream and knows how much payload follows it.
pub trait DataHeader: Sized {
    /// The number of bytes that a header of this shape occupies.
    spec fn header_len(version: DataVersion) -> nat;

    /// Whether `self` holds, field by field, what the bytes of `data` from
    /// `at` on encode in the layout of `version`.
    spec fn decoded_from(&self, data: Seq<u8>, at: int, version: DataVersion) -> bool;

    /// The number of bytes between the end of the header and the end of what
    /// it declares, or `None` where the declared size is smaller than the
    /// header itself.
    spec fn payload_len(&self) -> Option<nat>;

    /// The number of bytes that a header of this shape occupies.
    fn header_size(version: DataVersion) -> (n: u32)
        ensures
            n == Self::header_len(version),
    ;

    /// Reads one header from the current position. It consumes exactly
    /// `header_len(version)` bytes, or nothing where fewer are left.
    fn read(reader: &mut ByteReader, version: DataVersion) -> (r: Result<Self, EsmError>)
        ensures
            final(reader).data == old(reader).data,
            match r {
                Ok(h) => old(reader).has(Self::header_len(version) as int) && h.decoded_from(
                    old(reader).data@,
                    old(reader).pos as int,
                    version,
                ) && final(reader).pos == old(reader).pos + Self::header_len(version),
                Err(e) => e == EsmError::Truncated && !old(reader).has(
                    Self::header_len(version) as int,
                ) && final(reader).pos == old(reader).pos,
            },
    ;

    /// Moves the stream past the payload that this header declares, without
    /// reading it.
    fn skip_data(&self, reader: &mut ByteReader) -> (r: Result<(), EsmError>)
        ensures
            final(reader).data == old(reader).data,
            match r {
                Ok(_) => self.payload_len() is Some && final(reader).pos == old(reader).pos
                    + self.payload_len().unwrap(),
                Err(e) => final(reader).pos == old(reader).pos && match self.payload_len() {
                    Some(n) => e == EsmError::Truncated && old(reader).pos + n > u64::MAX,
                    None => e == EsmError::Budget,
                },
            },
    ;
}

/// The header of a record: a tagged unit whose payload is a run of fields.
#[derive(Debug, Clone, Copy, PartialEq, Eq)]
pub struct RecordHeader {
    pub ty: [u8; 4],
    /// The size of the payload, the header not counted.
    pub data_size: u32,
    pub flags: u32,
    pub id: u32,
    pub timestamp: Option<u16>,
    pub version_control: u32,
    pub internal_version: Option<u16>,
    pub misc: Option<u16>,
}

/// The flag bit of a record whose payload is compressed.
pub const COMPRESSED: u32 = 0x0004_0000;

impl RecordHeader {
    /// Whether the payload is compressed.
    pub open spec fn spec_is_compressed(&self) -> bool {
        self.flags & COMPRESSED == COMPRESSED
    }

    /// Whether the payload is compressed.
    #[verifier::when_used_as_spec(spec_is_compressed)]
    pub fn is_compressed(&self) -> (r: bool)
        ensures
            r == self.spec_is_compressed(),
    {
        self.flags & COMPRESSED == COMPRESSED
    }
}

impl DataHeader for RecordHeader {
    open spec fn header_len(version: DataVersion) -> nat {
        wide_header_len(version)
    }

    open spec fn decoded_from(&self, data: Seq<u8>, at: int, version: DataVersion) -> bool {
        &&& self.ty@ == tag_at(data, at)
        &&& self.data_size == le_u32_at(data, at + 4)
        &&& self.flags == le_u32_at(data, at + 8)
        &&& self.id == le_u32_at(data, at + 12)
        &&& match version {
            DataVersion::Skyrim => {
                &&& self.timestamp == Some(le_u16_at(data, at + 16))
                &&& self.version_control == le_u16_at(data, at + 18) as u32
                &&& self.internal_version == Some(le_u16_at(data, at + 20))
                &&& self.misc == Some(le_u16_at(data, at + 22))
            },
            DataVersion::Oblivion => {
                &&& self.timestamp is None
                &&& self.version_control == le_u32_at(data, at + 16)
                &&& self.internal_version is None
                &&& self.misc is None
            },
        }
    }

    open spec fn payload_len(&self) -> Option<nat> {
        Some(self.data_size as nat)
    }

    fn header_size(version: DataVersion) -> (n: u32) {
        match version {
            DataVersion::Skyrim => 24,
            DataVersion::Oblivion => 20,
        }
    }

    fn read(reader: &mut ByteReader, version: DataVersion) -> (r: Result<Self, EsmError>) {
        if !reader.can_read(Self::header_size(version) as usize) {
            return Err(EsmError::Truncated);
        }
        let ty = reader.read_tag()?;
        let data_size = reader.read_u32()?;
        let flags = reader.read_u32()?;
        let id = reader.read_u32()?;
        let timestamp: Option<u16>;
        let version_control: u32;
        let internal_version: Option<u16>;
        let misc: Option<u16>;
        match version {
            DataVersion::Skyrim => {
                timestamp = Some(reader.read_u16()?);
                version_control = reader.read_u16()? as u32;
                internal_version = Some(reader.read_u16()?);
                misc = Some(reader.read_u16()?);
            },
            DataVersion::Oblivion => {
                version_control = reader.read_u32()?;
                timestamp = None;
                internal_version = None;
                misc = None;
            },
        }
        Ok(
            RecordHeader {
                ty,
                data_size,
                flags,
                id,
                timestamp,
                version_control,
                internal_version,
                misc,
            },
        )
    }

    fn skip_data(&self, reader: &mut ByteReader) -> (r: Result<(), EsmError>) {
        reader.skip(self.data_size as u64)
    }
}

/// The header of a group: a sized container of records and nested groups.
#[derive(Debug, Clone, Copy, PartialEq, Eq)]
pub struct GroupHeader {
    pub ty: [u8; 4],
    /// The number of bytes that the header itself occupied when it was read.
    pub header_size: u32,
    /// The size of the whole group, its header counted.
    pub total_size: u32,
    /// A record type or a cell coordinate, by the kind of group.
    pub label: [u8; 4],
    pub group_ty: i32,
    pub timestamp: Option<u16>,
    pub version_control: u32,
    pub misc: Option<u32>,
}

impl DataHeader for GroupHeader {
    open spec fn header_len(version: DataVersion) -> nat {
        wide_header_len(version)
    }

    open spec fn decoded_from(&self, data: Seq<u8>, at: int, version: DataVersion) -> bool {
        &&& self.ty@ == tag_at(data, at)
        &&& self.header_size == wide_header_len(version)
        &&& self.total_size == le_u32_at(data, at + 4)
        &&& self.label@ == tag_at(data, at + 8)
        &&& self.group_ty == le_i32_at(data, at + 12)
        &&& match version {
            DataVersion::Skyrim => {
                &&& self.timestamp == Some(le_u16_at(data, at + 16))
                &&& self.version_control == le_u16_at(data, at + 18) as u32
                &&& self.misc == Some(le_u32_at(data, at + 20))
            },
            DataVersion::Oblivion => {
                &&& self.timestamp is None
                &&& self.version_control == le_u32_at(data, at + 16)
                &&& self.misc is None
            },
        }
    }

    open spec fn payload_len(&self) -> Option<nat> {
        if self.total_size >= self.header_size {
            Some((self.total_size - self.header_size) as nat)
        } else {
            None
        }
    }

    fn header_size(version: DataVersion) -> (n: u32) {
        match version {
            DataVersion::Skyrim => 24,
            DataVersion::Oblivion => 20,
        }
    }

    fn read(reader: &mut ByteReader, version: DataVersion) -> (r: Result<Self, EsmError>) {
        let header_size = Self::header_size(version);
        if !reader.can_read(header_size as usize) {
            return Err(EsmError::Truncated);
        }
        let ty = reader.read_tag()?;
        let total_size = reader.read_u32()?;
        let label = reader.read_tag()?;
        let group_ty = reader.read_i32()?;
        let timestamp: Option<u16>;
        let version_control: u32;
        let misc: Option<u32>;
        match version {
            DataVersion::Skyrim => {
                timestamp = Some(reader.read_u16()?);
                version_control = reader.read_u16()? as u32;
                misc = Some(reader.read_u32()?);
            },
            DataVersion::Oblivion => {
                version_control = reader.read_u32()?;
                timestamp = None;
                misc = None;
            },
        }
        Ok(
            GroupHeader {
                ty,
                header_size,
                total_size,
                label,
                group_ty,
                timestamp,
                version_control,
                misc,
            },
        )
    }

    fn skip_data(&self, reader: &mut ByteReader) -> (r: Result<(), EsmError>) {
        if self.total_size < self.header_size {
            return Err(EsmError::Budget);
        }
        reader.skip((self.total_size - self.header_size) as u64)
    }
}

/// The header of a field: a tagged value inside a record's payload.
#[derive(Debug, Clone, Copy, PartialEq, Eq)]
pub struct FieldHeader {
    pub ty: [u8; 4],
    /// The size of the value, the header not counted.
    pub size: u16,
}

impl DataHeader for FieldHeader {
    open spec fn header_len(version: DataVersion) -> nat {
        field_header_len()
    }

    open spec fn decoded_from(&self, data: Seq<u8>, at: int, version: DataVersion) -> bool {
        &&& self.ty@ == tag_at(data, at)
        &&& self.size == le_u16_at(data, at + 4)
    }

    open spec fn payload_len(&self) -> Option<nat> {
        Some(self.size as nat)
    }

    fn header_size(_version: DataVersion) -> (n: u32) {
        6
    }

    fn read(reader: &mut ByteReader, _version: DataVersion) -> (r: Result<Self, EsmError>) {
        if !reader.can_read(6) {
            return Err(EsmError::Truncated);
        }
        let ty = reader.read_tag()?;
        let size = reader.read_u16()?;
        Ok(FieldHeader { ty, size })
    }

    fn skip_data(&self, reader: &mut ByteReader) -> (r: Result<(), EsmError>) {
        reader.skip(self.size as u64)
    }
}

/// The little-endian bytes of a 16-bit integer.
pub open spec fn le_bytes_u16(v: u16) -> Seq<u8> {
    seq![(v % 256) as u8, (v / 256) as u8]
}

/// The little-endian bytes of a 32-bit integer.
pub open spec fn le_bytes_u32(v: u32) -> Seq<u8> {
    seq![
        (v % 256) as u8,
        (v / 256 % 256) as u8,
        (v / 65536 % 256) as u8,
        (v / 16777216) as u8,
    ]
}

/// The 32-bit pattern of a signed integer in two's complement.
pub open spec fn as_unsigned(v: i32) -> u32 {
    if v < 0 {
        (v + 0x1_0000_0000) as u32
    } else {
        v as u32
    }
}

/// The bytes of the version-dependent end of a record header.
pub open spec fn record_tail(header: RecordHeader, version: DataVersion) -> Seq<u8> {
    match version {
        DataVersion::Skyrim => le_bytes_u16(header.timestamp.unwrap()) + le_bytes_u16(
            header.version_control as u16,
        ) + le_bytes_u16(header.internal_version.unwrap()) + le_bytes_u16(header.misc.unwrap()),
        DataVersion::Oblivion => le_bytes_u32(header.version_control),
    }
}

/// The bytes of the version-dependent end of a group header.
pub open spec fn group_tail(header: GroupHeader, version: DataVersion) -> Seq<u8> {
    match version {
        DataVersion::Skyrim => le_bytes_u16(header.timestamp.unwrap()) + le_bytes_u16(
            header.version_control as u16,
        ) + le_bytes_u32(header.misc.unwrap()),
        DataVersion::Oblivion => le_bytes_u32(header.version_control),
    }
}

impl RecordHeader {
    /// Whether the header holds what the layout of `version` has room for.
    pub open spec fn fits(&self, version: DataVersion) -> bool {
        match version {
            DataVersion::Skyrim => self.timestamp is Some && self.version_control <= u16::MAX
                && self.internal_version is Some && self.misc is Some,
            DataVersion::Oblivion => self.timestamp is None && self.internal_version is None
                && self.misc is None,
        }
    }

    /// The bytes of the header in the layout of `version`.
    pub open spec fn encoded(&self, version: DataVersion) -> Seq<u8> {
        self.ty@ + le_bytes_u32(self.data_size) + le_bytes_u32(self.flags) + le_bytes_u32(self.id)
            + record_tail(*self, version)
    }
}

impl GroupHeader {
    /// Whether the header holds what the layout of `version` has room for.
    pub open spec fn fits(&self, version: DataVersion) -> bool {
        &&& self.header_size == wide_header_len(version)
        &&& match version {
            DataVersion::Skyrim => self.timestamp is Some && self.version_control <= u16::MAX
                && self.misc is Some,
            DataVersion::Oblivion => self.timestamp is None && self.misc is None,
        }
    }

    /// The bytes of the header in the layout of `version`.
    pub open spec fn encoded(&self, version: DataVersion) -> Seq<u8> {
        self.ty@ + le_bytes_u32(self.total_size) + self.label@ + le_bytes_u32(
            as_unsigned(self.group_ty),
        ) + group_tail(*self, version)
    }
}

impl FieldHeader {
    /// The bytes of the header.
    pub open spec fn encoded(&self) -> Seq<u8> {
        self.ty@ + le_bytes_u16(self.size)
    }
}

/// Decoding the little-endian bytes of a 16-bit integer gives the integer.
pub proof fn lemma_le_u16(data: Seq<u8>, at: int, v: u16)
    requires
        0 <= at,
        at + 2 <= data.len(),
        data.subrange(at, at + 2) == le_bytes_u16(v),
    ensures
        le_u16_at(data, at) == v,
{
    assert(data[at] == data.subrange(at, at + 2)[0]);
    assert(data[at + 1] == data.subrange(at, at + 2)[1]);
}

/// Decoding the little-endian bytes of a 32-bit integer gives the integer.
pub proof fn lemma_le_u32(data: Seq<u8>, at: int, v: u32)
    requires
        0 <= at,
        at + 4 <= data.len(),
        data.subrange(at, at + 4) == le_bytes_u32(v),
    ensures
        le_u32_at(data, at) == v,
{
    assert(data[at] == data.subrange(at, at + 4)[0]);
    assert(data[at + 1] == data.subrange(at, at + 4)[1]);
    assert(data[at + 2] == data.subrange(at, at + 4)[2]);
    assert(data[at + 3] == data.subrange(at, at + 4)[3]);
}

/// A record header that is written in the layout of a version and decoded in
/// that layout is reproduced in every field.
pub proof fn lemma_record_round_trip(
    header: RecordHeader,
    decoded: RecordHeader,
    version: DataVersion,
)
    requires
        header.fits(version),
        decoded.decoded_from(header.encoded(version), 0, version),
    ensures
        header.encoded(version).len() == RecordHeader::header_len(version),
        decoded == header,
{
    let bytes = header.encoded(version);
    assert(bytes.subrange(0, 4) =~= header.ty@);
    assert(bytes.subrange(4, 8) =~= le_bytes_u32(header.data_size));
    assert(bytes.subrange(8, 12) =~= le_bytes_u32(header.flags));
    assert(bytes.subrange(12, 16) =~= le_bytes_u32(header.id));
    lemma_le_u32(bytes, 4, header.data_size);
    lemma_le_u32(bytes, 8, header.flags);
    lemma_le_u32(bytes, 12, header.id);
    match version {
        DataVersion::Skyrim => {
            assert(bytes.subrange(16, 18) =~= le_bytes_u16(header.timestamp.unwrap()));
            assert(bytes.subrange(18, 20) =~= le_bytes_u16(header.version_control as u16));
            assert(bytes.subrange(20, 22) =~= le_bytes_u16(header.internal_version.unwrap()));
            assert(bytes.subrange(22, 24) =~= le_bytes_u16(header.misc.unwrap()));
            lemma_le_u16(bytes, 16, header.timestamp.unwrap());
            lemma_le_u16(bytes, 18, header.version_control as u16);
            lemma_le_u16(bytes, 20, header.internal_version.unwrap());
            lemma_le_u16(bytes, 22, header.misc.unwrap());
        },
        DataVersion::Oblivion => {
            assert(bytes.subrange(16, 20) =~= le_bytes_u32(header.version_control));
            lemma_le_u32(bytes, 16, header.version_control);
        },
    }
    assert(decoded.ty =~= header.ty);
}

/// A group header that is written in the layout of a version and decoded in
/// that layout is reproduced in every field.
pub proof fn lemma_group_round_trip(header: GroupHeader, decoded: GroupHeader, version: DataVersion)
    requires
        header.fits(version),
        decoded.decoded_from(header.encoded(version), 0, version),
    ensures
        header.encoded(version).len() == GroupHeader::header_len(version),
        decoded == header,
{
    let bytes = header.encoded(version);
    assert(bytes.subrange(0, 4) =~= header.ty@);
    assert(bytes.subrange(4, 8) =~= le_bytes_u32(header.total_size));
    assert(bytes.subrange(8, 12) =~= header.label@);
    assert(bytes.subrange(12, 16) =~= le_bytes_u32(as_unsigned(header.group_ty)));
    lemma_le_u32(bytes, 4, header.total_size);
    lemma_le_u32(bytes, 12, as_unsigned(header.group_ty));
    match version {
        DataVersion::Skyrim => {
            assert(bytes.subrange(16, 18) =~= le_bytes_u16(header.timestamp.unwrap()));
            assert(bytes.subrange(18, 20) =~= le_bytes_u16(header.version_control as u16));
            assert(bytes.subrange(20, 24) =~= le_bytes_u32(header.misc.unwrap()));
            lemma_le_u16(bytes, 16, header.timestamp.unwrap());
            lemma_le_u16(bytes, 18, header.version_control as u16);
            lemma_le_u32(bytes, 20, header.misc.unwrap());
        },
        DataVersion::Oblivion => {
            assert(bytes.subrange(16, 20) =~= le_bytes_u32(header.version_control));
            lemma_le_u32(bytes, 16, header.version_control);
        },
    }
    assert(decoded.ty =~= header.ty);
    assert(decoded.label =~= header.label);
}

/// A field header that is written and decoded is reproduced in every field,
/// whatever the version.
pub proof fn lemma_field_round_trip(header: FieldHeader, decoded: FieldHeader, version: DataVersion)
    requires
        decoded.decoded_from(header.encoded(), 0, version),
    ensures
        header.encoded().len() == FieldHeader::header_len(version),
        decoded == header,
{
    let bytes = header.encoded();
    assert(bytes.subrange(0, 4) =~= header.ty@);
    assert(bytes.subrange(4, 6) =~= le_bytes_u16(header.size));
    lemma_le_u16(bytes, 4, header.size);
    assert(decoded.ty =~= header.ty);
}

} // verus!
