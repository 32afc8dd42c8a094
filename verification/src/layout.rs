//! The fixed binary layout of an archive. All integers are little-endian
//! and all offsets count from the start of the buffer.

use vstd::prelude::*;
use vstd::slice::slice_subrange;
use vstd::slice::slice_to_vec;
use crate::error::LoadError;
use crate::kind::ExtensionCode;
use crate::kind::TableKind;
use crate::kind::extension_to_kind;
use crate::kind::kind_of;

verus! {

/// Length of the signature text that opens the header.
pub const SIGNATURE_LEN: usize = 40;

/// Length of the version text.
pub const VERSION_LEN: usize = 4;

/// Length of the content-type text.
pub const CONTENT_TYPE_LEN: usize = 12;

/// Where the header keeps the number of tables.
pub const TABLE_COUNT_AT: usize = 56;

/// Length of the header; the table directory starts here.
pub const HEADER_LEN: usize = 64;

/// Length of one record of the table directory: a tag byte, three
/// extension bytes, the offset of the entry index and the entry count.
pub const TABLE_RECORD_LEN: usize = 12;

/// Length of one record of an entry index: identifier, offset and size.
pub const ENTRY_RECORD_LEN: usize = 12;

/// The 32-bit little-endian integer that starts at `at`.
pub open spec fn le_u32(bytes: Seq<u8>, at: int) -> u32
    recommends
        0 <= at,
        at + 4 <= bytes.len(),
{
    (bytes[at] as int + 0x100 * (bytes[at + 1] as int) + 0x1_0000 * (bytes[at + 2] as int)
        + 0x100_0000 * (bytes[at + 3] as int)) as u32
}

/// Reads the 32-bit little-endian integer that starts at `at`.
pub fn read_u32_le(bytes: &[u8], at: usize) -> (value: u32)
    requires
        at + 4 <= bytes.len(),
    ensures
        value == le_u32(bytes@, at as int),
{
    let b0: u32 = bytes[at] as u32;
    let b1: u32 = bytes[at + 1] as u32;
    let b2: u32 = bytes[at + 2] as u32;
    let b3: u32 = bytes[at + 3] as u32;
    b0 + 0x100 * b1 + 0x1_0000 * b2 + 0x100_0000 * b3
}

/// The fixed-size header of an archive.
#[derive(Clone, Debug)]
pub struct Header {
    /// The signature text, kept as found: its content is not validated.
    pub signature: Vec<u8>,
    /// The version text.
    pub version: Vec<u8>,
    /// The content-type text.
    pub content_type: Vec<u8>,
    /// How many table records follow the header.
    pub table_count: u32,
    /// Where the table directory starts: the first byte after the header.
    pub directory_offset: usize,
}

/// One sub-file descriptor.
#[derive(Clone, Copy, Debug, PartialEq, Eq, Structural)]
pub struct Entry {
    /// The identifier, unique within the entry's table.
    pub id: u32,
    /// Where the sub-file's bytes start in the buffer.
    pub offset: u32,
    /// How many bytes the sub-file has.
    pub size: u32,
}

/// One table of the archive: the entries of one kind.
#[derive(Clone, Debug)]
pub struct Table {
    /// The type tag of the record, kept as found and not interpreted.
    pub tag: u8,
    /// The extension code of the record, in reading order.
    pub code: ExtensionCode,
    /// The kind that the registry gives to the code.
    pub kind: TableKind,
    /// Where the table's entry index starts in the buffer.
    pub entries_offset: u32,
    /// How many entries the record declares.
    pub entry_count: u32,
    /// The entries, in the order of the entry index.
    pub entries: Vec<Entry>,
}

/// The mathematical value of a `Table`.
pub struct TableView {
    pub tag: u8,
    pub code: ExtensionCode,
    pub kind: TableKind,
    pub entries_offset: u32,
    pub entry_count: u32,
    pub entries: Seq<Entry>,
}

impl View for Table {
    type V = TableView;

    open spec fn view(&self) -> TableView {
        TableView {
            tag: self.tag,
            code: self.code,
            kind: self.kind,
            entries_offset: self.entries_offset,
            entry_count: self.entry_count,
            entries: self.entries@,
        }
    }
}

/// Whether the buffer is long enough to hold a header.
pub open spec fn header_fits(bytes: Seq<u8>) -> bool {
    bytes.len() >= HEADER_LEN
}

/// The number of tables that the header declares.
pub open spec fn declared_table_count(bytes: Seq<u8>) -> u32 {
    le_u32(bytes, TABLE_COUNT_AT as int)
}

impl Header {
    /// Whether this is the header that `bytes` starts with.
    pub open spec fn describes(&self, bytes: Seq<u8>) -> bool {
        &&& self.signature@ == bytes.subrange(0, SIGNATURE_LEN as int)
        &&& self.version@ == bytes.subrange(
            SIGNATURE_LEN as int,
            SIGNATURE_LEN + VERSION_LEN,
        )
        &&& self.content_type@ == bytes.subrange(
            SIGNATURE_LEN + VERSION_LEN,
            TABLE_COUNT_AT as int,
        )
        &&& self.table_count == declared_table_count(bytes)
        &&& self.directory_offset == HEADER_LEN
    }
}

/// Whether `count` records of the table directory fit from `start` on.
pub open spec fn directory_fits(bytes: Seq<u8>, start: int, count: int) -> bool {
    start + 12 * count <= bytes.len()
}

/// Whether `count` records of an entry index fit from `offset` on.
pub open spec fn index_fits(bytes: Seq<u8>, offset: int, count: int) -> bool {
    offset + 12 * count <= bytes.len()
}

/// The entry that the record at `at` describes.
pub open spec fn entry_at(bytes: Seq<u8>, at: int) -> Entry {
    Entry { id: le_u32(bytes, at), offset: le_u32(bytes, at + 4), size: le_u32(bytes, at + 8) }
}

/// The `count` entries of the index that starts at `offset`, in its order.
pub open spec fn entries_at(bytes: Seq<u8>, offset: int, count: nat) -> Seq<Entry> {
    Seq::new(count, |j: int| entry_at(bytes, offset + 12 * j))
}

/// The table that the directory record at `at` describes, without its
/// entries.
pub open spec fn record_at(bytes: Seq<u8>, at: int) -> TableView {
    let code = ExtensionCode::spec_from_disk(bytes[at + 1], bytes[at + 2], bytes[at + 3]);
    TableView {
        tag: bytes[at],
        code,
        kind: kind_of(code),
        entries_offset: le_u32(bytes, at + 4),
        entry_count: le_u32(bytes, at + 8),
        entries: Seq::empty(),
    }
}

/// The `count` records of the directory that starts at `start`.
pub open spec fn directory_at(bytes: Seq<u8>, start: int, count: nat) -> Seq<TableView> {
    Seq::new(count, |i: int| record_at(bytes, start + 12 * i))
}

/// The views of a run of tables.
pub open spec fn table_views(tables: Seq<Table>) -> Seq<TableView> {
    Seq::new(tables.len(), |i: int| tables[i]@)
}

/// Parses the header that the buffer starts with. Fails if and only if the
/// buffer is shorter than a header; the signature's content is not looked
/// at.
pub fn parse_header(bytes: &[u8]) -> (r: Result<Header, LoadError>)
    ensures
        match r {
            Ok(header) => header_fits(bytes@) && header.describes(bytes@),
            Err(e) => !header_fits(bytes@) && e == LoadError::MalformedHeader,
        },
{
    if bytes.len() < HEADER_LEN {
        return Err(LoadError::MalformedHeader);
    }
    let signature = slice_to_vec(slice_subrange(bytes, 0, SIGNATURE_LEN));
    let version = slice_to_vec(slice_subrange(bytes, SIGNATURE_LEN, SIGNATURE_LEN + VERSION_LEN));
    let content_type = slice_to_vec(
        slice_subrange(bytes, SIGNATURE_LEN + VERSION_LEN, TABLE_COUNT_AT),
    );
    let table_count = read_u32_le(bytes, TABLE_COUNT_AT);
    Ok(Header { signature, version, content_type, table_count, directory_offset: HEADER_LEN })
}

/// Reads the directory record at `at`. The three extension bytes are put
/// back into reading order here, once.
pub fn read_table_record(bytes: &[u8], at: usize) -> (table: Table)
    requires
        at + 12 <= bytes.len(),
    ensures
        table@ == record_at(bytes@, at as int),
{
    let code = ExtensionCode::from_disk(bytes[at + 1], bytes[at + 2], bytes[at + 3]);
    Table {
        tag: bytes[at],
        code,
        kind: extension_to_kind(code),
        entries_offset: read_u32_le(bytes, at + 4),
        entry_count: read_u32_le(bytes, at + 8),
        entries: Vec::new(),
    }
}

/// Reads the entry record at `at`.
pub fn read_entry(bytes: &[u8], at: usize) -> (entry: Entry)
    requires
        at + 12 <= bytes.len(),
    ensures
        entry == entry_at(bytes@, at as int),
{
    Entry {
        id: read_u32_le(bytes, at),
        offset: read_u32_le(bytes, at + 4),
        size: read_u32_le(bytes, at + 8),
    }
}

/// Parses `count` directory records from `start` on, one table per record
/// and in their order, each with an empty entry list. Fails if and only if
/// fewer bytes remain than the records need.
pub fn parse_table_directory(bytes: &[u8], start: usize, count: u32) -> (r: Result<
    Vec<Table>,
    LoadError,
>)
    ensures
        match r {
            Ok(tables) => directory_fits(bytes@, start as int, count as int) && table_views(
                tables@,
            ) == directory_at(bytes@, start as int, count as nat),
            Err(e) => !directory_fits(bytes@, start as int, count as int) && e
                == LoadError::MalformedTableDirectory,
        },
{
    let len = bytes.len();
    if start > len || 12 * (count as u64) > ((len - start) as u64) {
        return Err(LoadError::MalformedTableDirectory);
    }
    let mut tables: Vec<Table> = Vec::new();
    let mut i: u32 = 0;
    while i < count
        invariant
            i <= count,
            start + 12 * count <= bytes.len(),
            tables@.len() == i,
            table_views(tables@) == directory_at(bytes@, start as int, i as nat),
        decreases count - i,
    {
        let at = start + 12 * (i as usize);
        let table = read_table_record(bytes, at);
        let ghost before = tables@;
        tables.push(table);
        i += 1;
        proof {
            let target = directory_at(bytes@, start as int, i as nat);
            assert forall|k: int| 0 <= k < i implies table_views(tables@)[k] == target[k] by {
                if k < i - 1 {
                    assert(tables@[k] == before[k]);
                    assert(table_views(before)[k] == directory_at(
                        bytes@,
                        start as int,
                        (i - 1) as nat,
                    )[k]);
                }
            }
            assert(table_views(tables@) =~= target);
        }
    }
    Ok(tables)
}

/// Parses `count` entry records from `offset` on, in their order. Fails if
/// and only if the records would run past the end of the buffer.
pub fn parse_entry_index(bytes: &[u8], offset: u32, count: u32) -> (r: Result<
    Vec<Entry>,
    LoadError,
>)
    ensures
        match r {
            Ok(entries) => index_fits(bytes@, offset as int, count as int) && entries@
                == entries_at(bytes@, offset as int, count as nat),
            Err(e) => !index_fits(bytes@, offset as int, count as int) && e
                == LoadError::MalformedEntryIndex,
        },
{
    let len = bytes.len();
    if (offset as u64) + 12 * (count as u64) > (len as u64) {
        return Err(LoadError::MalformedEntryIndex);
    }
    let base = offset as usize;
    let mut entries: Vec<Entry> = Vec::new();
    let mut j: u32 = 0;
    while j < count
        invariant
            j <= count,
            base == offset,
            base + 12 * count <= bytes.len(),
            entries@ == entries_at(bytes@, offset as int, j as nat),
        decreases count - j,
    {
        let at = base + 12 * (j as usize);
        let entry = read_entry(bytes, at);
        entries.push(entry);
        j += 1;
        proof {
            assert(entries@ =~= entries_at(bytes@, offset as int, j as nat));
        }
    }
    Ok(entries)
}

} // verus!
