//! The loaded archive: the buffer, the index parsed out of it, and the
//! lookups that hand out a sub-file's bytes.

use vstd::prelude::*;
use vstd::slice::slice_subrange;
use crate::error::LoadError;
use crate::error::LookupError;
use crate::kind::FileKind;
use crate::kind::TableKind;
use crate::layout::Entry;
use crate::layout::Table;
use crate::layout::TableView;
use crate::layout::HEADER_LEN;
use crate::layout::declared_table_count;
use crate::layout::directory_at;
use crate::layout::directory_fits;
use crate::layout::entries_at;
use crate::layout::entry_at;
use crate::layout::header_fits;
use crate::layout::index_fits;
use crate::layout::parse_entry_index;
use crate::layout::parse_header;
use crate::layout::parse_table_directory;
use crate::layout::record_at;
use crate::layout::table_views;

verus! {

/// An archive in memory: the whole buffer and the tables parsed out of it.
/// It is built by `load` and never changes afterwards; every sub-file handed
/// out is a borrowed range of the buffer.
#[derive(Debug)]
pub struct Archive {
    buffer: Vec<u8>,
    tables: Vec<Table>,
}

/// The mathematical value of an `Archive`.
pub struct ArchiveView {
    /// The buffer that the archive was loaded from.
    pub bytes: Seq<u8>,
    /// The tables, in the order of the table directory.
    pub tables: Seq<TableView>,
}

/// Where the directory record of table `i` starts.
pub open spec fn record_start(i: int) -> int {
    HEADER_LEN + 12 * i
}

/// The table that directory record `i` describes, with the entries of its
/// entry index.
pub open spec fn table_at(bytes: Seq<u8>, i: int) -> TableView {
    let record = record_at(bytes, record_start(i));
    TableView {
        tag: record.tag,
        code: record.code,
        kind: record.kind,
        entries_offset: record.entries_offset,
        entry_count: record.entry_count,
        entries: entries_at(bytes, record.entries_offset as int, record.entry_count as nat),
    }
}

/// Whether the entry index that directory record `i` declares lies within
/// the buffer.
pub open spec fn table_index_fits(bytes: Seq<u8>, i: int) -> bool {
    let record = record_at(bytes, record_start(i));
    index_fits(bytes, record.entries_offset as int, record.entry_count as int)
}

/// The tables that a buffer declares, in directory order.
pub open spec fn tables_of(bytes: Seq<u8>) -> Seq<TableView> {
    Seq::new(declared_table_count(bytes) as nat, |i: int| table_at(bytes, i))
}

/// The error with which loading a buffer fails, if it fails: the first
/// stage that does not fit, in the order header, table directory, entry
/// indexes.
pub open spec fn load_error(bytes: Seq<u8>) -> Option<LoadError> {
    if !header_fits(bytes) {
        Some(LoadError::MalformedHeader)
    } else if !directory_fits(bytes, HEADER_LEN as int, declared_table_count(bytes) as int) {
        Some(LoadError::MalformedTableDirectory)
    } else if exists|i: int|
        0 <= i < declared_table_count(bytes) && !#[trigger] table_index_fits(bytes, i) {
        Some(LoadError::MalformedEntryIndex)
    } else {
        None
    }
}

/// Whether `archive` is what loading `bytes` gives.
pub open spec fn loads_as(bytes: Seq<u8>, archive: ArchiveView) -> bool {
    &&& load_error(bytes) is None
    &&& archive.bytes == bytes
    &&& archive.tables == tables_of(bytes)
}

/// Whether the entry's byte range lies within the buffer.
pub open spec fn in_bounds(bytes: Seq<u8>, entry: Entry) -> bool {
    entry.offset + entry.size <= bytes.len()
}

/// The bytes of an entry, or why they cannot be had.
pub open spec fn resolved(bytes: Seq<u8>, entry: Entry) -> Result<Seq<u8>, LookupError> {
    if in_bounds(bytes, entry) {
        Ok(bytes.subrange(entry.offset as int, entry.offset + entry.size))
    } else {
        Err(LookupError::OutOfBounds)
    }
}

/// The position of the first table of the kind at or after `from`, or the
/// number of tables if there is none.
pub open spec fn first_table(tables: Seq<TableView>, kind: FileKind, from: int) -> int
    decreases tables.len() - from,
{
    if from < 0 || from >= tables.len() {
        tables.len() as int
    } else if tables[from].kind == TableKind::Known(kind) {
        from
    } else {
        first_table(tables, kind, from + 1)
    }
}

/// The position of the first entry with the identifier at or after `from`,
/// or the number of entries if there is none.
pub open spec fn first_entry(entries: Seq<Entry>, id: u32, from: int) -> int
    decreases entries.len() - from,
{
    if from < 0 || from >= entries.len() {
        entries.len() as int
    } else if entries[from].id == id {
        from
    } else {
        first_entry(entries, id, from + 1)
    }
}

/// What a lookup by identifier gives: the bytes of the first entry with the
/// identifier, `NotFound` if there is none, `OutOfBounds` if that entry
/// reaches past the buffer.
pub open spec fn contents_by_id(bytes: Seq<u8>, entries: Seq<Entry>, id: u32) -> Result<
    Seq<u8>,
    LookupError,
> {
    let at = first_entry(entries, id, 0);
    if at < entries.len() {
        resolved(bytes, entries[at])
    } else {
        Err(LookupError::NotFound)
    }
}

/// What a lookup by kind and identifier gives: the lookup by identifier in
/// the first table of the kind, `NotFound` if there is no such table.
pub open spec fn contents_by_kind(archive: ArchiveView, kind: FileKind, id: u32) -> Result<
    Seq<u8>,
    LookupError,
> {
    let at = first_table(archive.tables, kind, 0);
    if at < archive.tables.len() {
        contents_by_id(archive.bytes, archive.tables[at].entries, id)
    } else {
        Err(LookupError::NotFound)
    }
}

/// What a lookup in the table at a position gives: the lookup by
/// identifier in that table alone, `NotFound` if there is no table at the
/// position.
pub open spec fn contents_in_table(archive: ArchiveView, position: int, id: u32) -> Result<
    Seq<u8>,
    LookupError,
> {
    if 0 <= position < archive.tables.len() {
        contents_by_id(archive.bytes, archive.tables[position].entries, id)
    } else {
        Err(LookupError::NotFound)
    }
}

/// Whether every entry of the table lies within the buffer.
pub open spec fn table_in_bounds(bytes: Seq<u8>, table: TableView) -> bool {
    forall|j: int| 0 <= j < table.entries.len() ==> in_bounds(bytes, #[trigger] table.entries[j])
}

/// Whether every entry of every table lies within the buffer.
pub open spec fn all_in_bounds(archive: ArchiveView) -> bool {
    forall|i: int|
        0 <= i < archive.tables.len() ==> table_in_bounds(archive.bytes, #[trigger] archive.tables[i])
}

/// The kind and identifier of each entry of one table, in its order.
pub open spec fn table_listing(table: TableView) -> Seq<(TableKind, u32)> {
    Seq::new(table.entries.len(), |j: int| (table.kind, table.entries[j].id))
}

/// The kind and identifier of every entry of every table: table after
/// table, and within a table entry after entry.
pub open spec fn listing(tables: Seq<TableView>) -> Seq<(TableKind, u32)>
    decreases tables.len(),
{
    if tables.len() == 0 {
        Seq::empty()
    } else {
        listing(tables.drop_last()) + table_listing(tables.last())
    }
}

/// Whether an exec result and a spec result agree: the same error, or a
/// slice that views as the same bytes.
pub open spec fn same_outcome(got: Result<&[u8], LookupError>, want: Result<Seq<u8>, LookupError>) -> bool {
    match got {
        Ok(data) => want == Ok::<Seq<u8>, LookupError>(data@),
        Err(e) => want == Err::<Seq<u8>, LookupError>(e),
    }
}

impl View for Archive {
    type V = ArchiveView;

    closed spec fn view(&self) -> ArchiveView {
        ArchiveView { bytes: self.buffer@, tables: table_views(self.tables@) }
    }
}

impl Archive {
    /// Loads an archive from the whole contents of a file: the header, then
    /// the table directory, then each table's entry index. Any stage that
    /// does not fit fails the load; entries are not held against the buffer
    /// here but when they are resolved.
    pub fn load(bytes: Vec<u8>) -> (r: Result<Archive, LoadError>)
        ensures
            match r {
                Ok(archive) => loads_as(bytes@, archive@),
                Err(e) => load_error(bytes@) == Some(e),
            },
    {
        let header = match parse_header(bytes.as_slice()) {
            Ok(header) => header,
            Err(e) => {
                return Err(e);
            },
        };
        let count = header.table_count;
        let records = match parse_table_directory(bytes.as_slice(), header.directory_offset, count) {
            Ok(records) => records,
            Err(e) => {
                return Err(e);
            },
        };
        let mut tables: Vec<Table> = Vec::new();
        let mut i: usize = 0;
        assert(records@.len() == table_views(records@).len());
        while i < records.len()
            invariant
                i <= records@.len(),
                records@.len() == count,
                count == declared_table_count(bytes@),
                header_fits(bytes@),
                directory_fits(bytes@, HEADER_LEN as int, count as int),
                table_views(records@) == directory_at(bytes@, HEADER_LEN as int, count as nat),
                tables@.len() == i,
                forall|k: int| 0 <= k < i ==> #[trigger] table_index_fits(bytes@, k),
                forall|k: int| 0 <= k < i ==> (#[trigger] tables@[k])@ == table_at(bytes@, k),
            decreases records@.len() - i,
        {
            let record = &records[i];
            assert(table_views(records@)[i as int] == record_at(bytes@, record_start(i as int)));
            let entries = match parse_entry_index(
                bytes.as_slice(),
                record.entries_offset,
                record.entry_count,
            ) {
                Ok(entries) => entries,
                Err(e) => {
                    assert(!table_index_fits(bytes@, i as int));
                    return Err(e);
                },
            };
            tables.push(
                Table {
                    tag: record.tag,
                    code: record.code,
                    kind: record.kind,
                    entries_offset: record.entries_offset,
                    entry_count: record.entry_count,
                    entries,
                },
            );
            i += 1;
        }
        assert(table_views(tables@) =~= tables_of(bytes@));
        Ok(Archive { buffer: bytes, tables })
    }

    /// The buffer that the archive was loaded from.
    pub fn buffer(&self) -> (bytes: &[u8])
        ensures
            bytes@ == self@.bytes,
    {
        self.buffer.as_slice()
    }

    /// The tables, in the order of the table directory.
    pub fn tables(&self) -> (tables: &[Table])
        ensures
            table_views(tables@) == self@.tables,
    {
        self.tables.as_slice()
    }

    /// The bytes of an entry: exactly the range from its offset over its
    /// size, borrowed from the buffer. Fails with `OutOfBounds` if and only
    /// if that range reaches past the end of the buffer.
    pub fn resolve(&self, entry: &Entry) -> (r: Result<&[u8], LookupError>)
        ensures
            same_outcome(r, resolved(self@.bytes, *entry)),
    {
        let len = self.buffer.len();
        if (entry.offset as u64) + (entry.size as u64) > (len as u64) {
            return Err(LookupError::OutOfBounds);
        }
        let start = entry.offset as usize;
        let end = start + (entry.size as usize);
        Ok(slice_subrange(self.buffer.as_slice(), start, end))
    }

    /// The first table, in directory order, of the given kind.
    pub fn find_table(&self, kind: FileKind) -> (r: Result<&Table, LookupError>)
        ensures
            match r {
                Ok(table) => {
                    let at = first_table(self@.tables, kind, 0);
                    at < self@.tables.len() && table@ == self@.tables[at]
                },
                Err(e) => e == LookupError::NotFound && first_table(self@.tables, kind, 0)
                    == self@.tables.len(),
            },
    {
        let mut i: usize = 0;
        while i < self.tables.len()
            invariant
                i <= self.tables@.len(),
                first_table(self@.tables, kind, 0) == first_table(self@.tables, kind, i as int),
            decreases self.tables@.len() - i,
        {
            if self.tables[i].kind == TableKind::Known(kind) {
                return Ok(&self.tables[i]);
            }
            i += 1;
        }
        Err(LookupError::NotFound)
    }

    /// The bytes of the entry of `table` with the given identifier: the
    /// first such entry in the table's order, resolved against the buffer.
    pub fn find_entry_contents(&self, table: &Table, id: u32) -> (r: Result<&[u8], LookupError>)
        ensures
            same_outcome(r, contents_by_id(self@.bytes, table@.entries, id)),
    {
        let mut j: usize = 0;
        while j < table.entries.len()
            invariant
                j <= table.entries@.len(),
                first_entry(table@.entries, id, 0) == first_entry(table@.entries, id, j as int),
            decreases table.entries@.len() - j,
        {
            if table.entries[j].id == id {
                return self.resolve(&table.entries[j]);
            }
            j += 1;
        }
        Err(LookupError::NotFound)
    }

    /// The bytes of the sub-file of the given kind and identifier.
    pub fn find_contents(&self, kind: FileKind, id: u32) -> (r: Result<&[u8], LookupError>)
        ensures
            same_outcome(r, contents_by_kind(self@, kind, id)),
    {
        match self.find_table(kind) {
            Ok(table) => self.find_entry_contents(table, id),
            Err(e) => Err(e),
        }
    }

    /// The bytes of the entry with the given identifier in the table at
    /// `position`, counted in directory order. Only that table is looked
    /// at: an identifier is unique within its table, not across tables.
    pub fn find_in_table(&self, position: usize, id: u32) -> (r: Result<&[u8], LookupError>)
        ensures
            same_outcome(r, contents_in_table(self@, position as int, id)),
    {
        if position >= self.tables.len() {
            assert(self.tables@.len() == table_views(self.tables@).len());
            return Err(LookupError::NotFound);
        }
        assert(table_views(self.tables@)[position as int] == self.tables@[position as int]@);
        self.find_entry_contents(&self.tables[position], id)
    }

    /// Whether every entry of every table lies within the buffer. Loading
    /// does not ask this of an archive; a caller that wants to rely on it
    /// for all entries at once asks here.
    pub fn entries_in_bounds(&self) -> (all: bool)
        ensures
            all == all_in_bounds(self@),
    {
        let len = self.buffer.len();
        let mut i: usize = 0;
        while i < self.tables.len()
            invariant
                i <= self.tables@.len(),
                len == self.buffer@.len(),
                forall|k: int|
                    0 <= k < i ==> table_in_bounds(self@.bytes, #[trigger] self@.tables[k]),
            decreases self.tables@.len() - i,
        {
            let table = &self.tables[i];
            assert(self@.tables[i as int] == table@);
            let mut j: usize = 0;
            while j < table.entries.len()
                invariant
                    j <= table.entries@.len(),
                    i < self.tables@.len(),
                    len == self.buffer@.len(),
                    self@.tables[i as int] == table@,
                    forall|k: int|
                        0 <= k < j ==> in_bounds(self@.bytes, #[trigger] table@.entries[k]),
                decreases table.entries@.len() - j,
            {
                let entry = &table.entries[j];
                if (entry.offset as u64) + (entry.size as u64) > (len as u64) {
                    assert(!in_bounds(self@.bytes, table@.entries[j as int]));
                    assert(!table_in_bounds(self@.bytes, self@.tables[i as int]));
                    return false;
                }
                j += 1;
            }
            i += 1;
        }
        assert(self.tables@.len() == table_views(self.tables@).len());
        true
    }

    /// The kind and identifier of every entry, in directory order and,
    /// within a table, in the order of its entry index.
    pub fn list_entries(&self) -> (list: Vec<(TableKind, u32)>)
        ensures
            list@ == listing(self@.tables),
    {
        let mut list: Vec<(TableKind, u32)> = Vec::new();
        let mut i: usize = 0;
        assert(self@.tables.take(0) =~= Seq::empty());
        while i < self.tables.len()
            invariant
                i <= self.tables@.len(),
                list@ == listing(self@.tables.take(i as int)),
            decreases self.tables@.len() - i,
        {
            let table = &self.tables[i];
            let ghost done = list@;
            let mut j: usize = 0;
            while j < table.entries.len()
                invariant
                    j <= table.entries@.len(),
                    list@ == done + table_listing(table@).take(j as int),
                decreases table.entries@.len() - j,
            {
                list.push((table.kind, table.entries[j].id));
                j += 1;
                proof {
                    assert(list@ =~= done + table_listing(table@).take(j as int));
                }
            }
            i += 1;
            proof {
                let upto = self@.tables.take(i as int);
                assert(upto.drop_last() =~= self@.tables.take(i - 1));
                assert(upto.last() == table@);
                assert(table_listing(table@).take(j as int) =~= table_listing(table@));
            }
        }
        assert(self@.tables.take(i as int) =~= self@.tables);
        list
    }
}

/// `first_table` gives a position within bounds or the number of tables;
/// no table before it is of the kind, and the table at it, if any, is.
pub proof fn lemma_first_table(tables: Seq<TableView>, kind: FileKind, from: int)
    requires
        0 <= from <= tables.len(),
    ensures
        from <= first_table(tables, kind, from) <= tables.len(),
        forall|k: int|
            from <= k < first_table(tables, kind, from) ==> (#[trigger] tables[k]).kind
                != TableKind::Known(kind),
        first_table(tables, kind, from) < tables.len() ==> tables[first_table(
            tables,
            kind,
            from,
        )].kind == TableKind::Known(kind),
    decreases tables.len() - from,
{
    if from < tables.len() && tables[from].kind != TableKind::Known(kind) {
        lemma_first_table(tables, kind, from + 1);
    }
}

/// `first_entry` gives a position within bounds or the number of entries;
/// no entry before it has the identifier, and the entry at it, if any, has.
pub proof fn lemma_first_entry(entries: Seq<Entry>, id: u32, from: int)
    requires
        0 <= from <= entries.len(),
    ensures
        from <= first_entry(entries, id, from) <= entries.len(),
        forall|k: int|
            from <= k < first_entry(entries, id, from) ==> (#[trigger] entries[k]).id != id,
        first_entry(entries, id, from) < entries.len() ==> entries[first_entry(
            entries,
            id,
            from,
        )].id == id,
    decreases entries.len() - from,
{
    if from < entries.len() && entries[from].id != id {
        lemma_first_entry(entries, id, from + 1);
    }
}

/// An entry whose bytes can be had lies within the buffer: its offset is
/// not negative, its end is not past the buffer's, and the bytes handed out
/// are as many as its size.
pub proof fn lemma_resolved_within_buffer(bytes: Seq<u8>, entry: Entry)
    requires
        resolved(bytes, entry) is Ok,
    ensures
        0 <= entry.offset,
        entry.offset + entry.size <= bytes.len(),
        resolved(bytes, entry)->Ok_0.len() == entry.size,
        forall|k: int|
            0 <= k < entry.size ==> resolved(bytes, entry)->Ok_0[k] == bytes[entry.offset + k],
{
}

/// In an archive whose entries all lie within the buffer, every entry of
/// every table has its offset and its end within the buffer, and its bytes
/// can be had.
pub proof fn lemma_checked_entries_within_buffer(archive: ArchiveView, i: int, j: int)
    requires
        all_in_bounds(archive),
        0 <= i < archive.tables.len(),
        0 <= j < archive.tables[i].entries.len(),
    ensures
        0 <= archive.tables[i].entries[j].offset,
        archive.tables[i].entries[j].offset + archive.tables[i].entries[j].size
            <= archive.bytes.len(),
        resolved(archive.bytes, archive.tables[i].entries[j]) is Ok,
{
    assert(table_in_bounds(archive.bytes, archive.tables[i]));
}

/// A lookup in the first table of a kind is the lookup by that kind.
pub proof fn lemma_first_table_is_addressed(archive: ArchiveView, kind: FileKind, id: u32)
    ensures
        first_table(archive.tables, kind, 0) < archive.tables.len() ==> contents_in_table(
            archive,
            first_table(archive.tables, kind, 0),
            id,
        ) == contents_by_kind(archive, kind, id),
{
    lemma_first_table(archive.tables, kind, 0);
}

/// Loading is a function of the buffer: two archives loaded from the same
/// bytes have the same tables in the same order, the same entries in the
/// same order, and the same outcome for every lookup.
pub proof fn lemma_load_deterministic(bytes: Seq<u8>, a: ArchiveView, b: ArchiveView)
    requires
        loads_as(bytes, a),
        loads_as(bytes, b),
    ensures
        a == b,
        a.tables.len() == b.tables.len(),
        forall|i: int| 0 <= i < a.tables.len() ==> a.tables[i].entries == b.tables[i].entries,
        forall|kind: FileKind, id: u32|
            contents_by_kind(a, kind, id) == contents_by_kind(b, kind, id),
        listing(a.tables) == listing(b.tables),
{
}

/// A table that was loaded holds as many entries as its record declares,
/// and each is the record of the entry index at its position.
pub proof fn lemma_loaded_entries(bytes: Seq<u8>, archive: ArchiveView, i: int, j: int)
    requires
        loads_as(bytes, archive),
        0 <= i < archive.tables.len(),
        0 <= j < archive.tables[i].entries.len(),
    ensures
        archive.tables.len() == declared_table_count(bytes),
        archive.tables[i].entries.len() == archive.tables[i].entry_count,
        archive.tables[i].entries[j] == entry_at(
            bytes,
            archive.tables[i].entries_offset + 12 * j,
        ),
        archive.tables[i].entries_offset + 12 * archive.tables[i].entry_count <= bytes.len(),
{
    assert(table_index_fits(bytes, i));
}

/// A lookup for an identifier that no entry of the table has gives
/// `NotFound`, whatever the entries' offsets and sizes are.
pub proof fn lemma_absent_id_not_found(bytes: Seq<u8>, entries: Seq<Entry>, id: u32)
    requires
        forall|k: int| 0 <= k < entries.len() ==> (#[trigger] entries[k]).id != id,
    ensures
        contents_by_id(bytes, entries, id) == Err::<Seq<u8>, LookupError>(LookupError::NotFound),
{
    lemma_first_entry(entries, id, 0);
}

} // verus!
