//! The decisions of an entry browser: the columns of the listing, how each
//! is ordered, what the extract button offers and what a file dialog
//! returns. The widgets themselves are the caller's.

use vstd::prelude::*;
use vstd::string::StringExecFns;
use crate::archive::Archive;
use crate::archive::contents_in_table;
use crate::archive::same_outcome;
use crate::error::LookupError;
use crate::layout::TableView;
use crate::layout::table_views;
use crate::text::convert_name;
use crate::text::convert_offset;
use crate::text::number_of;
use crate::text::numeral;
use crate::text::offset_of;
use crate::text::push_numeral;

verus! {

/// The columns of the entry listing, left to right.
#[derive(Clone, Copy, Debug, PartialEq, Eq, Structural)]
pub enum Column {
    Name,
    Type,
    Size,
    Offset,
}

/// How the cells of a column are ordered.
#[derive(Clone, Copy, Debug, PartialEq, Eq, Structural)]
pub enum SortKey {
    /// By the decimal number that the cell shows.
    Number,
    /// By the text of the cell.
    Text,
    /// By the size that the cell approximates.
    Size,
    /// By the hexadecimal offset that the cell shows.
    Offset,
}

/// How one cell stands to another.
#[derive(Clone, Copy, Debug, PartialEq, Eq, Structural)]
pub enum Order {
    Less,
    Equal,
    Greater,
}

/// What a file chooser is opened for.
#[derive(Clone, Copy, Debug, PartialEq, Eq, Structural)]
pub enum ChooserAction {
    Open,
    Save,
    SelectFolder,
    CreateFolder,
}

/// How a dialog was closed.
#[derive(Clone, Copy, Debug, PartialEq, Eq, Structural)]
pub enum DialogResponse {
    Accept,
    Cancel,
    Closed,
}

impl Column {
    /// The position of the column, from zero.
    pub open spec fn spec_index(self) -> u32 {
        match self {
            Column::Name => 0,
            Column::Type => 1,
            Column::Size => 2,
            Column::Offset => 3,
        }
    }

    /// The position of the column, from zero.
    pub fn index(self) -> (index: u32)
        ensures
            index == self.spec_index(),
    {
        match self {
            Column::Name => 0,
            Column::Type => 1,
            Column::Size => 2,
            Column::Offset => 3,
        }
    }

    /// The key by which the column is ordered.
    pub open spec fn spec_sort_key(self) -> SortKey {
        match self {
            Column::Name => SortKey::Number,
            Column::Type => SortKey::Text,
            Column::Size => SortKey::Size,
            Column::Offset => SortKey::Offset,
        }
    }

    /// The key by which the column is ordered.
    pub fn sort_key(self) -> (key: SortKey)
        ensures
            key == self.spec_sort_key(),
    {
        match self {
            Column::Name => SortKey::Number,
            Column::Type => SortKey::Text,
            Column::Size => SortKey::Size,
            Column::Offset => SortKey::Offset,
        }
    }
}

impl From<Column> for u32 {
    fn from(column: Column) -> (index: u32) {
        column.index()
    }
}

impl vstd::std_specs::convert::FromSpecImpl<Column> for u32 {
    open spec fn obeys_from_spec() -> bool {
        true
    }

    open spec fn from_spec(column: Column) -> u32 {
        column.spec_index()
    }
}

impl From<Column> for i32 {
    fn from(column: Column) -> (index: i32) {
        match column {
            Column::Name => 0,
            Column::Type => 1,
            Column::Size => 2,
            Column::Offset => 3,
        }
    }
}

impl vstd::std_specs::convert::FromSpecImpl<Column> for i32 {
    open spec fn obeys_from_spec() -> bool {
        true
    }

    open spec fn from_spec(column: Column) -> i32 {
        match column {
            Column::Name => 0,
            Column::Type => 1,
            Column::Size => 2,
            Column::Offset => 3,
        }
    }
}

/// One row of the listing: an entry, named by the position of its table
/// in the directory and by its identifier.
#[derive(Clone, Copy, Debug, PartialEq, Eq, Structural)]
pub struct Row {
    pub table: usize,
    pub id: u32,
}

/// The rows of the table at a position, in the order of its entries.
pub open spec fn table_rows(position: int, table: TableView) -> Seq<Row> {
    Seq::new(table.entries.len(), |j: int| Row { table: position as usize, id: table.entries[j].id })
}

/// The rows of a listing: table after table, and within a table entry
/// after entry.
pub open spec fn rows_of(tables: Seq<TableView>) -> Seq<Row>
    decreases tables.len(),
{
    if tables.len() == 0 {
        Seq::empty()
    } else {
        rows_of(tables.drop_last()) + table_rows(tables.len() - 1, tables.last())
    }
}

/// How one number stands to another.
pub open spec fn number_order(a: int, b: int) -> Order {
    if a < b {
        Order::Less
    } else if a == b {
        Order::Equal
    } else {
        Order::Greater
    }
}

/// How one text stands to another from position `from` on, the texts
/// being equal before it: by the first character in which they differ,
/// and by length if one is the start of the other.
pub open spec fn text_order(a: Seq<char>, b: Seq<char>, from: int) -> Order
    decreases a.len() - from,
{
    if from < 0 || from >= a.len() || from >= b.len() {
        number_order(a.len() as int, b.len() as int)
    } else if a[from] == b[from] {
        text_order(a, b, from + 1)
    } else {
        number_order(a[from] as u32 as int, b[from] as u32 as int)
    }
}

/// How two cells stand under a key. Cells ordered by a number must both
/// spell one. Size cells approximate and are not ordered by their text.
pub open spec fn cell_order(key: SortKey, a: Seq<char>, b: Seq<char>) -> Option<Order> {
    match key {
        SortKey::Number => match (number_of(a, 10), number_of(b, 10)) {
            (Some(x), Some(y)) => Some(number_order(x as int, y as int)),
            _ => None,
        },
        SortKey::Text => Some(text_order(a, b, 0)),
        SortKey::Size => None,
        SortKey::Offset => match (offset_of(a), offset_of(b)) {
            (Some(x), Some(y)) => Some(number_order(x as int, y as int)),
            _ => None,
        },
    }
}

/// What the extract button reads: everything, when no row or every row is
/// selected; the number of selected rows otherwise.
pub open spec fn extract_label(selected_count: u32, store_len: u32) -> Seq<char> {
    if selected_count == 0 || selected_count == store_len {
        "Extract all"@
    } else {
        "Extract ("@ + numeral(selected_count as nat, 10) + ")"@
    }
}

/// The rows that an extraction covers: the selected ones, or every row of
/// the listing when none is selected.
pub open spec fn rows_covered(selected: Seq<usize>, store_len: usize) -> Seq<usize> {
    if selected.len() == 0 {
        Seq::new(store_len as nat, |i: int| i as usize)
    } else {
        selected
    }
}

/// Orders two numbers.
pub fn order_numbers(a: u32, b: u32) -> (order: Order)
    ensures
        order == number_order(a as int, b as int),
{
    if a < b {
        Order::Less
    } else if a == b {
        Order::Equal
    } else {
        Order::Greater
    }
}

/// Orders two texts, character by character.
pub fn order_texts(a: &str, b: &str) -> (order: Order)
    ensures
        order == text_order(a@, b@, 0),
{
    let a_len = a.unicode_len();
    let b_len = b.unicode_len();
    let mut i: usize = 0;
    while i < a_len && i < b_len
        invariant
            a_len == a@.len(),
            b_len == b@.len(),
            i <= a_len,
            i <= b_len,
            text_order(a@, b@, 0) == text_order(a@, b@, i as int),
        decreases a_len - i,
    {
        let x = a.get_char(i);
        let y = b.get_char(i);
        if x != y {
            return order_numbers(x as u32, y as u32);
        }
        i += 1;
    }
    if a_len < b_len {
        Order::Less
    } else if a_len == b_len {
        Order::Equal
    } else {
        Order::Greater
    }
}

/// Orders two cells of a column by the column's key.
pub fn order_cells(key: SortKey, a: &str, b: &str) -> (order: Option<Order>)
    ensures
        order == cell_order(key, a@, b@),
{
    match key {
        SortKey::Number => match (convert_name(a), convert_name(b)) {
            (Some(x), Some(y)) => Some(order_numbers(x, y)),
            _ => None,
        },
        SortKey::Text => Some(order_texts(a, b)),
        SortKey::Size => None,
        SortKey::Offset => match (convert_offset(a), convert_offset(b)) {
            (Some(x), Some(y)) => Some(order_numbers(x, y)),
            _ => None,
        },
    }
}

/// The columns that can be sorted, each with its key: all four, left to
/// right.
pub fn enable_sortable_cols() -> (columns: Vec<(Column, SortKey)>)
    ensures
        columns@.len() == 4,
        columns@[0].0 == Column::Name,
        columns@[1].0 == Column::Type,
        columns@[2].0 == Column::Size,
        columns@[3].0 == Column::Offset,
        forall|i: int| 0 <= i < 4 ==> (#[trigger] columns@[i]).1 == columns@[i].0.spec_sort_key(),
{
    let mut columns: Vec<(Column, SortKey)> = Vec::new();
    columns.push((Column::Name, Column::Name.sort_key()));
    columns.push((Column::Type, Column::Type.sort_key()));
    columns.push((Column::Size, Column::Size.sort_key()));
    columns.push((Column::Offset, Column::Offset.sort_key()));
    columns
}

/// The label of the extract button for a listing of `store_len` rows of
/// which `selected_count` are selected.
pub fn setup_tree(selected_count: u32, store_len: u32) -> (label: String)
    ensures
        label@ == extract_label(selected_count, store_len),
{
    if selected_count == 0 || selected_count == store_len {
        String::from_str("Extract all")
    } else {
        let mut label = String::from_str("Extract (");
        push_numeral(&mut label, selected_count, 10);
        label.append(")");
        label
    }
}

/// The label of the button that accepts a file chooser's choice, for the
/// actions that have one.
pub fn accept_button(action: ChooserAction) -> (label: Option<&'static str>)
    ensures
        match action {
            ChooserAction::Open => label matches Some(text) && text@ == "_Open"@,
            ChooserAction::SelectFolder => label matches Some(text) && text@ == "_Select"@,
            _ => label is None,
        },
{
    match action {
        ChooserAction::Open => Some("_Open"),
        ChooserAction::SelectFolder => Some("_Select"),
        _ => None,
    }
}

/// What a file chooser returns: the chosen path if the dialog was closed
/// by its accepting button, nothing otherwise.
pub fn select_dir_dialog(response: DialogResponse, chosen: Option<String>) -> (path: Option<String>)
    ensures
        path == if response == DialogResponse::Accept {
            chosen
        } else {
            None
        },
{
    if response == DialogResponse::Accept {
        chosen
    } else {
        None
    }
}

/// The rows that an extraction covers: the selected ones, or every row
/// when none is selected.
pub fn rows_to_extract(selected: Vec<usize>, store_len: usize) -> (rows: Vec<usize>)
    ensures
        rows@ == rows_covered(selected@, store_len),
{
    if selected.len() > 0 {
        return selected;
    }
    let mut rows: Vec<usize> = Vec::new();
    let mut i: usize = 0;
    while i < store_len
        invariant
            i <= store_len,
            rows@ == Seq::new(i as nat, |k: int| k as usize),
        decreases store_len - i,
    {
        rows.push(i);
        i += 1;
        proof {
            assert(rows@ =~= Seq::new(i as nat, |k: int| k as usize));
        }
    }
    rows
}

impl Archive {
    /// The rows of the listing, in directory order and, within a table, in
    /// the order of its entry index.
    pub fn rows(&self) -> (rows: Vec<Row>)
        ensures
            rows@ == rows_of(self@.tables),
    {
        let tables = self.tables();
        let mut rows: Vec<Row> = Vec::new();
        let mut i: usize = 0;
        assert(self@.tables.take(0) =~= Seq::empty());
        assert(tables@.len() == self@.tables.len());
        while i < tables.len()
            invariant
                i <= tables@.len(),
                tables@.len() == self@.tables.len(),
                table_views(tables@) == self@.tables,
                rows@ == rows_of(self@.tables.take(i as int)),
            decreases tables@.len() - i,
        {
            let table = &tables[i];
            assert(self@.tables[i as int] == table@);
            let ghost done = rows@;
            let mut j: usize = 0;
            while j < table.entries.len()
                invariant
                    j <= table.entries@.len(),
                    rows@ == done + table_rows(i as int, table@).take(j as int),
                decreases table.entries@.len() - j,
            {
                rows.push(Row { table: i, id: table.entries[j].id });
                j += 1;
                proof {
                    assert(rows@ =~= done + table_rows(i as int, table@).take(j as int));
                }
            }
            i += 1;
            proof {
                let upto = self@.tables.take(i as int);
                assert(upto.drop_last() =~= self@.tables.take(i - 1));
                assert(upto.last() == table@);
                assert(table_rows(i - 1, table@).take(j as int) =~= table_rows(i - 1, table@));
            }
        }
        assert(self@.tables.take(i as int) =~= self@.tables);
        rows
    }

    /// The bytes of a row's entry: one lookup by the row's identifier, in
    /// the row's own table and no other.
    pub fn extract_row(&self, row: Row) -> (r: Result<&[u8], LookupError>)
        ensures
            same_outcome(r, contents_in_table(self@, row.table as int, row.id)),
    {
        self.find_in_table(row.table, row.id)
    }
}

} // verus!
