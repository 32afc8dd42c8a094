use drs_studio::archive::Archive;
use drs_studio::browse::{
    accept_button, enable_sortable_cols, order_cells, order_numbers, order_texts, rows_to_extract,
    select_dir_dialog, setup_tree, ChooserAction, Column, DialogResponse, Order, Row, SortKey,
};
use drs_studio::error::LookupError;
use drs_studio::kind::FileKind;
use drs_studio::request::{parse_request, Request};
use drs_studio::text::{
    convert_name, convert_offset, decimal_text, digit_text, entry_name, extension_text,
    offset_text, parse_number, push_numeral, read_digit,
};

#[test]
fn numbers_are_written_in_decimal() {
    assert_eq!(decimal_text(0), "0");
    assert_eq!(decimal_text(7), "7");
    assert_eq!(decimal_text(10), "10");
    assert_eq!(decimal_text(50500), "50500");
    assert_eq!(decimal_text(u32::MAX), "4294967295");
}

#[test]
fn offsets_are_written_in_upper_case_hexadecimal() {
    assert_eq!(offset_text(0), "0x0");
    assert_eq!(offset_text(9), "0x9");
    assert_eq!(offset_text(10), "0xA");
    assert_eq!(offset_text(255), "0xFF");
    assert_eq!(offset_text(0x1f40), "0x1F40");
    assert_eq!(offset_text(u32::MAX), "0xFFFFFFFF");
    for offset in [0u32, 1, 15, 16, 4096, 0xdead_beef] {
        assert_eq!(offset_text(offset), format!("{:#X}", offset));
    }
}

#[test]
fn numerals_are_appended_in_any_base() {
    let mut text = String::from("n=");
    push_numeral(&mut text, 5, 2);
    assert_eq!(text, "n=101");
    push_numeral(&mut text, 0, 16);
    assert_eq!(text, "n=1010");
    push_numeral(&mut text, 255, 16);
    assert_eq!(text, "n=1010FF");
    assert_eq!(digit_text(0), "0");
    assert_eq!(digit_text(9), "9");
    assert_eq!(digit_text(10), "A");
    assert_eq!(digit_text(15), "F");
}

#[test]
fn entries_are_named_by_id_and_extension() {
    assert_eq!(entry_name(50500, FileKind::Binary), "50500.bin");
    assert_eq!(entry_name(412, FileKind::Sprite), "412.slp");
    assert_eq!(entry_name(0, FileKind::Shape), "0.shp");
    assert_eq!(entry_name(u32::MAX, FileKind::Audio), "4294967295.wav");
    assert_eq!(extension_text(FileKind::Audio), "wav");
}

#[test]
fn a_listed_name_is_a_request_for_its_entry() {
    for kind in [FileKind::Sprite, FileKind::Shape, FileKind::Binary, FileKind::Audio] {
        for id in [0u32, 9, 10, 123, 99999, u32::MAX] {
            assert_eq!(parse_request(&entry_name(id, kind)), Ok(Request { id, kind }));
        }
    }
}

#[test]
fn name_cells_are_read_back() {
    assert_eq!(convert_name("412"), Some(412));
    assert_eq!(convert_name("00412"), Some(412));
    assert_eq!(convert_name("+412"), Some(412));
    assert_eq!(convert_name("4294967295"), Some(u32::MAX));
    assert_eq!(convert_name("4294967296"), None);
    assert_eq!(convert_name(""), None);
    assert_eq!(convert_name("+"), None);
    assert_eq!(convert_name("12a"), None);
    assert_eq!(convert_name("1f"), None);
    assert_eq!(convert_name("-3"), None);
    for n in [0u32, 5, 10, 99, 100, 65535, u32::MAX] {
        assert_eq!(convert_name(&decimal_text(n)), Some(n));
    }
}

#[test]
fn offset_cells_are_read_back() {
    assert_eq!(convert_offset("0x1F40"), Some(0x1f40));
    assert_eq!(convert_offset("0xff"), Some(255));
    assert_eq!(convert_offset("0XfF"), Some(255));
    assert_eq!(convert_offset("zz10"), Some(16));
    // Two bytes are passed over, whatever characters they make.
    assert_eq!(convert_offset("\u{00e9}1F"), Some(0x1f));
    assert_eq!(convert_offset("\u{00e9}"), None);
    assert_eq!(convert_offset("a\u{00e9}1"), None);
    assert_eq!(convert_offset("\u{20ac}1F"), None);
    assert_eq!(convert_offset("\u{1f600}1"), None);
    assert_eq!(convert_offset("a"), None);
    assert_eq!(convert_offset("0x+A"), Some(10));
    assert_eq!(convert_offset("0xFFFFFFFF"), Some(u32::MAX));
    assert_eq!(convert_offset("0x100000000"), None);
    assert_eq!(convert_offset("0x"), None);
    assert_eq!(convert_offset("0"), None);
    assert_eq!(convert_offset(""), None);
    assert_eq!(convert_offset("0xG"), None);
    assert_eq!(convert_offset("0x1 "), None);
    for offset in [0u32, 9, 10, 255, 256, 0xabcdef, u32::MAX] {
        assert_eq!(convert_offset(&offset_text(offset)), Some(offset));
    }
}

#[test]
fn digits_are_read_in_their_base() {
    assert_eq!(read_digit('0', 10), Some(0));
    assert_eq!(read_digit('9', 10), Some(9));
    assert_eq!(read_digit('a', 10), None);
    assert_eq!(read_digit('a', 16), Some(10));
    assert_eq!(read_digit('F', 16), Some(15));
    assert_eq!(read_digit('g', 16), None);
    assert_eq!(read_digit('z', 36), Some(35));
    assert_eq!(read_digit('Z', 36), Some(35));
    assert_eq!(read_digit('2', 2), None);
    assert_eq!(read_digit('/', 10), None);
    assert_eq!(read_digit(':', 10), None);
    assert_eq!(read_digit('@', 36), None);
    assert_eq!(read_digit('[', 36), None);
    assert_eq!(read_digit('\u{0661}', 10), None);
    assert_eq!(parse_number("101", 0, 3, 2), Some(5));
    assert_eq!(parse_number("zz", 0, 2, 36), Some(35 * 36 + 35));
}

#[test]
fn columns_have_their_positions() {
    assert_eq!(Column::Name.index(), 0);
    assert_eq!(Column::Type.index(), 1);
    assert_eq!(Column::Size.index(), 2);
    assert_eq!(Column::Offset.index(), 3);
    assert_eq!(u32::from(Column::Size), 2);
    let as_u32: u32 = Column::Offset.into();
    let as_i32: i32 = Column::Offset.into();
    assert_eq!(as_u32, 3);
    assert_eq!(as_i32, 3);
    assert_eq!(i32::from(Column::Name), 0);
    assert_eq!(i32::from(Column::Type), 1);
    assert_eq!(i32::from(Column::Size), 2);
}

#[test]
fn every_column_is_sortable_by_its_key() {
    assert_eq!(
        enable_sortable_cols(),
        vec![
            (Column::Name, SortKey::Number),
            (Column::Type, SortKey::Text),
            (Column::Size, SortKey::Size),
            (Column::Offset, SortKey::Offset),
        ]
    );
    assert_eq!(Column::Offset.sort_key(), SortKey::Offset);
}

#[test]
fn cells_are_ordered_by_their_key() {
    assert_eq!(order_cells(SortKey::Number, "10", "9"), Some(Order::Greater));
    assert_eq!(order_cells(SortKey::Text, "10", "9"), Some(Order::Less));
    assert_eq!(order_cells(SortKey::Number, "007", "7"), Some(Order::Equal));
    assert_eq!(order_cells(SortKey::Number, "3", "50500"), Some(Order::Less));
    assert_eq!(order_cells(SortKey::Number, "3", "x"), None);
    assert_eq!(order_cells(SortKey::Number, "", "1"), None);
    assert_eq!(order_cells(SortKey::Text, "bin", "slp"), Some(Order::Less));
    assert_eq!(order_cells(SortKey::Text, "wav", "wav"), Some(Order::Equal));
    assert_eq!(order_cells(SortKey::Offset, "0xA", "0x9"), Some(Order::Greater));
    assert_eq!(order_cells(SortKey::Offset, "0x10", "0xF"), Some(Order::Greater));
    assert_eq!(order_cells(SortKey::Offset, "0x10", "0x10"), Some(Order::Equal));
    assert_eq!(order_cells(SortKey::Offset, "0x10", "10"), None);
    assert_eq!(order_cells(SortKey::Offset, "0x10", "zzF"), Some(Order::Greater));
    assert_eq!(order_cells(SortKey::Offset, "0x", "0x1"), None);
    assert_eq!(order_cells(SortKey::Size, "1 B", "2 B"), None);
}

#[test]
fn texts_are_ordered_character_by_character() {
    assert_eq!(order_texts("", ""), Order::Equal);
    assert_eq!(order_texts("", "a"), Order::Less);
    assert_eq!(order_texts("a", ""), Order::Greater);
    assert_eq!(order_texts("a", "ab"), Order::Less);
    assert_eq!(order_texts("ab", "b"), Order::Less);
    assert_eq!(order_texts("B", "a"), Order::Less);
    assert_eq!(order_texts("\u{00e9}", "z"), Order::Greater);
    assert_eq!(order_texts("x\u{00e9}", "x\u{00e9}"), Order::Equal);
    assert_eq!(order_numbers(1, 2), Order::Less);
    assert_eq!(order_numbers(2, 2), Order::Equal);
    assert_eq!(order_numbers(u32::MAX, 0), Order::Greater);
    for (a, b) in [("slp", "shp"), ("a", "B"), ("10", "9"), ("", "x"), ("same", "same")] {
        let expected = match a.cmp(b) {
            std::cmp::Ordering::Less => Order::Less,
            std::cmp::Ordering::Equal => Order::Equal,
            std::cmp::Ordering::Greater => Order::Greater,
        };
        assert_eq!(order_texts(a, b), expected);
    }
}

#[test]
fn extract_button_tells_what_it_will_extract() {
    assert_eq!(setup_tree(0, 10), "Extract all");
    assert_eq!(setup_tree(10, 10), "Extract all");
    assert_eq!(setup_tree(0, 0), "Extract all");
    assert_eq!(setup_tree(3, 10), "Extract (3)");
    assert_eq!(setup_tree(1, 2), "Extract (1)");
    assert_eq!(setup_tree(1234, 50000), "Extract (1234)");
    assert_eq!(setup_tree(11, 10), "Extract (11)");
}

#[test]
fn chooser_has_an_accept_button_for_open_and_select() {
    assert_eq!(accept_button(ChooserAction::Open), Some("_Open"));
    assert_eq!(accept_button(ChooserAction::SelectFolder), Some("_Select"));
    assert_eq!(accept_button(ChooserAction::Save), None);
    assert_eq!(accept_button(ChooserAction::CreateFolder), None);
}

#[test]
fn dialog_gives_a_path_only_when_accepted() {
    let chosen = Some(String::from("/tmp/out"));
    assert_eq!(select_dir_dialog(DialogResponse::Accept, chosen.clone()), chosen);
    assert_eq!(select_dir_dialog(DialogResponse::Cancel, chosen.clone()), None);
    assert_eq!(select_dir_dialog(DialogResponse::Closed, chosen), None);
    assert_eq!(select_dir_dialog(DialogResponse::Accept, None), None);
}

#[test]
fn empty_selection_covers_every_row() {
    assert_eq!(rows_to_extract(vec![], 3), vec![0, 1, 2]);
    assert_eq!(rows_to_extract(vec![], 0), Vec::<usize>::new());
    assert_eq!(rows_to_extract(vec![2], 3), vec![2]);
    assert_eq!(rows_to_extract(vec![2, 0], 3), vec![2, 0]);
}

/// A `bin` table and an `slp` table that both hold the identifier 42.
fn archive_with_42_twice() -> Vec<u8> {
    let mut bytes = vec![0u8; 56];
    bytes.extend_from_slice(&2u32.to_le_bytes());
    bytes.extend_from_slice(&0u32.to_le_bytes());
    for (tag, extension, offset, count) in [(b'a', b"nib", 88u32, 1u32), (b' ', b"pls", 100, 2)] {
        bytes.push(tag);
        bytes.extend_from_slice(extension);
        bytes.extend_from_slice(&offset.to_le_bytes());
        bytes.extend_from_slice(&count.to_le_bytes());
    }
    assert_eq!(bytes.len(), 88);
    for (id, offset, size) in [(42u32, 124u32, 1u32), (42, 125, 1), (43, 125, 2)] {
        bytes.extend_from_slice(&id.to_le_bytes());
        bytes.extend_from_slice(&offset.to_le_bytes());
        bytes.extend_from_slice(&size.to_le_bytes());
    }
    bytes.extend_from_slice(&[0xaa, 0xbb]);
    bytes
}

#[test]
fn rows_carry_their_table() {
    let archive = Archive::load(archive_with_42_twice()).unwrap();
    assert_eq!(
        archive.rows(),
        vec![Row { table: 0, id: 42 }, Row { table: 1, id: 42 }, Row { table: 1, id: 43 }]
    );
    assert_eq!(archive.rows().len(), archive.list_entries().len());
}

#[test]
fn a_row_is_extracted_from_its_own_table_only() {
    let archive = Archive::load(archive_with_42_twice()).unwrap();
    let rows = archive.rows();
    // Only the `bin` row is selected: its bytes come out, not the `slp` entry's.
    let covered = rows_to_extract(vec![0], rows.len());
    assert_eq!(covered, vec![0]);
    assert_eq!(archive.extract_row(rows[covered[0]]).unwrap(), &[0xaa]);
    assert_eq!(archive.extract_row(rows[1]).unwrap(), &[0xbb]);
    assert_eq!(archive.find_in_table(0, 42).unwrap(), &[0xaa]);
    assert_eq!(archive.find_in_table(1, 42).unwrap(), &[0xbb]);
    assert_eq!(archive.find_in_table(0, 43).unwrap_err(), LookupError::NotFound);
    assert_eq!(archive.find_in_table(2, 42).unwrap_err(), LookupError::NotFound);
    assert_eq!(archive.find_in_table(usize::MAX, 42).unwrap_err(), LookupError::NotFound);
    assert_eq!(archive.find_contents(FileKind::Binary, 42).unwrap(), &[0xaa]);
    assert_eq!(archive.find_contents(FileKind::Sprite, 42).unwrap(), &[0xbb]);
}

#[test]
fn a_row_past_the_buffer_is_reported() {
    let archive = Archive::load(archive_with_42_twice()).unwrap();
    assert_eq!(
        archive.extract_row(Row { table: 1, id: 43 }).unwrap_err(),
        LookupError::OutOfBounds
    );
    assert_eq!(archive.find_in_table(1, 43).unwrap_err(), LookupError::OutOfBounds);
}

#[test]
fn bounds_of_all_entries_can_be_asked() {
    let archive = Archive::load(archive_with_42_twice()).unwrap();
    assert!(!archive.entries_in_bounds());

    let mut bytes = archive_with_42_twice();
    bytes.push(0xcc);
    let archive = Archive::load(bytes).unwrap();
    assert!(archive.entries_in_bounds());
    assert_eq!(archive.extract_row(Row { table: 1, id: 43 }).unwrap(), &[0xbb, 0xcc]);

    let mut empty = vec![0u8; 64];
    empty[56] = 0;
    assert!(Archive::load(empty).unwrap().entries_in_bounds());

    // One entry with offset 200 and size 4 in a buffer of 88 bytes.
    let mut bytes = vec![0u8; 56];
    bytes.extend_from_slice(&1u32.to_le_bytes());
    bytes.extend_from_slice(&0u32.to_le_bytes());
    bytes.extend_from_slice(&[b'a', b'n', b'i', b'b']);
    bytes.extend_from_slice(&76u32.to_le_bytes());
    bytes.extend_from_slice(&1u32.to_le_bytes());
    bytes.extend_from_slice(&1u32.to_le_bytes());
    bytes.extend_from_slice(&200u32.to_le_bytes());
    bytes.extend_from_slice(&4u32.to_le_bytes());
    assert_eq!(bytes.len(), 88);
    let archive = Archive::load(bytes).unwrap();
    assert!(!archive.entries_in_bounds());
    assert_eq!(archive.find_contents(FileKind::Binary, 1).unwrap_err(), LookupError::OutOfBounds);
}
