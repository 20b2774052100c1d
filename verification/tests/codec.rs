use t2sdk::f2_packer::Packer;
use t2sdk::f2_record::CodecError;
use t2sdk::f2_unpacker::UnPacker;

fn two_columns() -> Packer {
    let mut p = Packer::new(0x20).unwrap();
    p.begin_pack();
    assert!(p.add_field("id", b'I', 4, 0) > 0);
    assert!(p.add_field("name", b'S', 32, 0) > 0);
    p
}

#[test]
fn pack_one_row_and_read_it_back() {
    let mut p = two_columns();
    assert!(p.add_int(7) > 0);
    assert!(p.add_str("alpha") > 0);
    p.end_pack();
    let buf = p.get_pack_buf();
    assert_eq!(buf.len() as i32, p.get_pack_len());

    let mut u = UnPacker::new(&buf, 0x20).unwrap();
    assert_eq!(u.get_dataset_count(), 1);
    assert_eq!(u.set_current_dataset_by_index(0), 0);
    u.first();
    assert_eq!(u.is_eof(), 0);
    assert_eq!(u.get_int("id"), Ok(7));
    assert_eq!(u.get_str("name"), Ok("alpha".to_string()));
    u.next();
    assert_eq!(u.is_eof(), 1);
}

#[test]
fn exact_bytes_of_a_small_record() {
    let mut p = Packer::new(0x20).unwrap();
    p.begin_pack();
    assert_eq!(p.add_field("a", b'C', 1, 0), 15);
    assert_eq!(p.add_char(b'x'), 17);
    p.end_pack();
    assert_eq!(p.get_pack_len(), 22);
    let expected: Vec<u8> = vec![
        0x20, 17, 0, 0, 0, // header: version, body length
        70, 1, 0, 0, 0, b'a', 67, 1, 0, 0, 0, 0, 0, 0, 0, // field a: C, width 1, scale 0
        67, b'x', // value
    ];
    assert_eq!(p.get_pack_buf(), expected);
}

#[test]
fn string_longer_than_width_is_cut_at_width() {
    let mut p = Packer::new(0x20).unwrap();
    p.begin_pack();
    p.add_field("s", b'S', 3, 0);
    p.add_field("r", b'R', 2, 0);
    assert!(p.add_str("abcdef") > 0);
    assert!(p.add_raw(&[1, 2, 3, 4]) > 0);
    assert!(p.add_str("abc") > 0);
    assert!(p.add_raw(&[9, 8]) > 0);
    p.end_pack();
    let mut u = p.unpack().unwrap();
    assert_eq!(u.get_row_count(), 2);
    assert_eq!(u.get_str_by_index(0), Ok("abc".to_string()));
    assert_eq!(u.get_raw_by_index(1), Ok(vec![1, 2]));
    u.next();
    assert_eq!(u.get_str("s"), Ok("abc".to_string()));
    assert_eq!(u.get_raw("r"), Ok(vec![9, 8]));
}

#[test]
fn every_field_type_round_trips() {
    let mut p = Packer::new(0x20).unwrap();
    p.begin_pack();
    p.new_dataset("all", 3);
    p.add_field("i", b'I', 4, 0);
    p.add_field("d", b'D', 8, 4);
    p.add_field("c", b'C', 1, 0);
    p.add_field("s", b'S', 0, 0);
    p.add_field("r", b'R', 255, 0);
    let pi = 3.25f64;
    for i in [i32::MIN, -1, 0, 1, i32::MAX] {
        assert!(p.add_int(i) > 0);
        assert!(p.add_double(pi.to_bits()) > 0);
        assert!(p.add_char(b'z') > 0);
        assert!(p.add_str("dropped") > 0);
        assert!(p.add_raw(&[0u8; 255]) > 0);
    }
    p.end_pack();
    let mut u = UnPacker::new(&p.get_pack_buf(), 0x20).unwrap();
    assert_eq!(u.get_dataset_name(), "all");
    assert_eq!(u.get_col_count(), 5);
    assert_eq!(u.get_row_count(), 5);
    assert_eq!(u.get_col_type(1), Ok(b'D'));
    assert_eq!(u.get_col_scale_by_name("d"), Ok(4));
    assert_eq!(u.get_col_width(4), Ok(255));
    assert_eq!(u.get_col_name(3), Ok("s".to_string()));
    for i in [i32::MIN, -1, 0, 1, i32::MAX] {
        assert_eq!(u.get_int_by_index(0), Ok(i));
        assert_eq!(u.was_null(), if i == i32::MIN { 1 } else { 0 });
        assert_eq!(u.get_double("d").map(f64::from_bits), Ok(3.25));
        assert_eq!(u.get_char("c"), Ok(b'z'));
        assert_eq!(u.get_str("s"), Ok(String::new()));
        assert_eq!(u.was_null(), 1);
        assert_eq!(u.get_raw("r"), Ok(vec![0u8; 255]));
        u.next();
    }
    assert_eq!(u.is_eof(), 1);
}

#[test]
fn cursor_boundaries() {
    let mut p = two_columns();
    for i in 0..3 {
        p.add_int(i);
        p.add_str("x");
    }
    p.end_pack();
    let mut u = p.unpack().unwrap();
    assert_eq!(u.get_row_count(), 3);
    u.go(-1);
    assert_eq!(u.is_eof(), 1);
    u.go(1);
    assert_eq!(u.is_eof(), 0);
    assert_eq!(u.get_int("id"), Ok(1));
    u.go(3);
    assert_eq!(u.is_eof(), 1);
    assert_eq!(u.get_int("id"), Err(CodecError::EndOfData));
    u.last();
    assert_eq!(u.get_int("id"), Ok(2));
    u.first();
    assert_eq!(u.get_int("id"), Ok(0));
    let c = u.cursor();
    assert_eq!((c.dataset, c.row, c.eof), (0, 0, false));
}

#[test]
fn empty_dataset_is_empty_and_at_its_end() {
    let mut p = two_columns();
    p.end_pack();
    let mut u = p.unpack().unwrap();
    assert_eq!(u.is_empty(), 1);
    assert_eq!(u.get_row_count(), 0);
    assert_eq!(u.is_eof(), 1);
    u.first();
    assert_eq!(u.is_eof(), 1);
    u.last();
    assert_eq!(u.is_eof(), 1);
}

#[test]
fn packer_refusals() {
    assert!(matches!(Packer::new(7), Err(CodecError::BadVersion)));
    let mut p = Packer::new(0x20).unwrap();
    assert_eq!(p.add_int(1), CodecError::OrderViolation.code());
    assert_eq!(p.add_field("x", b'Q', 4, 0), CodecError::UnknownFieldType.code());
    assert_eq!(p.add_field("x", b'I', -1, 0), CodecError::InvalidField.code());
    assert_eq!(p.add_field("x", b'D', 8, -2), CodecError::InvalidField.code());
    assert!(p.add_field("x", b'I', 4, 0) > 0);
    assert_eq!(p.add_str("no"), CodecError::TypeMismatch.code());
    let len = p.get_pack_len();
    assert!(p.add_int(5) > len);
    assert_eq!(p.add_field("late", b'I', 4, 0), CodecError::OrderViolation.code());
    assert_eq!(p.get_pack_len(), len + 5);
    assert!(matches!(p.unpack(), Err(CodecError::OrderViolation)));
    p.end_pack();
    assert_eq!(p.add_int(6), CodecError::OrderViolation.code());
    assert_eq!(p.clear_value(), CodecError::OrderViolation.code());
    assert_eq!(p.get_pack_len(), len + 5 + 5);

    let mut legacy = Packer::new(1).unwrap();
    assert_eq!(legacy.new_dataset("named", 0), CodecError::Unsupported.code());
    assert_eq!(legacy.begin_pack_ex("named"), CodecError::Unsupported.code());
}

#[test]
fn reader_refusals() {
    assert!(matches!(UnPacker::new(&[], 0x20), Err(CodecError::Truncated)));
    assert!(matches!(UnPacker::new(&[0x20, 1, 0], 0x20), Err(CodecError::Truncated)));
    assert!(matches!(UnPacker::new(&[9, 0, 0, 0, 0], 0x20), Err(CodecError::BadVersion)));
    assert!(matches!(UnPacker::new(&[1, 0, 0, 0, 0], 0x20), Err(CodecError::BadVersion)));
    assert!(matches!(UnPacker::new(&[0x20, 2, 0, 0, 0, 67], 0x20), Err(CodecError::Truncated)));
    assert!(matches!(UnPacker::new(&[0x20, 0, 0, 0, 0, 67], 0x20), Err(CodecError::Malformed)));
    assert!(matches!(UnPacker::new(&[0x20, 1, 0, 0, 0, 99], 0x20), Err(CodecError::Malformed)));
    assert!(matches!(UnPacker::new(&[0x20, 1, 0, 0, 0, 73], 0x20), Err(CodecError::Truncated)));
    // a value without a field
    assert!(matches!(
        UnPacker::new(&[0x20, 2, 0, 0, 0, 67, 1], 0x20),
        Err(CodecError::OrderViolation)
    ));
    // a string of two bytes for a field of width one
    let wide = [
        0x20, 21, 0, 0, 0, 70, 0, 0, 0, 0, b'S', 1, 0, 0, 0, 0, 0, 0, 0, 83, 2, 0, 0, 0, b'a',
        b'b',
    ];
    assert!(matches!(UnPacker::new(&wide, 0x20), Err(CodecError::ValueTooWide)));
    // a dataset in the legacy layout
    let named = [1, 9, 0, 0, 0, 78, 0, 0, 0, 0, 0, 0, 0, 0];
    assert!(matches!(UnPacker::new(&named, 1), Err(CodecError::Unsupported)));
    // a field of negative width
    let negative = [0x20, 14, 0, 0, 0, 70, 0, 0, 0, 0, b'I', 0xff, 0xff, 0xff, 0xff, 0, 0, 0, 0];
    assert!(matches!(UnPacker::new(&negative, 0x20), Err(CodecError::InvalidField)));
    // a value of another type than its field
    let other = [0x20, 16, 0, 0, 0, 70, 0, 0, 0, 0, b'I', 4, 0, 0, 0, 0, 0, 0, 0, 67, b'x'];
    assert!(matches!(UnPacker::new(&other, 0x20), Err(CodecError::TypeMismatch)));
    // a field of unknown type
    let bad = [0x20, 14, 0, 0, 0, 70, 0, 0, 0, 0, b'Q', 0, 0, 0, 0, 0, 0, 0, 0];
    assert!(matches!(UnPacker::new(&bad, 0x20), Err(CodecError::UnknownFieldType)));

    let mut p = two_columns();
    p.add_int(1);
    p.add_str("a");
    p.end_pack();
    let mut u = p.unpack().unwrap();
    assert_eq!(u.get_int("missing"), Err(CodecError::ColumnNotFound));
    assert_eq!(u.get_int_by_index(2), Err(CodecError::ColumnNotFound));
    assert_eq!(u.get_str("id"), Err(CodecError::TypeMismatch));
    assert_eq!(u.find_col_index("missing"), CodecError::ColumnNotFound.code());
    assert_eq!(u.find_col_index("name"), 1);
    assert_eq!(u.set_current_dataset("nowhere"), CodecError::DatasetNotFound.code());
    assert_eq!(u.set_current_dataset_by_index(1), CodecError::DatasetNotFound.code());
    assert_eq!(u.open(&[0x20]), CodecError::Truncated.code());
    assert_eq!(u.get_int("id"), Ok(1));
}

#[test]
fn several_datasets_by_name_and_index() {
    let mut p = Packer::new(0x20).unwrap();
    assert_eq!(p.begin_pack_ex("head"), 13);
    p.set_return_code(-5);
    p.add_field("k", b'I', 4, 0);
    p.add_int(1);
    p.new_dataset("tail", 9);
    p.add_field("v", b'C', 1, 0);
    p.add_char(b'a');
    p.add_char(b'b');
    p.end_pack();
    let mut u = p.unpack().unwrap();
    assert_eq!(u.get_dataset_count(), 2);
    assert_eq!(u.get_dataset_name(), "head");
    assert_eq!(u.get_row_count(), 1);
    assert_eq!(u.set_current_dataset("tail"), 0);
    assert_eq!(u.get_row_count(), 2);
    assert_eq!(u.get_char("v"), Ok(b'a'));
    assert_eq!(u.set_current_dataset_by_index(0), 0);
    assert_eq!(u.get_int("k"), Ok(1));
    u.destroy();
    assert_eq!(u.get_dataset_count(), 0);
    assert_eq!(u.is_empty(), 1);
}

#[test]
fn clearing_keeps_the_other_datasets() {
    let mut p = Packer::new(0x20).unwrap();
    p.begin_pack();
    p.new_dataset("keep", 0);
    p.add_field("k", b'I', 4, 0);
    p.add_int(11);
    let before = p.get_pack_len();
    p.new_dataset("redo", 4);
    p.add_field("v", b'I', 4, 0);
    p.add_int(1);
    assert_eq!(p.clear_data_set(), before + 13);
    assert!(p.add_field("w", b'C', 1, 0) > 0);
    p.add_char(b'q');
    p.end_pack();
    let mut u = p.unpack().unwrap();
    assert_eq!(u.get_int("k"), Ok(11));
    assert_eq!(u.set_current_dataset("redo"), 0);
    assert_eq!(u.get_col_count(), 1);
    assert_eq!(u.get_char("w"), Ok(b'q'));

    let mut q = two_columns();
    q.add_int(1);
    assert_eq!(q.clear_value(), 0);
    assert_eq!(q.get_pack_len(), 0);
    assert!(q.add_field("again", b'I', 4, 0) > 0);
}

#[test]
fn legacy_buffer_is_continued() {
    let mut p = Packer::new(1).unwrap();
    p.begin_pack();
    p.add_field("n", b'I', 4, 0);
    p.add_int(1);
    p.end_pack();
    let first = p.get_pack_buf();
    assert_eq!(first[0], 1);

    let mut q = Packer::new(1).unwrap();
    assert_eq!(q.set_buffer(&first, Some(first.len() as i32)), first.len() as i32 - 5);
    assert!(q.add_int(2) > 0);
    q.end_pack();
    assert_eq!(q.get_pack_buf_size(), q.get_pack_len());
    let mut u = UnPacker::new(&q.get_pack_buf(), 1).unwrap();
    assert_eq!(u.get_version(), 1);
    assert_eq!(u.get_row_count(), 2);
    u.last();
    assert_eq!(u.get_int("n"), Ok(2));

    let mut v2 = Packer::new(0x20).unwrap();
    assert_eq!(v2.set_buffer(&first, Some(5)), CodecError::Unsupported.code());
    assert_eq!(v2.set_buffer(&[0u8; 64], None), 0);
    assert_eq!(v2.get_pack_buf_size(), 64);
    assert_eq!(q.set_buffer(&first, Some(100)), CodecError::Truncated.code());
    q.free_mem();
    assert_eq!(q.get_pack_len(), 0);
    assert_eq!(q.get_version(), 1);
}
