use smbios::info::{BiosInfo, SystemInfo};
use smbios::table::{read_header, tables, DecodeError, Header, Table};

fn strs(t: &Table) -> Vec<&str> {
    t.strings.iter().map(|s| s.as_str()).collect()
}

#[test]
fn end_marker_alone_gives_no_tables() {
    let t = tables(&[127, 4, 0, 0]).unwrap();
    assert!(t.is_empty());
}

#[test]
fn empty_buffer_gives_no_tables() {
    assert!(tables(&[]).unwrap().is_empty());
}

#[test]
fn header_only_record_with_double_nul() {
    let t = tables(&[1, 4, 0, 0, 0, 0]).unwrap();
    assert_eq!(t.len(), 1);
    assert_eq!(t[0].header, Header { kind: 1, len: 4, handle: 0 });
    assert!(t[0].data.is_empty());
    assert!(t[0].strings.is_empty());
}

#[test]
fn one_string_record() {
    let t = tables(&[1, 4, 0, 0, b'F', b'o', b'o', 0, 0]).unwrap();
    assert_eq!(t.len(), 1);
    assert_eq!(strs(&t[0]), vec!["Foo"]);
    assert_eq!(t[0].get_str(1), Some(&"Foo".to_string()));
    assert_eq!(t[0].get_str(0), None);
    assert_eq!(t[0].get_str(2), None);
}

fn two_records() -> Vec<u8> {
    vec![
        0, 6, 0x34, 0x12, 0xaa, 0xbb, b'A', 0, b'B', b'c', 0, 0, // first record
        1, 5, 0x01, 0x00, 0xcc, 0, 0, // second record, no strings
        127, 4, 0xff, 0xff, // end of table
        9, 9, 9, // ignored
    ]
}

#[test]
fn two_records_then_end_marker() {
    let t = tables(&two_records()).unwrap();
    assert_eq!(t.len(), 2);
    assert_eq!(t[0].header, Header { kind: 0, len: 6, handle: 0x1234 });
    assert_eq!(t[0].data, vec![0xaa, 0xbb]);
    assert_eq!(strs(&t[0]), vec!["A", "Bc"]);
    assert_eq!(t[0].get_str(2), Some(&"Bc".to_string()));
    assert_eq!(t[1].header, Header { kind: 1, len: 5, handle: 1 });
    assert_eq!(t[1].data, vec![0xcc]);
    assert!(t[1].strings.is_empty());
}

#[test]
fn decoding_twice_gives_the_same_tables() {
    let buf = two_records();
    let copy = buf.clone();
    let a = tables(&buf).unwrap();
    let b = tables(&buf).unwrap();
    assert_eq!(a, b);
    assert_eq!(buf, copy);
}

#[test]
fn header_length_below_four_is_an_error() {
    assert_eq!(tables(&[1, 3, 0, 0, 0, 0]), Err(DecodeError::BadLength { offset: 0, len: 3 }));
    let mut buf = vec![1, 4, 0, 0, 0, 0];
    buf.extend_from_slice(&[2, 0, 0, 0, 0, 0]);
    assert_eq!(tables(&buf), Err(DecodeError::BadLength { offset: 6, len: 0 }));
}

#[test]
fn truncated_data_is_zero_filled() {
    let t = tables(&[3, 8, 0, 0, 0x11, 0x22]).unwrap();
    assert_eq!(t.len(), 1);
    assert_eq!(t[0].data, vec![0x11, 0x22, 0, 0]);
    assert!(t[0].strings.is_empty());
}

#[test]
fn truncated_string_is_kept() {
    let t = tables(&[3, 4, 0, 0, b'a', 0, b'x', b'y']).unwrap();
    assert_eq!(strs(&t[0]), vec!["a", "xy"]);
}

#[test]
fn leading_empty_run_is_not_stored() {
    let t = tables(&[3, 4, 0, 0, 0, b'Q', 0, 0, 127, 4, 0, 0]).unwrap();
    assert_eq!(t.len(), 1);
    assert_eq!(strs(&t[0]), vec!["Q"]);
}

#[test]
fn high_bytes_become_single_characters() {
    let t = tables(&[3, 4, 0, 0, 0xe9, 0x41, 0, 0]).unwrap();
    assert_eq!(t[0].strings[0], "\u{e9}A");
    assert_eq!(t[0].strings[0].chars().count(), 2);
}

#[test]
fn partial_header_reads_as_zero() {
    assert_eq!(read_header(&[5, 9], 0), (Header { kind: 5, len: 9, handle: 0 }, 2));
    assert_eq!(read_header(&[1, 2, 0x78, 0x56, 7], 0), (Header { kind: 1, len: 2, handle: 0x5678 }, 4));
    let t = tables(&[5, 9]).unwrap();
    assert_eq!(t.len(), 1);
    assert_eq!(t[0].data, vec![0, 0, 0, 0, 0]);
}

#[test]
fn bios_info_fields() {
    let data = [1, 2, 0x00, 0xe0, 3, 0x3f, 0x80, 0, 0, 0, 0, 0, 0, 0x01];
    let b = BiosInfo::from_data(&data).unwrap();
    assert_eq!(b.vendor, 1);
    assert_eq!(b.version, 2);
    assert_eq!(b.address, 0xe000);
    assert_eq!(b.date, 3);
    assert_eq!(b.size, 0x3f);
    assert_eq!(b.characteristics, 0x0100_0000_0000_0080);
    assert!(BiosInfo::from_data(&data[..13]).is_none());
}

#[test]
fn system_info_fields() {
    let s = SystemInfo::from_data(&[1, 2, 3, 4, 5]).unwrap();
    assert_eq!((s.manufacturer, s.name, s.version, s.serial), (1, 2, 3, 4));
    assert!(SystemInfo::from_data(&[1, 2, 3]).is_none());
}
