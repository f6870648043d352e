use rtcm_view::hexdump::format_hex_dump;

#[test]
fn hex_dump_of_nothing_is_empty() {
    assert_eq!(format_hex_dump(&[]), "");
}

#[test]
fn hex_dump_single_short_line() {
    assert_eq!(
        format_hex_dump(b"Hello, RTCM!\x00\x01\xd3"),
        "00000000  48 65 6c 6c 6f 2c 20 52  54 43 4d 21 00 01 d3     |Hello, RTCM!...|\n"
    );
}

#[test]
fn hex_dump_two_lines_with_offsets() {
    let data: Vec<u8> = (0u8..20).collect();
    assert_eq!(
        format_hex_dump(&data),
        "00000000  00 01 02 03 04 05 06 07  08 09 0a 0b 0c 0d 0e 0f  |................|\n\
         00000010  10 11 12 13                                       |....|\n"
    );
}

#[test]
fn hex_dump_text_column_shows_graphic_and_space_only() {
    assert_eq!(
        format_hex_dump(&[0x41, 0x7f, 0x20, 0x7e]),
        "00000000  41 7f 20 7e                                       |A. ~|\n"
    );
}

#[test]
fn hex_dump_text_column_is_aligned_for_every_length() {
    for len in 0usize..=16 {
        let data: Vec<u8> = (0..len).map(|i| (i as u8) + 0x30).collect();
        let dump = format_hex_dump(&data);
        if len == 0 {
            assert_eq!(dump, "");
            continue;
        }
        let bar = dump.find('|').unwrap();
        assert_eq!(bar, 60, "length {}", len);
        assert_eq!(dump.len(), 60 + 1 + len + 2);
    }
}

#[test]
fn hex_dump_offset_of_later_lines() {
    let data = vec![0xffu8; 16 * 17 + 1];
    let dump = format_hex_dump(&data);
    let last = dump.lines().last().unwrap();
    assert!(last.starts_with("00000110  ff "));
    assert_eq!(dump.lines().count(), 18);
}

#[test]
fn hex_dump_of_concatenation_shifts_offsets() {
    let a: Vec<u8> = (0u8..32).collect();
    let b: Vec<u8> = b"tail bytes".to_vec();
    let mut ab = a.clone();
    ab.extend_from_slice(&b);
    let whole = format_hex_dump(&ab);
    let first = format_hex_dump(&a);
    assert!(whole.starts_with(&first));
    let rest = &whole[first.len()..];
    let second = format_hex_dump(&b);
    assert_eq!(rest.len(), second.len());
    assert_eq!(&rest[..8], "00000020");
    assert_eq!(&rest[8..], &second[8..]);
}
