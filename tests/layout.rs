use hexdump::{dump_line, FormatError, Dumper, CHUNK_SIZE, HEX_AREA_WIDTH, WINDOW_SIZE};

#[test]
fn oversized_window_is_refused() {
    let data = [0x41u8; 17];
    assert_eq!(dump_line(&data, 0), Err(FormatError::OversizedWindow));
}

#[test]
fn window_of_exactly_sixteen_is_accepted() {
    let data = [0x41u8; 16];
    assert!(dump_line(&data, 0).is_ok());
}

#[test]
fn empty_window_is_offset_and_padding() {
    let line = dump_line(&[], 0).unwrap();
    assert_eq!(line, format!("00000000:{}", " ".repeat(50)));
}

#[test]
fn offset_field_is_uppercase_and_zero_padded() {
    let line = dump_line(&[0xab], 0x2a).unwrap();
    assert!(line.starts_with("0000002A: AB"));
}

#[test]
fn offset_beyond_eight_digits_is_not_cut() {
    let line = dump_line(&[0x01], 0x1_2345_6789).unwrap();
    assert!(line.starts_with("123456789: 01"));
}

#[test]
fn sidebar_policy_on_ascii_edges() {
    let data = [0x1f, 0x20, 0x21, 0x7e, 0x7f, 0xff];
    let line = dump_line(&data, 0).unwrap();
    assert_eq!(&line[..HEX_AREA_WIDTH], format!("00000000: 1F 20 21 7E 7F FF{}", " ".repeat(32)));
    assert_eq!(&line[HEX_AREA_WIDTH..], "  !~  ");
}

#[test]
fn sidebar_starts_at_fixed_column_for_every_length() {
    for n in 1..=WINDOW_SIZE {
        let data: Vec<u8> = (0..n as u8).map(|i| b'a' + i).collect();
        let line = dump_line(&data, 0x10).unwrap();
        assert_eq!(line.len(), HEX_AREA_WIDTH + n);
        assert_eq!(&line[..9], "00000010:");
        assert_eq!(line[HEX_AREA_WIDTH..].as_bytes(), &data[..]);
    }
}

#[test]
fn same_inputs_give_same_line() {
    let data = [0x00, 0x41, 0x90, 0x7a];
    assert_eq!(dump_line(&data, 77), dump_line(&data, 77));
}

#[test]
fn chunk_is_cut_into_windows_with_running_offsets() {
    let mut d = Dumper::new();
    let chunk: Vec<u8> = (0u8..33).collect();
    let lines = d.dump_chunk(&chunk);
    assert_eq!(lines.len(), 3);
    assert_eq!(lines[0], dump_line(&chunk[0..16], 0).unwrap());
    assert_eq!(lines[1], dump_line(&chunk[16..32], 16).unwrap());
    assert_eq!(lines[2], dump_line(&chunk[32..33], 32).unwrap());
    assert!(lines[2].starts_with("00000020: 20"));
    assert_eq!(d.total(), 33);
}

#[test]
fn offsets_carry_across_chunks() {
    let mut d = Dumper::new();
    let first = [0x61u8; 16];
    let second = [0x62u8; 5];
    assert_eq!(d.dump_chunk(&first).len(), 1);
    let lines = d.dump_chunk(&second);
    assert_eq!(lines.len(), 1);
    assert!(lines[0].starts_with("00000010: 62 62 62 62 62"));
    assert!(lines[0].ends_with("bbbbb"));
    assert_eq!(d.total(), 21);
}

#[test]
fn full_chunks_give_one_line_per_window_and_summary_counts_all() {
    let mut d = Dumper::new();
    let chunk = vec![0u8; CHUNK_SIZE];
    let mut count = 0;
    count += d.dump_chunk(&chunk).len();
    count += d.dump_chunk(&chunk).len();
    count += d.dump_chunk(&chunk[..100]).len();
    let size = 2 * CHUNK_SIZE + 100;
    assert_eq!(count, (size + 15) / 16);
    assert_eq!(d.total(), size);
    assert_eq!(d.summary(), "00002064:");
}

#[test]
fn summary_is_lowercase() {
    let mut d = Dumper::new();
    let chunk = vec![0x55u8; 0xab];
    d.dump_chunk(&chunk);
    assert_eq!(d.summary(), "000000ab:");
}

#[test]
fn empty_stream_has_no_lines_and_zero_summary() {
    let mut d = Dumper::new();
    assert!(d.dump_chunk(&[]).is_empty());
    assert_eq!(d.summary(), "00000000:");
}
