use file_monitor::record::{
    decode, field_string, handle_event, render_line, text_or_marker, trim_trailing_nul,
    DecodeError, Event, EventRecord, RECORD_SIZE,
};

fn raw_record(pid: u32, comm: &[u8], filename: &[u8], ret: i64) -> Vec<u8> {
    let mut b = vec![0u8; RECORD_SIZE];
    b[0..4].copy_from_slice(&pid.to_le_bytes());
    b[4..4 + comm.len()].copy_from_slice(comm);
    b[20..20 + filename.len()].copy_from_slice(filename);
    b[280..288].copy_from_slice(&ret.to_le_bytes());
    b
}

#[test]
fn default_event_is_zeroed() {
    let e = Event::default();
    assert_eq!(e.pid, 0);
    assert!(e.comm.iter().all(|b| *b == 0));
    assert!(e.filename.iter().all(|b| *b == 0));
    assert_eq!(e.ret, 0);
}

#[test]
fn wrong_lengths_are_length_mismatch() {
    for n in [0usize, 1, 287, 289, 576] {
        let b = vec![0u8; n];
        assert_eq!(decode(&b).unwrap_err(), DecodeError::LengthMismatch);
        assert_eq!(Event::from_bytes(&b).unwrap_err(), DecodeError::LengthMismatch);
        assert_eq!(handle_event(&b).unwrap_err(), DecodeError::LengthMismatch);
    }
}

#[test]
fn raw_fields_are_read_positionally() {
    let b = raw_record(0x0102_0304, b"cat", b"/etc/passwd", -2);
    let e = Event::from_bytes(&b).unwrap();
    assert_eq!(e.pid, 0x0102_0304);
    assert_eq!(&e.comm[0..3], b"cat");
    assert_eq!(e.comm[3], 0);
    assert_eq!(&e.filename[0..11], b"/etc/passwd");
    assert_eq!(e.ret, -2);
}

#[test]
fn end_to_end_line() {
    let b = raw_record(1234, b"bash", b"/tmp/x", 0);
    let e = decode(&b).unwrap();
    assert_eq!(e.process_id, 1234);
    assert_eq!(e.command_name, "bash");
    assert_eq!(e.file_path, "/tmp/x");
    assert_eq!(e.result_code, 0);
    assert_eq!(render_line(&e), "PID: 1234, CMD: bash, FILE: /tmp/x");
    assert_eq!(handle_event(&b).unwrap(), "PID: 1234, CMD: bash, FILE: /tmp/x");
}

#[test]
fn decode_is_deterministic() {
    let b = raw_record(77, b"sh", b"/a/b", i64::MIN);
    let x = decode(&b).unwrap();
    let y = decode(&b).unwrap();
    assert_eq!(x.process_id, y.process_id);
    assert_eq!(x.command_name, y.command_name);
    assert_eq!(x.file_path, y.file_path);
    assert_eq!(x.result_code, i64::MIN);
    assert_eq!(y.result_code, i64::MIN);
}

#[test]
fn extreme_numbers() {
    let b = raw_record(u32::MAX, b"x", b"y", i64::MAX);
    let e = decode(&b).unwrap();
    assert_eq!(e.process_id, u32::MAX);
    assert_eq!(e.result_code, i64::MAX);
    assert_eq!(render_line(&e), "PID: 4294967295, CMD: x, FILE: y");
    let z = decode(&raw_record(0, b"", b"", -1)).unwrap();
    assert_eq!(z.result_code, -1);
    assert_eq!(render_line(&z), "PID: 0, CMD: , FILE: ");
}

#[test]
fn full_width_name_kept() {
    let b = raw_record(5, b"abcdefghijklmnop", b"/f", 0);
    let e = decode(&b).unwrap();
    assert_eq!(e.command_name, "abcdefghijklmnop");
    let path = vec![b'p'; 256];
    let e2 = decode(&raw_record(5, b"a", &path, 0)).unwrap();
    assert_eq!(e2.file_path, "p".repeat(256));
}

#[test]
fn padding_stripped() {
    assert_eq!(field_string(b"ab\0\0\0\0"), "ab");
    assert_eq!(field_string(b"\0\0\0"), "");
    assert_eq!(field_string(b""), "");
    assert_eq!(field_string("caf\u{e9}\0".as_bytes()), "caf\u{e9}");
}

#[test]
fn invalid_text_gives_marker() {
    assert_eq!(field_string(&[0xff, 0x41, 0, 0]), "?");
    assert_eq!(field_string(&[0xc3]), "?");
    let b = raw_record(9, &[0x80, 0x80], b"/ok", 3);
    let e = decode(&b).unwrap();
    assert_eq!(e.command_name, "?");
    assert_eq!(e.file_path, "/ok");
    assert_eq!(render_line(&e), "PID: 9, CMD: ?, FILE: /ok");
}

#[test]
fn text_or_marker_cases() {
    assert_eq!(text_or_marker(None), "?");
    assert_eq!(text_or_marker(Some("ab\0\0")), "ab");
    assert_eq!(text_or_marker(Some("a\0b")), "a\0b");
}

#[test]
fn trim_only_trailing_nuls() {
    assert_eq!(trim_trailing_nul("\0x\0\0"), "\0x");
    assert_eq!(trim_trailing_nul("plain"), "plain");
}

#[test]
fn render_by_fields() {
    let e = EventRecord {
        process_id: 42,
        command_name: String::from("vim"),
        file_path: String::from("/home/u/.swp"),
        result_code: 0,
    };
    assert_eq!(render_line(&e), "PID: 42, CMD: vim, FILE: /home/u/.swp");
}
