use sidewire::frame::{frame_file, unframe_file};

#[test]
fn file_framing_roundtrip() {
    let bytes = vec![0u8, 1, 2, 3, 255, 254];
    let framed = frame_file("report.pdf", "application/pdf", &bytes);
    let (name, mime, data) = unframe_file(&framed).unwrap();
    assert_eq!(name, "report.pdf");
    assert_eq!(mime, "application/pdf");
    assert_eq!(data, &bytes[..]);
}

#[test]
fn frame_layout() {
    assert_eq!(
        frame_file("ab", "é", &[9, 8]),
        vec![2, 0, b'a', b'b', 2, 0, 0xc3, 0xa9, 9, 8]
    );
    assert_eq!(frame_file("", "", &[]), vec![0, 0, 0, 0]);
    let long = "n".repeat(0x0102);
    assert_eq!(frame_file(&long, "", &[])[..2], [0x02, 0x01]);
}

#[test]
fn lengths_wrap_at_sixteen_bits() {
    let long = "n".repeat(65536 + 1);
    let framed = frame_file(&long, "", &[]);
    assert_eq!(framed[..2], [1, 0]);
    let same = matches!(unframe_file(&framed), Ok((name, _, _)) if name == long);
    assert!(!same);
}

#[test]
fn corrupt_frames_are_refused() {
    let cases: Vec<Vec<u8>> =
        vec![vec![], vec![1], vec![0, 0], vec![0, 0, 0], vec![2, 0, b'a', 0], vec![0, 0, 1, 0]];
    for case in cases {
        assert_eq!(unframe_file(&case).unwrap_err(), "corrupt file payload");
    }
}

#[test]
fn names_that_are_not_utf8_are_repaired() {
    let (name, mime, bytes) = unframe_file(&[2, 0, b'a', 0xff, 0, 0, 7]).unwrap();
    assert_eq!(name, "a\u{fffd}");
    assert_eq!(mime, "");
    assert_eq!(bytes, [7]);
}
