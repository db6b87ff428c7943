use red_table::path_io::{format_paths, read_nul_paths, NulPathReader, MAX_RECORD_BYTES};

#[test]
fn parses_complete_nul_records_and_rejects_malformed_input() {
    assert_eq!(
        read_nul_paths(&b"one.jpg\0nested/two.png\0"[..]).unwrap(),
        vec![b"one.jpg".to_vec(), b"nested/two.png".to_vec()]
    );
    assert!(read_nul_paths(&b"unterminated"[..]).is_err());
    assert!(read_nul_paths(&b"one\0\0"[..]).is_err());
    assert!(
        read_nul_paths(
            std::iter::repeat_n(b'x', MAX_RECORD_BYTES + 1)
                .collect::<Vec<_>>()
                .as_slice()
        )
        .is_err()
    );
}

#[test]
fn nul_output_preserves_non_utf8_and_embedded_newline_bytes() {
    let paths = vec![vec![b'/', b't', b'm', b'p', b'/', 0xff, b'\n', b'x']];
    let output = format_paths(&paths, true);
    assert_eq!(output, b"/tmp/\xff\nx\0");
}

#[test]
fn newline_output_ends_each_path_with_a_newline() {
    let paths = vec![b"a.png".to_vec(), b"b.png".to_vec()];
    assert_eq!(format_paths(&paths, false), b"a.png\nb.png\n");
    assert_eq!(format_paths(&[], true), b"");
}

#[test]
fn nul_output_reads_back_as_the_same_paths() {
    let paths = vec![b"one.jpg".to_vec(), b"nested/two.png".to_vec()];
    assert_eq!(read_nul_paths(&format_paths(&paths, true)).unwrap(), paths);
}

#[test]
fn streamed_pieces_give_the_same_records() {
    let mut reader = NulPathReader::new();
    reader.feed(b"one.j").unwrap();
    reader.feed(b"pg\0two").unwrap();
    reader.feed(b".png\0").unwrap();
    assert_eq!(
        reader.finish().unwrap(),
        vec![b"one.jpg".to_vec(), b"two.png".to_vec()]
    );
}

#[test]
fn malformed_input_errors_name_their_cause() {
    assert_eq!(
        read_nul_paths(b"unterminated.jpg").unwrap_err(),
        "NUL path input ends without a NUL delimiter"
    );
    assert_eq!(
        read_nul_paths(b"\0").unwrap_err(),
        "NUL path input contains an empty record"
    );
    let long = vec![b'x'; MAX_RECORD_BYTES + 1];
    assert_eq!(
        read_nul_paths(&long).unwrap_err(),
        "NUL path record exceeds the 1 MiB limit"
    );
}

#[test]
fn only_well_formed_nul_input_is_accepted() {
    assert_eq!(
        red_table::path_io::read_nul_paths(b"a\0bc\0").unwrap(),
        vec![b"a".to_vec(), b"bc".to_vec()]
    );
    assert!(red_table::path_io::read_nul_paths(b"").unwrap().is_empty());
    for bad in [&b"a"[..], b"a\0\0", b"\0", b"a\0b"] {
        assert!(red_table::path_io::read_nul_paths(bad).is_err());
    }
    let mut long = vec![7u8; red_table::path_io::MAX_RECORD_BYTES + 1];
    long.push(0);
    assert!(red_table::path_io::read_nul_paths(&long).is_err());
}
