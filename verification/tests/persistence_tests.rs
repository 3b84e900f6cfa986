use peercode::line_endings::{contains_crlf, crlf_rebuild_text, normalize_line_endings, text_for_write, to_crlf};
use peercode::persistence::{
    build_pcdoc_bytes, check_size, document_file_name, import_text_content, is_valid_name,
    pcdoc_payload, read_file_content, validate_name, FileContent, PersistError, FORMAT_VERSION,
    MAGIC, MAX_IMPORT_BYTES, MAX_OPEN_BYTES,
};

fn text_of(content: FileContent) -> (String, bool) {
    match content {
        FileContent::Text { text, had_crlf } => (text, had_crlf),
        FileContent::Pcdoc(_) => panic!("expected text content"),
    }
}

#[test]
fn reads_utf8_text_without_crlf() {
    let (text, had_crlf) = text_of(read_file_content(b"fn main() {}\n".to_vec()).unwrap());
    assert_eq!(text, "fn main() {}\n");
    assert!(!had_crlf);
}

#[test]
fn normalizes_crlf_and_cr_and_remembers_crlf() {
    let (text, had_crlf) = text_of(read_file_content(b"one\r\ntwo\rthree\n".to_vec()).unwrap());
    assert_eq!(text, "one\ntwo\nthree\n");
    assert!(had_crlf);
}

#[test]
fn cr_only_files_do_not_count_as_crlf() {
    let (text, had_crlf) = text_of(read_file_content(b"one\rtwo".to_vec()).unwrap());
    assert_eq!(text, "one\ntwo");
    assert!(!had_crlf);
}

#[test]
fn read_tests_rejects_non_utf8_content() {
    assert!(matches!(
        read_file_content(vec![0xff, 0xfe, 0x00, 0x41]),
        Err(PersistError::NotUtf8)
    ));
}

#[test]
fn pcdoc_bytes_give_their_payload() {
    let bytes = build_pcdoc_bytes(b"snapshot");
    match read_file_content(bytes).unwrap() {
        FileContent::Pcdoc(payload) => assert_eq!(payload, b"snapshot".to_vec()),
        FileContent::Text { .. } => panic!("expected pcdoc content"),
    }
}

#[test]
fn pcdoc_of_another_version_is_refused() {
    let mut bytes = MAGIC.to_vec();
    bytes.push(2);
    bytes.extend_from_slice(b"x");
    assert!(matches!(read_file_content(bytes), Err(PersistError::UnsupportedFormat(2))));
}

#[test]
fn bare_magic_is_not_a_valid_pcdoc() {
    assert!(matches!(read_file_content(MAGIC.to_vec()), Err(PersistError::InvalidMagic)));
    assert!(matches!(pcdoc_payload(b"PC"), Err(PersistError::InvalidMagic)));
    assert!(matches!(pcdoc_payload(b"XXXX\x01abc"), Err(PersistError::InvalidMagic)));
}

#[test]
fn pcdoc_frame_is_magic_version_payload() {
    let bytes = build_pcdoc_bytes(&[9, 8, 7]);
    assert_eq!(bytes, vec![b'P', b'C', b'D', b'C', FORMAT_VERSION, 9, 8, 7]);
    assert_eq!(pcdoc_payload(&bytes).unwrap(), vec![9, 8, 7]);
}

#[test]
fn reads_utf8_text() {
    assert_eq!(import_text_content("fn main() {}\n".as_bytes().to_vec()).unwrap(), "fn main() {}\n");
}

#[test]
fn rejects_pcdoc_payloads() {
    let mut bytes = MAGIC.to_vec();
    bytes.push(1);
    assert!(matches!(import_text_content(bytes), Err(PersistError::IsPcdoc)));
}

#[test]
fn text_import_tests_rejects_non_utf8_content() {
    assert!(matches!(
        import_text_content(vec![0xff, 0xfe, 0x00, 0x41]),
        Err(PersistError::NotUtf8)
    ));
}

#[test]
fn normalizes_crlf_and_cr_to_lf() {
    assert_eq!(import_text_content(b"one\r\ntwo\rthree\n".to_vec()).unwrap(), "one\ntwo\nthree\n");
}

#[test]
fn writes_lf_text_verbatim() {
    assert_eq!(text_for_write("a\nb\n", false).as_bytes(), b"a\nb\n");
}

#[test]
fn restores_crlf_when_the_file_had_it() {
    assert_eq!(text_for_write("a\nb\n", true).as_bytes(), b"a\r\nb\r\n");
}

#[test]
fn crlf_file_round_trips_byte_identical() {
    let (text, had_crlf) = match read_file_content(b"one\r\ntwo\r\n".to_vec()).unwrap() {
        FileContent::Text { text, had_crlf } => (text, had_crlf),
        FileContent::Pcdoc(_) => panic!("expected text content"),
    };
    assert_eq!(text_for_write(&text, had_crlf).as_bytes(), b"one\r\ntwo\r\n");
}

#[test]
fn line_ending_helpers() {
    assert_eq!(normalize_line_endings("a\r\nb\rc\n"), "a\nb\nc\n");
    assert_eq!(normalize_line_endings("plain\n"), "plain\n");
    assert_eq!(normalize_line_endings("\r\r\n"), "\n\n");
    assert!(contains_crlf("x\r\n"));
    assert!(!contains_crlf("x\n\r"));
    assert_eq!(to_crlf("a\nb"), "a\r\nb");
    assert_eq!(normalize_line_endings(&to_crlf("one\ntwo\n")), "one\ntwo\n");
}

#[test]
fn size_limit_is_inclusive() {
    assert!(check_size(MAX_OPEN_BYTES, MAX_OPEN_BYTES).is_ok());
    assert!(matches!(
        check_size(MAX_IMPORT_BYTES + 1, MAX_IMPORT_BYTES),
        Err(PersistError::TooLarge(m)) if m == MAX_IMPORT_BYTES
    ));
    assert_eq!(
        PersistError::TooLarge(MAX_OPEN_BYTES).message(),
        "file is larger than the 10 MB limit"
    );
}

#[test]
fn error_messages() {
    assert_eq!(PersistError::InvalidMagic.message(), "not a valid .pcdoc file");
    assert_eq!(PersistError::UnsupportedFormat(7).message(), "unsupported file format version: 7");
    assert_eq!(PersistError::NotUtf8.message(), "file is not readable UTF-8 text");
    assert_eq!(PersistError::Io("gone".to_string()).message(), "I/O error: gone");
    assert_eq!(PersistError::Snapshot("bad".to_string()).message(), "snapshot error: bad");
}

#[test]
fn library_names_are_validated() {
    assert!(is_valid_name("notes"));
    assert!(matches!(validate_name(""), Err(PersistError::InvalidName(m)) if m == "name is empty"));
    assert!(matches!(
        validate_name("a/b"),
        Err(PersistError::InvalidName(m)) if m == "name contains forbidden characters: a/b"
    ));
    assert!(matches!(
        validate_name(".hidden"),
        Err(PersistError::InvalidName(m)) if m == "name has invalid leading/trailing characters: .hidden"
    ));
    assert!(!is_valid_name("trailing "));
    assert!(!is_valid_name("dot."));
    assert!(matches!(
        validate_name("com1"),
        Err(PersistError::InvalidName(m)) if m == "name is a reserved system name: com1"
    ));
    assert!(is_valid_name("COM10"));
    assert_eq!(document_file_name("notes").unwrap(), "notes.pcdoc");
    assert!(document_file_name("a?b").is_err());
}

#[test]
fn lf_document_text_needs_no_rebuild() {
    assert_eq!(crlf_rebuild_text("line one\nline two"), None);
}

#[test]
fn legacy_crlf_document_text_is_rebuilt_normalized() {
    assert_eq!(
        crlf_rebuild_text("line one\r\nline two\rend"),
        Some("line one\nline two\nend".to_string())
    );
    assert_eq!(crlf_rebuild_text("\r"), Some("\n".to_string()));
}
