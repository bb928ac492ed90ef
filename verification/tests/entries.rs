use rsyncd_core::errors::RsyncError;
use rsyncd_core::file_list::{
    has_flag, File, FileFlags, NameType, XferFlags, XFER_EXTENDED_FLAGS, XFER_SAME_GID,
    XFER_SAME_MODE, XFER_SAME_TIME, XFER_SAME_UID, XFER_TOP_DIR,
};
use rsyncd_core::handshake::{Query, QueryParseError, Version, VersionParseError};

fn dot_dir() -> File {
    File {
        dirname: b"dot".to_vec(),
        basename: b".".to_vec(),
        modtime: 5,
        filelen: 420,
        mode: 0o40755,
        flags: FileFlags::empty(),
        name_type: NameType::DotDir,
    }
}

fn base_name_file() -> File {
    File {
        dirname: b"dot".to_vec(),
        basename: b"base_name".to_vec(),
        modtime: 5,
        filelen: 0xDEADBEEF,
        mode: 0o100755,
        flags: FileFlags::empty(),
        name_type: NameType::Normal,
    }
}

#[test]
fn name_type_bytes_round_trip() {
    let kinds = [
        NameType::Normal,
        NameType::SlashEnding,
        NameType::DotDir,
        NameType::Missing,
    ];
    for (i, nt) in kinds.iter().enumerate() {
        assert_eq!(nt.to_u8(), i as u8);
        assert_eq!(NameType::try_from_u8(i as u8), Some(*nt));
    }
    assert_eq!(NameType::try_from_u8(4), None);
}

#[test]
fn dot_dir_entry_wire_form() {
    // Flag byte 00 (a directory gets no TOP_DIR and nothing is reused),
    // name length 1, ".", varint(420, min 3), mtime LE, mode LE.
    let file = dot_dir();
    let mut buf = Vec::new();
    file.write_data_bytes(None, &mut buf).unwrap();
    assert_eq!(
        buf,
        vec![
            0x00, // xfer flags
            0x01, // name length
            0x2E, // "."
            0x00, 0xA4, 0x01, // varint(420, min 3)
            0x05, 0x00, 0x00, 0x00, // mtime
            0xED, 0x41, 0x00, 0x00, // mode 0o40755
        ]
    );
}

#[test]
fn second_entry_reuses_equal_fields() {
    let prev = dot_dir();
    let file = base_name_file();
    let flags = XferFlags::for_file(&file, Some(&prev)).unwrap();
    // Not a directory: TOP_DIR.  Same mtime: SAME_TIME.  No uid/gid are
    // tracked, so both read as equal.  Modes differ; names share nothing.
    assert_eq!(
        flags.bits,
        XFER_TOP_DIR | XFER_SAME_UID | XFER_SAME_GID | XFER_SAME_TIME
    );
    let mut buf = Vec::new();
    file.write_data_bytes(Some(&prev), &mut buf).unwrap();
    let mut expected = vec![0x99, 0x09];
    expected.extend_from_slice(b"base_name");
    expected.extend_from_slice(&[0xC0, 0xEF, 0xBE, 0xAD, 0xDE]);
    // SAME_TIME suppresses the mtime field; the mode still travels.
    expected.extend_from_slice(&[0xED, 0x81, 0x00, 0x00]);
    assert_eq!(buf, expected);
}

#[test]
fn shared_name_prefix_sets_same_name() {
    let prev = base_name_file();
    let mut file = base_name_file();
    file.basename = b"base_other".to_vec();
    let flags = XferFlags::for_file(&file, Some(&prev)).unwrap();
    assert!(has_flag(flags.bits, rsyncd_core::file_list::XFER_SAME_NAME));
    let mut buf = Vec::new();
    file.write_data_bytes(Some(&prev), &mut buf).unwrap();
    // Flag byte, l1 = 5 ("base_"), l2 = 5, then only the suffix.
    assert_eq!(buf[1], 5);
    assert_eq!(buf[2], 5);
    assert_eq!(&buf[3..8], b"other");
}

#[test]
fn over_long_basename_is_name_too_long_before_any_byte() {
    let mut file = dot_dir();
    file.basename = vec![b'x'; 256];
    let mut buf = vec![0xAB];
    let r = file.write_data_bytes(None, &mut buf);
    assert_eq!(r, Err(RsyncError::NameTooLong));
    assert_eq!(buf, vec![0xAB]);
    assert!(matches!(
        XferFlags::for_file(&file, None),
        Err(RsyncError::NameTooLong)
    ));
}

#[test]
fn xfer_flags_extended_byte_travels_only_when_owed() {
    let low = XferFlags { bits: 0x99 };
    let mut buf = Vec::new();
    low.write_data_bytes(&mut buf).unwrap();
    assert_eq!(buf, vec![0x99]);

    let wide = XferFlags {
        bits: 0x100 | XFER_EXTENDED_FLAGS,
    };
    let mut buf2 = Vec::new();
    wide.write_data_bytes(&mut buf2).unwrap();
    assert_eq!(buf2, vec![0x04, 0x01]);
}

#[test]
fn directory_test_reads_the_mode() {
    assert!(dot_dir().is_directory());
    assert!(!base_name_file().is_directory());
}

#[test]
fn full_name_joins_dirname_and_basename() {
    assert_eq!(dot_dir().get_full_name(), b"dot/.".to_vec());
}

#[test]
fn version_parse_accepts_major_dot_minor() {
    let v = Version::parse("31.0").unwrap();
    assert_eq!(v.major, 31);
    assert_eq!(v.minor, 0);
}

#[test]
fn version_parse_ignores_a_third_field() {
    let v = Version::parse("31.0.5").unwrap();
    assert_eq!(v.major, 31);
    assert_eq!(v.minor, 0);
}

#[test]
fn version_parse_needs_two_fields() {
    assert_eq!(
        Version::parse("31"),
        Err(VersionParseError::IncompleteVersionSpecifier)
    );
}

#[test]
fn version_parse_rejects_non_decimal() {
    assert_eq!(
        Version::parse("3a.0"),
        Err(VersionParseError::InvalidVersionNumber)
    );
    assert_eq!(
        Version::parse(".0"),
        Err(VersionParseError::InvalidVersionNumber)
    );
    assert_eq!(
        Version::parse("99999999999.0"),
        Err(VersionParseError::InvalidVersionNumber)
    );
}

#[test]
fn version_serialize_is_decimal_dotted() {
    let v = Version {
        major: 31,
        minor: 0,
    };
    assert_eq!(v.serialize(), "31.0");
    let w = Version {
        major: 4294967295,
        minor: 107,
    };
    assert_eq!(w.serialize(), "4294967295.107");
}

#[test]
fn query_parse_empty_and_list_word_ask_for_modules() {
    assert!(matches!(Query::parse(""), Ok(Query::ModuleList)));
    assert!(matches!(Query::parse("#list"), Ok(Query::ModuleList)));
}

#[test]
fn query_parse_other_lines_name_a_module() {
    match Query::parse("backups") {
        Ok(Query::FileList { module }) => assert_eq!(module, "backups"),
        other => panic!("unexpected {:?}", other),
    }
    // The error kind exists in the taxonomy but no line produces it.
    let _unreachable: Option<QueryParseError> = None;
}

#[test]
fn flags_helper_reads_single_bits() {
    assert!(has_flag(0x99, XFER_TOP_DIR));
    assert!(!has_flag(0x99, XFER_SAME_MODE));
    assert!(has_flag(0x99, XFER_SAME_TIME));
}

#[test]
fn default_version_is_thirty_one_dot_zero() {
    let v = Version::default();
    assert_eq!((v.major, v.minor), (31, 0));
}
