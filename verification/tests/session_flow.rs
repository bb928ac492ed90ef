use rsyncd_core::errors::{ClientError, RsyncError};
use rsyncd_core::file_list::{File, FileFlags, NameType};
use rsyncd_core::frame::RsyncMessage;
use rsyncd_core::handshake::Query;
use rsyncd_core::session::{Rsync, SessionState};

fn modules() -> Vec<Vec<u8>> {
    vec![
        b"module_one".to_vec(),
        b"module_two".to_vec(),
        b"module_three".to_vec(),
    ]
}

fn int_frame(v: i32) -> Vec<u8> {
    let mut f = vec![4, 0, 0, 7];
    f.extend_from_slice(&v.to_be_bytes());
    f
}

fn data_frame(payload: &[u8]) -> Vec<u8> {
    let mut f = vec![payload.len() as u8, 0, 0, 7];
    f.extend_from_slice(payload);
    f
}

/// Drives a session to the state right after the multiplex switch.
fn multiplexed_session() -> Rsync {
    let mut session = Rsync::new(1, modules());
    session.send_greeting();
    assert_eq!(session.take_output(), b"@RSYNCD: 31.0\n".to_vec());

    session.feed(b"@RSYNCD: 31.0\n");
    let version = session.read_peer_version().unwrap();
    assert_eq!(version.major, 31);
    assert_eq!(version.minor, 0);
    assert_eq!(session.state(), SessionState::PeerVersionKnown);

    session.feed(b"\n");
    assert!(matches!(session.read_query(), Ok(Query::ModuleList)));

    session.server_send_ok();
    assert_eq!(session.take_output(), b"@RSYNCD: OK\n".to_vec());

    session.feed(&[0x00]);
    let args = session.server_read_args().unwrap();
    assert!(args.is_empty());

    session.send_compat_flags();
    assert_eq!(session.take_output(), vec![0x00]);

    session.send_checksum_seed();
    assert_eq!(session.take_output(), vec![0x01, 0x00, 0x00, 0x00]);

    session.start_multiplexing();
    assert_eq!(session.state(), SessionState::Multiplexed);
    session
}

#[test]
fn handshake_reaches_peer_version_known() {
    let mut session = Rsync::new(1, modules());
    session.send_greeting();
    assert_eq!(session.take_output(), b"@RSYNCD: 31.0\n".to_vec());
    session.feed(b"@RSYNCD: 31.0\n");
    let version = session.read_peer_version().unwrap();
    assert_eq!((version.major, version.minor), (31, 0));
    assert_eq!(session.state(), SessionState::PeerVersionKnown);
}

#[test]
fn handshake_needs_more_bytes_until_the_line_ends() {
    let mut session = Rsync::new(1, modules());
    session.send_greeting();
    session.feed(b"@RSYNCD: 3");
    assert!(session.read_peer_version().is_err());
    // Nothing was consumed; the rest of the line completes it.
    session.feed(b"1.0\n");
    assert!(session.read_peer_version().is_ok());
}

#[test]
fn greeting_without_prefix_is_invalid_header() {
    let mut session = Rsync::new(1, modules());
    session.send_greeting();
    session.feed(b"HELLO: 31.0\n");
    assert_eq!(
        session.read_peer_version(),
        Err(RsyncError::ClientError(ClientError::InvalidHeader))
    );
}

#[test]
fn non_utf8_greeting_line_is_invalid_utf8() {
    let mut session = Rsync::new(1, modules());
    session.send_greeting();
    session.feed(&[0xFF, 0xFE, 0x0A]);
    assert_eq!(
        session.read_peer_version(),
        Err(RsyncError::ClientError(ClientError::InvalidUtf8))
    );
}

#[test]
fn over_long_line_is_refused() {
    let mut session = Rsync::new(1, modules());
    session.send_greeting();
    let mut line = vec![b'a'; 1025];
    line.push(0x0A);
    session.feed(&line);
    assert_eq!(session.read_peer_version(), Err(RsyncError::LineTooLarge));
}

#[test]
fn module_list_session_emits_the_configured_names() {
    let mut session = multiplexed_session();
    session.send_module_list().unwrap();
    let mut expected = vec![35, 0, 0, 7];
    expected.extend_from_slice(b"module_one\nmodule_two\nmodule_three\n");
    assert_eq!(session.take_output(), expected);
}

#[test]
fn arguments_are_read_to_the_empty_terminator() {
    let mut session = Rsync::new(1, modules());
    session.send_greeting();
    session.feed(b"@RSYNCD: 31.0\n");
    session.read_peer_version().unwrap();
    session.feed(b"backups\n");
    match session.read_query().unwrap() {
        Query::FileList { module } => assert_eq!(module, "backups"),
        other => panic!("unexpected {:?}", other),
    }
    session.server_send_ok();
    session.feed(b"--server\0--sender\0\0");
    let args = session.server_read_args().unwrap();
    assert_eq!(args, vec!["--server".to_string(), "--sender".to_string()]);
}

#[test]
fn arguments_consume_nothing_until_complete() {
    let mut session = Rsync::new(1, modules());
    session.send_greeting();
    session.feed(b"@RSYNCD: 31.0\n");
    session.read_peer_version().unwrap();
    session.feed(b"\n");
    session.read_query().unwrap();
    session.server_send_ok();
    session.feed(b"--server\0");
    assert!(session.server_read_args().is_err());
    session.feed(b"\0");
    let args = session.server_read_args().unwrap();
    assert_eq!(args, vec!["--server".to_string()]);
}

#[test]
fn empty_file_list_is_one_zero_byte_frame() {
    let mut session = multiplexed_session();
    session.feed(&data_frame(&[0xAA]));
    assert!(matches!(
        session.read_message(),
        Ok(RsyncMessage::Data { .. })
    ));
    session.send_file_list(&vec![]).unwrap();
    assert_eq!(session.take_output(), vec![1, 0, 0, 7, 0x00]);
}

#[test]
fn file_list_ends_with_the_sentinel() {
    let mut session = multiplexed_session();
    session.feed(&data_frame(&[0xAA]));
    session.read_message().unwrap();
    let list = vec![File {
        dirname: b"dot".to_vec(),
        basename: b".".to_vec(),
        modtime: 5,
        filelen: 420,
        mode: 0o40755,
        flags: FileFlags::empty(),
        name_type: NameType::DotDir,
    }];
    session.send_file_list(&list).unwrap();
    let wire = session.take_output();
    let entry = vec![
        0x00, 0x01, 0x2E, 0x00, 0xA4, 0x01, 0x05, 0x00, 0x00, 0x00, 0xED, 0x41, 0x00, 0x00,
    ];
    let mut expected = vec![(entry.len() + 1) as u8, 0, 0, 7];
    expected.extend_from_slice(&entry);
    expected.push(0x00);
    assert_eq!(wire, expected);
    assert_eq!(*wire.last().unwrap(), 0x00);
}

fn session_past_file_list() -> Rsync {
    let mut session = multiplexed_session();
    session.feed(&data_frame(&[0xAA]));
    session.read_message().unwrap();
    session.send_file_list(&vec![]).unwrap();
    session.take_output();
    session
}

#[test]
fn negative_chunk_count_is_refused_before_any_descriptor() {
    let mut session = session_past_file_list();
    session.feed(&int_frame(-1));
    session.feed(&int_frame(700));
    session.feed(&int_frame(2));
    session.feed(&int_frame(0));
    assert!(matches!(
        session.receive_sums(),
        Err(RsyncError::NegativeChunkCount)
    ));
}

#[test]
fn checksum_set_offsets_and_lengths() {
    let mut session = session_past_file_list();
    session.feed(&int_frame(2)); // chunk count
    session.feed(&int_frame(700)); // block length
    session.feed(&int_frame(2)); // strong-checksum length
    session.feed(&int_frame(100)); // remainder
    session.feed(&int_frame(0x01020304)); // first rolling checksum
    session.feed(&data_frame(&[0xAA, 0xBB])); // first strong checksum
    session.feed(&int_frame(-2)); // second rolling checksum
    session.feed(&data_frame(&[0xCC, 0xDD])); // second strong checksum
    let sums = session.receive_sums().unwrap();
    assert_eq!(sums.block_length, 700);
    assert_eq!(sums.sum2_length, 2);
    assert_eq!(sums.remainder, 100);
    assert_eq!(sums.sum_chunks.len(), 2);
    assert_eq!(sums.sum_chunks[0].offset, 0);
    assert_eq!(sums.sum_chunks[0].length, 700);
    assert_eq!(sums.sum_chunks[0].checksum, 0x01020304);
    assert_eq!(sums.sum_chunks[0].sum2, vec![0xAA, 0xBB]);
    assert_eq!(sums.sum_chunks[1].offset, 700);
    assert_eq!(sums.sum_chunks[1].length, 100);
    assert_eq!(sums.sum_chunks[1].checksum, 0xFFFFFFFE);
    assert_eq!(sums.sum_chunks[1].sum2, vec![0xCC, 0xDD]);
    assert_eq!(sums.total_file_length, 800);
}

#[test]
fn oversized_strong_checksum_length_is_unsupported() {
    let mut session = session_past_file_list();
    session.feed(&int_frame(1));
    session.feed(&int_frame(700));
    session.feed(&int_frame(17));
    session.feed(&int_frame(0));
    assert!(matches!(session.receive_sums(), Err(RsyncError::Unsupported)));
}

#[test]
fn send_exit_announces_the_close() {
    let mut session = Rsync::new(1, modules());
    session.send_exit();
    assert_eq!(session.take_output(), b"@RSYNCD: EXIT\n".to_vec());
    assert_eq!(session.state(), SessionState::Terminal);
}

#[test]
fn sums_new_keeps_the_header_fields() {
    let sums = rsyncd_core::session::Sums::new(4, 700, 100, 2);
    assert_eq!(sums.block_length, 700);
    assert_eq!(sums.remainder, 100);
    assert_eq!(sums.sum2_length, 2);
    assert_eq!(sums.total_file_length, 0);
    assert!(sums.sum_chunks.is_empty());
}
