use rutinose::cmd::{execute_cmd, parse_cmd, ExecCtx};
use rutinose::frame::Frame;
use rutinose::parse::parse_frame;
use rutinose::rdb::{rdb_load, rdb_save};
use rutinose::repl::{
    count_acks, handshake_start, handshake_step, parse_psync_reply, propagate_frame,
    propagate_frames, psync_decide, Handshake, RepliBackLog, SyncMode,
};
use rutinose::store::KvPairs;
use rutinose::aof::{escape_bytes, unescape_bytes, AofBuffer};

fn ctx() -> ExecCtx {
    ExecCtx {
        is_master: true,
        run_id: b"0123456789012345678901234567890123456789".to_vec(),
        offset: 0,
        requirepass: None,
        authed: false,
    }
}

fn apply(db: &mut KvPairs, now: u64, wire: &[u8]) {
    let (frame, _) = parse_frame(wire, 0).unwrap();
    let cmd = parse_cmd(&frame, now).unwrap();
    let _ = execute_cmd(&cmd, db, now, &ctx());
}

#[test]
fn test_repli_backlog() {
    let repli_backlog = RepliBackLog::new(1024);
    let mut repli_backlog = repli_backlog;
    repli_backlog.force_append(b"hello");
    repli_backlog.force_append(b"world");
    let res = repli_backlog.get_from_end(2);
    assert_eq!(res.unwrap(), b"ld".to_vec());
}

#[test]
fn backlog_drops_the_oldest_bytes() {
    let mut log = RepliBackLog::new(0);
    // The capacity floor is 1024 bytes.
    let chunk = vec![7u8; 1000];
    log.force_append(&chunk);
    log.force_append(&chunk);
    assert_eq!(log.len(), 1024);
    assert_eq!(log.get_from_end(1024).unwrap()[0..976], vec![7u8; 976][..]);
    assert!(log.get_from_end(1025).is_none());
}

#[test]
fn offset_grows_by_the_encoded_length() {
    let mut log = RepliBackLog::new(4096);
    let f1 = Frame::Array(vec![
        Frame::Bulk(b"SET".to_vec()),
        Frame::Bulk(b"a".to_vec()),
        Frame::Bulk(b"1".to_vec()),
    ]);
    let (off, bytes) = propagate_frame(0, &mut log, &f1);
    assert_eq!(off as usize, f1.to_bytes().len());
    assert_eq!(bytes, f1.to_bytes());

    // Over a run of frames the offset is the sum of their lengths.
    let frames = vec![f1.clone(), Frame::Integer(12), Frame::Null];
    let total: u64 = frames.iter().map(|f| f.to_bytes().len() as u64).sum();
    let mut log2 = RepliBackLog::new(4096);
    let end = propagate_frames(100, &mut log2, &frames);
    assert_eq!(end, 100 + total);
}

#[test]
fn wait_counts_acknowledged_followers() {
    let mk = |n: &[u8]| {
        Frame::Array(vec![
            Frame::Bulk(b"REPLCONF".to_vec()),
            Frame::Bulk(b"ACK".to_vec()),
            Frame::Bulk(n.to_vec()),
        ])
    };
    let replies = vec![
        mk(b"500"),
        mk(b"499"),
        mk(b"700"),
        Frame::Simple(b"OK".to_vec()),
        Frame::Array(vec![Frame::Bulk(b"REPLCONF".to_vec())]),
    ];
    assert_eq!(count_acks(&replies, 500), 2);
    assert_eq!(count_acks(&replies, 0), 3);
    assert_eq!(count_acks(&replies, 701), 0);
}

#[test]
fn full_replication_reaches_the_leader_state() {
    // The leader accepts two writes.
    let mut leader = KvPairs::new();
    apply(&mut leader, 0, b"*3\r\n$3\r\nSET\r\n$1\r\na\r\n$1\r\n1\r\n");
    apply(&mut leader, 0, b"*3\r\n$3\r\nSET\r\n$1\r\nb\r\n$1\r\n2\r\n");

    // A follower connects and receives the snapshot, then the backlog.
    let snapshot = rdb_save(&leader.entries(), 1, true, 0).unwrap();
    let mut follower = KvPairs::new();
    for (k, o) in rdb_load(&snapshot, true).unwrap() {
        follower.insert_object(k, o);
    }
    apply(&mut follower, 0, b"*3\r\n$3\r\nSET\r\n$1\r\nc\r\n$1\r\n3\r\n");
    apply(&mut leader, 0, b"*3\r\n$3\r\nSET\r\n$1\r\nc\r\n$1\r\n3\r\n");

    assert_eq!(follower.get(b"a", 1), Some(b"1".to_vec()));
    assert_eq!(follower.get(b"b", 1), Some(b"2".to_vec()));
    assert_eq!(follower.get(b"c", 1), Some(b"3".to_vec()));
    assert_eq!(leader.entries().len(), follower.entries().len());
}

#[test]
fn handshake_walks_to_established() {
    let (st, ping) = handshake_start();
    assert_eq!(st, Handshake::SentPing);
    assert_eq!(ping.to_bytes(), b"*1\r\n$4\r\nPING\r\n");

    let pong = Frame::Simple(b"PONG".to_vec());
    let ok = Frame::Simple(b"OK".to_vec());
    let auth: Option<Vec<u8>> = None;
    let replid: Option<Vec<u8>> = None;

    let (st, send, mode) = handshake_step(st, &pong, &auth, 6000, &replid, None).unwrap();
    assert_eq!(st, Handshake::SentPort);
    assert!(mode.is_none());
    assert_eq!(
        send.unwrap().to_bytes(),
        b"*3\r\n$8\r\nREPLCONF\r\n$14\r\nlistening-port\r\n$4\r\n6000\r\n"
    );

    let (st, send, _) = handshake_step(st, &ok, &auth, 6000, &replid, None).unwrap();
    assert_eq!(st, Handshake::SentCapa);
    assert_eq!(send.unwrap().to_bytes(), b"*3\r\n$8\r\nREPLCONF\r\n$4\r\ncapa\r\n$6\r\npsync2\r\n");

    let (st, send, _) = handshake_step(st, &ok, &auth, 6000, &replid, None).unwrap();
    assert_eq!(st, Handshake::SentPsync);
    assert_eq!(send.unwrap().to_bytes(), b"*3\r\n$5\r\nPSYNC\r\n$1\r\n?\r\n$2\r\n-1\r\n");

    let reply = Frame::Simple(b"FULLRESYNC 0123456789012345678901234567890123456789 0".to_vec());
    let (st, send, mode) = handshake_step(st, &reply, &auth, 6000, &replid, None).unwrap();
    assert_eq!(st, Handshake::Established);
    assert!(send.is_none());
    match mode.unwrap() {
        SyncMode::FullSync { replid, offset } => {
            assert_eq!(replid, b"0123456789012345678901234567890123456789".to_vec());
            assert_eq!(offset, 0);
        }
        SyncMode::PartialSync => panic!("expected a full resync"),
    }

    // A wrong reply fails the handshake.
    assert!(handshake_step(Handshake::SentPing, &ok, &auth, 6000, &replid, None).is_err());
}

#[test]
fn psync_reply_lines_parse() {
    assert!(matches!(parse_psync_reply(b"CONTINUE"), Ok(SyncMode::PartialSync)));
    match parse_psync_reply(b"FULLRESYNC abcdef 123").unwrap() {
        SyncMode::FullSync { replid, offset } => {
            assert_eq!(replid, b"abcdef".to_vec());
            assert_eq!(offset, 123);
        }
        _ => panic!("expected full"),
    }
    assert!(parse_psync_reply(b"FULLRESYNC noffset").is_err());
    assert!(parse_psync_reply(b"NONSENSE").is_err());
}

#[test]
fn psync_decides_between_full_and_partial() {
    let run_id = b"0123456789012345678901234567890123456789";
    let mut log = RepliBackLog::new(4096);
    log.force_append(b"0123456789");

    // A stranger or a too-old offset gets a full resync.
    let (header, replay) = psync_decide(run_id, 10, &None, None, &log);
    assert_eq!(header.to_bytes(), b"+FULLRESYNC 0123456789012345678901234567890123456789 10\r\n");
    assert!(replay.is_none());

    // A follower on this epoch within the backlog window continues.
    let (header, replay) = psync_decide(run_id, 10, &Some(run_id.to_vec()), Some(6), &log);
    assert_eq!(header.to_bytes(), b"+CONTINUE\r\n");
    assert_eq!(replay.unwrap(), b"6789".to_vec());
}

#[test]
fn aof_lines_round_trip() {
    let frame = Frame::Array(vec![
        Frame::Bulk(b"SET".to_vec()),
        Frame::Bulk(b"key".to_vec()),
        Frame::Bulk(b"val".to_vec()),
    ]);
    let mut buf = AofBuffer::new();
    buf.append(&frame);
    let line = buf.take();
    assert!(buf.take().is_empty());
    // The escaped line carries no raw CRLF and ends with a newline.
    assert_eq!(line.last(), Some(&10u8));
    let escaped = &line[..line.len() - 1];
    assert!(!escaped.windows(2).any(|w| w == b"\r\n"));
    assert_eq!(unescape_bytes(escaped), frame.to_bytes());
    // Escape and unescape agree on the raw encoding too.
    assert_eq!(unescape_bytes(&escape_bytes(&frame.to_bytes())), frame.to_bytes());
}

#[test]
fn run_id_is_forty_alphanumerics() {
    let id = rutinose::conf::Conf::generate_run_id();
    assert_eq!(id.len(), 40);
    assert!(id.iter().all(|b| b.is_ascii_alphanumeric()));
    let conf = rutinose::conf::Conf::new();
    assert_eq!(conf.server.port, 6379);
    assert_eq!(conf.server.run_id.len(), 40);
    let other = rutinose::conf::Conf::generate_run_id();
    // Two draws of a 40-character random identity are distinct.
    assert_ne!(id, other);
}
