use rutinose::cmd::{execute_cmd, parse_cmd, pre_auth_check, error_reply, Cmd, Effect, ExecCtx};
use rutinose::frame::Frame;
use rutinose::parse::parse_frame;
use rutinose::store::KvPairs;

fn ctx() -> ExecCtx {
    ExecCtx {
        is_master: true,
        run_id: b"0123456789012345678901234567890123456789".to_vec(),
        offset: 0,
        requirepass: None,
        authed: false,
    }
}

fn run(db: &mut KvPairs, now: u64, wire: &[u8]) -> Vec<u8> {
    let (frame, used) = parse_frame(wire, 0).expect("frame");
    assert_eq!(used, wire.len());
    match parse_cmd(&frame, now) {
        Ok(cmd) => {
            let (reply, _effect) = execute_cmd(&cmd, db, now, &ctx());
            reply.expect("reply").to_bytes()
        }
        Err(e) => error_reply(&e).to_bytes(),
    }
}

#[test]
fn set_get_del_scenario() {
    let mut db = KvPairs::new();
    let t: u64 = 0;
    assert_eq!(run(&mut db, t, b"*3\r\n$3\r\nSET\r\n$3\r\nkey\r\n$3\r\nval\r\n"), b"+OK\r\n");
    assert_eq!(run(&mut db, t, b"*2\r\n$3\r\nGET\r\n$3\r\nkey\r\n"), b"$3\r\nval\r\n");
    assert_eq!(run(&mut db, t, b"*2\r\n$3\r\nDEL\r\n$3\r\nkey\r\n"), b":1\r\n");
    assert_eq!(run(&mut db, t, b"*2\r\n$3\r\nGET\r\n$3\r\nkey\r\n"), b"$-1\r\n");
}

#[test]
fn set_with_px_expires() {
    let mut db = KvPairs::new();
    assert_eq!(
        run(&mut db, 0, b"*5\r\n$3\r\nSET\r\n$1\r\nk\r\n$1\r\nv\r\n$2\r\nPX\r\n$3\r\n100\r\n"),
        b"+OK\r\n"
    );
    assert_eq!(run(&mut db, 50, b"*2\r\n$3\r\nGET\r\n$1\r\nk\r\n"), b"$1\r\nv\r\n");
    // 200 milliseconds later the key is gone.
    assert_eq!(run(&mut db, 200, b"*2\r\n$3\r\nGET\r\n$1\r\nk\r\n"), b"$-1\r\n");
}

#[test]
fn set_with_ex_zero_is_invalid() {
    let mut db = KvPairs::new();
    assert_eq!(
        run(&mut db, 0, b"*5\r\n$3\r\nSET\r\n$1\r\nk\r\n$1\r\nv\r\n$2\r\nEX\r\n$1\r\n0\r\n"),
        b"-ERR invalid expire time\r\n"
    );
}

#[test]
fn get_on_expired_key_returns_null_and_removes() {
    let mut db = KvPairs::new();
    db.set(b"k", b"v".to_vec(), Some(100));
    assert_eq!(run(&mut db, 200, b"*2\r\n$3\r\nGET\r\n$1\r\nk\r\n"), b"$-1\r\n");
    // The entry itself is gone, not merely hidden.
    assert_eq!(db.entries().len(), 0);
}

#[test]
fn ping_and_echo() {
    let mut db = KvPairs::new();
    assert_eq!(run(&mut db, 0, b"*1\r\n$4\r\nping\r\n"), b"+PONG\r\n");
    assert_eq!(run(&mut db, 0, b"*2\r\n$4\r\nECHO\r\n$3\r\nhey\r\n"), b"$3\r\nhey\r\n");
    assert_eq!(run(&mut db, 0, b"*2\r\n$7\r\nCOMMAND\r\n$4\r\nDOCS\r\n"), b"*0\r\n");
}

#[test]
fn unknown_command_and_arity_errors() {
    let mut db = KvPairs::new();
    assert_eq!(
        run(&mut db, 0, b"*1\r\n$5\r\nHELLO\r\n"),
        b"-ERR unknown command 'HELLO'\r\n"
    );
    assert_eq!(
        run(&mut db, 0, b"*1\r\n$4\r\nECHO\r\n"),
        b"-ERR wrong number of arguments for 'echo' command\r\n"
    );
}

#[test]
fn del_counts_only_live_keys() {
    let mut db = KvPairs::new();
    db.set(b"a", b"1".to_vec(), None);
    db.set(b"b", b"2".to_vec(), Some(100));
    assert_eq!(
        run(&mut db, 200, b"*4\r\n$3\r\nDEL\r\n$1\r\na\r\n$1\r\nb\r\n$1\r\nc\r\n"),
        b":1\r\n"
    );
}

#[test]
fn info_section_name_is_case_insensitive() {
    let mut db = KvPairs::new();
    let a = run(&mut db, 0, b"*2\r\n$4\r\nINFO\r\n$11\r\nREPLICATION\r\n");
    let b = run(&mut db, 0, b"*2\r\n$4\r\ninfo\r\n$11\r\nreplication\r\n");
    assert_eq!(a, b);
}

#[test]
fn info_reports_role_and_offset() {
    let mut db = KvPairs::new();
    let reply = run(&mut db, 0, b"*2\r\n$4\r\nINFO\r\n$11\r\nreplication\r\n");
    let text = b"role:master\r\nmaster_replid:0123456789012345678901234567890123456789\r\nmaster_repl_offset:0\r\n";
    let mut expected = format!("${}\r\n", text.len()).into_bytes();
    expected.extend_from_slice(text);
    expected.extend_from_slice(b"\r\n");
    assert_eq!(reply, expected);
}

#[test]
fn auth_gate_and_password_check() {
    let mut db = KvPairs::new();
    let guarded = ExecCtx {
        is_master: true,
        run_id: b"0123456789012345678901234567890123456789".to_vec(),
        offset: 0,
        requirepass: Some(b"sesame".to_vec()),
        authed: false,
    };
    // Non-AUTH commands are refused before execution.
    let (frame, _) = parse_frame(b"*2\r\n$3\r\nGET\r\n$1\r\nk\r\n", 0).unwrap();
    let cmd = parse_cmd(&frame, 0).unwrap();
    let gate = pre_auth_check(&cmd, &guarded).expect("gated");
    assert_eq!(gate.to_bytes(), b"-NOAUTH Authentication required\r\n");

    // A wrong password is rejected; the right one succeeds.
    let (frame, _) = parse_frame(b"*2\r\n$4\r\nAUTH\r\n$5\r\nwrong\r\n", 0).unwrap();
    let cmd = parse_cmd(&frame, 0).unwrap();
    assert!(pre_auth_check(&cmd, &guarded).is_none());
    let (reply, effect) = execute_cmd(&cmd, &mut db, 0, &guarded);
    assert_eq!(reply.unwrap().to_bytes(), b"-ERR invalid password\r\n");
    assert_eq!(effect, Effect::SetAuthed(false));

    let (frame, _) = parse_frame(b"*2\r\n$4\r\nAUTH\r\n$6\r\nsesame\r\n", 0).unwrap();
    let cmd = parse_cmd(&frame, 0).unwrap();
    let (reply, effect) = execute_cmd(&cmd, &mut db, 0, &guarded);
    assert_eq!(reply.unwrap().to_bytes(), b"+OK\r\n");
    assert_eq!(effect, Effect::SetAuthed(true));
}

#[test]
fn replconf_and_getack() {
    let mut db = KvPairs::new();
    let mut c = ctx();
    c.offset = 120;
    let (frame, _) = parse_frame(b"*3\r\n$8\r\nreplconf\r\n$6\r\ngetack\r\n$1\r\n*\r\n", 0).unwrap();
    let cmd = parse_cmd(&frame, 0).unwrap();
    let (reply, _) = execute_cmd(&cmd, &mut db, 0, &c);
    assert_eq!(
        reply.unwrap().to_bytes(),
        b"*3\r\n$8\r\nREPLCONF\r\n$3\r\nACK\r\n$3\r\n120\r\n"
    );

    let (frame, _) = parse_frame(b"*3\r\n$8\r\nreplconf\r\n$14\r\nlistening-port\r\n$4\r\n6000\r\n", 0)
        .unwrap();
    let cmd = parse_cmd(&frame, 0).unwrap();
    let (reply, _) = execute_cmd(&cmd, &mut db, 0, &c);
    assert_eq!(reply.unwrap().to_bytes(), b"+OK\r\n");
}

#[test]
fn set_propagates_only_on_the_leader() {
    let mut db = KvPairs::new();
    let (frame, _) = parse_frame(b"*3\r\n$3\r\nSET\r\n$1\r\na\r\n$1\r\n1\r\n", 0).unwrap();
    let cmd = parse_cmd(&frame, 0).unwrap();
    let (_, effect) = execute_cmd(&cmd, &mut db, 0, &ctx());
    assert_eq!(effect, Effect::Propagate);
    let mut follower_ctx = ctx();
    follower_ctx.is_master = false;
    let (_, effect) = execute_cmd(&cmd, &mut db, 0, &follower_ctx);
    assert_eq!(effect, Effect::Nothing);
}

#[test]
fn bgsave_schedules_a_snapshot() {
    let mut db = KvPairs::new();
    let (frame, _) = parse_frame(b"*1\r\n$6\r\nBGSAVE\r\n", 0).unwrap();
    let cmd = parse_cmd(&frame, 0).unwrap();
    assert!(matches!(cmd, Cmd::BgSave(_)));
    let (reply, effect) = execute_cmd(&cmd, &mut db, 0, &ctx());
    assert_eq!(reply.unwrap().to_bytes(), b"+Background saving scheduled\r\n");
    assert_eq!(effect, Effect::ScheduleSnapshot);
}
