use respkv::command::{Command, Section};
use respkv::command_handling::{dispatch, join_with_crlf, CommandHandler};
use respkv::replica::{HandshakeError, HandshakeStep};
use respkv::server::{generate_server_id, hex_encode, MasterServerInfo, ServerInfo};
use respkv::session::{Request, Session};
use respkv::store::{CacheValue, Store};

fn set(key: &str, value: &str, ttl_ms: Option<u64>) -> Command {
    Command::SetValue { key: key.as_bytes().to_vec(), value: value.as_bytes().to_vec(), ttl_ms }
}

fn get(key: &str) -> Command {
    Command::Get { key: key.as_bytes().to_vec() }
}

fn primary() -> ServerInfo {
    ServerInfo::new_master("127.0.0.1:6379")
}

#[test]
fn ping_ignores_store() {
    let info = primary();
    let mut store = Store::new();
    assert_eq!(dispatch(&info, &mut store, &Command::Ping, 0), b"+PONG\r\n".to_vec());
    dispatch(&info, &mut store, &set("a", "1", None), 0);
    assert_eq!(dispatch(&info, &mut store, &Command::Ping, 5), b"+PONG\r\n".to_vec());
}

#[test]
fn echo_hello() {
    let info = primary();
    let mut store = Store::new();
    let echo = Command::Echo { message: b"hello".to_vec() };
    assert_eq!(dispatch(&info, &mut store, &echo, 0), b"$5\r\nhello\r\n".to_vec());
}

#[test]
fn set_then_get() {
    let info = primary();
    let mut store = Store::new();
    assert_eq!(dispatch(&info, &mut store, &set("k", "v", None), 1000), b"+OK\r\n".to_vec());
    assert_eq!(dispatch(&info, &mut store, &get("k"), 1000), b"$1\r\nv\r\n".to_vec());
    assert_eq!(dispatch(&info, &mut store, &get("k"), i64::MAX), b"$1\r\nv\r\n".to_vec());
}

#[test]
fn get_absent_key() {
    let info = primary();
    let mut store = Store::new();
    assert_eq!(dispatch(&info, &mut store, &get("missing"), 0), b"$-1\r\n".to_vec());
}

#[test]
fn set_with_px_expires() {
    let info = primary();
    let mut store = Store::new();
    dispatch(&info, &mut store, &set("k", "v", Some(100)), 1000);
    assert_eq!(dispatch(&info, &mut store, &get("k"), 1000), b"$1\r\nv\r\n".to_vec());
    assert_eq!(dispatch(&info, &mut store, &get("k"), 1099), b"$1\r\nv\r\n".to_vec());
    assert_eq!(dispatch(&info, &mut store, &get("k"), 1100), b"$-1\r\n".to_vec());
    assert_eq!(dispatch(&info, &mut store, &get("k"), 5000), b"$-1\r\n".to_vec());
}

#[test]
fn second_set_drops_expiry() {
    let info = primary();
    let mut store = Store::new();
    dispatch(&info, &mut store, &set("k", "old", Some(10)), 0);
    dispatch(&info, &mut store, &set("k", "new", None), 5);
    assert_eq!(dispatch(&info, &mut store, &get("k"), 1_000_000), b"$3\r\nnew\r\n".to_vec());
}

#[test]
fn disjoint_keys_keep_their_values() {
    let info = primary();
    let mut store = Store::new();
    dispatch(&info, &mut store, &set("a", "1", None), 0);
    dispatch(&info, &mut store, &set("b", "2", Some(50)), 0);
    dispatch(&info, &mut store, &set("a", "3", None), 1);
    assert_eq!(dispatch(&info, &mut store, &get("a"), 10), b"$1\r\n3\r\n".to_vec());
    assert_eq!(dispatch(&info, &mut store, &get("b"), 10), b"$1\r\n2\r\n".to_vec());
}

#[test]
fn info_on_primary() {
    let info = ServerInfo::new_master_with_id("127.0.0.1:6379", &[0xab; 20]);
    let lines = info.replication_info();
    assert_eq!(lines.len(), 3);
    assert_eq!(lines[0], b"role:master".to_vec());
    assert_eq!(lines[1], format!("master_replid:{}", "AB".repeat(20)).into_bytes());
    assert_eq!(lines[2], b"master_repl_offset:0".to_vec());
    let mut store = Store::new();
    let reply = dispatch(&info, &mut store, &Command::Info { section: Section::Named(b"replication".to_vec()) }, 0);
    let payload = format!("role:master\r\nmaster_replid:{}\r\nmaster_repl_offset:0", "AB".repeat(20));
    assert_eq!(reply, format!("${}\r\n{}\r\n", payload.len(), payload).into_bytes());
    let all = dispatch(&info, &mut store, &Command::Info { section: Section::All }, 0);
    assert_eq!(all, reply);
    let other = dispatch(&info, &mut store, &Command::Info { section: Section::Named(b"memory".to_vec()) }, 0);
    assert_eq!(other, b"$0\r\n\r\n".to_vec());
}

#[test]
fn info_on_replica() {
    let info = ServerInfo::new_slave("127.0.0.1:6380", "127.0.0.1:6379");
    assert_eq!(info.replication_info(), vec![b"role:slave".to_vec()]);
    let mut store = Store::new();
    let reply = dispatch(&info, &mut store, &Command::Info { section: Section::All }, 0);
    assert_eq!(reply, b"$10\r\nrole:slave\r\n".to_vec());
}

#[test]
fn random_replication_id() {
    let info = primary();
    let lines = info.replication_info();
    let id = &lines[1][b"master_replid:".len()..];
    assert_eq!(id.len(), 40);
    assert!(id.iter().all(|b| b.is_ascii_hexdigit()));
    assert_ne!(id, "0".repeat(40).as_bytes());
    let fresh = generate_server_id();
    assert_eq!(fresh.len(), 40);
}

#[test]
fn hex_and_offsets() {
    assert_eq!(hex_encode(&[0x00, 0x0f, 0xa5, 0xff]), b"000FA5FF".to_vec());
    let info = ServerInfo {
        addr: "a".to_string(),
        role: respkv::server::ServerRole::Primary(MasterServerInfo::new("abc", -42)),
    };
    assert_eq!(info.replication_info()[2], b"master_repl_offset:-42".to_vec());
    assert_eq!(info.replication_info()[1], b"master_replid:abc".to_vec());
    assert_eq!(join_with_crlf(&vec![b"a".to_vec(), b"b".to_vec()]), b"a\r\nb".to_vec());
}

#[test]
fn cache_value_expiry() {
    let fresh = CacheValue::new(b"v", Some(3_600_000));
    assert!(!fresh.is_expired());
    let forever = CacheValue::new(b"v", None);
    assert!(!forever.is_expired());
    let gone = CacheValue::new(b"v", Some(0));
    assert!(gone.is_expired());
    let at = CacheValue::new_at(b"v", Some(10), 100);
    assert_eq!(at.expires_at, Some(110));
    assert!(!at.is_expired_at(109));
    assert!(at.is_expired_at(110));
}

#[test]
fn handler_uses_clock() {
    let mut handler = CommandHandler;
    let session = Session::new(primary());
    let mut store = Store::new();
    handler.handle(&session, &mut store, set("k", "v", Some(3_600_000)));
    assert_eq!(handler.handle(&session, &mut store, get("k")), b"$1\r\nv\r\n".to_vec());
    handler.handle(&session, &mut store, set("gone", "v", Some(0)));
    assert_eq!(handler.handle(&session, &mut store, get("gone")), b"$-1\r\n".to_vec());
}

#[test]
fn session_split_and_pipelined() {
    let mut session = Session::new(primary());
    session.receive(b"*2\r\n$4\r\nECHO\r\n$5\r\nhel");
    assert!(matches!(session.next_request(), Request::NeedMore));
    session.receive(b"lo\r\n*1\r\n$4\r\nPING\r\n*1\r\n$3\r\nBAD\r\n");
    assert!(matches!(session.next_request(), Request::Execute(Command::Echo { message }) if message == b"hello"));
    assert!(matches!(session.next_request(), Request::Execute(Command::Ping)));
    assert!(matches!(session.next_request(), Request::Reply(r) if r == b"-ERR unknown command 'BAD'\r\n".to_vec()));
    assert!(matches!(session.next_request(), Request::NeedMore));
    assert!(session.buffer.is_empty());
    session.receive(b"GET k\r\n");
    assert!(matches!(session.next_request(), Request::Close));
}

#[test]
fn handshake_requests_and_replies() {
    assert_eq!(HandshakeStep::Ping.request(6380), b"*1\r\n$4\r\nPING\r\n".to_vec());
    assert_eq!(HandshakeStep::ListeningPort.request(6380),
        b"*3\r\n$8\r\nREPLCONF\r\n$14\r\nlistening-port\r\n$4\r\n6380\r\n".to_vec());
    assert_eq!(HandshakeStep::Capabilities.request(6380),
        b"*3\r\n$8\r\nREPLCONF\r\n$4\r\ncapa\r\n$6\r\npsync2\r\n".to_vec());
    assert!(matches!(HandshakeStep::Ping.advance(b"+PONG\r\n"), Ok(HandshakeStep::ListeningPort)));
    assert!(matches!(HandshakeStep::ListeningPort.advance(b"+OK\r\n"), Ok(HandshakeStep::Capabilities)));
    assert!(matches!(HandshakeStep::Capabilities.advance(b"+OK\r\n"), Ok(HandshakeStep::Done)));
}

#[test]
fn handshake_rejects_other_replies() {
    assert!(matches!(HandshakeStep::Ping.advance(b"+OK\r\n"),
        Err(HandshakeError::UnexpectedReply { step: HandshakeStep::Ping, .. })));
    assert!(matches!(HandshakeStep::ListeningPort.advance(b"-ERR no\r\n"),
        Err(HandshakeError::UnexpectedReply { step: HandshakeStep::ListeningPort, reply }) if reply == b"-ERR no\r\n"));
    assert!(matches!(HandshakeStep::Capabilities.advance(b""), Err(_)));
    assert!(matches!(HandshakeStep::Ping.advance(b"+pong\r\n"), Err(_)));
}

#[test]
fn two_sessions_interleaved_on_disjoint_keys() {
    let mut handler = CommandHandler;
    let a = Session::new(primary());
    let b = Session::new(primary());
    let mut store = Store::new();
    handler.handle(&a, &mut store, set("a1", "x", None));
    handler.handle(&b, &mut store, set("b1", "y", None));
    handler.handle(&b, &mut store, set("b1", "z", Some(3_600_000)));
    assert_eq!(handler.handle(&a, &mut store, get("a1")), b"$1\r\nx\r\n".to_vec());
    handler.handle(&a, &mut store, set("a1", "w", None));
    assert_eq!(handler.handle(&b, &mut store, get("b1")), b"$1\r\nz\r\n".to_vec());
    assert_eq!(handler.handle(&a, &mut store, get("a1")), b"$1\r\nw\r\n".to_vec());
    assert_eq!(handler.handle(&b, &mut store, get("a2")), b"$-1\r\n".to_vec());
}
