use respkv::command::{parse_command, parse_ttl, Command, ProtocolError, Section};
use respkv::decoder::{decode_frame, Frame};
use respkv::protocol_parser::{parse_protocol, ParseOutcome};
use respkv::resp::{bulk_string, encode_array, error_reply, null_bulk, simple_string};

fn items(words: &[&str]) -> Vec<Vec<u8>> {
    words.iter().map(|w| w.as_bytes().to_vec()).collect()
}

#[test]
fn reply_encodings() {
    assert_eq!(simple_string(b"PONG"), b"+PONG\r\n".to_vec());
    assert_eq!(bulk_string(b"hello"), b"$5\r\nhello\r\n".to_vec());
    assert_eq!(bulk_string(b""), b"$0\r\n\r\n".to_vec());
    assert_eq!(null_bulk(), b"$-1\r\n".to_vec());
    assert_eq!(error_reply(b"ERR x"), b"-ERR x\r\n".to_vec());
    let long = vec![b'a'; 1234];
    let encoded = bulk_string(&long);
    assert!(encoded.starts_with(b"$1234\r\n"));
}

#[test]
fn encode_array_of_bulk_strings() {
    let encoded = encode_array(&items(&["REPLCONF", "capa", "psync2"]));
    assert_eq!(encoded, b"*3\r\n$8\r\nREPLCONF\r\n$4\r\ncapa\r\n$6\r\npsync2\r\n".to_vec());
}

#[test]
fn decode_one_frame() {
    match decode_frame(b"*2\r\n$4\r\nECHO\r\n$5\r\nhello\r\n") {
        Frame::Complete { items, consumed } => {
            assert_eq!(items, vec![b"ECHO".to_vec(), b"hello".to_vec()]);
            assert_eq!(consumed, 25);
        }
        _ => panic!("expected a complete frame"),
    }
}

#[test]
fn decode_incomplete_and_malformed() {
    assert!(matches!(decode_frame(b""), Frame::Incomplete));
    assert!(matches!(decode_frame(b"*"), Frame::Incomplete));
    assert!(matches!(decode_frame(b"*1\r"), Frame::Incomplete));
    assert!(matches!(decode_frame(b"*1\r\n$4\r\nPI"), Frame::Incomplete));
    assert!(matches!(decode_frame(b"*1\r\n$4\r\nPING\r"), Frame::Incomplete));
    assert!(matches!(decode_frame(b"PING\r\n"), Frame::Malformed));
    assert!(matches!(decode_frame(b"*x\r\n"), Frame::Malformed));
    assert!(matches!(decode_frame(b"*1\r\n+PING\r\n"), Frame::Malformed));
    assert!(matches!(decode_frame(b"*1\r\n$4\r\nPINGxx"), Frame::Malformed));
    assert!(matches!(decode_frame(b"*1234567890\r\n"), Frame::Malformed));
}

#[test]
fn decode_split_frame() {
    let whole: &[u8] = b"*3\r\n$3\r\nSET\r\n$1\r\nk\r\n$1\r\nv\r\n";
    for split in 0..whole.len() {
        assert!(matches!(decode_frame(&whole[..split]), Frame::Incomplete), "split at {}", split);
    }
    assert!(matches!(decode_frame(whole), Frame::Complete { consumed, .. } if consumed == whole.len()));
}

#[test]
fn decode_pipelined_frames() {
    let buf: &[u8] = b"*1\r\n$4\r\nPING\r\n*1\r\n$4\r\nPING\r\n";
    match decode_frame(buf) {
        Frame::Complete { consumed, .. } => assert_eq!(consumed, 14),
        _ => panic!("expected a complete frame"),
    }
}

#[test]
fn parse_each_command() {
    assert!(matches!(parse_command(&items(&["ping"])), Ok(Command::Ping)));
    assert!(matches!(parse_command(&items(&["Echo", "hi"])), Ok(Command::Echo { message }) if message == b"hi"));
    assert!(matches!(parse_command(&items(&["INFO"])), Ok(Command::Info { section: Section::All })));
    assert!(matches!(parse_command(&items(&["info", "replication"])),
        Ok(Command::Info { section: Section::Named(n) }) if n == b"replication"));
    assert!(matches!(parse_command(&items(&["get", "k"])), Ok(Command::Get { key }) if key == b"k"));
    assert!(matches!(parse_command(&items(&["set", "k", "v"])),
        Ok(Command::SetValue { key, value, ttl_ms: None }) if key == b"k" && value == b"v"));
    assert!(matches!(parse_command(&items(&["SET", "k", "v", "px", "100"])),
        Ok(Command::SetValue { ttl_ms: Some(100), .. })));
}

#[test]
fn parse_errors() {
    assert!(matches!(parse_command(&vec![]), Err(ProtocolError::EmptyCommand)));
    assert!(matches!(parse_command(&items(&["FLUSHALL"])),
        Err(ProtocolError::UnknownCommand { verb }) if verb == b"FLUSHALL"));
    assert!(matches!(parse_command(&items(&["PING", "x"])), Err(ProtocolError::WrongArity { .. })));
    assert!(matches!(parse_command(&items(&["ECHO"])), Err(ProtocolError::WrongArity { .. })));
    assert!(matches!(parse_command(&items(&["INFO", "a", "b"])), Err(ProtocolError::WrongArity { .. })));
    assert!(matches!(parse_command(&items(&["GET"])), Err(ProtocolError::WrongArity { .. })));
    assert!(matches!(parse_command(&items(&["SET", "k"])), Err(ProtocolError::WrongArity { .. })));
    assert!(matches!(parse_command(&items(&["SET", "k", "v", "EX", "10"])), Err(ProtocolError::SyntaxError)));
    assert!(matches!(parse_command(&items(&["SET", "k", "v", "PX", "ten"])), Err(ProtocolError::InvalidInteger)));
    assert!(matches!(parse_command(&items(&["SET", "k", "v", "PX", "-5"])), Err(ProtocolError::InvalidInteger)));
}

#[test]
fn error_reply_texts() {
    let unknown = ProtocolError::UnknownCommand { verb: b"FOO".to_vec() };
    assert_eq!(unknown.reply(), b"-ERR unknown command 'FOO'\r\n".to_vec());
    let arity = ProtocolError::WrongArity { verb: b"get".to_vec() };
    assert_eq!(arity.reply(), b"-ERR wrong number of arguments for 'get' command\r\n".to_vec());
    assert_eq!(ProtocolError::SyntaxError.reply(), b"-ERR syntax error\r\n".to_vec());
    assert_eq!(ProtocolError::EmptyCommand.reply(), b"-ERR empty command\r\n".to_vec());
    assert_eq!(ProtocolError::InvalidInteger.reply(),
        b"-ERR value is not an integer or out of range\r\n".to_vec());
}

#[test]
fn ttl_limits() {
    assert_eq!(parse_ttl(b"0"), Some(0));
    assert_eq!(parse_ttl(b"18446744073709551615"), Some(u64::MAX));
    assert_eq!(parse_ttl(b"18446744073709551616"), None);
    assert_eq!(parse_ttl(b""), None);
    assert_eq!(parse_ttl(b"1x"), None);
}

#[test]
fn parse_protocol_outcomes() {
    assert!(matches!(parse_protocol(b"*1\r\n$4\r"), ParseOutcome::Incomplete));
    assert!(matches!(parse_protocol(b"hello"), ParseOutcome::Corrupt));
    match parse_protocol(b"*1\r\n$3\r\nFOO\r\nrest") {
        ParseOutcome::Parsed { command: Err(ProtocolError::UnknownCommand { .. }), consumed } => {
            assert_eq!(consumed, 13)
        }
        _ => panic!("expected a parsed frame"),
    }
}
