use std::io::{BufRead, BufReader, Cursor, Read};

use mpd_client::{
    BinaryMpdResponse, ErrorCode, FromMpd, IoFailure, LineHandled, MpdError, MpdFailureResponse,
    MpdLine, ProtoClient, SocketClient, MAX_RECONNECTS,
};

#[derive(Default, Debug, PartialEq, Eq)]
struct TestMpdObject {
    val_a: String,
    val_b: String,
}

impl FromMpd for TestMpdObject {
    fn next_internal(&mut self, key: &str, value: String) -> Result<LineHandled, MpdError> {
        if key == "fail" {
            return Err(MpdError::Generic(String::from("intentional fail")));
        }
        match key {
            "val_a" => self.val_a = value,
            "val_b" => self.val_b = value,
            _ => return Err(MpdError::Generic(String::from("unknown value"))),
        }
        Ok(LineHandled::Yes)
    }
}

fn io_failure(e: std::io::Error) -> IoFailure {
    IoFailure {
        broken_pipe: e.kind() == std::io::ErrorKind::BrokenPipe,
        message: e.to_string(),
    }
}

struct TestClient {
    read: BufReader<Cursor<Vec<u8>>>,
}

impl TestClient {
    fn new(buf: &[u8]) -> Self {
        Self {
            read: BufReader::new(Cursor::new(buf.to_vec())),
        }
    }
}

impl SocketClient for TestClient {
    fn reconnect(&mut self) -> Result<(), MpdError> {
        Ok(())
    }

    fn write(&mut self, _bytes: &[u8]) -> Result<(), IoFailure> {
        Ok(())
    }

    fn read_line(&mut self) -> Result<String, IoFailure> {
        let mut line = String::new();
        match self.read.read_line(&mut line) {
            Ok(_) => Ok(line),
            Err(e) => Err(io_failure(e)),
        }
    }

    fn read_bytes(&mut self, count: u64) -> Result<Vec<u8>, IoFailure> {
        let mut buf = Vec::new();
        match (&mut self.read).take(count).read_to_end(&mut buf) {
            Ok(_) => Ok(buf),
            Err(e) => Err(io_failure(e)),
        }
    }
}

fn player_sync_failure() -> MpdFailureResponse {
    MpdFailureResponse {
        code: ErrorCode::PlayerSync,
        command_list_index: 2,
        command: "some_cmd".to_string(),
        message: "error message boi".to_string(),
    }
}

#[test]
fn returns_ok() {
    let result = ProtoClient::<TestClient>::read_line(&mut TestClient::new(b"OK enenene"));

    assert_eq!(Ok(MpdLine::Terminator), result);
}

#[test]
fn returns_ok_for_list_ok() {
    let result = ProtoClient::<TestClient>::read_line(&mut TestClient::new(b"list_OK enenene"));

    assert_eq!(Ok(MpdLine::Terminator), result);
}

#[test]
fn returns_mpd_err() {
    let err = player_sync_failure();

    let result = ProtoClient::<TestClient>::read_line(&mut TestClient::new(
        b"ACK [55@2] {some_cmd} error message boi",
    ));

    assert_eq!(Err(MpdError::Mpd(err)), result);
}

#[test]
fn returns_client_closed_on_broken_pipe() {
    struct Mock;
    impl SocketClient for Mock {
        fn reconnect(&mut self) -> Result<(), MpdError> {
            Ok(())
        }
        fn write(&mut self, _bytes: &[u8]) -> Result<(), IoFailure> {
            Ok(())
        }
        fn read_line(&mut self) -> Result<String, IoFailure> {
            Err(io_failure(std::io::Error::from(
                std::io::ErrorKind::BrokenPipe,
            )))
        }
        fn read_bytes(&mut self, _count: u64) -> Result<Vec<u8>, IoFailure> {
            Err(io_failure(std::io::Error::from(
                std::io::ErrorKind::BrokenPipe,
            )))
        }
    }

    let result = ProtoClient::<Mock>::read_line(&mut Mock);

    assert_eq!(Err(MpdError::ClientClosed), result);
}

#[test]
fn proto_client_parses_correct_response() {
    let buf: &[u8] = b"val_b: a\nval_a: 5\nOK\n";

    let result = ProtoClient::new("", &mut TestClient::new(buf))
        .unwrap()
        .read_response::<TestMpdObject>();

    assert_eq!(
        result,
        Ok(TestMpdObject {
            val_a: "5".to_owned(),
            val_b: "a".to_owned()
        })
    );
}

#[test]
fn proto_client_returns_parse_error() {
    let buf: &[u8] = b"fail: lol\nOK\n";

    let result = ProtoClient::new("", &mut TestClient::new(buf))
        .unwrap()
        .read_response::<TestMpdObject>();

    assert_eq!(result, Err(MpdError::Generic(String::from("intentional fail"))));
}

#[test]
fn proto_client_returns_mpd_error() {
    let buf: &[u8] = b"ACK [55@2] {some_cmd} error message boi\n";
    let err = player_sync_failure();

    let result = ProtoClient::new("", &mut TestClient::new(buf))
        .unwrap()
        .read_response::<TestMpdObject>();

    assert_eq!(result, Err(MpdError::Mpd(err)));
}

#[test]
fn parses_correct_response() {
    let buf: &[u8] = b"val_b: a\nval_a: 5\nOK\n";

    let result = ProtoClient::new("", &mut TestClient::new(buf))
        .unwrap()
        .read_opt_response::<TestMpdObject>();

    assert_eq!(
        result,
        Ok(Some(TestMpdObject {
            val_a: "5".to_owned(),
            val_b: "a".to_owned()
        }))
    );
}

#[test]
fn returns_none() {
    let buf: &[u8] = b"OK\n";

    let result = ProtoClient::new("", &mut TestClient::new(buf))
        .unwrap()
        .read_opt_response::<TestMpdObject>();

    assert_eq!(result, Ok(None));
}

#[test]
fn returns_parse_error() {
    let buf: &[u8] = b"fail: lol\nOK\n";

    let result = ProtoClient::new("", &mut TestClient::new(buf))
        .unwrap()
        .read_opt_response::<TestMpdObject>();

    assert_eq!(result, Err(MpdError::Generic(String::from("intentional fail"))));
}

#[test]
fn returns_mpd_error() {
    let buf: &[u8] = b"ACK [55@2] {some_cmd} error message boi\n";
    let err = player_sync_failure();

    let result = ProtoClient::new("", &mut TestClient::new(buf))
        .unwrap()
        .read_opt_response::<TestMpdObject>();

    assert_eq!(result, Err(MpdError::Mpd(err)));
}

#[test]
fn ok_parses_correct_response() {
    let buf: &[u8] = b"OK\n";

    let result = ProtoClient::new("", &mut TestClient::new(buf)).unwrap().read_ok();

    assert_eq!(result, Ok(()));
}

#[test]
fn ok_returns_mpd_error() {
    let buf: &[u8] = b"ACK [55@2] {some_cmd} error message boi\n";
    let err = player_sync_failure();

    let result = ProtoClient::new("", &mut TestClient::new(buf)).unwrap().read_ok();

    assert_eq!(result, Err(MpdError::Mpd(err)));
}

#[test]
fn returns_error_when_receiving_value() {
    let buf: &[u8] = b"idc\nOK\n";

    let result = ProtoClient::new("", &mut TestClient::new(buf)).unwrap().read_ok();

    assert_eq!(
        result,
        Err(MpdError::Generic(String::from("Expected 'OK' but got 'idc'")))
    );
}

#[test]
fn binary_returns_mpd_error() {
    let buf: &[u8] = b"ACK [55@2] {some_cmd} error message boi\n";
    let err = player_sync_failure();

    let result = ProtoClient::new("", &mut TestClient::new(buf))
        .unwrap()
        ._read_bin(&mut Vec::new());

    assert_eq!(result, Err(MpdError::Mpd(err)));
}

#[test]
fn returns_error_when_unknown_receiving_value() {
    let buf: &[u8] = b"idc: value\nOK\n";

    let result = ProtoClient::new("", &mut TestClient::new(buf))
        .unwrap()
        ._read_bin(&mut Vec::new());

    assert_eq!(
        result,
        Err(MpdError::Generic(String::from(
            "Unexpected key when parsing binary response: 'idc'"
        )))
    );
}

#[test]
fn returns_none_when_unknown_receiving_unexpected_ok() {
    let buf: &[u8] = b"OK\n";

    let result = ProtoClient::new("", &mut TestClient::new(buf))
        .unwrap()
        ._read_bin(&mut Vec::new());

    assert_eq!(result, Ok(None));
}

#[test]
fn returns_success() {
    let bytes = &[0; 111];
    let buf: &[u8] = b"size: 222\ntype: image/png\nbinary: 111\n";
    let buf_end: &[u8] = b"\nOK\n";
    let c = [buf, bytes, buf_end].concat();
    let mut client = TestClient::new(&c);
    let mut command = ProtoClient::new("", &mut client).unwrap();

    let mut buf = Vec::new();
    let result = command._read_bin(&mut buf);

    assert_eq!(buf, bytes);
    assert_eq!(
        result,
        Ok(Some(BinaryMpdResponse {
            bytes_read: 111,
            size_total: 222,
            mime_type: Some("image/png".to_owned())
        }))
    );
}

/// A socket that plays a script: each connection has its own input, and
/// everything written is kept.
struct ScriptedClient {
    connections: Vec<Vec<u8>>,
    current: BufReader<Cursor<Vec<u8>>>,
    written: Vec<String>,
    reconnects: usize,
    broken_writes: usize,
}

impl ScriptedClient {
    fn new(connections: &[&[u8]]) -> Self {
        let mut connections: Vec<Vec<u8>> = connections.iter().map(|c| c.to_vec()).collect();
        connections.reverse();
        let first = connections.pop().unwrap_or_default();
        Self {
            connections,
            current: BufReader::new(Cursor::new(first)),
            written: Vec::new(),
            reconnects: 0,
            broken_writes: 0,
        }
    }
}

impl SocketClient for ScriptedClient {
    fn reconnect(&mut self) -> Result<(), MpdError> {
        self.reconnects += 1;
        let next = self.connections.pop().unwrap_or_default();
        self.current = BufReader::new(Cursor::new(next));
        Ok(())
    }

    fn write(&mut self, bytes: &[u8]) -> Result<(), IoFailure> {
        if self.broken_writes > 0 {
            self.broken_writes -= 1;
            return Err(io_failure(std::io::Error::from(
                std::io::ErrorKind::BrokenPipe,
            )));
        }
        self.written.push(String::from_utf8(bytes.to_vec()).unwrap());
        Ok(())
    }

    fn read_line(&mut self) -> Result<String, IoFailure> {
        let mut line = String::new();
        match self.current.read_line(&mut line) {
            Ok(_) => Ok(line),
            Err(e) => Err(io_failure(e)),
        }
    }

    fn read_bytes(&mut self, count: u64) -> Result<Vec<u8>, IoFailure> {
        let mut buf = Vec::new();
        match (&mut self.current).take(count).read_to_end(&mut buf) {
            Ok(_) => Ok(buf),
            Err(e) => Err(io_failure(e)),
        }
    }
}

#[test]
fn new_writes_the_command_and_a_line_feed() {
    let mut client = ScriptedClient::new(&[b"OK\n"]);

    let result = ProtoClient::new("status", &mut client).unwrap().read_ok();

    assert_eq!(result, Ok(()));
    assert_eq!(client.written, vec!["status\n".to_owned()]);
    assert_eq!(client.reconnects, 0);
}

#[test]
fn execute_reconnects_once_on_a_broken_pipe() {
    let mut client = ScriptedClient::new(&[b"", b"OK\n"]);
    client.broken_writes = 1;

    let result = ProtoClient::new("status", &mut client).unwrap().read_ok();

    assert_eq!(result, Ok(()));
    assert_eq!(client.written, vec!["status\n".to_owned()]);
    assert_eq!(client.reconnects, 1);
}

#[test]
fn execute_gives_up_when_the_second_write_breaks() {
    let mut client = ScriptedClient::new(&[b"", b"OK\n"]);
    client.broken_writes = 2;

    let result = ProtoClient::new("status", &mut client);

    assert!(matches!(
        result,
        Err(MpdError::Io(IoFailure {
            broken_pipe: true,
            ..
        }))
    ));
    assert_eq!(client.reconnects, 1);
}

#[test]
fn read_ok_replays_the_command_after_a_closed_connection() {
    let mut client = ScriptedClient::new(&[b"", b"OK\n"]);

    let result = ProtoClient::new("ping", &mut client).unwrap().read_ok();

    assert_eq!(result, Ok(()));
    assert_eq!(client.written, vec!["ping\n".to_owned(), "ping\n".to_owned()]);
    assert_eq!(client.reconnects, 1);
}

#[test]
fn read_ok_surfaces_the_closed_connection_after_the_last_reconnect() {
    let mut client = ScriptedClient::new(&[b""]);

    let result = ProtoClient::new("ping", &mut client).unwrap().read_ok();

    assert_eq!(result, Err(MpdError::ClientClosed));
    assert_eq!(client.reconnects, MAX_RECONNECTS);
    assert_eq!(client.written.len(), MAX_RECONNECTS + 1);
}

#[test]
fn read_response_starts_over_after_a_closed_connection() {
    let mut client = ScriptedClient::new(&[b"val_a: stale\n", b"val_b: fresh\nOK\n"]);

    let result = ProtoClient::new("currentsong", &mut client)
        .unwrap()
        .read_response::<TestMpdObject>();

    assert_eq!(
        result,
        Ok(TestMpdObject {
            val_a: String::new(),
            val_b: "fresh".to_owned()
        })
    );
    assert_eq!(client.reconnects, 1);
}

#[test]
fn read_opt_response_forgets_values_of_a_closed_connection() {
    let mut client = ScriptedClient::new(&[b"val_a: stale\n", b"OK\n"]);

    let result = ProtoClient::new("currentsong", &mut client)
        .unwrap()
        .read_opt_response::<TestMpdObject>();

    assert_eq!(result, Ok(None));
}

#[test]
fn read_opt_response_is_present_after_one_value_line() {
    let mut client = ScriptedClient::new(&[b"val_a: 1\nOK\n"]);

    let result = ProtoClient::new("currentsong", &mut client)
        .unwrap()
        .read_opt_response::<TestMpdObject>();

    assert_eq!(
        result,
        Ok(Some(TestMpdObject {
            val_a: "1".to_owned(),
            val_b: String::new()
        }))
    );
}

#[test]
fn read_response_hands_the_key_over_in_lower_case() {
    let mut client = ScriptedClient::new(&[b"VAL_A: Mixed Case\nOK\n"]);

    let result = ProtoClient::new("currentsong", &mut client)
        .unwrap()
        .read_response::<TestMpdObject>();

    assert_eq!(
        result,
        Ok(TestMpdObject {
            val_a: "Mixed Case".to_owned(),
            val_b: String::new()
        })
    );
}

#[test]
fn read_response_refuses_a_line_without_a_colon() {
    let mut client = ScriptedClient::new(&[b"no value here\nOK\n"]);

    let result = ProtoClient::new("currentsong", &mut client)
        .unwrap()
        .read_response::<TestMpdObject>();

    assert_eq!(
        result,
        Err(MpdError::ValueExpected("no value here".to_owned()))
    );
}

#[test]
fn read_bin_gathers_two_slices() {
    let stream: &[u8] =
        b"size: 6\ntype: image/png\nbinary: 4\nabcd\nOK\nsize: 6\ntype: image/png\nbinary: 2\nef\nOK\n";
    let mut client = ScriptedClient::new(&[stream]);

    let result = ProtoClient::new("albumart song.flac", &mut client)
        .unwrap()
        .read_bin();

    assert_eq!(result, Ok(Some(b"abcdef".to_vec())));
    assert_eq!(
        client.written,
        vec![
            "albumart song.flac\n".to_owned(),
            "albumart song.flac 4\n".to_owned()
        ]
    );
}

#[test]
fn read_bin_stops_when_the_first_slice_is_the_whole_payload() {
    let stream: &[u8] = b"size: 3\nbinary: 3\nabc\nOK\n";
    let mut client = ScriptedClient::new(&[stream]);

    let result = ProtoClient::new("albumart song.flac", &mut client)
        .unwrap()
        .read_bin();

    assert_eq!(result, Ok(Some(b"abc".to_vec())));
    assert_eq!(client.written, vec!["albumart song.flac\n".to_owned()]);
}

#[test]
fn read_bin_stops_on_an_empty_slice() {
    let stream: &[u8] = b"size: 9\nbinary: 2\nab\nOK\nsize: 9\nbinary: 0\n\nOK\n";
    let mut client = ScriptedClient::new(&[stream]);

    let result = ProtoClient::new("albumart song.flac", &mut client)
        .unwrap()
        .read_bin();

    assert_eq!(result, Ok(Some(b"ab".to_vec())));
}

#[test]
fn read_bin_returns_none_without_binary_data() {
    let mut client = ScriptedClient::new(&[b"OK\n"]);

    let result = ProtoClient::new("albumart song.flac", &mut client)
        .unwrap()
        .read_bin();

    assert_eq!(result, Ok(None));
}

#[test]
fn read_bin_misses_a_slice_that_was_owed() {
    let stream: &[u8] = b"size: 9\nbinary: 2\nab\nOK\nOK\n";
    let mut client = ScriptedClient::new(&[stream]);

    let result = ProtoClient::new("albumart song.flac", &mut client)
        .unwrap()
        .read_bin();

    assert_eq!(
        result,
        Err(MpdError::ValueExpected(
            "Expected binary data but got none".to_owned()
        ))
    );
}

#[test]
fn read_bin_resumes_at_the_offset_reached_after_a_closed_connection() {
    let first: &[u8] = b"size: 6\nbinary: 4\nab";
    let second: &[u8] = b"size: 6\nbinary: 4\ncdef\nOK\n";
    let mut client = ScriptedClient::new(&[first, second]);

    let result = ProtoClient::new("albumart song.flac", &mut client)
        .unwrap()
        .read_bin();

    assert_eq!(result, Ok(Some(b"abcdef".to_vec())));
    assert_eq!(
        client.written,
        vec![
            "albumart song.flac\n".to_owned(),
            "albumart song.flac 2\n".to_owned()
        ]
    );
    assert_eq!(client.reconnects, 1);
}

#[test]
fn read_bin_refuses_a_value_after_the_slice() {
    let stream: &[u8] = b"size: 2\nbinary: 2\nab\nidc\nOK\n";
    let mut client = ScriptedClient::new(&[stream]);

    let result = ProtoClient::new("albumart song.flac", &mut client)
        .unwrap()
        .read_bin();

    assert_eq!(
        result,
        Err(MpdError::Generic("Expected 'OK' but got 'idc'".to_owned()))
    );
}

#[test]
fn binary_preamble_refuses_a_size_that_is_no_number() {
    let buf: &[u8] = b"size: many\nbinary: 1\n";

    let result = ProtoClient::new("", &mut TestClient::new(buf))
        .unwrap()
        ._read_bin(&mut Vec::new());

    assert_eq!(result, Err(MpdError::Parse("many".to_owned())));
}

#[test]
fn read_ok_keeps_a_read_failure_that_is_no_broken_pipe() {
    struct TimedOut {
        reconnects: usize,
    }
    impl SocketClient for TimedOut {
        fn reconnect(&mut self) -> Result<(), MpdError> {
            self.reconnects += 1;
            Ok(())
        }
        fn write(&mut self, _bytes: &[u8]) -> Result<(), IoFailure> {
            Ok(())
        }
        fn read_line(&mut self) -> Result<String, IoFailure> {
            Err(io_failure(std::io::Error::from(
                std::io::ErrorKind::TimedOut,
            )))
        }
        fn read_bytes(&mut self, _count: u64) -> Result<Vec<u8>, IoFailure> {
            Ok(Vec::new())
        }
    }
    let mut client = TimedOut { reconnects: 0 };

    let result = ProtoClient::new("status", &mut client).unwrap().read_ok();

    assert!(matches!(
        result,
        Err(MpdError::Io(IoFailure {
            broken_pipe: false,
            ..
        }))
    ));
    assert_eq!(client.reconnects, 0);
}

#[test]
fn read_line_keeps_a_read_failure_that_is_no_broken_pipe() {
    struct Denied;
    impl SocketClient for Denied {
        fn reconnect(&mut self) -> Result<(), MpdError> {
            Ok(())
        }
        fn write(&mut self, _bytes: &[u8]) -> Result<(), IoFailure> {
            Ok(())
        }
        fn read_line(&mut self) -> Result<String, IoFailure> {
            Err(io_failure(std::io::Error::from(
                std::io::ErrorKind::PermissionDenied,
            )))
        }
        fn read_bytes(&mut self, _count: u64) -> Result<Vec<u8>, IoFailure> {
            Ok(Vec::new())
        }
    }

    let result = ProtoClient::<Denied>::read_line(&mut Denied);

    assert!(matches!(result, Err(MpdError::Io(_))));
    assert_ne!(result, Err(MpdError::ClientClosed));
}

#[test]
fn a_transaction_is_read_once() {
    let mut client = ScriptedClient::new(&[b"OK\nval_a: 1\nOK\n"]);
    let mut transaction = ProtoClient::new("status", &mut client).unwrap();

    assert_eq!(transaction.read_ok(), Ok(()));
    let spent = Err(MpdError::Generic(
        "The response of this transaction was already read".to_owned(),
    ));
    assert_eq!(transaction.read_ok(), spent);
    assert_eq!(
        transaction.read_response::<TestMpdObject>(),
        Err(MpdError::Generic(
            "The response of this transaction was already read".to_owned()
        ))
    );
    assert_eq!(
        transaction.read_opt_response::<TestMpdObject>(),
        Err(MpdError::Generic(
            "The response of this transaction was already read".to_owned()
        ))
    );
    assert_eq!(
        transaction.read_bin(),
        Err(MpdError::Generic(
            "The response of this transaction was already read".to_owned()
        ))
    );
    assert_eq!(client.written, vec!["status\n".to_owned()]);
}

#[test]
fn read_response_hands_over_every_line_once_and_in_order() {
    #[derive(Default, Debug, PartialEq, Eq)]
    struct Seen(Vec<(String, String)>);
    impl FromMpd for Seen {
        fn next_internal(&mut self, key: &str, value: String) -> Result<LineHandled, MpdError> {
            self.0.push((key.to_owned(), value));
            Ok(LineHandled::Yes)
        }
    }
    let mut client = ScriptedClient::new(&[b"B: 2\n", b"A: 1\nB: 2\nA: 3\nOK\nafter: x\n"]);

    let result = ProtoClient::new("status", &mut client)
        .unwrap()
        .read_response::<Seen>();

    assert_eq!(
        result,
        Ok(Seen(vec![
            ("a".to_owned(), "1".to_owned()),
            ("b".to_owned(), "2".to_owned()),
            ("a".to_owned(), "3".to_owned()),
        ]))
    );
}

#[test]
fn read_response_stops_at_the_first_error_of_the_decoder() {
    let mut client = ScriptedClient::new(&[b"val_a: 1\nfail: now\nval_b: 2\nOK\n"]);

    let result = ProtoClient::new("status", &mut client)
        .unwrap()
        .read_response::<TestMpdObject>();

    assert_eq!(result, Err(MpdError::Generic("intentional fail".to_owned())));
    assert_eq!(client.reconnects, 0);
    assert_eq!(client.written, vec!["status\n".to_owned()]);
}
