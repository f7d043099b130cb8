use range_fetch::digest::digest_hex;
use range_fetch::error::FetchError;
use range_fetch::request::build_request;
use range_fetch::response::{parse_response, ParsedResponse};
use range_fetch::transfer::{Action, Event, Phase, Transfer, MAX_DATA_SIZE};

const DIGITS: &str = "84d89877f0d4041efb6bf91a16f0248f2fd573e6af05c19f96bedb9f882f7882";

/// A server that holds one payload and answers each request with a part of
/// it: `plan` gives, round by round, how many bytes it sends and which
/// length it declares.
struct Server {
    payload: Vec<u8>,
    plan: Vec<(usize, usize)>,
    requests: Vec<usize>,
}

impl Server {
    fn new(payload: &[u8], plan: &[(usize, usize)]) -> Server {
        Server { payload: payload.to_vec(), plan: plan.to_vec(), requests: Vec::new() }
    }

    fn answer(&mut self, request: &[u8]) -> Vec<u8> {
        let text = String::from_utf8(request.to_vec()).unwrap();
        let range = text.split("Range: bytes=").nth(1).unwrap();
        let start: usize = range.split('-').next().unwrap().parse().unwrap();
        let (sent, declared) = self.plan[self.requests.len()];
        self.requests.push(start);
        let end = (start + sent).min(self.payload.len());
        let mut raw = format!("HTTP/1.1 206 Partial Content\r\nContent-Length: {}\r\n\r\n", declared)
            .into_bytes();
        raw.extend_from_slice(&self.payload[start.min(end)..end]);
        raw
    }
}

fn download(server: &mut Server, host: &str) -> Transfer {
    let mut transfer = Transfer::new(MAX_DATA_SIZE);
    loop {
        match transfer.action() {
            Action::Fetch { range_start, range_end } => {
                let request = build_request(host, range_start, range_end);
                assert_eq!(transfer.next_request(host), Some(request.clone()));
                let raw = server.answer(&request);
                transfer.step(Event::Response(raw));
            }
            Action::Verify | Action::Abort(_) => return transfer,
        }
    }
}

fn response(status: u16, content_length: usize, body: &[u8]) -> ParsedResponse {
    ParsedResponse { status, content_length, body: body.to_vec() }
}

#[test]
fn new_transfer_asks_for_everything() {
    let transfer = Transfer::new(MAX_DATA_SIZE);
    assert_eq!(MAX_DATA_SIZE, 1024 * 1024);
    assert_eq!(transfer.action(), Action::Fetch { range_start: 0, range_end: 1048576 });
    assert_eq!(transfer.phase(), Phase::Fetching);
    assert_eq!(transfer.received(), 0);
    assert_eq!(transfer.declared(), None);
    assert_eq!(transfer.ceiling(), 1048576);
    assert_eq!(transfer.payload(), b"");
    assert_eq!(transfer.into_payload(), None);
}

#[test]
fn whole_payload_in_one_round() {
    let mut server = Server::new(b"0123456789", &[(10, 10)]);
    let transfer = download(&mut server, "127.0.0.1");
    assert_eq!(server.requests, vec![0]);
    assert_eq!(transfer.action(), Action::Verify);
    assert_eq!(transfer.phase(), Phase::Complete);
    assert_eq!(transfer.declared(), Some(10));
    assert_eq!(transfer.received(), 10);
    assert_eq!(transfer.payload(), b"0123456789");
    assert_eq!(digest_hex(transfer.payload()), DIGITS.as_bytes().to_vec());
    assert!(transfer.verify(DIGITS));
    assert!(transfer.verify(&DIGITS.to_uppercase()));
    assert!(!transfer.verify("e3b0c44298fc1c149afbf4c8996fb92427ae41e4649b934ca495991b7852b855"));
    assert!(!transfer.verify("84d89877f0d4041efb6bf91a16f0248f2fd573e6af05c19f96bedb9f882f7883"));
    assert_eq!(transfer.into_payload(), Some(b"0123456789".to_vec()));
}

#[test]
fn one_round_response_is_parsed_as_sent() {
    let mut server = Server::new(b"0123456789", &[(10, 10)]);
    let raw = server.answer(&build_request("127.0.0.1", 0, MAX_DATA_SIZE));
    let parsed = parse_response(&raw).unwrap();
    assert_eq!(parsed.status, 206);
    assert_eq!(parsed.content_length, 10);
    assert_eq!(parsed.body, b"0123456789".to_vec());
}

#[test]
fn short_round_is_followed_by_a_request_for_the_rest() {
    let mut server = Server::new(b"0123456789", &[(4, 10), (6, 6)]);
    let transfer = download(&mut server, "127.0.0.1");
    assert_eq!(server.requests, vec![0, 4]);
    assert_eq!(transfer.action(), Action::Verify);
    assert_eq!(transfer.received(), 10);
    assert_eq!(transfer.declared(), Some(6));
    assert_eq!(transfer.payload(), b"0123456789");
    assert!(transfer.verify(DIGITS));
}

#[test]
fn round_that_meets_its_declared_length_ends_the_transfer() {
    let mut server = Server::new(b"0123456789", &[(4, 4), (6, 6)]);
    let transfer = download(&mut server, "127.0.0.1");
    assert_eq!(server.requests, vec![0]);
    assert_eq!(transfer.action(), Action::Verify);
    assert_eq!(transfer.payload(), b"0123");
    assert!(!transfer.verify(DIGITS));
    assert!(transfer.verify("1be2e452b46d7a0d9656bbb1f768e8248eba1b75baed65f5d99eafa948899a6a"));
}

#[test]
fn rounds_add_up_to_the_whole_payload() {
    let payload: Vec<u8> = (0..=255u8).cycle().take(1000).collect();
    let plan = [(100, 1000), (1, 900), (0, 899), (399, 899), (500, 500)];
    let mut server = Server::new(&payload, &plan);
    let transfer = download(&mut server, "h");
    assert_eq!(server.requests, vec![0, 100, 101, 101, 500]);
    assert_eq!(transfer.received(), 100 + 1 + 0 + 399 + 500);
    assert_eq!(transfer.payload(), &payload[..]);
    assert_eq!(transfer.phase(), Phase::Complete);
}

#[test]
fn longer_body_than_declared_does_not_end_the_transfer() {
    let mut transfer = Transfer::new(100);
    let action = transfer.absorb(response(200, 2, b"abc"));
    assert_eq!(action, Action::Fetch { range_start: 3, range_end: 100 });
    assert_eq!(transfer.payload(), b"abc");
    assert_eq!(transfer.declared(), Some(2));
}

#[test]
fn empty_body_that_declares_nothing_ends_the_transfer() {
    let mut transfer = Transfer::new(100);
    assert_eq!(transfer.absorb(response(200, 0, b"")), Action::Verify);
    assert_eq!(transfer.received(), 0);
    assert!(transfer.verify("E3B0C44298FC1C149AFBF4C8996FB92427AE41E4649B934CA495991B7852B855"));
}

#[test]
fn status_404_fails_the_transfer() {
    let mut transfer = Transfer::new(MAX_DATA_SIZE);
    let raw = b"HTTP/1.1 404 Not Found\r\nContent-Length: 9\r\n\r\nnot found".to_vec();
    let action = transfer.step(Event::Response(raw));
    assert_eq!(action, Action::Abort(FetchError::UnexpectedStatus(404)));
    assert_eq!(transfer.phase(), Phase::Failed(FetchError::UnexpectedStatus(404)));
    assert_eq!(transfer.received(), 0);
    assert_eq!(transfer.declared(), None);
    assert_eq!(transfer.next_request("h"), None);
    assert_eq!(transfer.into_payload(), None);
}

#[test]
fn status_500_fails_the_transfer_and_keeps_what_came_before() {
    let mut transfer = Transfer::new(MAX_DATA_SIZE);
    transfer.absorb(response(206, 10, b"0123"));
    let raw = b"HTTP/1.1 500 Internal Server Error\r\nContent-Length: 3\r\n\r\nerr".to_vec();
    let action = transfer.step(Event::Response(raw));
    assert_eq!(action, Action::Abort(FetchError::UnexpectedStatus(500)));
    assert_eq!(transfer.payload(), b"0123");
    let again = transfer.step(Event::Response(
        b"HTTP/1.1 200 OK\r\nContent-Length: 6\r\n\r\n456789".to_vec(),
    ));
    assert_eq!(again, Action::Abort(FetchError::UnexpectedStatus(500)));
    assert_eq!(transfer.payload(), b"0123");
    assert_eq!(transfer.into_payload(), None);
}

#[test]
fn only_200_and_206_carry_content() {
    for status in [0u16, 100, 199, 201, 204, 205, 207, 301, 304, 404, 416, 500, 65535] {
        let mut transfer = Transfer::new(10);
        let action = transfer.absorb(response(status, 1, b"x"));
        assert_eq!(action, Action::Abort(FetchError::UnexpectedStatus(status)));
        assert_eq!(transfer.received(), 0);
    }
    for status in [200u16, 206] {
        let mut transfer = Transfer::new(10);
        assert_eq!(transfer.absorb(response(status, 1, b"x")), Action::Verify);
        assert_eq!(transfer.payload(), b"x");
    }
}

#[test]
fn response_without_length_fails_the_transfer() {
    let mut transfer = Transfer::new(MAX_DATA_SIZE);
    let raw = b"HTTP/1.1 200 OK\r\nServer: s\r\n\r\n0123456789".to_vec();
    let action = transfer.step(Event::Response(raw));
    assert_eq!(action, Action::Abort(FetchError::MissingContentLength));
    assert_eq!(transfer.received(), 0);
    assert_eq!(transfer.payload(), b"");
}

#[test]
fn response_without_status_fails_the_transfer() {
    let mut transfer = Transfer::new(MAX_DATA_SIZE);
    let action = transfer.step(Event::Response(b"garbage".to_vec()));
    assert_eq!(action, Action::Abort(FetchError::MalformedStatusLine));
    assert_eq!(transfer.received(), 0);
}

#[test]
fn transport_failure_fails_the_transfer() {
    let mut transfer = Transfer::new(MAX_DATA_SIZE);
    transfer.absorb(response(200, 5, b"ab"));
    let action = transfer.step(Event::TransportFailed);
    assert_eq!(action, Action::Abort(FetchError::ConnectionError));
    assert_eq!(transfer.phase(), Phase::Failed(FetchError::ConnectionError));
    assert_eq!(transfer.payload(), b"ab");
    assert_eq!(transfer.into_payload(), None);
}

#[test]
fn complete_transfer_ignores_what_follows() {
    let mut transfer = Transfer::new(MAX_DATA_SIZE);
    assert_eq!(transfer.absorb(response(200, 3, b"abc")), Action::Verify);
    assert_eq!(transfer.absorb(response(200, 3, b"def")), Action::Verify);
    assert_eq!(transfer.step(Event::TransportFailed), Action::Verify);
    assert_eq!(transfer.fail(FetchError::MalformedStatusLine), Action::Verify);
    assert_eq!(transfer.absorb(response(404, 0, b"")), Action::Verify);
    assert_eq!(transfer.payload(), b"abc");
    assert_eq!(transfer.phase(), Phase::Complete);
}

#[test]
fn first_failure_stands() {
    let mut transfer = Transfer::new(MAX_DATA_SIZE);
    assert_eq!(
        transfer.fail(FetchError::MissingContentLength),
        Action::Abort(FetchError::MissingContentLength)
    );
    assert_eq!(
        transfer.fail(FetchError::ConnectionError),
        Action::Abort(FetchError::MissingContentLength)
    );
}

#[test]
fn next_request_starts_behind_what_was_received() {
    let mut transfer = Transfer::new(77);
    transfer.absorb(response(206, 10, b"0123"));
    assert_eq!(transfer.action(), Action::Fetch { range_start: 4, range_end: 77 });
    assert_eq!(
        transfer.next_request("host.example"),
        Some(
            b"GET / HTTP/1.1\r\nAccept: */*\r\nHost: host.example\r\nRange: bytes=4-77\r\n\r\n"
                .to_vec()
        )
    );
}

#[test]
fn payload_never_shrinks() {
    let mut transfer = Transfer::new(MAX_DATA_SIZE);
    let mut seen: Vec<u8> = Vec::new();
    let rounds: [(u16, usize, &[u8]); 5] =
        [(206, 9, b"ab"), (200, 9, b""), (206, 9, b"cde"), (503, 9, b"zz"), (200, 1, b"f")];
    for (status, declared, body) in rounds {
        transfer.absorb(response(status, declared, body));
        assert!(transfer.payload().starts_with(&seen));
        seen = transfer.payload().to_vec();
    }
    assert_eq!(seen, b"abcde".to_vec());
}
