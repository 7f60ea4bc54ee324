use chatroom::client::{
    build_auth_request, build_receive_request, build_send_request, parse_auth_response,
    parse_update_response, UpdateResponse,
};
use chatroom::dispatch::Connection;
use chatroom::registry::Registry;

fn rooms(ids: &[&str]) -> Registry {
    Registry::new(ids.iter().map(|s| s.to_string()).collect())
}

fn auth(conn: &mut Connection, reg: &mut Registry, name: &str, room: &str) -> String {
    let req = build_auth_request(name, room);
    let responses = conn.on_chunk(reg, req.as_str());
    assert_eq!(responses.len(), 1, "auth earned no response");
    parse_auth_response(responses[0].as_str()).expect("auth response carries no jwt")
}

#[test]
fn scenario_basic_send_receive() {
    let mut reg = rooms(&["1", "qwe"]);
    let mut conn_a = Connection::new();
    let mut conn_b = Connection::new();

    let jwt_a = auth(&mut conn_a, &mut reg, "A", "1");
    let send = build_send_request(jwt_a.as_str(), "hello");
    let responses = conn_a.on_chunk(&mut reg, send.as_str());
    assert!(responses.is_empty(), "a successful send earns no response");

    let jwt_b = auth(&mut conn_b, &mut reg, "B", "1");
    let recv = build_receive_request(jwt_b.as_str(), 0);
    let responses = conn_b.on_chunk(&mut reg, recv.as_str());
    assert_eq!(responses.len(), 1);
    assert_eq!(
        responses[0],
        "{\"message\":\"A: hello, \", \"last_msg_i\":\"1\"}"
    );
    match parse_update_response(responses[0].as_str()) {
        UpdateResponse::New { message, last_msg_i } => {
            assert_eq!(message, "A: hello, ");
            assert_eq!(last_msg_i, 1);
        },
        _ => panic!("expected new entries"),
    }
}

#[test]
fn scenario_empty_catch_up() {
    let mut reg = rooms(&["1", "qwe"]);
    let mut conn = Connection::new();
    let jwt = auth(&mut conn, &mut reg, "A", "1");
    let recv = build_receive_request(jwt.as_str(), 0);
    let responses = conn.on_chunk(&mut reg, recv.as_str());
    assert_eq!(responses, vec!["{\"err\":\"empty\"}".to_string()]);
    assert!(matches!(
        parse_update_response(responses[0].as_str()),
        UpdateResponse::Empty
    ));
}

#[test]
fn scenario_unknown_room_keeps_connection_open() {
    let mut reg = rooms(&["1", "qwe"]);
    let mut conn = Connection::new();

    let req = build_auth_request("A", "no-such-room");
    let responses = conn.on_chunk(&mut reg, req.as_str());
    assert_eq!(responses, vec!["{\"err\":\"room_not_found\"}".to_string()]);

    // the same connection still serves a valid request afterwards
    let jwt = auth(&mut conn, &mut reg, "A", "1");
    assert!(!jwt.is_empty());
}

#[test]
fn scenario_room_isolation() {
    let mut reg = rooms(&["1", "qwe"]);
    let mut conn_a = Connection::new();
    let mut conn_b = Connection::new();

    let jwt_a = auth(&mut conn_a, &mut reg, "A", "1");
    let send = build_send_request(jwt_a.as_str(), "hello");
    conn_a.on_chunk(&mut reg, send.as_str());

    let jwt_b = auth(&mut conn_b, &mut reg, "B", "qwe");
    let recv = build_receive_request(jwt_b.as_str(), 0);
    let responses = conn_b.on_chunk(&mut reg, recv.as_str());
    assert_eq!(responses, vec!["{\"err\":\"empty\"}".to_string()]);
}

#[test]
fn malformed_request_earns_error_response() {
    let mut reg = rooms(&["1"]);
    let mut conn = Connection::new();
    let responses = conn.on_chunk(&mut reg, "garbage ");
    assert_eq!(responses, vec!["{\"err\":\"malformed_request\"}".to_string()]);
    let responses = conn.on_chunk(&mut reg, "{\"path\":\"/nope\",\"x\":\"y\"} ");
    assert_eq!(responses, vec!["{\"err\":\"unknown_path\"}".to_string()]);
}

#[test]
fn tampered_token_is_rejected_and_changes_nothing() {
    let mut reg = rooms(&["1"]);
    let mut conn = Connection::new();
    let jwt = auth(&mut conn, &mut reg, "A", "1");
    // flip the first character of the signature segment
    let pos = jwt.rfind('.').unwrap() + 1;
    let mut chars: Vec<char> = jwt.chars().collect();
    chars[pos] = if chars[pos] == 'B' { 'C' } else { 'B' };
    let bad: String = chars.into_iter().collect();

    let send = build_send_request(bad.as_str(), "intruder");
    let responses = conn.on_chunk(&mut reg, send.as_str());
    assert_eq!(responses, vec!["{\"err\":\"invalid_signature\"}".to_string()]);

    // nothing was appended
    let recv = build_receive_request(jwt.as_str(), 0);
    let responses = conn.on_chunk(&mut reg, recv.as_str());
    assert_eq!(responses, vec!["{\"err\":\"empty\"}".to_string()]);
}

#[test]
fn requests_split_across_reads() {
    let mut reg = rooms(&["1"]);
    let mut conn = Connection::new();
    let req = build_auth_request("A", "1");
    let (head, tail) = req.split_at(7);
    let responses = conn.on_chunk(&mut reg, head);
    assert!(responses.is_empty());
    let responses = conn.on_chunk(&mut reg, tail);
    assert_eq!(responses.len(), 1);
    assert!(parse_auth_response(responses[0].as_str()).is_some());
}

#[test]
fn concatenated_requests_answered_in_order() {
    let mut reg = rooms(&["1"]);
    let mut conn = Connection::new();
    let jwt = auth(&mut conn, &mut reg, "A", "1");
    let combined = format!(
        "{}{}{}",
        build_send_request(jwt.as_str(), "one"),
        build_send_request(jwt.as_str(), "two"),
        build_receive_request(jwt.as_str(), 0)
    );
    let responses = conn.on_chunk(&mut reg, combined.as_str());
    assert_eq!(
        responses,
        vec!["{\"message\":\"A: one, A: two, \", \"last_msg_i\":\"2\"}".to_string()]
    );
}
