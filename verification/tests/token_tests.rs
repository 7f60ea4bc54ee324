use chatroom::token::{issue, verify, AuthError};

#[test]
fn round_trip_basic() {
    let token = issue("A", "1");
    assert_eq!(verify(token.as_str()), Ok(("A".to_string(), "1".to_string())));
}

#[test]
fn round_trip_various_pairs() {
    let cases = [
        ("alice", "1"),
        ("bob", "qwe"),
        ("", "1"),
        ("name with spaces", "room with spaces"),
        ("unicode-имя", "room-ötzi"),
    ];
    for (name, room) in cases {
        let token = issue(name, room);
        assert_eq!(
            verify(token.as_str()),
            Ok((name.to_string(), room.to_string())),
            "round trip failed for ({name}, {room})"
        );
    }
}

#[test]
fn issue_is_deterministic() {
    assert_eq!(issue("A", "1"), issue("A", "1"));
    assert_ne!(issue("A", "1"), issue("A", "qwe"));
}

#[test]
fn tamper_rejection_every_byte() {
    let token = issue("alice", "1");
    let chars: Vec<char> = token.chars().collect();
    for i in 0..chars.len() {
        let replacement = if chars[i] == 'B' { 'C' } else { 'B' };
        let mut altered: Vec<char> = chars.clone();
        altered[i] = replacement;
        let altered: String = altered.into_iter().collect();
        let got = verify(altered.as_str());
        assert!(
            got.is_err(),
            "altered byte {i} still verified: {altered} -> {got:?}"
        );
    }
}

#[test]
fn tamper_rejection_signature_is_invalid_signature() {
    let token = issue("alice", "1");
    let dot = token.rfind('.').unwrap();
    let chars: Vec<char> = token.chars().collect();
    // alter the first character of the signature segment: still valid
    // base64, but the recomputed signature no longer matches
    let pos = dot + 1;
    assert!(pos < chars.len());
    let replacement = if chars[pos] == 'B' { 'C' } else { 'B' };
    let mut altered: Vec<char> = chars.clone();
    altered[pos] = replacement;
    let altered: String = altered.into_iter().collect();
    assert_eq!(verify(altered.as_str()), Err(AuthError::InvalidSignature));
}

#[test]
fn malformed_tokens_rejected() {
    assert_eq!(verify(""), Err(AuthError::Malformed));
    assert_eq!(verify("not-a-token"), Err(AuthError::Malformed));
    assert_eq!(verify("a.b.c"), Err(AuthError::Malformed));
}
