use chatroom::room::{receive_handl, send_handl, Room};

fn entry(a: &str, t: &str) -> (String, String) {
    (a.to_string(), t.to_string())
}

#[test]
fn append_ordering_indices() {
    let mut room = Room::new();
    send_handl(&mut room, "hello".to_string(), "A".to_string());
    send_handl(&mut room, "hi".to_string(), "B".to_string());
    send_handl(&mut room, "yo".to_string(), "A".to_string());
    assert_eq!(room.len(), 3);
    let all = room.read_from(0);
    assert_eq!(
        all,
        vec![entry("A", "hello"), entry("B", "hi"), entry("A", "yo")]
    );
}

#[test]
fn catch_up_completeness_all_offsets() {
    let mut room = Room::new();
    let entries = [("A", "one"), ("B", "two"), ("A", "three"), ("C", "four")];
    for (a, t) in entries {
        send_handl(&mut room, t.to_string(), a.to_string());
    }
    let all: Vec<(String, String)> = entries.iter().map(|(a, t)| entry(a, t)).collect();
    for k in 0..=entries.len() {
        let got = room.read_from(k);
        assert_eq!(got, all[k..].to_vec(), "offset {k}");
        assert_eq!(got.is_empty(), k == entries.len(), "offset {k}");
    }
}

#[test]
fn read_past_end_is_empty() {
    let mut room = Room::new();
    send_handl(&mut room, "hello".to_string(), "A".to_string());
    assert!(room.read_from(1).is_empty());
    assert!(room.read_from(100).is_empty());
    assert_eq!(receive_handl(&mut room, 1), "");
    assert_eq!(receive_handl(&mut room, 100), "");
}

#[test]
fn idempotent_read() {
    let mut room = Room::new();
    send_handl(&mut room, "hello".to_string(), "A".to_string());
    send_handl(&mut room, "hi".to_string(), "B".to_string());
    let first = room.read_from(1);
    let second = room.read_from(1);
    assert_eq!(first, second);
    let r1 = receive_handl(&mut room, 0);
    let r2 = receive_handl(&mut room, 0);
    assert_eq!(r1, r2);
}

#[test]
fn receive_renders_entries() {
    let mut room = Room::new();
    send_handl(&mut room, "hello".to_string(), "A".to_string());
    send_handl(&mut room, "hi".to_string(), "B".to_string());
    assert_eq!(receive_handl(&mut room, 0), "A: hello, B: hi, ");
    assert_eq!(receive_handl(&mut room, 1), "B: hi, ");
}
