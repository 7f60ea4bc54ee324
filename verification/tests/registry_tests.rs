use chatroom::registry::{Registry, RoomError};

fn rooms(ids: &[&str]) -> Registry {
    Registry::new(ids.iter().map(|s| s.to_string()).collect())
}

#[test]
fn provisioned_rooms_exist() {
    let reg = rooms(&["1", "qwe"]);
    assert!(reg.has_room("1"));
    assert!(reg.has_room("qwe"));
    assert!(!reg.has_room("2"));
    assert!(!reg.has_room(""));
}

#[test]
fn unknown_room_is_an_error() {
    let mut reg = rooms(&["1"]);
    assert_eq!(
        reg.append_to("nope", "A".to_string(), "hello".to_string()),
        Err(RoomError::NotFound)
    );
    assert_eq!(reg.room_len("nope"), Err(RoomError::NotFound));
    assert!(reg.catch_up("nope", 0).is_err());
    assert!(reg.read_room("nope", 0).is_err());
}

#[test]
fn append_and_catch_up() {
    let mut reg = rooms(&["1", "qwe"]);
    assert_eq!(reg.room_len("1"), Ok(0));
    assert_eq!(
        reg.append_to("1", "A".to_string(), "hello".to_string()),
        Ok(())
    );
    assert_eq!(reg.room_len("1"), Ok(1));
    assert_eq!(
        reg.catch_up("1", 0),
        Ok(("A: hello, ".to_string(), 1))
    );
    assert_eq!(reg.catch_up("1", 1), Ok(("".to_string(), 1)));
    assert_eq!(
        reg.read_room("1", 0),
        Ok(vec![("A".to_string(), "hello".to_string())])
    );
}

#[test]
fn rooms_are_isolated() {
    let mut reg = rooms(&["1", "qwe"]);
    reg.append_to("1", "A".to_string(), "hello".to_string()).unwrap();
    assert_eq!(reg.room_len("qwe"), Ok(0));
    assert_eq!(reg.catch_up("qwe", 0), Ok(("".to_string(), 0)));
}

#[test]
fn duplicate_ids_keep_one_room() {
    let mut reg = rooms(&["1", "1"]);
    reg.append_to("1", "A".to_string(), "x".to_string()).unwrap();
    assert_eq!(reg.room_len("1"), Ok(1));
}
