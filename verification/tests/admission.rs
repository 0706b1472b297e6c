use stream_recorder::errors::AppError;
use stream_recorder::rooms::Rooms;

#[test]
fn admission_scenario_room_full_then_release() {
    // Room "r1" with capacity 2: two admissions pass, the third is
    // refused, and releasing a slot lets the third in.
    let mut rooms = Rooms::new();
    let r1 = "r1".to_string();
    let created = rooms.create_room(r1.clone(), "First room".to_string(), 2).unwrap();
    assert_eq!(created.current_participants, 0);
    assert_eq!(created.max_participants, 2);

    assert!(rooms.add_participant(&r1).is_ok());
    assert!(rooms.add_participant(&r1).is_ok());
    match rooms.add_participant(&r1) {
        Err(AppError::TooManyConnections(m)) => assert_eq!(m, "r1"),
        other => panic!("expected TooManyConnections, got {:?}", other),
    }
    assert!(rooms.remove_participant(&r1).is_ok());
    assert!(rooms.add_participant(&r1).is_ok());
    assert_eq!(rooms.get_room(&r1).unwrap().current_participants, 2);
}

#[test]
fn admission_count_never_negative() {
    let mut rooms = Rooms::new();
    let rid = "quiet".to_string();
    rooms.create_room(rid.clone(), "Quiet".to_string(), 5).unwrap();
    // Releasing an empty room is safe and stays at zero.
    assert!(rooms.remove_participant(&rid).is_ok());
    assert!(rooms.remove_participant(&rid).is_ok());
    assert_eq!(rooms.get_room(&rid).unwrap().current_participants, 0);
}

#[test]
fn admission_missing_room_is_not_found() {
    let mut rooms = Rooms::new();
    let rid = "ghost".to_string();
    match rooms.add_participant(&rid) {
        Err(AppError::NotFound(m)) => assert_eq!(m, "ghost"),
        other => panic!("expected NotFound, got {:?}", other),
    }
    match rooms.remove_participant(&rid) {
        Err(AppError::NotFound(m)) => assert_eq!(m, "ghost"),
        other => panic!("expected NotFound, got {:?}", other),
    }
    match rooms.get_room(&rid) {
        Err(AppError::NotFound(m)) => assert_eq!(m, "ghost"),
        other => panic!("expected NotFound, got {:?}", other),
    }
}

#[test]
fn create_room_is_idempotent() {
    let mut rooms = Rooms::new();
    let rid = "twice".to_string();
    let first = rooms.create_room(rid.clone(), "Original".to_string(), 7).unwrap();
    rooms.add_participant(&rid).unwrap();
    // A second creation under the same id returns the existing room
    // unchanged instead of resetting it.
    let second = rooms.create_room(rid.clone(), "Replacement".to_string(), 99).unwrap();
    assert_eq!(second.name, first.name);
    assert_eq!(second.max_participants, 7);
    assert_eq!(second.current_participants, 1);
}

#[test]
fn list_rooms_is_a_snapshot() {
    let mut rooms = Rooms::new();
    rooms.create_room("a".to_string(), "A".to_string(), 1).unwrap();
    rooms.create_room("b".to_string(), "B".to_string(), 2).unwrap();
    let listed = rooms.list_rooms().unwrap();
    assert_eq!(listed.len(), 2);
    assert_eq!(listed[0].id, "a");
    assert_eq!(listed[1].id, "b");
    assert!(listed[1].recording_enabled);
}
