use rsvp::room::{
    decode_room, encode_room, new_room, process_room_data, room_expiry, CreateRoomReq, Room,
    RoomRecord, ScheduleDates, TimeRange, UserOfRoom, ViewError, ROOM_LIFETIME_SECS,
};

fn member(uid: &str, name: &str, owner: bool, absent: Option<&str>) -> UserOfRoom {
    UserOfRoom {
        room_uid: "R1".to_string(),
        user_uid: uid.to_string(),
        name: name.to_string(),
        is_owner: owner,
        is_absent: absent.is_some(),
        absent_reason: absent.unwrap_or("").to_string(),
    }
}

fn room_with(grid: Vec<Vec<Vec<String>>>) -> Room {
    Room {
        uid: "R1".to_string(),
        schedule_type: 1,
        event_name: "Lunch".to_string(),
        dates: vec![],
        days_of_week: vec![1, 3],
        time_min: 9,
        time_max: 12,
        slot_length: 60,
        schedule: grid,
        expires_at: 100,
    }
}

fn c(ids: &[&str]) -> Vec<String> {
    ids.iter().map(|x| x.to_string()).collect()
}

#[test]
fn view_for_member() {
    let room = room_with(vec![vec![c(&["a", "b"]), c(&["b"])], vec![c(&[]), c(&["a"])]]);
    let members = vec![
        member("a", "Ann", true, None),
        member("b", "Bob", false, Some("away")),
    ];
    let res = process_room_data(&room, &members, "a").ok().unwrap();
    assert_eq!(res.user_schedule, vec![vec![true, false], vec![false, true]]);
    assert_eq!(res.others_schedule, vec![vec![vec![0], vec![0]], vec![vec![], vec![]]]);
    assert_eq!(res.others_names, vec!["Bob".to_string()]);
    assert_eq!(res.user_name, "Ann");
    assert!(res.is_owner);
    assert_eq!(res.absent_reasons, vec![None, Some("away".to_string())]);
    assert_eq!(res.event_name, "Lunch");
    assert_eq!(res.days_of_week, vec![1, 3]);
    assert_eq!(res.time_range.from_hour, 9);
    assert_eq!(res.time_range.to_hour, 12);
    assert_eq!(res.slot_length, 60);
}

#[test]
fn view_for_visitor() {
    let room = room_with(vec![vec![c(&["a", "b"])]]);
    let members = vec![member("a", "Ann", true, None), member("b", "Bob", false, None)];
    let res = process_room_data(&room, &members, "none").ok().unwrap();
    assert_eq!(res.user_schedule, vec![vec![false]]);
    assert_eq!(res.others_names, vec!["Ann".to_string(), "Bob".to_string()]);
    assert_eq!(res.others_schedule, vec![vec![vec![0, 1]]]);
    assert_eq!(res.user_name, "");
    assert!(!res.is_owner);
    assert_eq!(res.absent_reasons, vec![None, None, None]);
}

#[test]
fn view_with_unknown_participant_fails() {
    let room = room_with(vec![vec![c(&["a", "ghost"])]]);
    let members = vec![member("a", "Ann", true, None)];
    assert!(matches!(
        process_room_data(&room, &members, "a"),
        Err(ViewError::UnknownParticipant)
    ));
}

#[test]
fn room_record_round_trip() {
    let room = room_with(vec![vec![c(&["a"]), c(&[])]]);
    let rec = encode_room(&room);
    assert_eq!(rec.schedule, "[[[\"a\"],[]]]");
    assert_eq!(rec.dates, "[]");
    assert_eq!(rec.days_of_week, "[1,3]");
    let back = decode_room(&rec).unwrap();
    assert_eq!(back.schedule, room.schedule);
    assert_eq!(back.days_of_week, vec![1, 3]);
    assert_eq!(back.event_name, "Lunch");
}

#[test]
fn malformed_record_is_refused() {
    let rec = RoomRecord {
        uid: "R1".to_string(),
        schedule_type: 0,
        event_name: "x".to_string(),
        dates: "[\"2024-05-01\"]".to_string(),
        days_of_week: "[]".to_string(),
        time_min: 9,
        time_max: 10,
        slot_length: 30,
        schedule: "not json".to_string(),
        expires_at: 0,
    };
    assert!(decode_room(&rec).is_none());
    let good = RoomRecord { schedule: "[[[]]]".to_string(), ..rec };
    let room = decode_room(&good).unwrap();
    assert_eq!(room.dates, vec!["2024-05-01".to_string()]);
}

#[test]
fn new_room_from_request() {
    let req = CreateRoomReq {
        event_name: "Trip".to_string(),
        schedule_type: 7,
        dates: ScheduleDates::Dates(vec!["2024-05-01".to_string(), "2024-05-02".to_string()]),
        slot_length: 60,
        schedule: vec![vec![true, false, true], vec![false, true, false]],
        time_range: TimeRange { from_hour: 9, to_hour: 12 },
    };
    let (room, owner) = new_room(req, "AB12", "A", 5);
    assert_eq!(room.schedule_type, 0);
    assert_eq!(room.days_of_week, Vec::<u8>::new());
    assert_eq!(room.schedule[0][0], c(&["A"]));
    assert_eq!(room.schedule[0][1], c(&[]));
    assert_eq!(room.schedule[1][1], c(&["A"]));
    assert_eq!(room.uid, "AB12");
    assert_eq!(room.expires_at, 5);
    assert!(owner.is_owner);
    assert!(!owner.is_absent);
    assert_eq!(owner.name, "Jeff");
    assert_eq!(owner.user_uid, "A");
}

#[test]
fn weekday_room_has_no_dates() {
    let req = CreateRoomReq {
        event_name: "Gym".to_string(),
        schedule_type: 0,
        dates: ScheduleDates::DaysOfWeek(vec![0, 6]),
        slot_length: 30,
        schedule: vec![vec![false]],
        time_range: TimeRange { from_hour: 8, to_hour: 9 },
    };
    let (room, _) = new_room(req, "ZZ99", "A", 0);
    assert_eq!(room.schedule_type, 1);
    assert_eq!(room.days_of_week, vec![0, 6]);
    assert!(room.dates.is_empty());
}

#[test]
fn expiry_is_thirty_one_days_later() {
    assert_eq!(room_expiry(1000), 1000 + 31 * 24 * 3600);
    assert_eq!(ROOM_LIFETIME_SECS, 2678400);
    assert_eq!(room_expiry(i64::MAX - 5), i64::MAX);
}
