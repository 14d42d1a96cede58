use rsvp::dispatch::{
    apply_operation, ensure_member, fan_out, operation_kind, room_deleted_notices, Applied,
    HandleError, Operation, OperationKind, Outgoing,
};
use rsvp::liveness::{Inbound, Liveness, Outbound};
use rsvp::registry::Registry;
use rsvp::room::{new_room, process_room_data, CreateRoomReq, Room, ScheduleDates, TimeRange, UserOfRoom};

fn two_by_three_room() -> (Room, Vec<UserOfRoom>) {
    let req = CreateRoomReq {
        event_name: "Meet".to_string(),
        schedule_type: 0,
        dates: ScheduleDates::Dates(vec!["2024-06-01".to_string(), "2024-06-02".to_string()]),
        slot_length: 60,
        schedule: vec![vec![true, false, true], vec![false, true, false]],
        time_range: TimeRange { from_hour: 9, to_hour: 12 },
    };
    let (room, owner) = new_room(req, "ROOM", "A", 0);
    (room, vec![owner])
}

fn edit_schedule(m: Vec<Vec<bool>>, name: &str) -> Operation {
    Operation::EditSchedule { user_schedule: m, user_name: name.to_string() }
}

#[test]
fn two_participants_scenario() {
    let (mut room, mut members) = two_by_three_room();
    let b_sub = vec![vec![true, true, false], vec![false, false, true]];
    let r = apply_operation(&mut room, &mut members, "B", "", &edit_schedule(b_sub.clone(), "Bea"));
    assert!(matches!(r, Ok(Applied::Changed)));
    assert_eq!(members.len(), 2);
    assert_eq!(members[1].name, "Bea");
    let a_view = process_room_data(&room, &members, "A").ok().unwrap();
    assert_eq!(a_view.others_names, vec!["Bea".to_string()]);
    assert_eq!(
        a_view.others_schedule,
        vec![vec![vec![0], vec![0], vec![]], vec![vec![], vec![], vec![0]]]
    );
    assert_eq!(a_view.user_schedule, vec![vec![true, false, true], vec![false, true, false]]);
    let b_view = process_room_data(&room, &members, "B").ok().unwrap();
    assert_eq!(b_view.user_schedule, b_sub);
    assert!(a_view.is_owner);
    assert!(!b_view.is_owner);
    assert!(members.iter().filter(|m| m.is_owner).all(|m| m.user_uid == "A"));
}

#[test]
fn edit_schedule_fans_out_to_everyone() {
    let (mut room, mut members) = two_by_three_room();
    let op = edit_schedule(vec![vec![false, false, false], vec![true, true, true]], "Bea");
    apply_operation(&mut room, &mut members, "B", "", &op).ok().unwrap();
    let viewers = vec!["A".to_string(), "B".to_string()];
    let out = fan_out(&room, &members, "B", &op, &viewers);
    assert_eq!(out.len(), 2);
    match &out[0] {
        Some(Outgoing::EditSchedule { user_name, others, others_schedule, absent_reasons }) => {
            assert_eq!(user_name, "Jeff");
            assert_eq!(others, &vec!["Bea".to_string()]);
            assert_eq!(others_schedule[1][2], vec![0]);
            assert_eq!(absent_reasons, &vec![None, None]);
        }
        _ => panic!("expected a schedule message"),
    }
    assert!(matches!(&out[1], Some(Outgoing::EditSchedule { .. })));
}

#[test]
fn wrong_shape_changes_nothing() {
    let (mut room, mut members) = two_by_three_room();
    let r = apply_operation(&mut room, &mut members, "B", "", &edit_schedule(vec![vec![true]], "B"));
    assert!(matches!(r, Err(HandleError::ScheduleShape)));
    assert_eq!(members.len(), 1);
}

#[test]
fn owner_cannot_mark_self_absent() {
    let (mut room, mut members) = two_by_three_room();
    let before = room.schedule.clone();
    let op = Operation::EditIsAbsent {
        user_name: "Jeff".to_string(),
        absent_reason: Some("sick".to_string()),
    };
    let r = apply_operation(&mut room, &mut members, "A", "", &op);
    assert!(matches!(r, Err(HandleError::OwnerCannotBeAbsent)));
    assert!(!members[0].is_absent);
    assert_eq!(members[0].absent_reason, "");
    assert_eq!(members.len(), 1);
    assert_eq!(room.schedule, before);
}

#[test]
fn non_owner_cannot_rename_event() {
    let (mut room, mut members) = two_by_three_room();
    ensure_member(&mut members, "ROOM", "B", "Bea", "");
    let op = Operation::EditEventName { name: "Hijack".to_string() };
    let r = apply_operation(&mut room, &mut members, "B", "", &op);
    assert!(matches!(r, Ok(Applied::Ignored)));
    assert_eq!(room.event_name, "Meet");
}

#[test]
fn owner_renames_event_for_others() {
    let (mut room, mut members) = two_by_three_room();
    let op = Operation::EditEventName { name: "Party".to_string() };
    assert!(matches!(apply_operation(&mut room, &mut members, "A", "", &op), Ok(Applied::Changed)));
    assert_eq!(room.event_name, "Party");
    let out = fan_out(&room, &members, "A", &op, &vec!["A".to_string(), "B".to_string()]);
    assert!(out[0].is_none());
    match &out[1] {
        Some(Outgoing::EditEventName { event_name }) => assert_eq!(event_name, "Party"),
        _ => panic!("expected an event name"),
    }
}

#[test]
fn rename_user_sends_names_without_recipient() {
    let (mut room, mut members) = two_by_three_room();
    ensure_member(&mut members, "ROOM", "B", "Bea", "");
    ensure_member(&mut members, "ROOM", "C", "Cy", "");
    let op = Operation::EditUserName { name: "Beatrix".to_string() };
    apply_operation(&mut room, &mut members, "B", "", &op).ok().unwrap();
    assert_eq!(members[1].name, "Beatrix");
    let viewers = vec!["A".to_string(), "B".to_string(), "C".to_string()];
    let out = fan_out(&room, &members, "B", &op, &viewers);
    assert!(out[1].is_none());
    match &out[0] {
        Some(Outgoing::EditUserName { others }) => {
            assert_eq!(others, &vec!["Beatrix".to_string(), "Cy".to_string()])
        }
        _ => panic!("expected names"),
    }
    match &out[2] {
        Some(Outgoing::EditUserName { others }) => {
            assert_eq!(others, &vec!["Jeff".to_string(), "Beatrix".to_string()])
        }
        _ => panic!("expected names"),
    }
}

#[test]
fn absence_creates_member_and_tags_sender() {
    let (mut room, mut members) = two_by_three_room();
    let op = Operation::EditIsAbsent {
        user_name: "".to_string(),
        absent_reason: Some("travel".to_string()),
    };
    apply_operation(&mut room, &mut members, "B", "Default B", &op).ok().unwrap();
    assert_eq!(members.len(), 2);
    assert_eq!(members[1].name, "Default B");
    assert!(members[1].is_absent);
    assert_eq!(members[1].absent_reason, "travel");
    let out = fan_out(&room, &members, "B", &op, &vec!["A".to_string(), "B".to_string()]);
    match &out[0] {
        Some(Outgoing::OtherSetAbsentReason { absent_reasons, .. }) => {
            assert_eq!(absent_reasons, &vec![None, Some("travel".to_string())])
        }
        _ => panic!("expected another's absence"),
    }
    match &out[1] {
        Some(Outgoing::UserSetAbsentReason { absent_reasons, .. }) => {
            assert_eq!(absent_reasons, &vec![Some("travel".to_string()), None])
        }
        _ => panic!("expected own absence"),
    }
    let clear = Operation::EditIsAbsent { user_name: "x".to_string(), absent_reason: None };
    apply_operation(&mut room, &mut members, "B", "", &clear).ok().unwrap();
    assert!(!members[1].is_absent);
    assert_eq!(members[1].absent_reason, "");
    assert_eq!(members[1].name, "Default B");
}

#[test]
fn ensure_member_is_idempotent() {
    let mut members: Vec<UserOfRoom> = vec![];
    ensure_member(&mut members, "R", "u", "", "Fallback");
    ensure_member(&mut members, "R", "u", "Other", "x");
    assert_eq!(members.len(), 1);
    assert_eq!(members[0].name, "Fallback");
    assert!(!members[0].is_owner);
}

#[test]
fn operation_kinds() {
    assert!(matches!(operation_kind("editSchedule"), Some(OperationKind::EditSchedule)));
    assert!(matches!(operation_kind("editEventName"), Some(OperationKind::EditEventName)));
    assert!(matches!(operation_kind("editUserName"), Some(OperationKind::EditUserName)));
    assert!(matches!(operation_kind("editIsAbsent"), Some(OperationKind::EditIsAbsent)));
    assert!(operation_kind("deleteEverything").is_none());
}

#[test]
fn room_deleted_skips_deleter() {
    let out = room_deleted_notices(&vec!["A".to_string(), "B".to_string()], "A");
    assert!(out[0].is_none());
    assert!(matches!(out[1], Some(Outgoing::RoomDeleted)));
}

#[test]
fn last_participant_timeout_clears_room() {
    let mut registry: Registry<u8> = Registry::new();
    registry.register("ROOM", "A", 0);
    let mut link = Liveness::new(0);
    assert!(matches!(link.step(15000, Inbound::Tick), Outbound::SendPing));
    assert!(matches!(link.step(30000, Inbound::Tick), Outbound::Disconnect));
    registry.unregister("ROOM", "A");
    assert!(!registry.contains_room("ROOM"));
}
