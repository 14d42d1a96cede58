//! The edit operations of the live channel: what each does to a room and its
//! members, and what each connected viewer is sent afterwards.
use vstd::prelude::*;

use crate::grid::{
    all_listed, bool_matrix, grid_view, ids_of, index_matrix, lemma_filter_push, merge_user_schedule, merged,
    names_of, not_viewer, other_members, others_schedule, same_shape, sanitized, Uid,
};
use crate::room::{
    absent_reasons, first_row, member_pairs, opt_text, process_room_data, Room, UserOfRoom,
};

verus! {

/// The recognised message types of the live channel.
pub enum OperationKind {
    EditSchedule,
    EditEventName,
    EditUserName,
    EditIsAbsent,
}

/// A decoded edit, one variant per message type.
pub enum Operation {
    EditSchedule { user_schedule: Vec<Vec<bool>>, user_name: String },
    EditEventName { name: String },
    EditUserName { name: String },
    EditIsAbsent { user_name: String, absent_reason: Option<String> },
}

/// Why an edit was refused; the room and its members are left as they were.
pub enum HandleError {
    /// The owner of a room cannot be marked absent.
    OwnerCannotBeAbsent,
    /// The submitted matrix does not have the grid's shape.
    ScheduleShape,
}

/// Whether an accepted edit changed anything worth telling the viewers.
pub enum Applied {
    Changed,
    /// Silently ignored: a rename of the event by someone who is not its owner.
    Ignored,
}

/// A message for one viewer.
pub enum Outgoing {
    EditSchedule {
        user_name: String,
        others: Vec<String>,
        others_schedule: Vec<Vec<Vec<usize>>>,
        absent_reasons: Vec<Option<String>>,
    },
    EditEventName { event_name: String },
    EditUserName { others: Vec<String> },
    /// The viewer changed their own absence.
    UserSetAbsentReason {
        others_schedule: Vec<Vec<Vec<usize>>>,
        others: Vec<String>,
        absent_reasons: Vec<Option<String>>,
    },
    /// Someone else changed their absence.
    OtherSetAbsentReason {
        others_schedule: Vec<Vec<Vec<usize>>>,
        others: Vec<String>,
        absent_reasons: Vec<Option<String>>,
    },
    RoomDeleted,
}

pub open spec fn kind_of(t: Seq<char>) -> Option<OperationKind> {
    if t == "editSchedule"@ {
        Some(OperationKind::EditSchedule)
    } else if t == "editEventName"@ {
        Some(OperationKind::EditEventName)
    } else if t == "editUserName"@ {
        Some(OperationKind::EditUserName)
    } else if t == "editIsAbsent"@ {
        Some(OperationKind::EditIsAbsent)
    } else {
        None
    }
}

/// The operation a message type names; `None` for an unknown type.
pub fn operation_kind(message_type: &str) -> (r: Option<OperationKind>)
    ensures
        r == kind_of(message_type@),
{
    let t = message_type.to_owned();
    if t == "editSchedule".to_owned() {
        Some(OperationKind::EditSchedule)
    } else if t == "editEventName".to_owned() {
        Some(OperationKind::EditEventName)
    } else if t == "editUserName".to_owned() {
        Some(OperationKind::EditUserName)
    } else if t == "editIsAbsent".to_owned() {
        Some(OperationKind::EditIsAbsent)
    } else {
        None
    }
}

/// The name a new member gets: the one they gave, or their default one.
pub open spec fn chosen_name(user_name: Seq<char>, default_name: Seq<char>) -> Seq<char> {
    if user_name.len() == 0 {
        default_name
    } else {
        user_name
    }
}

/// `u` is a member of room `room_uid` just added for `v`: not the owner, not absent.
pub open spec fn fresh_member(u: UserOfRoom, room_uid: Seq<char>, v: Uid, name: Seq<char>) -> bool {
    &&& u.room_uid@ == room_uid
    &&& u.user_uid@ == v
    &&& u.name@ == name
    &&& !u.is_owner
    &&& !u.is_absent
    &&& u.absent_reason@.len() == 0
}

/// `new` is `old` with a member for `v` added at the end if `v` had none.
pub open spec fn with_member(
    old: Seq<UserOfRoom>,
    new: Seq<UserOfRoom>,
    room_uid: Seq<char>,
    v: Uid,
    name: Seq<char>,
) -> bool {
    if first_row(old, v) is Some {
        new == old
    } else {
        &&& new.len() == old.len() + 1
        &&& new.subrange(0, old.len() as int) == old
        &&& fresh_member(new.last(), room_uid, v, name)
    }
}

/// `w` is `u` with its name replaced.
pub open spec fn with_name(u: UserOfRoom, w: UserOfRoom, name: Seq<char>) -> bool {
    &&& w.room_uid == u.room_uid
    &&& w.user_uid == u.user_uid
    &&& w.name@ == name
    &&& w.is_owner == u.is_owner
    &&& w.is_absent == u.is_absent
    &&& w.absent_reason == u.absent_reason
}

/// `w` is `u` with its absence replaced.
pub open spec fn with_absence(u: UserOfRoom, w: UserOfRoom, absent: bool, reason: Seq<char>) -> bool {
    &&& w.room_uid == u.room_uid
    &&& w.user_uid == u.user_uid
    &&& w.name == u.name
    &&& w.is_owner == u.is_owner
    &&& w.is_absent == absent
    &&& w.absent_reason@ == reason
}

/// Every row of `v` renamed to `name`, the other rows untouched.
pub open spec fn renamed(old: Seq<UserOfRoom>, new: Seq<UserOfRoom>, v: Uid, name: Seq<char>) -> bool {
    &&& new.len() == old.len()
    &&& forall|i: int|
        0 <= i < old.len() ==> if (#[trigger] old[i]).user_uid@ == v {
            with_name(old[i], new[i], name)
        } else {
            new[i] == old[i]
        }
}

/// Every row of `v` given this absence, the other rows untouched.
pub open spec fn marked(
    old: Seq<UserOfRoom>,
    new: Seq<UserOfRoom>,
    v: Uid,
    absent: bool,
    reason: Seq<char>,
) -> bool {
    &&& new.len() == old.len()
    &&& forall|i: int|
        0 <= i < old.len() ==> if (#[trigger] old[i]).user_uid@ == v {
            with_absence(old[i], new[i], absent, reason)
        } else {
            new[i] == old[i]
        }
}

/// `v` is the owner of the room, as their first row says.
pub open spec fn is_owner(us: Seq<UserOfRoom>, v: Uid) -> bool {
    first_row(us, v) matches Some(u) && u.is_owner
}

/// The room is as it was, but perhaps for its grid and its event name.
pub open spec fn same_room_but(old: Room, new: Room) -> bool {
    &&& new.uid == old.uid
    &&& new.schedule_type == old.schedule_type
    &&& new.dates == old.dates
    &&& new.days_of_week == old.days_of_week
    &&& new.time_min == old.time_min
    &&& new.time_max == old.time_max
    &&& new.slot_length == old.slot_length
    &&& new.expires_at == old.expires_at
}

proof fn lemma_first_row_none(us: Seq<UserOfRoom>, v: Uid)
    requires
        first_row(us, v) is None,
    ensures
        forall|i: int| 0 <= i < us.len() ==> (#[trigger] us[i]).user_uid@ != v,
    decreases us.len(),
{
    if us.len() > 0 {
        lemma_first_row_none(us.drop_first(), v);
        assert forall|i: int| 0 <= i < us.len() implies (#[trigger] us[i]).user_uid@ != v by {
            if i > 0 {
                assert(us.drop_first()[i - 1] == us[i]);
            }
        }
    }
}

proof fn lemma_first_row_push(us: Seq<UserOfRoom>, u: UserOfRoom, v: Uid)
    requires
        first_row(us, v) is None,
        u.user_uid@ == v,
    ensures
        first_row(us.push(u), v) == Some(u),
    decreases us.len(),
{
    if us.len() > 0 {
        assert(us.push(u).drop_first() =~= us.drop_first().push(u));
        lemma_first_row_push(us.drop_first(), u, v);
    }
}

/// Makes `sender` a member of the room if they are not one yet, named
/// `user_name`, or `default_name` when that is empty.
pub fn ensure_member(
    members: &mut Vec<UserOfRoom>,
    room_uid: &str,
    sender: &str,
    user_name: &str,
    default_name: &str,
)
    ensures
        with_member(
            old(members)@,
            final(members)@,
            room_uid@,
            sender@,
            chosen_name(user_name@, default_name@),
        ),
{
    let mut i: usize = 0;
    let v = sender.to_owned();
    assert(members@.subrange(0, members@.len() as int) =~= members@);
    while i < members.len()
        invariant
            i <= members@.len(),
            v@ == sender@,
            first_row(members@, v@) == first_row(members@.subrange(i as int, members@.len() as int), v@),
        decreases members.len() - i,
    {
        if members[i].user_uid == v {
            assert(members@.subrange(i as int, members@.len() as int)[0] == members@[i as int]);
            return;
        }
        proof {
            assert(members@.subrange(i as int, members@.len() as int).drop_first() =~= members@.subrange(i + 1 as int, members@.len() as int));
        }
        i = i + 1;
    }
    let name = if user_name.is_empty() {
        default_name.to_owned()
    } else {
        user_name.to_owned()
    };
    let ghost before = members@;
    members.push(
        UserOfRoom {
            room_uid: room_uid.to_owned(),
            user_uid: v,
            name,
            is_owner: false,
            is_absent: false,
            absent_reason: String::new(),
        },
    );
    assert(members@.subrange(0, before.len() as int) =~= before);
}

/// Renames every row of `sender`.
fn rename_rows(members: &mut Vec<UserOfRoom>, sender: &str, name: &str)
    ensures
        renamed(old(members)@, final(members)@, sender@, name@),
{
    let v = sender.to_owned();
    let ghost old_us = members@;
    let mut i: usize = 0;
    while i < members.len()
        invariant
            i <= members@.len(),
            v@ == sender@,
            members@.len() == old_us.len(),
            forall|j: int|
                0 <= j < i ==> if (#[trigger] old_us[j]).user_uid@ == v@ {
                    with_name(old_us[j], members@[j], name@)
                } else {
                    members@[j] == old_us[j]
                },
            forall|j: int| i <= j < members@.len() ==> members@[j] == old_us[j],
        decreases members.len() - i,
    {
        if members[i].user_uid == v {
            let u = &members[i];
            let w = UserOfRoom {
                room_uid: u.room_uid.clone(),
                user_uid: u.user_uid.clone(),
                name: name.to_owned(),
                is_owner: u.is_owner,
                is_absent: u.is_absent,
                absent_reason: u.absent_reason.clone(),
            };
            members.set(i, w);
        }
        i = i + 1;
    }
}

/// Sets the absence of every row of `sender`.
fn mark_rows(members: &mut Vec<UserOfRoom>, sender: &str, absent: bool, reason: &str)
    ensures
        marked(old(members)@, final(members)@, sender@, absent, reason@),
{
    let v = sender.to_owned();
    let ghost old_us = members@;
    let mut i: usize = 0;
    while i < members.len()
        invariant
            i <= members@.len(),
            v@ == sender@,
            members@.len() == old_us.len(),
            forall|j: int|
                0 <= j < i ==> if (#[trigger] old_us[j]).user_uid@ == v@ {
                    with_absence(old_us[j], members@[j], absent, reason@)
                } else {
                    members@[j] == old_us[j]
                },
            forall|j: int| i <= j < members@.len() ==> members@[j] == old_us[j],
        decreases members.len() - i,
    {
        if members[i].user_uid == v {
            let u = &members[i];
            let w = UserOfRoom {
                room_uid: u.room_uid.clone(),
                user_uid: u.user_uid.clone(),
                name: u.name.clone(),
                is_owner: u.is_owner,
                is_absent: absent,
                absent_reason: reason.to_owned(),
            };
            members.set(i, w);
        }
        i = i + 1;
    }
}

/// Whether `sender` owns the room.
pub fn sender_is_owner(members: &Vec<UserOfRoom>, sender: &str) -> (r: bool)
    ensures
        r == is_owner(members@, sender@),
{
    let v = sender.to_owned();
    let mut i: usize = 0;
    assert(members@.subrange(0, members@.len() as int) =~= members@);
    while i < members.len()
        invariant
            i <= members@.len(),
            v@ == sender@,
            first_row(members@, v@) == first_row(members@.subrange(i as int, members@.len() as int), v@),
        decreases members.len() - i,
    {
        if members[i].user_uid == v {
            assert(members@.subrange(i as int, members@.len() as int)[0] == members@[i as int]);
            return members[i].is_owner;
        }
        proof {
            assert(members@.subrange(i as int, members@.len() as int).drop_first() =~= members@.subrange(i + 1 as int, members@.len() as int));
        }
        i = i + 1;
    }
    false
}

/// `editSchedule`: refused when the matrix does not have the grid's shape;
/// otherwise the sender becomes a member if needed and their cells are
/// re-derived from the matrix.
pub open spec fn schedule_edited(
    old_room: Room,
    new_room: Room,
    old_us: Seq<UserOfRoom>,
    new_us: Seq<UserOfRoom>,
    v: Uid,
    default_name: Seq<char>,
    user_schedule: Seq<Seq<bool>>,
    user_name: Seq<char>,
    r: Result<Applied, HandleError>,
) -> bool {
    if !same_shape(grid_view(old_room.schedule), user_schedule) {
        r == Err::<Applied, HandleError>(HandleError::ScheduleShape) && new_room == old_room
            && new_us == old_us
    } else {
        &&& r == Ok::<Applied, HandleError>(Applied::Changed)
        &&& same_room_but(old_room, new_room)
        &&& new_room.event_name == old_room.event_name
        &&& grid_view(new_room.schedule) == merged(grid_view(old_room.schedule), v, user_schedule)
        &&& with_member(old_us, new_us, old_room.uid@, v, chosen_name(user_name, default_name))
    }
}

/// `editEventName`: applied for the owner only, silently ignored otherwise.
pub open spec fn event_renamed(
    old_room: Room,
    new_room: Room,
    us: Seq<UserOfRoom>,
    v: Uid,
    name: Seq<char>,
    r: Result<Applied, HandleError>,
) -> bool {
    if is_owner(us, v) {
        &&& r == Ok::<Applied, HandleError>(Applied::Changed)
        &&& same_room_but(old_room, new_room)
        &&& new_room.schedule == old_room.schedule
        &&& new_room.event_name@ == name
    } else {
        r == Ok::<Applied, HandleError>(Applied::Ignored) && new_room == old_room
    }
}

/// `editIsAbsent`: refused for the owner; otherwise the sender becomes a
/// member if needed, and their absence is set (`absent`, with `reason`).
pub open spec fn absence_edited(
    old_us: Seq<UserOfRoom>,
    new_us: Seq<UserOfRoom>,
    room_uid: Seq<char>,
    v: Uid,
    name: Seq<char>,
    absent: bool,
    reason: Seq<char>,
    r: Result<Applied, HandleError>,
) -> bool {
    if is_owner(old_us, v) {
        r == Err::<Applied, HandleError>(HandleError::OwnerCannotBeAbsent) && new_us == old_us
    } else {
        &&& r == Ok::<Applied, HandleError>(Applied::Changed)
        &&& if first_row(old_us, v) is Some {
            marked(old_us, new_us, v, absent, reason)
        } else {
            &&& new_us.len() == old_us.len() + 1
            &&& new_us.subrange(0, old_us.len() as int) == old_us
            &&& new_us.last().room_uid@ == room_uid
            &&& new_us.last().user_uid@ == v
            &&& new_us.last().name@ == name
            &&& !new_us.last().is_owner
            &&& new_us.last().is_absent == absent
            &&& new_us.last().absent_reason@ == reason
        }
    }
}

pub open spec fn reason_text_of(o: Option<String>) -> Seq<char> {
    match o {
        Some(t) => t@,
        None => Seq::empty(),
    }
}

/// What an operation does to the room and its members.
pub open spec fn applied(
    old_room: Room,
    new_room: Room,
    old_us: Seq<UserOfRoom>,
    new_us: Seq<UserOfRoom>,
    v: Uid,
    default_name: Seq<char>,
    op: Operation,
    r: Result<Applied, HandleError>,
) -> bool {
    match op {
        Operation::EditSchedule { user_schedule, user_name } => schedule_edited(
            old_room,
            new_room,
            old_us,
            new_us,
            v,
            default_name,
            bool_matrix(user_schedule),
            user_name@,
            r,
        ),
        Operation::EditEventName { name } => event_renamed(old_room, new_room, old_us, v, name@, r)
            && new_us == old_us,
        Operation::EditUserName { name } => r == Ok::<Applied, HandleError>(Applied::Changed)
            && renamed(old_us, new_us, v, name@) && new_room == old_room,
        Operation::EditIsAbsent { user_name, absent_reason } => absence_edited(
            old_us,
            new_us,
            old_room.uid@,
            v,
            chosen_name(user_name@, default_name),
            absent_reason is Some,
            reason_text_of(absent_reason),
            r,
        ) && new_room == old_room,
    }
}

/// Merges the sender's submitted availability into the grid.
pub fn edit_schedule(
    room: &mut Room,
    members: &mut Vec<UserOfRoom>,
    sender: &str,
    default_name: &str,
    user_schedule: &Vec<Vec<bool>>,
    user_name: &str,
) -> (r: Result<Applied, HandleError>)
    ensures
        schedule_edited(
            *old(room),
            *final(room),
            old(members)@,
            final(members)@,
            sender@,
            default_name@,
            bool_matrix(*user_schedule),
            user_name@,
            r,
        ),
{
    match merge_user_schedule(&room.schedule, sender, user_schedule) {
        None => Err(HandleError::ScheduleShape),
        Some(grid) => {
            ensure_member(members, room.uid.as_str(), sender, user_name, default_name);
            room.schedule = grid;
            Ok(Applied::Changed)
        },
    }
}

/// Renames the event, when the sender owns the room.
pub fn edit_event_name(room: &mut Room, members: &Vec<UserOfRoom>, sender: &str, name: &str) -> (r:
    Result<Applied, HandleError>)
    ensures
        event_renamed(*old(room), *final(room), members@, sender@, name@, r),
{
    if sender_is_owner(members, sender) {
        room.event_name = name.to_owned();
        Ok(Applied::Changed)
    } else {
        Ok(Applied::Ignored)
    }
}

/// Renames the sender in the room.
pub fn edit_user_name(members: &mut Vec<UserOfRoom>, sender: &str, name: &str) -> (r: Result<
    Applied,
    HandleError,
>)
    ensures
        r == Ok::<Applied, HandleError>(Applied::Changed),
        renamed(old(members)@, final(members)@, sender@, name@),
{
    rename_rows(members, sender, name);
    Ok(Applied::Changed)
}

/// Marks the sender absent with a reason, or present when there is none.
pub fn edit_is_absent(
    members: &mut Vec<UserOfRoom>,
    room_uid: &str,
    sender: &str,
    default_name: &str,
    user_name: &str,
    absent_reason: &Option<String>,
) -> (r: Result<Applied, HandleError>)
    ensures
        absence_edited(
            old(members)@,
            final(members)@,
            room_uid@,
            sender@,
            chosen_name(user_name@, default_name@),
            absent_reason is Some,
            reason_text_of(*absent_reason),
            r,
        ),
{
    if sender_is_owner(members, sender) {
        return Err(HandleError::OwnerCannotBeAbsent);
    }
    let ghost old_us = members@;
    let (absent, reason) = match absent_reason {
        Some(t) => (true, t.clone()),
        None => (false, String::new()),
    };
    ensure_member(members, room_uid, sender, user_name, default_name);
    let ghost mid = members@;
    mark_rows(members, sender, absent, reason.as_str());
    proof {
        if first_row(old_us, sender@) is None {
            lemma_first_row_none(old_us, sender@);
            let new_us = members@;
            assert(mid.last().user_uid@ == sender@);
            assert(mid[old_us.len() as int] == mid.last());
            assert forall|i: int| 0 <= i < old_us.len() implies new_us.subrange(
                0,
                old_us.len() as int,
            )[i] == old_us[i] by {
                assert(mid[i] == old_us[i]);
            }
            assert(new_us.subrange(0, old_us.len() as int) =~= old_us);
        }
    }
    Ok(Applied::Changed)
}

/// Applies one edit from `sender` to the room and its members.
pub fn apply_operation(
    room: &mut Room,
    members: &mut Vec<UserOfRoom>,
    sender: &str,
    default_name: &str,
    op: &Operation,
) -> (r: Result<Applied, HandleError>)
    ensures
        applied(*old(room), *final(room), old(members)@, final(members)@, sender@, default_name@, *op, r),
{
    match op {
        Operation::EditSchedule { user_schedule, user_name } => edit_schedule(
            room,
            members,
            sender,
            default_name,
            user_schedule,
            user_name.as_str(),
        ),
        Operation::EditEventName { name } => edit_event_name(room, members, sender, name.as_str()),
        Operation::EditUserName { name } => edit_user_name(members, sender, name.as_str()),
        Operation::EditIsAbsent { user_name, absent_reason } => {
            let uid = room.uid.clone();
            edit_is_absent(
                members,
                uid.as_str(),
                sender,
                default_name,
                user_name.as_str(),
                absent_reason,
            )
        },
    }
}

/// An `editIsAbsent` from the owner of a room never marks anyone absent:
/// it is refused and the members stay as they were.
pub proof fn lemma_owner_never_absent(
    old_us: Seq<UserOfRoom>,
    new_us: Seq<UserOfRoom>,
    room_uid: Seq<char>,
    v: Uid,
    name: Seq<char>,
    absent: bool,
    reason: Seq<char>,
    r: Result<Applied, HandleError>,
)
    requires
        absence_edited(old_us, new_us, room_uid, v, name, absent, reason, r),
        is_owner(old_us, v),
    ensures
        r == Err::<Applied, HandleError>(HandleError::OwnerCannotBeAbsent),
        new_us.len() == old_us.len(),
        forall|i: int| 0 <= i < new_us.len() ==> #[trigger] new_us[i].is_absent == old_us[i].is_absent,
{
}

/// A view of the room can be made for `w`: everyone else in the grid is a member.
pub open spec fn viewable(room: Room, us: Seq<UserOfRoom>, w: Uid) -> bool {
    all_listed(others_schedule(grid_view(room.schedule), w), ids_of(member_pairs(us)))
}

/// The names, the grid and the absence reasons are what `w` is shown of the others.
pub open spec fn shows_others(
    room: Room,
    us: Seq<UserOfRoom>,
    w: Uid,
    others: Vec<String>,
    others_schedule_idx: Vec<Vec<Vec<usize>>>,
    reasons: Vec<Option<String>>,
) -> bool {
    &&& (others@.map_values(|n: String| n@), index_matrix(others_schedule_idx)) == sanitized(
        others_schedule(grid_view(room.schedule), w),
        member_pairs(us),
        w,
    )
    &&& reasons@.map_values(|o: Option<String>| opt_text(o)) == absent_reasons(us, w)
}

/// The name `w` has in the room, empty if not a member.
pub open spec fn own_name(us: Seq<UserOfRoom>, w: Uid) -> Seq<char> {
    match first_row(us, w) {
        Some(u) => u.name@,
        None => Seq::empty(),
    }
}

/// The message viewer `w` gets after `sender`'s operation `op` was applied:
/// the schedule and absence edits go to everyone (a viewer for whom no view
/// can be made gets nothing), the renames to everyone but the sender.
pub open spec fn delivers(
    room: Room,
    us: Seq<UserOfRoom>,
    sender: Uid,
    op: Operation,
    w: Uid,
    m: Option<Outgoing>,
) -> bool {
    match op {
        Operation::EditSchedule { .. } => if viewable(room, us, w) {
            m matches Some(Outgoing::EditSchedule { user_name, others, others_schedule, absent_reasons })
                && user_name@ == own_name(us, w) && shows_others(
                room,
                us,
                w,
                others,
                others_schedule,
                absent_reasons,
            )
        } else {
            m is None
        },
        Operation::EditEventName { .. } => if w == sender {
            m is None
        } else {
            m matches Some(Outgoing::EditEventName { event_name }) && event_name@ == room.event_name@
        },
        Operation::EditUserName { .. } => if w == sender {
            m is None
        } else {
            m matches Some(Outgoing::EditUserName { others }) && others@.map_values(|n: String| n@)
                == names_of(other_members(member_pairs(us), w))
        },
        Operation::EditIsAbsent { .. } => if !viewable(room, us, w) {
            m is None
        } else if w == sender {
            m matches Some(
                Outgoing::UserSetAbsentReason { others_schedule, others, absent_reasons },
            ) && shows_others(room, us, w, others, others_schedule, absent_reasons)
        } else {
            m matches Some(
                Outgoing::OtherSetAbsentReason { others_schedule, others, absent_reasons },
            ) && shows_others(room, us, w, others, others_schedule, absent_reasons)
        },
    }
}

/// The names of the members other than `w`, in order.
fn names_except(members: &Vec<UserOfRoom>, w: &String) -> (r: Vec<String>)
    ensures
        r@.map_values(|n: String| n@) == names_of(other_members(member_pairs(members@), w@)),
{
    let ghost mp = member_pairs(members@);
    let ghost pred = not_viewer(w@);
    let mut out: Vec<String> = Vec::new();
    let mut i: usize = 0;
    while i < members.len()
        invariant
            i <= members@.len(),
            mp == member_pairs(members@),
            pred == not_viewer(w@),
            out@.map_values(|n: String| n@) == names_of(mp.subrange(0, i as int).filter(pred)),
        decreases members.len() - i,
    {
        proof {
            lemma_filter_push(mp, i as int, pred);
        }
        let ghost before = mp.subrange(0, i as int).filter(pred);
        let ghost prev = out@;
        if !(members[i].user_uid == *w) {
            assert(pred(mp[i as int]));
            out.push(members[i].name.clone());
            assert(names_of(before.push(mp[i as int])) =~= names_of(before).push(members@[i as int].name@));
            assert(out@.map_values(|n: String| n@) =~= prev.map_values(|n: String| n@).push(members@[i as int].name@));
        } else {
            assert(!pred(mp[i as int]));
        }
        i = i + 1;
    }
    assert(mp.subrange(0, i as int) =~= mp);
    out
}

/// The message one viewer gets after `sender`'s operation, if any.
pub fn message_for(
    room: &Room,
    members: &Vec<UserOfRoom>,
    sender: &str,
    op: &Operation,
    viewer: &String,
) -> (r: Option<Outgoing>)
    ensures
        delivers(*room, members@, sender@, *op, viewer@, r),
{
    let from_sender = *viewer == sender.to_owned();
    match op {
        Operation::EditSchedule { .. } => match process_room_data(room, members, viewer.as_str()) {
            Ok(res) => Some(
                Outgoing::EditSchedule {
                    user_name: res.user_name,
                    others: res.others_names,
                    others_schedule: res.others_schedule,
                    absent_reasons: res.absent_reasons,
                },
            ),
            Err(_) => None,
        },
        Operation::EditEventName { .. } => if from_sender {
            None
        } else {
            Some(Outgoing::EditEventName { event_name: room.event_name.clone() })
        },
        Operation::EditUserName { .. } => if from_sender {
            None
        } else {
            Some(Outgoing::EditUserName { others: names_except(members, viewer) })
        },
        Operation::EditIsAbsent { .. } => match process_room_data(room, members, viewer.as_str()) {
            Ok(res) => if from_sender {
                Some(
                    Outgoing::UserSetAbsentReason {
                        others_schedule: res.others_schedule,
                        others: res.others_names,
                        absent_reasons: res.absent_reasons,
                    },
                )
            } else {
                Some(
                    Outgoing::OtherSetAbsentReason {
                        others_schedule: res.others_schedule,
                        others: res.others_names,
                        absent_reasons: res.absent_reasons,
                    },
                )
            },
            Err(_) => None,
        },
    }
}

/// The messages for the connected viewers after `sender`'s operation was
/// applied, one slot per viewer, in the same order.
pub fn fan_out(
    room: &Room,
    members: &Vec<UserOfRoom>,
    sender: &str,
    op: &Operation,
    viewers: &Vec<String>,
) -> (r: Vec<Option<Outgoing>>)
    ensures
        r@.len() == viewers@.len(),
        forall|j: int|
            0 <= j < viewers@.len() ==> delivers(
                *room,
                members@,
                sender@,
                *op,
                viewers@[j]@,
                #[trigger] r@[j],
            ),
{
    let mut out: Vec<Option<Outgoing>> = Vec::with_capacity(viewers.len());
    let mut j: usize = 0;
    while j < viewers.len()
        invariant
            j <= viewers@.len(),
            out@.len() == j,
            forall|k: int|
                0 <= k < j ==> delivers(*room, members@, sender@, *op, viewers@[k]@, #[trigger] out@[k]),
        decreases viewers.len() - j,
    {
        out.push(message_for(room, members, sender, op, &viewers[j]));
        j = j + 1;
    }
    out
}

/// The notices of a deleted room: every connected viewer but the one who deleted it.
pub fn room_deleted_notices(viewers: &Vec<String>, sender: &str) -> (r: Vec<Option<Outgoing>>)
    ensures
        r@.len() == viewers@.len(),
        forall|j: int|
            0 <= j < viewers@.len() ==> (#[trigger] r@[j] is Some <==> viewers@[j]@ != sender@)
                && (r@[j] is Some ==> r@[j] == Some(Outgoing::RoomDeleted)),
{
    let s = sender.to_owned();
    let mut out: Vec<Option<Outgoing>> = Vec::with_capacity(viewers.len());
    let mut j: usize = 0;
    while j < viewers.len()
        invariant
            j <= viewers@.len(),
            s@ == sender@,
            out@.len() == j,
            forall|k: int|
                0 <= k < j ==> (#[trigger] out@[k] is Some <==> viewers@[k]@ != sender@) && (
                out@[k] is Some ==> out@[k] == Some(Outgoing::RoomDeleted)),
        decreases viewers.len() - j,
    {
        if viewers[j] == s {
            out.push(None);
        } else {
            out.push(Some(Outgoing::RoomDeleted));
        }
        j = j + 1;
    }
    out
}

} // verus!
