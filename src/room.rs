//! Rooms, their members, and what one viewer is shown of a room.
use vstd::prelude::*;

use crate::codec::{
    bytes_from_json, bytes_json, grid_from_json, grid_json, read_bytes, read_grid, read_texts,
    texts_from_json, texts_json, texts_view, write_bytes, write_grid, write_texts,
};
use crate::grid::{
    all_listed, bool_matrix, grid_view, ids_of, index_matrix, initial_grid, lemma_filter_push,
    lemma_viewer_not_in_others, not_viewer, other_members, others_schedule, own_schedule,
    owner_grid, pairs_view, sanitize, sanitized, split_grid, Uid,
};

verus! {

/// The hours of the day a room covers, `[from_hour, to_hour)`.
pub struct TimeRange {
    pub from_hour: u8,
    pub to_hour: u8,
}

/// The days of a room: calendar dates, or recurring weekdays, never both.
pub enum ScheduleDates {
    Dates(Vec<String>),
    DaysOfWeek(Vec<u8>),
}

/// A request to create a room, with its creator's availability.
pub struct CreateRoomReq {
    pub event_name: String,
    pub schedule_type: u8,
    pub dates: ScheduleDates,
    pub slot_length: u8,
    pub schedule: Vec<Vec<bool>>,
    pub time_range: TimeRange,
}

/// A participant of one room.
pub struct UserOfRoom {
    pub room_uid: String,
    pub user_uid: String,
    pub name: String,
    pub is_owner: bool,
    pub is_absent: bool,
    pub absent_reason: String,
}

/// A room, with its grid and its lists of days read.
pub struct Room {
    pub uid: String,
    pub schedule_type: u8,
    pub event_name: String,
    pub dates: Vec<String>,
    pub days_of_week: Vec<u8>,
    pub time_min: u8,
    pub time_max: u8,
    pub slot_length: u8,
    pub schedule: Vec<Vec<Vec<String>>>,
    /// Seconds since the Unix epoch.
    pub expires_at: i64,
}

/// A room as stored: the grid and the lists of days as JSON text.
pub struct RoomRecord {
    pub uid: String,
    pub schedule_type: u8,
    pub event_name: String,
    pub dates: String,
    pub days_of_week: String,
    pub time_min: u8,
    pub time_max: u8,
    pub slot_length: u8,
    pub schedule: String,
    pub expires_at: i64,
}

/// What one viewer is shown of a room.
pub struct GetRoomRes {
    pub event_name: String,
    pub schedule_type: u8,
    pub dates: Vec<String>,
    pub days_of_week: Vec<u8>,
    pub slot_length: u8,
    pub user_schedule: Vec<Vec<bool>>,
    pub others_schedule: Vec<Vec<Vec<usize>>>,
    pub user_name: String,
    pub others_names: Vec<String>,
    pub time_range: TimeRange,
    pub is_owner: bool,
    /// The viewer's absence reason first, then the others' in the order of `others_names`.
    pub absent_reasons: Vec<Option<String>>,
}

/// Why a view of a room cannot be made.
pub enum ViewError {
    /// The grid holds an identifier that is neither the viewer nor a member.
    UnknownParticipant,
}

/// The record is the room written out: same fields, the grid and the lists as JSON.
pub open spec fn stores(rec: RoomRecord, room: Room) -> bool {
    &&& rec.uid@ == room.uid@
    &&& rec.schedule_type == room.schedule_type
    &&& rec.event_name@ == room.event_name@
    &&& rec.time_min == room.time_min
    &&& rec.time_max == room.time_max
    &&& rec.slot_length == room.slot_length
    &&& rec.expires_at == room.expires_at
}

/// Reads the JSON columns of a stored room; `None` when one of them does not parse.
pub fn decode_room(rec: &RoomRecord) -> (r: Option<Room>)
    ensures
        r is Some <==> (grid_from_json(rec.schedule@) is Some && texts_from_json(rec.dates@) is Some
            && bytes_from_json(rec.days_of_week@) is Some),
        r matches Some(room) ==> {
            &&& stores(*rec, room)
            &&& grid_from_json(rec.schedule@) == Some(grid_view(room.schedule))
            &&& texts_from_json(rec.dates@) == Some(texts_view(room.dates))
            &&& bytes_from_json(rec.days_of_week@) == Some(room.days_of_week@)
        },
{
    let schedule = read_grid(rec.schedule.as_str());
    let dates = read_texts(rec.dates.as_str());
    let days = read_bytes(rec.days_of_week.as_str());
    match (schedule, dates, days) {
        (Some(schedule), Some(dates), Some(days_of_week)) => Some(
            Room {
                uid: rec.uid.clone(),
                schedule_type: rec.schedule_type,
                event_name: rec.event_name.clone(),
                dates,
                days_of_week,
                time_min: rec.time_min,
                time_max: rec.time_max,
                slot_length: rec.slot_length,
                schedule,
                expires_at: rec.expires_at,
            },
        ),
        _ => None,
    }
}

/// Writes a room out for storage.
pub fn encode_room(room: &Room) -> (r: RoomRecord)
    ensures
        stores(r, *room),
        r.schedule@ == grid_json(grid_view(room.schedule)),
        r.dates@ == texts_json(texts_view(room.dates)),
        r.days_of_week@ == bytes_json(room.days_of_week@),
{
    RoomRecord {
        uid: room.uid.clone(),
        schedule_type: room.schedule_type,
        event_name: room.event_name.clone(),
        dates: write_texts(&room.dates),
        days_of_week: write_bytes(&room.days_of_week),
        time_min: room.time_min,
        time_max: room.time_max,
        slot_length: room.slot_length,
        schedule: write_grid(&room.schedule),
        expires_at: room.expires_at,
    }
}

/// The `(identifier, name)` pairs of the members, in order.
pub open spec fn member_pairs(us: Seq<UserOfRoom>) -> Seq<(Uid, Seq<char>)> {
    us.map_values(|u: UserOfRoom| (u.user_uid@, u.name@))
}

/// The first row of `v` among the members, as a lookup by identifier finds it.
pub open spec fn first_row(us: Seq<UserOfRoom>, v: Uid) -> Option<UserOfRoom>
    decreases us.len(),
{
    if us.len() == 0 {
        None
    } else if us[0].user_uid@ == v {
        Some(us[0])
    } else {
        first_row(us.drop_first(), v)
    }
}

pub open spec fn not_user(v: Uid) -> spec_fn(UserOfRoom) -> bool {
    |u: UserOfRoom| u.user_uid@ != v
}

/// The absence reason of a member: `None` unless marked absent.
pub open spec fn reason_of(u: UserOfRoom) -> Option<Seq<char>> {
    if u.is_absent {
        Some(u.absent_reason@)
    } else {
        None
    }
}

/// The viewer's own absence reason first (none if not a member), then the
/// other members' in order.
pub open spec fn absent_reasons(us: Seq<UserOfRoom>, v: Uid) -> Seq<Option<Seq<char>>> {
    let own = match first_row(us, v) {
        Some(u) => reason_of(u),
        None => None,
    };
    seq![own] + us.filter(not_user(v)).map_values(|u: UserOfRoom| reason_of(u))
}

pub open spec fn opt_text(o: Option<String>) -> Option<Seq<char>> {
    match o {
        Some(t) => Some(t@),
        None => None,
    }
}

/// `res` is what viewer `v` is shown of `room` with members `us`.
pub open spec fn describes(res: GetRoomRes, room: Room, us: Seq<UserOfRoom>, v: Uid) -> bool {
    let g = grid_view(room.schedule);
    let row = first_row(us, v);
    &&& res.event_name@ == room.event_name@
    &&& res.schedule_type == room.schedule_type
    &&& res.dates@ == room.dates@
    &&& res.days_of_week@ == room.days_of_week@
    &&& res.slot_length == room.slot_length
    &&& res.time_range.from_hour == room.time_min
    &&& res.time_range.to_hour == room.time_max
    &&& bool_matrix(res.user_schedule) == own_schedule(g, v)
    &&& (res.others_names@.map_values(|n: String| n@), index_matrix(res.others_schedule))
        == sanitized(others_schedule(g, v), member_pairs(us), v)
    &&& res.user_name@ == match row {
        Some(u) => u.name@,
        None => Seq::<char>::empty(),
    }
    &&& res.is_owner == (row matches Some(u) && u.is_owner)
    &&& res.absent_reasons@.map_values(|o: Option<String>| opt_text(o)) == absent_reasons(us, v)
}

proof fn lemma_first_row_skip(us: Seq<UserOfRoom>, i: int, v: Uid)
    requires
        0 <= i < us.len(),
        us[i].user_uid@ != v,
    ensures
        first_row(us.subrange(i, us.len() as int), v) == first_row(
            us.subrange(i + 1, us.len() as int),
            v,
        ),
{
    assert(us.subrange(i, us.len() as int).drop_first() =~= us.subrange(i + 1, us.len() as int));
}

/// The first row of `v` among the members.
fn find_row(us: &Vec<UserOfRoom>, v: &String) -> (r: Option<usize>)
    ensures
        r matches Some(i) ==> i < us@.len() && first_row(us@, v@) == Some(us@[i as int]),
        r is None ==> first_row(us@, v@) is None,
{
    let mut i: usize = 0;
    assert(us@.subrange(0, us@.len() as int) =~= us@);
    while i < us.len()
        invariant
            i <= us@.len(),
            first_row(us@, v@) == first_row(us@.subrange(i as int, us@.len() as int), v@),
        decreases us.len() - i,
    {
        if us[i].user_uid == *v {
            return Some(i);
        }
        proof {
            lemma_first_row_skip(us@, i as int, v@);
        }
        i = i + 1;
    }
    None
}

fn copy_texts(v: &Vec<String>) -> (r: Vec<String>)
    ensures
        r@ == v@,
{
    let mut out: Vec<String> = Vec::with_capacity(v.len());
    let mut i: usize = 0;
    while i < v.len()
        invariant
            i <= v@.len(),
            out@ == v@.subrange(0, i as int),
        decreases v.len() - i,
    {
        out.push(v[i].clone());
        assert(out@ =~= v@.subrange(0, i + 1 as int));
        i = i + 1;
    }
    assert(v@.subrange(0, i as int) =~= v@);
    out
}

fn copy_bytes(v: &Vec<u8>) -> (r: Vec<u8>)
    ensures
        r@ == v@,
{
    let mut out: Vec<u8> = Vec::with_capacity(v.len());
    let mut i: usize = 0;
    while i < v.len()
        invariant
            i <= v@.len(),
            out@ == v@.subrange(0, i as int),
        decreases v.len() - i,
    {
        out.push(v[i]);
        assert(out@ =~= v@.subrange(0, i + 1 as int));
        i = i + 1;
    }
    assert(v@.subrange(0, i as int) =~= v@);
    out
}

fn reason_text(u: &UserOfRoom) -> (r: Option<String>)
    ensures
        opt_text(r) == reason_of(*u),
{
    if u.is_absent {
        Some(u.absent_reason.clone())
    } else {
        None
    }
}

/// The absence reasons shown to `v`.
fn collect_reasons(us: &Vec<UserOfRoom>, v: &String) -> (r: Vec<Option<String>>)
    ensures
        r@.map_values(|o: Option<String>| opt_text(o)) == absent_reasons(us@, v@),
{
    let mut out: Vec<Option<String>> = Vec::with_capacity(1);
    match find_row(us, v) {
        Some(i) => out.push(reason_text(&us[i])),
        None => out.push(None),
    }
    let ghost head = out@.map_values(|o: Option<String>| opt_text(o));
    let ghost pred = not_user(v@);
    let mut i: usize = 0;
    while i < us.len()
        invariant
            i <= us@.len(),
            pred == not_user(v@),
            out@.len() >= 1,
            out@.map_values(|o: Option<String>| opt_text(o)) == head + us@.subrange(
                0,
                i as int,
            ).filter(pred).map_values(|u: UserOfRoom| reason_of(u)),
        decreases us.len() - i,
    {
        proof {
            lemma_filter_push(us@, i as int, pred);
        }
        let ghost before = us@.subrange(0, i as int).filter(pred);
        let ghost prev = out@.map_values(|o: Option<String>| opt_text(o));
        if !(us[i].user_uid == *v) {
            assert(pred(us@[i as int]));
            let t = reason_text(&us[i]);
            out.push(t);
            assert(out@.map_values(|o: Option<String>| opt_text(o)) =~= prev.push(reason_of(us@[i as int])));
            assert(head + before.map_values(|u: UserOfRoom| reason_of(u)).push(reason_of(us@[i as int])) =~= (head + before.map_values(|u: UserOfRoom| reason_of(u))).push(reason_of(us@[i as int])));
            assert(before.push(us@[i as int]).map_values(|u: UserOfRoom| reason_of(u)) =~= before.map_values(
                |u: UserOfRoom| reason_of(u),
            ).push(reason_of(us@[i as int])));
        } else {
            assert(!pred(us@[i as int]));
        }
        assert(out@.map_values(|o: Option<String>| opt_text(o)) =~= head + us@.subrange(
            0,
            i + 1 as int,
        ).filter(pred).map_values(|u: UserOfRoom| reason_of(u)));
        i = i + 1;
    }
    assert(us@.subrange(0, i as int) =~= us@);
    assert(out@.map_values(|o: Option<String>| opt_text(o)) =~= absent_reasons(us@, v@));
    out
}

fn is_listed(ids: &Vec<String>, id: &String) -> (r: bool)
    ensures
        r == ids@.map_values(|x: String| x@).contains(id@),
{
    let ghost sv = ids@.map_values(|x: String| x@);
    let mut i: usize = 0;
    while i < ids.len()
        invariant
            i <= ids@.len(),
            sv == ids@.map_values(|x: String| x@),
            forall|j: int| 0 <= j < i ==> sv[j] != id@,
        decreases ids.len() - i,
    {
        if ids[i] == *id {
            assert(sv[i as int] == id@);
            return true;
        }
        i = i + 1;
    }
    false
}

/// Whether every identifier of the grid is one of `ids`.
fn all_known(g: &Vec<Vec<Vec<String>>>, ids: &Vec<String>) -> (r: bool)
    ensures
        r == all_listed(grid_view(*g), ids@.map_values(|x: String| x@)),
{
    let ghost gv = grid_view(*g);
    let ghost sv = ids@.map_values(|x: String| x@);
    let mut d: usize = 0;
    while d < g.len()
        invariant
            d <= g@.len(),
            gv == grid_view(*g),
            sv == ids@.map_values(|x: String| x@),
            forall|a: int, s: int, k: int|
                0 <= a < d && 0 <= s < gv[a].len() && 0 <= k < gv[a][s].len() ==> sv.contains(
                    #[trigger] gv[a][s][k],
                ),
        decreases g.len() - d,
    {
        let row = &g[d];
        let mut s: usize = 0;
        while s < row.len()
            invariant
                d < gv.len(),
                s <= row@.len(),
                gv == grid_view(*g),
                *row == g@[d as int],
                sv == ids@.map_values(|x: String| x@),
                forall|a: int, s2: int, k: int|
                    0 <= a < d && 0 <= s2 < gv[a].len() && 0 <= k < gv[a][s2].len() ==> sv.contains(
                        #[trigger] gv[a][s2][k],
                    ),
                forall|s2: int, k: int|
                    0 <= s2 < s && 0 <= k < gv[d as int][s2].len() ==> sv.contains(
                        #[trigger] gv[d as int][s2][k],
                    ),
            decreases row.len() - s,
        {
            let cell = &row[s];
            let mut k: usize = 0;
            while k < cell.len()
                invariant
                    d < gv.len(),
                    s < gv[d as int].len(),
                    k <= cell@.len(),
                    gv == grid_view(*g),
                    *cell == g@[d as int]@[s as int],
                    sv == ids@.map_values(|x: String| x@),
                    forall|a: int, s2: int, k2: int|
                        0 <= a < d && 0 <= s2 < gv[a].len() && 0 <= k2 < gv[a][s2].len()
                            ==> sv.contains(#[trigger] gv[a][s2][k2]),
                    forall|s2: int, k2: int|
                        0 <= s2 < s && 0 <= k2 < gv[d as int][s2].len() ==> sv.contains(
                            #[trigger] gv[d as int][s2][k2],
                        ),
                    forall|k2: int| 0 <= k2 < k ==> sv.contains(#[trigger] gv[d as int][s as int][k2]),
                decreases cell.len() - k,
            {
                assert(gv[d as int][s as int][k as int] == cell@[k as int]@);
                if !is_listed(ids, &cell[k]) {
                    return false;
                }
                k = k + 1;
            }
            s = s + 1;
        }
        d = d + 1;
    }
    true
}

/// Computes what viewer `user_uid` is shown of `room`: their own matrix, the
/// others' availability under per-viewer indices with the matching names,
/// their name, ownership and the absence reasons. A viewer who is not a
/// member sees an empty own matrix and every member among the others.
pub fn process_room_data(room: &Room, users_of_room: &Vec<UserOfRoom>, user_uid: &str) -> (r:
    Result<GetRoomRes, ViewError>)
    ensures
        r is Err <==> !all_listed(
            others_schedule(grid_view(room.schedule), user_uid@),
            ids_of(member_pairs(users_of_room@)),
        ),
        r matches Ok(res) ==> describes(res, *room, users_of_room@, user_uid@),
{
    let v = user_uid.to_owned();
    let mut pairs: Vec<(String, String)> = Vec::with_capacity(users_of_room.len());
    let mut ids: Vec<String> = Vec::with_capacity(users_of_room.len());
    let mut i: usize = 0;
    while i < users_of_room.len()
        invariant
            i <= users_of_room@.len(),
            pairs_view(pairs) == member_pairs(users_of_room@.subrange(0, i as int)),
            ids@.map_values(|x: String| x@) == ids_of(
                member_pairs(users_of_room@.subrange(0, i as int)),
            ),
        decreases users_of_room.len() - i,
    {
        let u = &users_of_room[i];
        let ghost pre = users_of_room@.subrange(0, i as int);
        assert(users_of_room@.subrange(0, i + 1 as int) =~= pre.push(*u));
        assert(member_pairs(pre.push(*u)) =~= member_pairs(pre).push((u.user_uid@, u.name@)));
        assert(ids_of(member_pairs(pre).push((u.user_uid@, u.name@))) =~= ids_of(member_pairs(pre)).push(u.user_uid@));
        pairs.push((u.user_uid.clone(), u.name.clone()));
        ids.push(u.user_uid.clone());
        assert(pairs_view(pairs) =~= member_pairs(users_of_room@.subrange(0, i + 1 as int)));
        assert(ids@.map_values(|x: String| x@) =~= ids_of(
            member_pairs(users_of_room@.subrange(0, i + 1 as int)),
        ));
        i = i + 1;
    }
    assert(users_of_room@.subrange(0, i as int) =~= users_of_room@);
    let ghost mp = member_pairs(users_of_room@);
    let (user_schedule, others) = split_grid(&room.schedule, user_uid);
    let ghost og = grid_view(others);
    if !all_known(&others, &ids) {
        return Err(ViewError::UnknownParticipant);
    }
    proof {
        lemma_viewer_not_in_others(grid_view(room.schedule), user_uid@);
        broadcast use vstd::seq_lib::group_filter_ensures;

        assert forall|d: int, s: int, k: int|
            0 <= d < og.len() && 0 <= s < og[d].len() && 0 <= k < og[d][s].len() implies ids_of(
            other_members(mp, user_uid@),
        ).contains(#[trigger] og[d][s][k]) by {
            assert(ids_of(mp).contains(og[d][s][k]));
            let j = choose|j: int| 0 <= j < mp.len() && ids_of(mp)[j] == og[d][s][k];
            assert(og[d][s][k] != user_uid@);
            assert(mp.filter(not_viewer(user_uid@)).contains(mp[j]));
            let f = mp.filter(not_viewer(user_uid@));
            let q = choose|q: int| 0 <= q < f.len() && f[q] == mp[j];
            assert(ids_of(f)[q] == og[d][s][k]);
        }
    }
    let (others_names, others_schedule) = sanitize(&others, &pairs, user_uid);
    let (user_name, is_owner) = match find_row(users_of_room, &v) {
        Some(i) => (users_of_room[i].name.clone(), users_of_room[i].is_owner),
        None => (String::new(), false),
    };
    let absent_reasons = collect_reasons(users_of_room, &v);
    Ok(
        GetRoomRes {
            event_name: room.event_name.clone(),
            schedule_type: room.schedule_type,
            dates: copy_texts(&room.dates),
            days_of_week: copy_bytes(&room.days_of_week),
            slot_length: room.slot_length,
            user_schedule,
            others_schedule,
            user_name,
            others_names,
            time_range: TimeRange { from_hour: room.time_min, to_hour: room.time_max },
            is_owner,
            absent_reasons,
        },
    )
}

/// How long a room lives after its creation, in seconds.
pub const ROOM_LIFETIME_SECS: i64 = 2678400;

/// When a room created at `now` (seconds since the Unix epoch) expires.
pub fn room_expiry(now: i64) -> (r: i64)
    ensures
        r == if now <= i64::MAX - ROOM_LIFETIME_SECS {
            now + ROOM_LIFETIME_SECS
        } else {
            i64::MAX as int
        },
{
    if now <= i64::MAX - ROOM_LIFETIME_SECS {
        now + ROOM_LIFETIME_SECS
    } else {
        i64::MAX
    }
}

/// The room `new_room` makes of a request, in its parts.
pub open spec fn created(req: CreateRoomReq, uid: Uid, owner: Uid, expires_at: i64, room: Room) -> bool {
    &&& room.uid@ == uid
    &&& room.event_name@ == req.event_name@
    &&& match req.dates {
        ScheduleDates::Dates(d) => room.schedule_type == 0 && room.dates@ == d@
            && room.days_of_week@.len() == 0,
        ScheduleDates::DaysOfWeek(d) => room.schedule_type == 1 && room.days_of_week@ == d@
            && room.dates@.len() == 0,
    }
    &&& room.time_min == req.time_range.from_hour
    &&& room.time_max == req.time_range.to_hour
    &&& room.slot_length == req.slot_length
    &&& grid_view(room.schedule) == owner_grid(bool_matrix(req.schedule), owner)
    &&& room.expires_at == expires_at
}

/// Makes a new room, `room_uid`, from a creation request, and its owner's
/// membership. The kind of schedule follows the kind of days given; the
/// grid holds the owner wherever they marked themselves available.
pub fn new_room(req: CreateRoomReq, room_uid: &str, owner_uid: &str, expires_at: i64) -> (r: (
    Room,
    UserOfRoom,
))
    ensures
        created(req, room_uid@, owner_uid@, expires_at, r.0),
        r.1.room_uid@ == room_uid@,
        r.1.user_uid@ == owner_uid@,
        r.1.name@ == "Jeff"@,
        r.1.is_owner,
        !r.1.is_absent,
        r.1.absent_reason@.len() == 0,
{
    let schedule = initial_grid(&req.schedule, owner_uid);
    let (schedule_type, dates, days_of_week) = match req.dates {
        ScheduleDates::Dates(d) => (0u8, d, Vec::new()),
        ScheduleDates::DaysOfWeek(d) => (1u8, Vec::new(), d),
    };
    let room = Room {
        uid: room_uid.to_owned(),
        schedule_type,
        event_name: req.event_name,
        dates,
        days_of_week,
        time_min: req.time_range.from_hour,
        time_max: req.time_range.to_hour,
        slot_length: req.slot_length,
        schedule,
        expires_at,
    };
    let owner = UserOfRoom {
        room_uid: room_uid.to_owned(),
        user_uid: owner_uid.to_owned(),
        name: "Jeff".to_owned(),
        is_owner: true,
        is_absent: false,
        absent_reason: String::new(),
    };
    (room, owner)
}

} // verus!
