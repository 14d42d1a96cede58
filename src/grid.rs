//! The availability grid: `day × slot → participants free in that slot`,
//! and its per-viewer projections.
use vstd::prelude::*;

verus! {

/// A participant identifier, as a sequence of characters.
pub type Uid = Seq<char>;

/// The mathematical form of a grid: day, then slot, then the identifiers in that cell.
pub type GridView = Seq<Seq<Seq<Uid>>>;

pub open spec fn cell_view(cell: Vec<String>) -> Seq<Uid> {
    cell@.map_values(|id: String| id@)
}

pub open spec fn row_view(row: Vec<Vec<String>>) -> Seq<Seq<Uid>> {
    row@.map_values(|cell: Vec<String>| cell_view(cell))
}

/// The view of a stored grid.
pub open spec fn grid_view(g: Vec<Vec<Vec<String>>>) -> GridView {
    g@.map_values(|row: Vec<Vec<String>>| row_view(row))
}

/// The view of a `day × slot` boolean matrix.
pub open spec fn bool_matrix(m: Vec<Vec<bool>>) -> Seq<Seq<bool>> {
    m@.map_values(|row: Vec<bool>| row@)
}

/// A cell with every occurrence of `v` taken out, the rest in order.
pub open spec fn without(cell: Seq<Uid>, v: Uid) -> Seq<Uid> {
    cell.filter(|x: Uid| x != v)
}

/// `true` exactly in the cells where `v` is marked available.
pub open spec fn own_schedule(g: GridView, v: Uid) -> Seq<Seq<bool>> {
    g.map_values(|row: Seq<Seq<Uid>>| row.map_values(|cell: Seq<Uid>| cell.contains(v)))
}

/// The grid with `v` removed from every cell.
pub open spec fn others_schedule(g: GridView, v: Uid) -> GridView {
    g.map_values(|row: Seq<Seq<Uid>>| row.map_values(|cell: Seq<Uid>| without(cell, v)))
}

proof fn lemma_without_push(cell: Seq<Uid>, k: int, v: Uid)
    requires
        0 <= k < cell.len(),
    ensures
        without(cell.subrange(0, k + 1), v) == if cell[k] != v {
            without(cell.subrange(0, k), v).push(cell[k])
        } else {
            without(cell.subrange(0, k), v)
        },
{
    reveal(Seq::filter);
    assert(cell.subrange(0, k + 1).drop_last() =~= cell.subrange(0, k));
}

proof fn lemma_contains_push<A>(s: Seq<A>, x: A, v: A)
    ensures
        s.push(x).contains(v) == (s.contains(v) || x == v),
{
    if s.contains(v) {
        let i = choose|i: int| 0 <= i < s.len() && s[i] == v;
        assert(s.push(x)[i] == v);
    }
    if x == v {
        assert(s.push(x)[s.len() as int] == v);
    }
    if s.push(x).contains(v) {
        let i = choose|i: int| 0 <= i < s.len() + 1 && s.push(x)[i] == v;
        if i < s.len() {
            assert(s[i] == v);
        }
    }
}

/// Splits one cell into "is `v` in it" and "everyone else in it".
fn split_cell(cell: &Vec<String>, v: &String) -> (r: (bool, Vec<String>))
    ensures
        r.0 == cell_view(*cell).contains(v@),
        cell_view(r.1) == without(cell_view(*cell), v@),
{
    let ghost cv = cell_view(*cell);
    let mut found = false;
    let mut others: Vec<String> = Vec::with_capacity(cell.len());
    let mut k: usize = 0;
    while k < cell.len()
        invariant
            k <= cell.len(),
            cv == cell_view(*cell),
            found == cv.subrange(0, k as int).contains(v@),
            cell_view(others) == without(cv.subrange(0, k as int), v@),
        decreases cell.len() - k,
    {
        proof {
            lemma_without_push(cv, k as int, v@);
        }
        let id = &cell[k];
        if *id == *v {
            found = true;
        } else {
            others.push(id.clone());
        }
        assert(cv.subrange(0, k + 1 as int) =~= cv.subrange(0, k as int).push(cv[k as int]));
        proof {
            lemma_contains_push(cv.subrange(0, k as int), cv[k as int], v@);
        }
        assert(cell_view(others) =~= without(cv.subrange(0, k + 1 as int), v@));
        k = k + 1;
    }
    assert(cv.subrange(0, k as int) =~= cv);
    (found, others)
}

/// Splits one day of the grid.
fn split_row(row: &Vec<Vec<String>>, v: &String) -> (r: (Vec<bool>, Vec<Vec<String>>))
    ensures
        r.0@ == row_view(*row).map_values(|cell: Seq<Uid>| cell.contains(v@)),
        row_view(r.1) == row_view(*row).map_values(|cell: Seq<Uid>| without(cell, v@)),
{
    let mut own: Vec<bool> = Vec::with_capacity(row.len());
    let mut others: Vec<Vec<String>> = Vec::with_capacity(row.len());
    let mut s: usize = 0;
    while s < row.len()
        invariant
            s <= row.len(),
            own@.len() == s,
            others@.len() == s,
            forall|j: int| 0 <= j < s ==> own@[j] == #[trigger] row_view(*row)[j].contains(v@),
            forall|j: int|
                0 <= j < s ==> cell_view(#[trigger] others@[j]) == without(row_view(*row)[j], v@),
        decreases row.len() - s,
    {
        let (found, rest) = split_cell(&row[s], v);
        own.push(found);
        others.push(rest);
        s = s + 1;
    }
    assert(own@ =~= row_view(*row).map_values(|cell: Seq<Uid>| cell.contains(v@)));
    assert(row_view(others) =~= row_view(*row).map_values(|cell: Seq<Uid>| without(cell, v@)));
    (own, others)
}

/// Splits a grid into the viewer's own availability and everyone else's.
pub fn seperate_users_schedule(schedule: Vec<Vec<Vec<String>>>, user_uid: &str) -> (r: (
    Vec<Vec<bool>>,
    Vec<Vec<Vec<String>>>,
))
    ensures
        bool_matrix(r.0) == own_schedule(grid_view(schedule), user_uid@),
        grid_view(r.1) == others_schedule(grid_view(schedule), user_uid@),
{
    split_grid(&schedule, user_uid)
}

pub(crate) fn split_grid(schedule: &Vec<Vec<Vec<String>>>, user_uid: &str) -> (r: (
    Vec<Vec<bool>>,
    Vec<Vec<Vec<String>>>,
))
    ensures
        bool_matrix(r.0) == own_schedule(grid_view(*schedule), user_uid@),
        grid_view(r.1) == others_schedule(grid_view(*schedule), user_uid@),
{
    let v = user_uid.to_owned();
    let ghost g = grid_view(*schedule);
    let mut own: Vec<Vec<bool>> = Vec::with_capacity(schedule.len());
    let mut others: Vec<Vec<Vec<String>>> = Vec::with_capacity(schedule.len());
    let mut d: usize = 0;
    while d < schedule.len()
        invariant
            d <= schedule.len(),
            v@ == user_uid@,
            g == grid_view(*schedule),
            own@.len() == d,
            others@.len() == d,
            forall|i: int|
                0 <= i < d ==> (#[trigger] own@[i])@ == g[i].map_values(
                    |cell: Seq<Uid>| cell.contains(v@),
                ),
            forall|i: int|
                0 <= i < d ==> row_view(#[trigger] others@[i]) == g[i].map_values(
                    |cell: Seq<Uid>| without(cell, v@),
                ),
        decreases schedule.len() - d,
    {
        let (o, rest) = split_row(&schedule[d], &v);
        own.push(o);
        others.push(rest);
        d = d + 1;
    }
    assert(bool_matrix(own) =~= own_schedule(g, user_uid@));
    assert(grid_view(others) =~= others_schedule(g, user_uid@));
    (own, others)
}

/// `m` has one entry for every cell of `g`, no more and no fewer.
pub open spec fn same_shape(g: GridView, m: Seq<Seq<bool>>) -> bool {
    &&& g.len() == m.len()
    &&& forall|d: int| 0 <= d < g.len() ==> #[trigger] g[d].len() == m[d].len()
}

/// The cell after `v` re-submitted its availability: `v` taken out, then put
/// back at the end if `chosen`.
pub open spec fn merged_cell(cell: Seq<Uid>, v: Uid, chosen: bool) -> Seq<Uid> {
    if chosen {
        without(cell, v).push(v)
    } else {
        without(cell, v)
    }
}

/// The grid after `v` submitted the matrix `m`.
pub open spec fn merged(g: GridView, v: Uid, m: Seq<Seq<bool>>) -> GridView {
    Seq::new(g.len(), |d: int| Seq::new(g[d].len(), |s: int| merged_cell(g[d][s], v, m[d][s])))
}

/// Checks that a submitted matrix has exactly the grid's shape.
pub fn has_same_shape(schedule: &Vec<Vec<Vec<String>>>, user_schedule: &Vec<Vec<bool>>) -> (r: bool)
    ensures
        r == same_shape(grid_view(*schedule), bool_matrix(*user_schedule)),
{
    if schedule.len() != user_schedule.len() {
        return false;
    }
    let mut d: usize = 0;
    while d < schedule.len()
        invariant
            d <= schedule.len(),
            schedule.len() == user_schedule.len(),
            forall|i: int|
                0 <= i < d ==> (#[trigger] grid_view(*schedule)[i]).len() == bool_matrix(
                    *user_schedule,
                )[i].len(),
        decreases schedule.len() - d,
    {
        if schedule[d].len() != user_schedule[d].len() {
            assert(grid_view(*schedule)[d as int].len() != bool_matrix(*user_schedule)[d as int].len());
            return false;
        }
        d = d + 1;
    }
    true
}

/// Re-derives the cells of one participant from their latest submission:
/// `user_uid` is taken out of every cell and put back exactly where
/// `user_schedule` is `true`. `None` when the matrix does not have the grid's shape.
pub fn merge_user_schedule(
    schedule: &Vec<Vec<Vec<String>>>,
    user_uid: &str,
    user_schedule: &Vec<Vec<bool>>,
) -> (r: Option<Vec<Vec<Vec<String>>>>)
    ensures
        r is None <==> !same_shape(grid_view(*schedule), bool_matrix(*user_schedule)),
        r matches Some(n) ==> grid_view(n) == merged(
            grid_view(*schedule),
            user_uid@,
            bool_matrix(*user_schedule),
        ),
{
    if !has_same_shape(schedule, user_schedule) {
        return None;
    }
    let v = user_uid.to_owned();
    let ghost g = grid_view(*schedule);
    let ghost m = bool_matrix(*user_schedule);
    let mut out: Vec<Vec<Vec<String>>> = Vec::with_capacity(schedule.len());
    let mut d: usize = 0;
    while d < schedule.len()
        invariant
            d <= schedule.len(),
            v@ == user_uid@,
            g == grid_view(*schedule),
            m == bool_matrix(*user_schedule),
            same_shape(g, m),
            out@.len() == d,
            forall|i: int| 0 <= i < d ==> row_view(#[trigger] out@[i]) == merged(g, v@, m)[i],
        decreases schedule.len() - d,
    {
        let row = &schedule[d];
        let choice = &user_schedule[d];
        assert(g[d as int].len() == m[d as int].len());
        let mut new_row: Vec<Vec<String>> = Vec::with_capacity(row.len());
        let mut s: usize = 0;
        while s < row.len()
            invariant
                s <= row.len(),
                row.len() == choice.len(),
                v@ == user_uid@,
                row_view(*row) == g[d as int],
                choice@ == m[d as int],
                new_row@.len() == s,
                forall|j: int|
                    0 <= j < s ==> cell_view(#[trigger] new_row@[j]) == merged_cell(
                        g[d as int][j],
                        v@,
                        m[d as int][j],
                    ),
            decreases row.len() - s,
        {
            let (_, mut rest) = split_cell(&row[s], &v);
            if choice[s] {
                rest.push(v.clone());
            }
            assert(cell_view(rest) =~= merged_cell(g[d as int][s as int], v@, m[d as int][s as int]));
            new_row.push(rest);
            s = s + 1;
        }
        assert(row_view(new_row) =~= merged(g, v@, m)[d as int]);
        out.push(new_row);
        d = d + 1;
    }
    assert(grid_view(out) =~= merged(g, v@, m));
    Some(out)
}

/// The grid of a newly created room: its owner, alone, in every cell they marked.
pub open spec fn owner_grid(m: Seq<Seq<bool>>, owner: Uid) -> GridView {
    Seq::new(
        m.len(),
        |d: int| Seq::new(m[d].len(), |s: int| if m[d][s] { seq![owner] } else { Seq::empty() }),
    )
}

/// Builds the grid of a new room from its owner's availability.
pub fn initial_grid(schedule: &Vec<Vec<bool>>, owner_uid: &str) -> (r: Vec<Vec<Vec<String>>>)
    ensures
        grid_view(r) == owner_grid(bool_matrix(*schedule), owner_uid@),
{
    let owner = owner_uid.to_owned();
    let ghost m = bool_matrix(*schedule);
    let mut out: Vec<Vec<Vec<String>>> = Vec::with_capacity(schedule.len());
    let mut d: usize = 0;
    while d < schedule.len()
        invariant
            d <= schedule.len(),
            owner@ == owner_uid@,
            m == bool_matrix(*schedule),
            out@.len() == d,
            forall|i: int| 0 <= i < d ==> row_view(#[trigger] out@[i]) == owner_grid(m, owner@)[i],
        decreases schedule.len() - d,
    {
        let row = &schedule[d];
        let mut new_row: Vec<Vec<String>> = Vec::with_capacity(row.len());
        let mut s: usize = 0;
        while s < row.len()
            invariant
                s <= row.len(),
                owner@ == owner_uid@,
                d < m.len(),
                row@ == m[d as int],
                new_row@.len() == s,
                forall|j: int|
                    0 <= j < s ==> cell_view(#[trigger] new_row@[j]) == owner_grid(m, owner@)[d as int][j],
            decreases row.len() - s,
        {
            let mut cell: Vec<String> = Vec::new();
            if row[s] {
                cell.push(owner.clone());
            }
            assert(cell_view(cell) =~= owner_grid(m, owner@)[d as int][s as int]);
            new_row.push(cell);
            s = s + 1;
        }
        assert(row_view(new_row) =~= owner_grid(m, owner@)[d as int]);
        out.push(new_row);
        d = d + 1;
    }
    assert(grid_view(out) =~= owner_grid(m, owner@));
    out
}

/// The view of a list of `(identifier, display name)` pairs.
pub open spec fn pairs_view(v: Vec<(String, String)>) -> Seq<(Uid, Seq<char>)> {
    v@.map_values(|p: (String, String)| (p.0@, p.1@))
}

/// The members other than `v`, in their order of appearance.
pub open spec fn other_members(members: Seq<(Uid, Seq<char>)>, v: Uid) -> Seq<(Uid, Seq<char>)> {
    members.filter(not_viewer(v))
}

pub open spec fn not_viewer(v: Uid) -> spec_fn((Uid, Seq<char>)) -> bool {
    |m: (Uid, Seq<char>)| m.0 != v
}

pub open spec fn ids_of(members: Seq<(Uid, Seq<char>)>) -> Seq<Uid> {
    members.map_values(|m: (Uid, Seq<char>)| m.0)
}

pub open spec fn names_of(members: Seq<(Uid, Seq<char>)>) -> Seq<Seq<char>> {
    members.map_values(|m: (Uid, Seq<char>)| m.1)
}

/// The last position of `id` in `ids`, or -1. A member listed twice keeps the
/// index of its last listing.
pub open spec fn last_index(ids: Seq<Uid>, id: Uid) -> int
    decreases ids.len(),
{
    if ids.len() == 0 {
        -1
    } else if ids.last() == id {
        ids.len() - 1
    } else {
        last_index(ids.drop_last(), id)
    }
}

/// Every identifier in the grid is one of `ids`.
pub open spec fn all_listed(g: GridView, ids: Seq<Uid>) -> bool {
    forall|d: int, s: int, k: int|
        0 <= d < g.len() && 0 <= s < g[d].len() && 0 <= k < g[d][s].len() ==> ids.contains(
            #[trigger] g[d][s][k],
        )
}

/// Each identifier of the grid replaced by its index in `ids`.
pub open spec fn indexed(g: GridView, ids: Seq<Uid>) -> Seq<Seq<Seq<int>>> {
    g.map_values(
        |row: Seq<Seq<Uid>>|
            row.map_values(|cell: Seq<Uid>| cell.map_values(|id: Uid| last_index(ids, id))),
    )
}

/// The view of a matrix of index lists.
pub open spec fn index_matrix(m: Vec<Vec<Vec<usize>>>) -> Seq<Seq<Seq<int>>> {
    m@.map_values(
        |row: Vec<Vec<usize>>|
            row@.map_values(|cell: Vec<usize>| cell@.map_values(|i: usize| i as int)),
    )
}

/// What the viewer `v` is shown of everyone else: their names, and the grid
/// with each identifier replaced by the position of its owner in those names.
pub open spec fn sanitized(others: GridView, members: Seq<(Uid, Seq<char>)>, v: Uid) -> (
    Seq<Seq<char>>,
    Seq<Seq<Seq<int>>>,
) {
    let rest = other_members(members, v);
    (names_of(rest), indexed(others, ids_of(rest)))
}

pub(crate) proof fn lemma_filter_push<A>(s: Seq<A>, k: int, p: spec_fn(A) -> bool)
    requires
        0 <= k < s.len(),
    ensures
        s.subrange(0, k + 1).filter(p) == if p(s[k]) {
            s.subrange(0, k).filter(p).push(s[k])
        } else {
            s.subrange(0, k).filter(p)
        },
{
    reveal(Seq::filter);
    assert(s.subrange(0, k + 1).drop_last() =~= s.subrange(0, k));
}

proof fn lemma_last_index_found(ids: Seq<Uid>, id: Uid)
    requires
        ids.contains(id),
    ensures
        0 <= last_index(ids, id) < ids.len(),
        ids[last_index(ids, id)] == id,
        forall|j: int| last_index(ids, id) < j < ids.len() ==> ids[j] != id,
    decreases ids.len(),
{
    if ids.last() != id {
        let i = choose|i: int| 0 <= i < ids.len() && ids[i] == id;
        assert(ids.drop_last()[i] == id);
        lemma_last_index_found(ids.drop_last(), id);
        assert forall|j: int| last_index(ids, id) < j < ids.len() implies ids[j] != id by {
            if j < ids.len() - 1 {
                assert(ids.drop_last()[j] == ids[j]);
            }
        }
    }
}

proof fn lemma_last_index_prefix(ids: Seq<Uid>, id: Uid, i: int)
    requires
        0 <= i < ids.len(),
        forall|j: int| i <= j < ids.len() ==> ids[j] != id,
    ensures
        last_index(ids, id) == last_index(ids.subrange(0, i), id),
    decreases ids.len(),
{
    if i < ids.len() - 1 {
        lemma_last_index_prefix(ids.drop_last(), id, i);
        assert(ids.drop_last().subrange(0, i) =~= ids.subrange(0, i));
    } else {
        assert(ids.drop_last() =~= ids.subrange(0, i));
    }
}

/// The position of the last occurrence of `id` in `ids`.
fn find_index(ids: &Vec<String>, id: &String) -> (r: usize)
    requires
        ids@.map_values(|x: String| x@).contains(id@),
    ensures
        r as int == last_index(ids@.map_values(|x: String| x@), id@),
{
    let ghost sv = ids@.map_values(|x: String| x@);
    proof {
        lemma_last_index_found(sv, id@);
    }
    let mut i: usize = ids.len();
    while i > 0
        invariant
            i <= ids.len(),
            sv == ids@.map_values(|x: String| x@),
            0 <= last_index(sv, id@) < sv.len(),
            sv[last_index(sv, id@)] == id@,
            forall|j: int| last_index(sv, id@) < j < sv.len() ==> sv[j] != id@,
            last_index(sv, id@) < i,
        decreases i,
    {
        if ids[i - 1] == *id {
            assert(sv[i - 1] == id@);
            return i - 1;
        }
        i = i - 1;
    }
    i
}

/// Replaces each identifier of a cell by its index.
fn index_cell(cell: &Vec<String>, ids: &Vec<String>) -> (r: Vec<usize>)
    requires
        forall|k: int| 0 <= k < cell.len() ==> ids@.map_values(|x: String| x@).contains(#[trigger] cell_view(*cell)[k]),
    ensures
        r@.map_values(|i: usize| i as int) == cell_view(*cell).map_values(
            |id: Uid| last_index(ids@.map_values(|x: String| x@), id),
        ),
{
    let mut out: Vec<usize> = Vec::with_capacity(cell.len());
    let mut k: usize = 0;
    while k < cell.len()
        invariant
            k <= cell.len(),
            forall|k: int| 0 <= k < cell.len() ==> ids@.map_values(|x: String| x@).contains(#[trigger] cell_view(*cell)[k]),
            out@.len() == k,
            forall|j: int|
                0 <= j < k ==> #[trigger] out@[j] as int == last_index(
                    ids@.map_values(|x: String| x@),
                    cell_view(*cell)[j],
                ),
        decreases cell.len() - k,
    {
        assert(cell_view(*cell)[k as int] == cell@[k as int]@);
        let i = find_index(ids, &cell[k]);
        out.push(i);
        k = k + 1;
    }
    assert(out@.map_values(|i: usize| i as int) =~= cell_view(*cell).map_values(
        |id: Uid| last_index(ids@.map_values(|x: String| x@), id),
    ));
    out
}

/// Projects what `user_uid` sees of the others: the names of every member but
/// the viewer, in their order of appearance, and `others_schedule` with each
/// identifier replaced by the position of that member in the names.
pub fn get_sanitized_others(
    others_schedule: Vec<Vec<Vec<String>>>,
    users_of_room: Vec<(String, String)>,
    user_uid: &str,
) -> (r: (Vec<String>, Vec<Vec<Vec<usize>>>))
    requires
        all_listed(
            grid_view(others_schedule),
            ids_of(other_members(pairs_view(users_of_room), user_uid@)),
        ),
    ensures
        (r.0@.map_values(|n: String| n@), index_matrix(r.1)) == sanitized(
            grid_view(others_schedule),
            pairs_view(users_of_room),
            user_uid@,
        ),
{
    sanitize(&others_schedule, &users_of_room, user_uid)
}

pub(crate) fn sanitize(
    others_schedule: &Vec<Vec<Vec<String>>>,
    users_of_room: &Vec<(String, String)>,
    user_uid: &str,
) -> (r: (Vec<String>, Vec<Vec<Vec<usize>>>))
    requires
        all_listed(
            grid_view(*others_schedule),
            ids_of(other_members(pairs_view(*users_of_room), user_uid@)),
        ),
    ensures
        (r.0@.map_values(|n: String| n@), index_matrix(r.1)) == sanitized(
            grid_view(*others_schedule),
            pairs_view(*users_of_room),
            user_uid@,
        ),
{
    let v = user_uid.to_owned();
    let ghost mv = pairs_view(*users_of_room);
    let ghost pred = not_viewer(v@);
    let mut other_names: Vec<String> = Vec::new();
    let mut other_ids: Vec<String> = Vec::new();
    let mut i: usize = 0;
    while i < users_of_room.len()
        invariant
            i <= users_of_room.len(),
            v@ == user_uid@,
            mv == pairs_view(*users_of_room),
            pred == not_viewer(v@),
            other_ids@.len() == other_names@.len(),
            other_ids@.map_values(|x: String| x@) == ids_of(mv.subrange(0, i as int).filter(pred)),
            other_names@.map_values(|x: String| x@) == names_of(mv.subrange(0, i as int).filter(pred)),
        decreases users_of_room.len() - i,
    {
        proof {
            lemma_filter_push(mv, i as int, pred);
        }
        let (some_uid, some_name) = &users_of_room[i];
        assert(mv[i as int] == (some_uid@, some_name@));
        if !(*some_uid == v) {
            assert(pred(mv[i as int]));
            let ghost before = mv.subrange(0, i as int).filter(pred);
            assert(mv.subrange(0, i + 1 as int).filter(pred) == before.push(mv[i as int]));
            assert(ids_of(before.push(mv[i as int])) =~= ids_of(before).push(some_uid@));
            other_ids.push(some_uid.clone());
            assert(other_ids@.map_values(|x: String| x@) =~= ids_of(before).push(some_uid@));
            assert(names_of(before.push(mv[i as int])) =~= names_of(before).push(some_name@));
            other_names.push(some_name.clone());
        } else {
            assert(!pred(mv[i as int]));
        }
        assert(other_ids@.map_values(|x: String| x@) =~= ids_of(mv.subrange(0, i + 1 as int).filter(pred)));
        assert(other_names@.map_values(|x: String| x@) =~= names_of(mv.subrange(0, i + 1 as int).filter(pred)));
        i = i + 1;
    }
    assert(mv.subrange(0, i as int) =~= mv);
    let ghost ids = other_ids@.map_values(|x: String| x@);
    assert(ids == ids_of(other_members(mv, user_uid@)));
    let ghost g = grid_view(*others_schedule);
    let mut out: Vec<Vec<Vec<usize>>> = Vec::with_capacity(others_schedule.len());
    let mut d: usize = 0;
    while d < others_schedule.len()
        invariant
            d <= others_schedule.len(),
            g == grid_view(*others_schedule),
            ids == other_ids@.map_values(|x: String| x@),
            all_listed(g, ids),
            out@.len() == d,
            forall|j: int|
                0 <= j < d ==> (#[trigger] out@[j])@.map_values(
                    |cell: Vec<usize>| cell@.map_values(|i: usize| i as int),
                ) == indexed(g, ids)[j],
        decreases others_schedule.len() - d,
    {
        let row = &others_schedule[d];
        let mut new_row: Vec<Vec<usize>> = Vec::with_capacity(row.len());
        let mut s: usize = 0;
        while s < row.len()
            invariant
                s <= row.len(),
                d < g.len(),
                row_view(*row) == g[d as int],
                ids == other_ids@.map_values(|x: String| x@),
                all_listed(g, ids),
                new_row@.len() == s,
                forall|j: int|
                    0 <= j < s ==> (#[trigger] new_row@[j])@.map_values(|i: usize| i as int)
                        == indexed(g, ids)[d as int][j],
            decreases row.len() - s,
        {
            assert forall|k: int| 0 <= k < row@[s as int].len() implies ids.contains(
                #[trigger] cell_view(row@[s as int])[k],
            ) by {
                assert(g[d as int][s as int][k] == cell_view(row@[s as int])[k]);
            }
            let c = index_cell(&row[s], &other_ids);
            new_row.push(c);
            s = s + 1;
        }
        assert(new_row@.map_values(|cell: Vec<usize>| cell@.map_values(|i: usize| i as int))
            =~= indexed(g, ids)[d as int]);
        out.push(new_row);
        d = d + 1;
    }
    assert(index_matrix(out) =~= indexed(g, ids));
    (other_names, out)
}

proof fn lemma_without_excludes(cell: Seq<Uid>, v: Uid)
    ensures
        !without(cell, v).contains(v),
{
    broadcast use vstd::seq_lib::group_filter_ensures;

    if without(cell, v).contains(v) {
        let k = choose|k: int| 0 <= k < without(cell, v).len() && without(cell, v)[k] == v;
        assert((|x: Uid| x != v)(without(cell, v)[k]));
    }
}

/// The viewer's own matrix is `true` in a cell exactly when the viewer's
/// identifier is in that cell of the grid, and it has the grid's shape.
pub proof fn lemma_own_schedule_marks(g: GridView, v: Uid)
    ensures
        same_shape(g, own_schedule(g, v)),
        forall|d: int, s: int|
            0 <= d < g.len() && 0 <= s < g[d].len() ==> (#[trigger] own_schedule(g, v)[d][s]
                <==> g[d][s].contains(v)),
{
}

/// The viewer's identifier appears in no cell of the others' grid.
pub proof fn lemma_viewer_not_in_others(g: GridView, v: Uid)
    ensures
        forall|d: int, s: int|
            0 <= d < g.len() && 0 <= s < g[d].len() ==> !(#[trigger] others_schedule(g, v)[d][s]).contains(v),
{
    assert forall|d: int, s: int| 0 <= d < g.len() && 0 <= s < g[d].len() implies !(
    #[trigger] others_schedule(g, v)[d][s]).contains(v) by {
        lemma_without_excludes(g[d][s], v);
    }
}

/// The index assignment depends on the member list and the viewer alone: two
/// projections with the same members give the same names, and the same index
/// to the same identifier wherever it stands. Each index names its member.
pub proof fn lemma_projection_stable(
    g1: GridView,
    g2: GridView,
    members: Seq<(Uid, Seq<char>)>,
    v: Uid,
)
    requires
        all_listed(g1, ids_of(other_members(members, v))),
    ensures
        sanitized(g1, members, v).0 == sanitized(g2, members, v).0,
        forall|d1: int, s1: int, k1: int, d2: int, s2: int, k2: int|
            0 <= d1 < g1.len() && 0 <= s1 < g1[d1].len() && 0 <= k1 < g1[d1][s1].len() && 0 <= d2
                < g2.len() && 0 <= s2 < g2[d2].len() && 0 <= k2 < g2[d2][s2].len() && g1[d1][s1][k1]
                == g2[d2][s2][k2] ==> #[trigger] sanitized(g1, members, v).1[d1][s1][k1]
                == #[trigger] sanitized(g2, members, v).1[d2][s2][k2],
        forall|d: int, s: int, k: int|
            0 <= d < g1.len() && 0 <= s < g1[d].len() && 0 <= k < g1[d][s].len() ==> {
                let i = #[trigger] sanitized(g1, members, v).1[d][s][k];
                &&& 0 <= i < sanitized(g1, members, v).0.len()
                &&& other_members(members, v)[i].0 == g1[d][s][k]
            },
{
    let ids = ids_of(other_members(members, v));
    assert forall|d: int, s: int, k: int|
        0 <= d < g1.len() && 0 <= s < g1[d].len() && 0 <= k < g1[d][s].len() implies {
        let i = #[trigger] sanitized(g1, members, v).1[d][s][k];
        &&& 0 <= i < sanitized(g1, members, v).0.len()
        &&& other_members(members, v)[i].0 == g1[d][s][k]
    } by {
        assert(ids.contains(g1[d][s][k]));
        lemma_last_index_found(ids, g1[d][s][k]);
    }
}

/// After `v` submits a matrix of the grid's shape, `v`'s own matrix of the
/// merged grid is exactly that submission.
pub proof fn lemma_merge_round_trip(g: GridView, v: Uid, m: Seq<Seq<bool>>)
    requires
        same_shape(g, m),
    ensures
        own_schedule(merged(g, v, m), v) == m,
{
    let n = merged(g, v, m);
    assert forall|d: int, s: int| 0 <= d < g.len() && 0 <= s < g[d].len() implies #[trigger] n[d][s].contains(v) == m[d][s] by {
        lemma_without_excludes(g[d][s], v);
        if m[d][s] {
            assert(n[d][s][n[d][s].len() - 1] == v);
        }
    }
    assert forall|d: int| 0 <= d < g.len() implies #[trigger] own_schedule(n, v)[d] =~= m[d] by {
        assert(g[d].len() == m[d].len());
        assert forall|s: int| 0 <= s < m[d].len() implies own_schedule(n, v)[d][s] == m[d][s] by {
            assert(n[d][s].contains(v) == m[d][s]);
        }
    }
    assert(own_schedule(n, v) =~= m);
}

} // verus!
