use rsvp::grid::{get_sanitized_others, has_same_shape, initial_grid, merge_user_schedule, seperate_users_schedule};

fn s(x: &str) -> String {
    x.to_string()
}

fn cell(ids: &[&str]) -> Vec<String> {
    ids.iter().map(|x| x.to_string()).collect()
}

fn sample_grid() -> Vec<Vec<Vec<String>>> {
    vec![
        vec![cell(&["a", "b"]), cell(&[]), cell(&["b"])],
        vec![cell(&["c"]), cell(&["a"]), cell(&["b", "c", "a"])],
    ]
}

#[test]
fn separate_marks_own_cells() {
    let (own, others) = seperate_users_schedule(sample_grid(), "a");
    assert_eq!(own, vec![vec![true, false, false], vec![false, true, true]]);
    assert_eq!(
        others,
        vec![
            vec![cell(&["b"]), cell(&[]), cell(&["b"])],
            vec![cell(&["c"]), cell(&[]), cell(&["b", "c"])],
        ]
    );
}

#[test]
fn separate_for_stranger_keeps_grid() {
    let (own, others) = seperate_users_schedule(sample_grid(), "zz");
    assert_eq!(own, vec![vec![false; 3], vec![false; 3]]);
    assert_eq!(others, sample_grid());
}

#[test]
fn viewer_never_in_others() {
    for v in ["a", "b", "c"] {
        let (_, others) = seperate_users_schedule(sample_grid(), v);
        assert!(others.iter().flatten().flatten().all(|id| id != v));
    }
}

#[test]
fn sanitized_indices_follow_member_order() {
    let (_, others) = seperate_users_schedule(sample_grid(), "a");
    let members = vec![(s("c"), s("Cat")), (s("a"), s("Ann")), (s("b"), s("Bob"))];
    let (names, idx) = get_sanitized_others(others, members, "a");
    assert_eq!(names, vec![s("Cat"), s("Bob")]);
    assert_eq!(
        idx,
        vec![vec![vec![1], vec![], vec![1]], vec![vec![0], vec![], vec![1, 0]]]
    );
}

#[test]
fn sanitizing_twice_gives_same_assignment() {
    let members = vec![(s("a"), s("Ann")), (s("b"), s("Bob")), (s("c"), s("Cat"))];
    let (_, others) = seperate_users_schedule(sample_grid(), "b");
    let first = get_sanitized_others(others.clone(), members.clone(), "b");
    let second = get_sanitized_others(others, members, "b");
    assert_eq!(first, second);
}

#[test]
fn sanitize_for_non_member_uses_all_members() {
    let members = vec![(s("a"), s("Ann")), (s("b"), s("Bob")), (s("c"), s("Cat"))];
    let (own, others) = seperate_users_schedule(sample_grid(), "none");
    assert!(own.iter().flatten().all(|x| !x));
    let (names, idx) = get_sanitized_others(others, members, "none");
    assert_eq!(names, vec![s("Ann"), s("Bob"), s("Cat")]);
    assert_eq!(idx[0][0], vec![0, 1]);
    assert_eq!(idx[1][2], vec![1, 2, 0]);
}

#[test]
fn merge_round_trips_submission() {
    let sub = vec![vec![false, true, true], vec![true, false, false]];
    let merged = merge_user_schedule(&sample_grid(), "a", &sub).unwrap();
    assert_eq!(
        merged,
        vec![
            vec![cell(&["b"]), cell(&["a"]), cell(&["b", "a"])],
            vec![cell(&["c", "a"]), cell(&[]), cell(&["b", "c"])],
        ]
    );
    let (own, _) = seperate_users_schedule(merged, "a");
    assert_eq!(own, sub);
}

#[test]
fn merge_rejects_wrong_shape() {
    let short = vec![vec![true, false, true]];
    assert!(merge_user_schedule(&sample_grid(), "a", &short).is_none());
    let ragged = vec![vec![true, false, true], vec![true, false]];
    assert!(merge_user_schedule(&sample_grid(), "a", &ragged).is_none());
    assert!(!has_same_shape(&sample_grid(), &ragged));
    let wide = vec![vec![true, false, true, true], vec![true, false, false]];
    assert!(merge_user_schedule(&sample_grid(), "a", &wide).is_none());
}

#[test]
fn merge_on_empty_grid() {
    let empty: Vec<Vec<Vec<String>>> = vec![];
    assert_eq!(merge_user_schedule(&empty, "a", &vec![]), Some(vec![]));
}

#[test]
fn initial_grid_places_owner() {
    let g = initial_grid(&vec![vec![true, false], vec![false, true]], "own");
    assert_eq!(g, vec![vec![cell(&["own"]), cell(&[])], vec![cell(&[]), cell(&["own"])]]);
}
