use rust_mult_table::components::equation::EqData;
use rust_mult_table::data::consts::CELL_N;
use rust_mult_table::data::score::Score;
use rust_mult_table::data::user::{ScoreWithEq, User};
use rust_mult_table::helpers::{convert_to_msg, get_file_path, get_n, make_nxn_mat, RECORD_SUFFIX};

#[test]
fn get_n_takes_ten_entries_off_the_queue() {
    let user = User::new("Alice");
    let mut queue = user.iter().collect();
    queue.truncate(25);
    let batch = get_n(&mut queue).unwrap();
    for i in 0..CELL_N {
        assert_eq!(batch[i], EqData::new(Some((1, i as u32 + 1))));
    }
    assert_eq!(queue.len(), 15);
    assert_eq!(queue[0], ScoreWithEq(2, 1, Score::default()));
    let second = get_n(&mut queue).unwrap();
    assert_eq!(second[9], EqData::new(Some((2, 10))));
    assert_eq!(queue.len(), 5);
}

#[test]
fn get_n_gives_nothing_and_empties_a_queue_that_is_too_short() {
    let user = User::new("Alice");
    let mut queue = user.iter().collect();
    queue.truncate(9);
    assert_eq!(get_n(&mut queue), None);
    assert!(queue.is_empty());
    assert_eq!(get_n(&mut queue), None);
}

#[test]
fn get_n_takes_a_queue_of_exactly_ten() {
    let user = User::new("Alice");
    let mut queue = user.iter().collect();
    queue.truncate(10);
    assert!(get_n(&mut queue).is_some());
    assert!(queue.is_empty());
}

#[test]
fn matrix_is_ten_by_ten_of_defaults() {
    let numbers: [[u8; CELL_N]; CELL_N] = make_nxn_mat();
    assert_eq!(numbers, [[0u8; 10]; 10]);
    let scores: [[Score; CELL_N]; CELL_N] = make_nxn_mat();
    assert!(scores.iter().all(|row| row.iter().all(|s| *s == Score::default())));
}

#[test]
fn converted_handler_tells_success_from_failure() {
    let on_ok = |n: u32| format!("ok {n}");
    let on_err = |e: String| format!("failed: {e}");
    assert_eq!(convert_to_msg(on_ok, on_err)(Ok(3)), "ok 3");
    assert_eq!(convert_to_msg(on_ok, on_err)(Err(String::from("disk full"))), "failed: disk full");
}

#[test]
fn file_of_a_record_has_the_suffix() {
    assert_eq!(RECORD_SUFFIX, ".ron");
    assert_eq!(get_file_path("UserList"), "UserList.ron");
    assert_eq!(get_file_path("Zoë"), "Zoë.ron");
}

#[test]
fn get_n_asks_for_the_cells_in_the_order_of_the_queue() {
    let mut queue = vec![ScoreWithEq(0, 0, Score::default()); 0];
    for k in 0..10usize {
        queue.push(ScoreWithEq(10 - k, k + 1, Score::new(1, 0)));
    }
    let batch = get_n(&mut queue).unwrap();
    for k in 0..10usize {
        assert_eq!(batch[k].get_numbers(), Some((10 - k as u32, k as u32 + 1)));
        assert_eq!(batch[k].value, None);
    }
}
