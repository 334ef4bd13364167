use rust_mult_table::app::{Effect, Message, MultiplicationTableApp, State};
use rust_mult_table::components::equation::{CheckState, EqData};
use rust_mult_table::components::mult_table::{table_cell, Hidden};
use rust_mult_table::data::consts::CELL_N;
use rust_mult_table::data::score::Score;
use rust_mult_table::data::user::User;
use rust_mult_table::data::user_list::UserList;
use rust_mult_table::styles::cell::CellColor;

fn names(list: &UserList) -> Vec<&str> {
    list.get_all().iter().map(|s| s.as_str()).collect()
}

fn loaded() -> MultiplicationTableApp {
    let (mut app, _) = MultiplicationTableApp::new();
    app.update(Message::UserListLoaded(UserList::default()));
    app.update(Message::UserLoaded(Box::new(User::new("User")), false));
    app
}

fn with_alice() -> MultiplicationTableApp {
    let mut app = loaded();
    app.update(Message::created(Ok(User::new("Alice"))));
    app
}

fn cells_on_screen(app: &MultiplicationTableApp) -> Vec<(usize, usize)> {
    app.equations()
        .iter()
        .map(|e| {
            let (row, col) = e.get_numbers().unwrap();
            (row as usize - 1, col as usize - 1)
        })
        .collect()
}

fn answer_all(app: &mut MultiplicationTableApp, wrong: Option<usize>) {
    for i in 0..CELL_N {
        let (row, col) = app.equations()[i].get_numbers().unwrap();
        let value = if wrong == Some(i) { row * col + 1 } else { row * col };
        app.update(Message::Input(i, Some(value)));
    }
}

fn user(app: &MultiplicationTableApp) -> &User {
    app.user().as_ref().unwrap()
}

fn in_progress(app: &MultiplicationTableApp) -> Option<usize> {
    match app.state() {
        State::NoTest => None,
        State::TestInProgress { remaining } => Some(remaining.len()),
    }
}

#[test]
fn trainer_starts_empty_and_asks_for_the_directory() {
    let (app, effect) = MultiplicationTableApp::new();
    assert!(matches!(effect, Effect::LoadUserList));
    assert!(app.user().is_none());
    assert!(app.user_list().is_none());
    assert!(app.error().is_none());
    assert!(!app.show_results());
    assert_eq!(in_progress(&app), None);
    assert!(matches!(app.show_table(), Hidden::Nothing));
    assert_eq!(*app.equations(), [EqData::new(None); CELL_N]);
    assert_eq!(app.title(), "Multiplication table - ");
}

#[test]
fn loaded_directory_asks_for_its_current_user() {
    let (mut app, _) = MultiplicationTableApp::new();
    let effect = app.update(Message::UserListLoaded(UserList::default()));
    match effect {
        Effect::LoadUser(name, sync) => {
            assert_eq!(name, "User");
            assert!(!sync);
        }
        other => panic!("unexpected effect {other:?}"),
    }
    assert_eq!(names(app.user_list().as_ref().unwrap()), vec!["User"]);
}

#[test]
fn loaded_user_becomes_the_current_one() {
    let mut app = loaded();
    assert_eq!(user(&app).name(), "User");
    assert_eq!(app.title(), "Multiplication table - User");
    let mut list = UserList::default();
    list.add_user("Alice");
    app.update(Message::UserListLoaded(list));
    let effect = app.update(Message::UserLoaded(Box::new(User::new("User")), true));
    assert!(matches!(effect, Effect::DispatchSync));
    assert_eq!(app.user_list().as_ref().unwrap().get_current(), "User");
    let quiet = app.update(Message::UserLoaded(Box::new(User::new("Alice")), false));
    assert!(matches!(quiet, Effect::Nothing));
    assert_eq!(app.user_list().as_ref().unwrap().get_current(), "Alice");
    assert_eq!(names(app.user_list().as_ref().unwrap()), vec!["User", "Alice"]);
}

#[test]
fn user_loaded_before_the_directory_is_kept() {
    let (mut app, _) = MultiplicationTableApp::new();
    app.update(Message::UserLoaded(Box::new(User::new("Early")), false));
    assert_eq!(user(&app).name(), "Early");
    assert!(app.user_list().is_none());
}

#[test]
fn created_user_joins_the_directory_with_a_fresh_record() {
    let mut app = loaded();
    let wish = app.update(Message::CreateUser(String::from("Alice")));
    match wish {
        Effect::CreateUser(name) => assert_eq!(name, "Alice"),
        other => panic!("unexpected effect {other:?}"),
    }
    assert_eq!(names(app.user_list().as_ref().unwrap()), vec!["User"]);
    let effect = app.update(Message::created(Ok(User::new("Alice"))));
    assert!(matches!(effect, Effect::DispatchSync));
    let list = app.user_list().as_ref().unwrap();
    assert_eq!(names(list), vec!["User", "Alice"]);
    assert_eq!(list.get_current(), "Alice");
    assert_eq!(user(&app).name(), "Alice");
    for x in 0..CELL_N {
        for y in 0..CELL_N {
            assert_eq!(user(&app).get_score(x, y).tries(), 0);
        }
    }
}

#[test]
fn failed_creation_is_shown_and_changes_no_user() {
    let mut app = loaded();
    let effect = app.update(Message::created(Err(String::from("disk full"))));
    assert!(matches!(effect, Effect::Nothing));
    assert_eq!(*app.error(), Some(String::from("disk full")));
    assert_eq!(names(app.user_list().as_ref().unwrap()), vec!["User"]);
    assert_eq!(user(&app).name(), "User");
}

#[test]
fn sync_has_the_directory_written() {
    let mut app = with_alice();
    match app.update(Message::SyncUserList) {
        Effect::SaveUserList(list) => {
            assert_eq!(names(&list), vec!["User", "Alice"]);
            assert_eq!(list.get_current(), "Alice");
        }
        other => panic!("unexpected effect {other:?}"),
    }
}

#[test]
fn outcome_of_a_save_sets_and_clears_the_error() {
    let mut app = with_alice();
    app.update(Message::saved(Err(String::from("no space"))));
    assert_eq!(*app.error(), Some(String::from("no space")));
    app.update(Message::saved(Ok(())));
    assert_eq!(*app.error(), None);
    app.update(Message::SetError(Some(String::from("again"))));
    assert_eq!(*app.error(), Some(String::from("again")));
}

#[test]
fn set_of_ten_correct_answers_is_counted() {
    let mut app = with_alice();
    let started = app.update(Message::StartSet);
    assert!(matches!(started, Effect::Nothing));
    assert_eq!(in_progress(&app), Some(0));
    let asked = cells_on_screen(&app);
    answer_all(&mut app, None);
    assert!(app.has_all_answers());
    let effect = app.update(Message::ContinueTest);
    match effect {
        Effect::SaveUser(saved) => {
            assert_eq!(saved.name(), "Alice");
            for (x, y) in &asked {
                assert_eq!(saved.get_score(*x, *y), Score::new(1, 1));
            }
        }
        other => panic!("unexpected effect {other:?}"),
    }
    for x in 0..CELL_N {
        for y in 0..CELL_N {
            let score = user(&app).get_score(x, y);
            if asked.contains(&(x, y)) {
                assert_eq!(score.tries(), 1);
                assert_eq!(score.correct(), 1);
                assert_eq!(score.get_percentage(), Some(10_000));
            } else {
                assert_eq!(score, Score::default());
            }
        }
    }
    assert_eq!(in_progress(&app), None);
    assert_eq!(*app.equations(), [EqData::new(None); CELL_N]);
    assert!(matches!(app.show_table(), Hidden::Nothing));
}

#[test]
fn wrong_answer_is_counted_as_a_try_and_coloured_red() {
    let mut app = with_alice();
    app.update(Message::StartSet);
    let asked = cells_on_screen(&app);
    answer_all(&mut app, Some(4));
    assert_eq!(app.equations()[4].correctness, CheckState::Wrong);
    app.update(Message::ContinueTest);
    let (x, y) = asked[4];
    let score = user(&app).get_score(x, y);
    assert_eq!(score.tries(), 1);
    assert_eq!(score.correct(), 0);
    assert_eq!(score.get_percentage(), Some(0));
    assert_eq!(CellColor::from(&score), CellColor::Red);
    let cell = table_cell(app.user(), app.show_table(), app.equations(), x, y);
    assert_eq!(cell.color, CellColor::Red);
    let (gx, gy) = asked[0];
    assert_eq!(user(&app).get_score(gx, gy), Score::new(1, 1));
}

#[test]
fn set_asks_for_ten_different_cells() {
    let mut app = with_alice();
    app.update(Message::StartSet);
    let asked = cells_on_screen(&app);
    assert_eq!(asked.len(), CELL_N);
    for i in 0..asked.len() {
        assert!(asked[i].0 < CELL_N && asked[i].1 < CELL_N);
        for j in 0..i {
            assert_ne!(asked[i], asked[j]);
        }
    }
    for e in app.equations() {
        assert_eq!(e.value, None);
        assert_eq!(e.correctness, CheckState::Unckecked);
    }
    assert!(!app.has_all_answers());
}

#[test]
fn start_covers_the_whole_table() {
    let mut app = with_alice();
    app.update(Message::StartSet);
    for x in 0..CELL_N {
        for y in 0..CELL_N {
            assert!(app.show_table().is_hidden(x, y));
        }
    }
}

#[test]
fn full_test_asks_every_cell_once_in_ten_sets() {
    let mut app = with_alice();
    app.update(Message::StartTest);
    let mut asked_before = Vec::new();
    for set in 0..CELL_N {
        assert_eq!(in_progress(&app), Some((CELL_N - 1 - set) * CELL_N));
        let asked = cells_on_screen(&app);
        answer_all(&mut app, None);
        let effect = app.update(Message::ContinueTest);
        assert!(matches!(effect, Effect::SaveUser(_)));
        asked_before.extend(asked);
        if set + 1 < CELL_N {
            for x in 0..CELL_N {
                for y in 0..CELL_N {
                    assert_eq!(app.show_table().is_hidden(x, y), !asked_before.contains(&(x, y)));
                }
            }
        }
    }
    assert_eq!(in_progress(&app), None);
    assert!(matches!(app.show_table(), Hidden::Nothing));
    for x in 0..CELL_N {
        for y in 0..CELL_N {
            assert_eq!(user(&app).get_score(x, y), Score::new(1, 1));
        }
    }
}

#[test]
fn round_in_the_order_of_the_walk_starts_with_the_first_row() {
    let mut app = with_alice();
    let shuffled = user(&app).iter().collect();
    let effect = app.start_with(shuffled, CELL_N * CELL_N);
    assert!(matches!(effect, Effect::Nothing));
    for i in 0..CELL_N {
        assert_eq!(app.equations()[i], EqData::new(Some((1, i as u32 + 1))));
    }
    assert_eq!(in_progress(&app), Some(90));
}

#[test]
fn cells_left_over_by_whole_sets_are_not_asked() {
    let mut app = with_alice();
    let shuffled = user(&app).iter().collect();
    app.start_with(shuffled, 15);
    assert_eq!(in_progress(&app), Some(5));
    answer_all(&mut app, None);
    app.update(Message::ContinueTest);
    assert_eq!(in_progress(&app), None);
    assert_eq!(*app.equations(), [EqData::new(None); CELL_N]);
    assert_eq!(user(&app).get_score(0, 9), Score::new(1, 1));
    assert_eq!(user(&app).get_score(1, 0), Score::default());
}

#[test]
fn round_of_fewer_than_ten_cells_ends_at_once() {
    let mut app = with_alice();
    let shuffled = user(&app).iter().collect();
    let effect = app.start_with(shuffled, 9);
    assert!(matches!(effect, Effect::Nothing));
    assert_eq!(in_progress(&app), None);
    assert!(matches!(app.show_table(), Hidden::Nothing));
    assert_eq!(*app.equations(), [EqData::new(None); CELL_N]);
}

#[test]
fn worst_cells_are_asked_first() {
    let mut app = with_alice();
    app.update(Message::StartSet);
    let first = cells_on_screen(&app);
    answer_all(&mut app, None);
    app.update(Message::ContinueTest);
    for _ in 0..9 {
        app.update(Message::StartSet);
        let asked = cells_on_screen(&app);
        for cell in &asked {
            assert!(!first.contains(cell));
        }
        app.update(Message::ContinueTest);
        assert_eq!(in_progress(&app), None);
    }
}

#[test]
fn continue_without_answers_counts_nothing() {
    let mut app = with_alice();
    app.update(Message::StartTest);
    let effect = app.update(Message::ContinueTest);
    assert!(matches!(effect, Effect::Nothing));
    assert_eq!(in_progress(&app), Some(80));
    for x in 0..CELL_N {
        for y in 0..CELL_N {
            assert_eq!(user(&app).get_score(x, y), Score::default());
        }
    }
}

#[test]
fn continue_without_a_round_changes_no_score() {
    let mut app = with_alice();
    let effect = app.update(Message::ContinueTest);
    assert!(matches!(effect, Effect::Nothing));
    assert_eq!(in_progress(&app), None);
    assert_eq!(user(&app).get_score(0, 0), Score::default());
}

#[test]
fn input_is_graded_at_once_and_can_be_taken_back() {
    let mut app = with_alice();
    app.update(Message::StartSet);
    let (row, col) = app.equations()[2].get_numbers().unwrap();
    let effect = app.update(Message::Input(2, Some(row * col)));
    assert!(matches!(effect, Effect::Nothing));
    assert_eq!(app.equations()[2].value, Some(row * col));
    assert_eq!(app.equations()[2].correctness, CheckState::Correct);
    app.update(Message::Input(2, Some(row * col + 1)));
    assert_eq!(app.equations()[2].correctness, CheckState::Wrong);
    app.update(Message::Input(2, None));
    assert_eq!(app.equations()[2].value, None);
    assert_eq!(app.equations()[2].correctness, CheckState::Unckecked);
    assert_eq!(app.equations()[3].value, None);
}

#[test]
fn check_shows_the_grades_and_saves_without_counting() {
    let mut app = with_alice();
    app.update(Message::StartSet);
    answer_all(&mut app, None);
    let effect = app.update(Message::CheckResults);
    assert!(app.show_results());
    match effect {
        Effect::SaveUser(saved) => {
            for x in 0..CELL_N {
                for y in 0..CELL_N {
                    assert_eq!(saved.get_score(x, y), Score::default());
                }
            }
        }
        other => panic!("unexpected effect {other:?}"),
    }
    assert_eq!(in_progress(&app), Some(0));
    app.update(Message::ContinueTest);
    assert!(!app.show_results());
}

#[test]
fn focus_moves_on_except_behind_the_last_field() {
    let mut app = with_alice();
    assert!(matches!(app.update(Message::Focus(0, true)), Effect::FocusNext));
    assert!(matches!(app.update(Message::Focus(8, true)), Effect::FocusNext));
    assert!(matches!(app.update(Message::Focus(9, true)), Effect::Nothing));
    assert!(matches!(app.update(Message::Focus(0, false)), Effect::FocusPrevious));
    assert!(matches!(app.update(Message::Focus(9, false)), Effect::FocusPrevious));
}

#[test]
fn chosen_user_is_to_be_loaded_and_synced() {
    let mut app = with_alice();
    match app.update(Message::UserSelected(String::from("User"))) {
        Effect::LoadUser(name, sync) => {
            assert_eq!(name, "User");
            assert!(sync);
        }
        other => panic!("unexpected effect {other:?}"),
    }
    assert_eq!(user(&app).name(), "Alice");
}

#[test]
fn rename_moves_the_record_and_then_the_names() {
    let mut app = with_alice();
    app.update(Message::StartSet);
    let asked = cells_on_screen(&app);
    answer_all(&mut app, None);
    app.update(Message::ContinueTest);
    match app.update(Message::RenameCurrent(String::from("Alicia"))) {
        Effect::RenameUserFile { from, to } => {
            assert_eq!(from, "Alice");
            assert_eq!(to, "Alicia");
            assert_eq!(User::get_user_path(&from), "Alice.ron");
            assert_eq!(User::get_user_path(&to), "Alicia.ron");
        }
        other => panic!("unexpected effect {other:?}"),
    }
    assert_eq!(user(&app).name(), "Alice");
    let effect = app.update(Message::renamed(Ok(String::from("Alicia"))));
    let list = app.user_list().as_ref().unwrap();
    assert_eq!(names(list), vec!["User", "Alicia"]);
    assert_eq!(list.get_current(), "Alicia");
    assert_eq!(user(&app).name(), "Alicia");
    match effect {
        Effect::SaveUserThenSync(saved) => {
            assert_eq!(saved.name(), "Alicia");
            for x in 0..CELL_N {
                for y in 0..CELL_N {
                    let expected = if asked.contains(&(x, y)) { Score::new(1, 1) } else { Score::default() };
                    assert_eq!(saved.get_score(x, y), expected);
                    assert_eq!(user(&app).get_score(x, y), expected);
                }
            }
        }
        other => panic!("unexpected effect {other:?}"),
    }
}

#[test]
fn failed_rename_is_shown_and_changes_no_name() {
    let mut app = with_alice();
    let effect = app.update(Message::renamed(Err(String::from("denied"))));
    assert!(matches!(effect, Effect::Nothing));
    assert_eq!(*app.error(), Some(String::from("denied")));
    assert_eq!(user(&app).name(), "Alice");
    assert_eq!(names(app.user_list().as_ref().unwrap()), vec!["User", "Alice"]);
}

#[test]
fn round_states_compare_by_kind() {
    assert!(State::NoTest == State::NoTest);
    assert!(State::TestInProgress { remaining: Vec::new() } == State::TestInProgress { remaining: Vec::new() });
    assert!(State::NoTest != State::TestInProgress { remaining: Vec::new() });
}

#[test]
fn new_round_during_a_round_counts_the_answers_on_the_screen() {
    let mut app = with_alice();
    app.update(Message::StartTest);
    let asked = cells_on_screen(&app);
    answer_all(&mut app, None);
    let effect = app.update(Message::StartSet);
    assert!(matches!(effect, Effect::SaveUser(_)));
    for (x, y) in &asked {
        assert_eq!(user(&app).get_score(*x, *y), Score::new(1, 1));
    }
    assert_eq!(in_progress(&app), Some(0));
}

#[test]
fn buttons_start_a_round_once_there_is_a_user() {
    let (mut app, _) = MultiplicationTableApp::new();
    let (first, second) = app.controls();
    assert_eq!(first.label, "Test");
    assert!(first.on_press.is_none());
    assert_eq!(second.label, "1 Set");
    assert!(second.on_press.is_none());
    app.update(Message::UserLoaded(Box::new(User::new("User")), false));
    let (first, second) = app.controls();
    assert!(matches!(first.on_press, Some(Message::StartTest)));
    assert!(matches!(second.on_press, Some(Message::StartSet)));
}

#[test]
fn buttons_check_and_continue_once_everything_is_answered() {
    let mut app = with_alice();
    app.update(Message::StartSet);
    let (first, second) = app.controls();
    assert_eq!(first.label, "Check");
    assert_eq!(second.label, "Continue");
    assert!(first.on_press.is_none());
    assert!(second.on_press.is_none());
    for i in 0..CELL_N - 1 {
        app.update(Message::Input(i, Some(1)));
    }
    let (first, second) = app.controls();
    assert!(first.on_press.is_none() && second.on_press.is_none());
    app.update(Message::Input(CELL_N - 1, Some(1)));
    let (first, second) = app.controls();
    assert!(matches!(first.on_press, Some(Message::CheckResults)));
    assert!(matches!(second.on_press, Some(Message::ContinueTest)));
    app.update(Message::CheckResults);
    let (first, second) = app.controls();
    assert!(first.on_press.is_none());
    assert!(matches!(second.on_press, Some(Message::ContinueTest)));
}

#[test]
fn tabulator_moves_the_focus_on_and_with_shift_back() {
    assert!(matches!(Message::tab(false), Message::Focus(0, true)));
    assert!(matches!(Message::tab(true), Message::Focus(0, false)));
    let mut app = with_alice();
    assert!(matches!(app.update(Message::tab(false)), Effect::FocusNext));
    assert!(matches!(app.update(Message::tab(true)), Effect::FocusPrevious));
}

#[test]
fn replies_turn_outcomes_into_messages() {
    assert!(matches!(Message::saved(Ok(())), Message::SetError(None)));
    assert!(matches!(Message::saved(Err(String::from("x"))), Message::SetError(Some(e)) if e == "x"));
    assert!(matches!(Message::created(Ok(User::new("A"))), Message::UserCreated(u) if u.name() == "A"));
    assert!(matches!(Message::created(Err(String::from("x"))), Message::SetError(Some(e)) if e == "x"));
    assert!(matches!(Message::renamed(Ok(String::from("B"))), Message::UserFileRenamed(n) if n == "B"));
    assert!(matches!(Message::renamed(Err(String::from("x"))), Message::SetError(Some(e)) if e == "x"));
}

#[test]
fn answers_that_are_counted_are_the_grades_on_the_screen() {
    let mut app = with_alice();
    app.update(Message::StartSet);
    let asked = cells_on_screen(&app);
    let (row, col) = app.equations()[0].get_numbers().unwrap();
    app.update(Message::Input(0, Some(row * col)));
    let effect = app.update(Message::ContinueTest);
    assert!(matches!(effect, Effect::SaveUser(_)));
    assert_eq!(user(&app).get_score(asked[0].0, asked[0].1), Score::new(1, 1));
    for cell in &asked[1..] {
        assert_eq!(user(&app).get_score(cell.0, cell.1), Score::new(1, 0));
    }
}
