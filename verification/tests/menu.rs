use rust_mult_table::components::menu::{menu, Event, Menu, Modal, State, DUPLICATE_USER};

#[derive(Debug, PartialEq)]
enum Heard {
    Create(String),
    Select(String),
    Rename(String),
}

type Handler = fn(String) -> Heard;

fn full_menu(users: &Vec<String>) -> Menu<'_, Handler, Handler, Handler> {
    let create: Handler = Heard::Create;
    let select: Handler = Heard::Select;
    let rename: Handler = Heard::Rename;
    menu(Some(users)).on_create(create).on_select(select).on_rename_current(rename)
}

fn users() -> Vec<String> {
    vec![String::from("User"), String::from("Alicia")]
}

#[test]
fn fresh_state_has_no_dialog() {
    let state = State::default();
    assert_eq!(state.modal, None);
    assert_eq!(state.input_value, "");
    assert_eq!(state.error, None);
    assert_eq!(state.modal_title(), None);
}

#[test]
fn dialogs_have_their_titles() {
    assert_eq!(Modal::AddUser.title(), "Add new user");
    assert_eq!(Modal::RenameCurrent.title(), "Rename current user");
}

#[test]
fn opening_a_dialog_is_remembered() {
    let list = users();
    let m = full_menu(&list);
    let mut state = State::default();
    assert_eq!(m.update(&mut state, Event::OpenAddUserModal), None);
    assert_eq!(state.modal, Some(Modal::AddUser));
    assert_eq!(state.modal_title(), Some("Add new user"));
    assert_eq!(m.update(&mut state, Event::OpenRenameModal), None);
    assert_eq!(state.modal, Some(Modal::RenameCurrent));
}

#[test]
fn typing_is_remembered() {
    let list = users();
    let m = full_menu(&list);
    let mut state = State::default();
    assert_eq!(m.update(&mut state, Event::ModalInput(String::from("Bo"))), None);
    assert_eq!(state.input_value, "Bo");
    assert_eq!(m.update(&mut state, Event::ModalInput(String::from("Bob"))), None);
    assert_eq!(state.input_value, "Bob");
}

#[test]
fn closing_forgets_the_dialog_and_the_name() {
    let list = users();
    let m = full_menu(&list);
    let mut state = State::default();
    m.update(&mut state, Event::OpenAddUserModal);
    m.update(&mut state, Event::ModalInput(String::from("Bob")));
    assert_eq!(m.update(&mut state, Event::CloseModal), None);
    assert_eq!(state.modal, None);
    assert_eq!(state.input_value, "");
}

#[test]
fn close_on_the_state_itself_forgets_too() {
    let mut state = State {
        modal: Some(Modal::AddUser),
        input_value: String::from("Bob"),
        error: Some(String::from("kept")),
    };
    state.close();
    assert_eq!(state.modal, None);
    assert_eq!(state.input_value, "");
    assert_eq!(state.error, Some(String::from("kept")));
}

#[test]
fn noop_changes_nothing() {
    let list = users();
    let m = full_menu(&list);
    let mut state = State::default();
    m.update(&mut state, Event::OpenAddUserModal);
    m.update(&mut state, Event::ModalInput(String::from("Bob")));
    assert_eq!(m.update(&mut state, Event::Noop), None);
    assert_eq!(state.modal, Some(Modal::AddUser));
    assert_eq!(state.input_value, "Bob");
}

#[test]
fn new_name_is_reported_to_the_create_handler() {
    let list = users();
    let m = full_menu(&list);
    let mut state = State::default();
    m.update(&mut state, Event::OpenAddUserModal);
    m.update(&mut state, Event::ModalInput(String::from("Bob")));
    assert_eq!(
        m.update(&mut state, Event::ModalSubmit),
        Some(Heard::Create(String::from("Bob")))
    );
    assert_eq!(state.modal, None);
    assert_eq!(state.input_value, "");
    assert_eq!(state.error, None);
}

#[test]
fn new_name_of_the_current_user_is_reported_to_the_rename_handler() {
    let list = users();
    let m = full_menu(&list);
    let mut state = State::default();
    m.update(&mut state, Event::OpenRenameModal);
    m.update(&mut state, Event::ModalInput(String::from("Alice")));
    assert_eq!(
        m.update(&mut state, Event::ModalSubmit),
        Some(Heard::Rename(String::from("Alice")))
    );
    assert_eq!(state.modal, None);
}

#[test]
fn name_of_an_existing_user_is_turned_down() {
    let list = users();
    let m = full_menu(&list);
    let mut state = State::default();
    m.update(&mut state, Event::OpenAddUserModal);
    m.update(&mut state, Event::ModalInput(String::from("Alicia")));
    assert_eq!(m.update(&mut state, Event::ModalSubmit), None);
    assert_eq!(state.error, Some(String::from(DUPLICATE_USER)));
    assert_eq!(state.error, Some(String::from("User with this name already exusts")));
    assert_eq!(state.modal, Some(Modal::AddUser));
    assert_eq!(state.input_value, "Alicia");
    assert_eq!(list, users());
}

#[test]
fn rename_to_the_name_of_an_existing_user_is_turned_down() {
    let list = users();
    let m = full_menu(&list);
    let mut state = State::default();
    m.update(&mut state, Event::OpenRenameModal);
    m.update(&mut state, Event::ModalInput(String::from("User")));
    assert_eq!(m.update(&mut state, Event::ModalSubmit), None);
    assert_eq!(state.error, Some(String::from(DUPLICATE_USER)));
    assert_eq!(state.modal, Some(Modal::RenameCurrent));
}

#[test]
fn good_name_after_a_bad_one_clears_the_complaint() {
    let list = users();
    let m = full_menu(&list);
    let mut state = State::default();
    m.update(&mut state, Event::OpenAddUserModal);
    m.update(&mut state, Event::ModalInput(String::from("User")));
    m.update(&mut state, Event::ModalSubmit);
    m.update(&mut state, Event::ModalInput(String::from("Bob")));
    assert_eq!(
        m.update(&mut state, Event::ModalSubmit),
        Some(Heard::Create(String::from("Bob")))
    );
    assert_eq!(state.error, None);
}

#[test]
fn chosen_user_is_reported_to_the_select_handler() {
    let list = users();
    let m = full_menu(&list);
    let mut state = State::default();
    assert_eq!(
        m.update(&mut state, Event::UserSelected("Alicia")),
        Some(Heard::Select(String::from("Alicia")))
    );
    assert_eq!(state.modal, None);
}

#[test]
fn nothing_is_reported_without_a_handler() {
    let list = users();
    let m: Menu<'_, Handler, Handler, Handler> = Menu::new(Some(&list));
    let mut state = State::default();
    assert_eq!(m.update(&mut state, Event::UserSelected("Alicia")), None);
    m.update(&mut state, Event::OpenAddUserModal);
    m.update(&mut state, Event::ModalInput(String::from("Bob")));
    assert_eq!(m.update(&mut state, Event::ModalSubmit), None);
    assert_eq!(state.modal, None);
    assert_eq!(state.input_value, "");
}

#[test]
fn menu_knows_its_users() {
    let list = users();
    assert_eq!(full_menu(&list).users(), Some(&list));
    let none: Menu<'_, Handler, Handler, Handler> = menu(None);
    assert_eq!(none.users(), None);
}

#[test]
fn state_tells_the_title_of_the_open_dialog() {
    let mut state = State::default();
    state.modal = Some(Modal::RenameCurrent);
    assert_eq!(state.modal_title(), Some("Rename current user"));
    state.modal = Some(Modal::AddUser);
    assert_eq!(state.modal_title(), Some("Add new user"));
}
