use vstd::prelude::*;

verus! {

/// What the dialog says when the name entered belongs to a user already.
pub const DUPLICATE_USER: &'static str = "User with this name already exusts";

/// The dialogs of the menu.
#[derive(Debug, Clone, Copy, PartialEq, Eq, Structural)]
pub enum Modal {
    AddUser,
    RenameCurrent,
}

impl Modal {
    /// The text of the title of the dialog.
    pub open spec fn title_text(self) -> Seq<char> {
        match self {
            Modal::AddUser => "Add new user"@,
            Modal::RenameCurrent => "Rename current user"@,
        }
    }

    /// The title of the dialog.
    pub fn title(&self) -> (title: &'static str)
        ensures
            title@ == self.title_text(),
    {
        match self {
            Modal::AddUser => "Add new user",
            Modal::RenameCurrent => "Rename current user",
        }
    }
}

/// What the menu remembers between events: the dialog that is open, the
/// name typed into it, and the complaint about that name.
#[derive(Debug)]
pub struct State {
    pub modal: Option<Modal>,
    pub input_value: String,
    pub error: Option<String>,
}

impl State {
    /// Closes the dialog and forgets the name typed into it.
    pub fn close(&mut self)
        ensures
            final(self).modal.is_none(),
            final(self).input_value@.len() == 0,
            final(self).error == old(self).error,
    {
        self.modal = None;
        self.input_value = String::new();
    }

    /// The title of the dialog that is open.
    pub fn modal_title(&self) -> (title: Option<&'static str>)
        ensures
            title.is_some() == self.modal.is_some(),
            title matches Some(text) ==> text@ == self.modal.unwrap().title_text(),
    {
        match &self.modal {
            Some(modal) => Some(modal.title()),
            None => None,
        }
    }
}

impl Default for State {
    fn default() -> (state: Self)
        ensures
            state.modal.is_none(),
            state.input_value@.len() == 0,
            state.error.is_none(),
    {
        Self { modal: None, error: None, input_value: String::new() }
    }
}

/// What happens in the menu.
#[derive(Debug)]
pub enum Event<'u> {
    UserSelected(&'u str),
    OpenAddUserModal,
    OpenRenameModal,
    ModalInput(String),
    ModalSubmit,
    CloseModal,
    Noop,
}

/// The menu of users. It reports the wish for a new user through
/// `on_create`, the choice of a user through `on_select` and the new name of
/// the current user through `on_rename_current`, each as far as it is set.
pub struct Menu<'u, C, S, R> {
    user_list: Option<&'u Vec<String>>,
    on_create: Option<C>,
    on_select: Option<S>,
    on_rename_current: Option<R>,
}

/// The names in a list of users.
pub open spec fn names(list: &Vec<String>) -> Seq<Seq<char>> {
    Seq::new(list@.len(), |i: int| list@[i]@)
}

/// What `handler` answers to `name`, if there is a handler: `message` is
/// that answer, or nothing where there is none.
pub open spec fn reports<F: Fn(String) -> Message, Message>(
    handler: Option<F>,
    name: String,
    message: Option<Message>,
) -> bool {
    if handler.is_some() {
        message.is_some() && call_ensures(handler->0, (name,), message->0)
    } else {
        message.is_none()
    }
}

/// The handler, if there is one, can be called with every name.
pub open spec fn takes_every_name<F: Fn(String) -> Message, Message>(handler: Option<F>) -> bool {
    handler matches Some(f) ==> forall|name: String| call_requires(f, (name,))
}

/// A menu over the users, with no handler set.
pub fn menu<'u, C, S, R>(user_list: Option<&'u Vec<String>>) -> (menu: Menu<'u, C, S, R>)
    ensures
        menu.user_list() == user_list,
        menu.create_handler().is_none(),
        menu.select_handler().is_none(),
        menu.rename_handler().is_none(),
{
    Menu::new(user_list)
}

impl<'u, C, S, R> Menu<'u, C, S, R> {
    /// The users that the menu lists, once they are known.
    pub closed spec fn user_list(&self) -> Option<&'u Vec<String>> {
        self.user_list
    }

    /// What the menu calls with the name of a user to create.
    pub closed spec fn create_handler(&self) -> Option<C> {
        self.on_create
    }

    /// What the menu calls with the name of the user chosen.
    pub closed spec fn select_handler(&self) -> Option<S> {
        self.on_select
    }

    /// What the menu calls with the new name of the current user.
    pub closed spec fn rename_handler(&self) -> Option<R> {
        self.on_rename_current
    }

    /// A menu over the users, with no handler set.
    pub fn new(user_list: Option<&'u Vec<String>>) -> (menu: Self)
        ensures
            menu.user_list() == user_list,
            menu.create_handler().is_none(),
            menu.select_handler().is_none(),
            menu.rename_handler().is_none(),
    {
        Self { user_list, on_create: None, on_select: None, on_rename_current: None }
    }

    /// The menu with `handle` to call for a new user.
    pub fn on_create(self, handle: C) -> (menu: Self)
        ensures
            menu.create_handler() == Some(handle),
            menu.user_list() == self.user_list(),
            menu.select_handler() == self.select_handler(),
            menu.rename_handler() == self.rename_handler(),
    {
        let mut menu = self;
        menu.on_create = Some(handle);
        menu
    }

    /// The menu with `handle` to call for the user chosen.
    pub fn on_select(self, handle: S) -> (menu: Self)
        ensures
            menu.select_handler() == Some(handle),
            menu.user_list() == self.user_list(),
            menu.create_handler() == self.create_handler(),
            menu.rename_handler() == self.rename_handler(),
    {
        let mut menu = self;
        menu.on_select = Some(handle);
        menu
    }

    /// The menu with `handle` to call for the new name of the current user.
    pub fn on_rename_current(self, handle: R) -> (menu: Self)
        ensures
            menu.rename_handler() == Some(handle),
            menu.user_list() == self.user_list(),
            menu.create_handler() == self.create_handler(),
            menu.select_handler() == self.select_handler(),
    {
        let mut menu = self;
        menu.on_rename_current = Some(handle);
        menu
    }

    /// The users that the menu lists, once they are known.
    pub fn users(&self) -> (list: Option<&'u Vec<String>>)
        ensures
            list == self.user_list(),
    {
        self.user_list
    }

    /// Whether the name typed into the dialog belongs to a user already.
    fn is_taken(list: &Vec<String>, name: &String) -> (taken: bool)
        ensures
            taken == names(list).contains(name@),
    {
        for i in 0..list.len()
            invariant
                forall|j: int| 0 <= j < i ==> names(list)[j] != name@,
        {
            if list[i] == *name {
                assert(names(list)[i as int] == name@);
                return true;
            }
        }
        false
    }

    /// Handles one event of the menu. A name that is submitted while a user
    /// of that name exists is turned down: the dialog stays open with a
    /// complaint and nothing is reported. Any other name is reported to the
    /// handler of the dialog that is open, and the dialog closes.
    pub fn update<Message>(&self, state: &mut State, event: Event<'u>) -> (message: Option<
        Message,
    >) where C: Fn(String) -> Message, S: Fn(String) -> Message, R: Fn(String) -> Message
        requires
            takes_every_name(self.create_handler()),
            takes_every_name(self.select_handler()),
            takes_every_name(self.rename_handler()),
            event is ModalSubmit ==> self.user_list().is_some(),
            event is ModalSubmit && !names(self.user_list().unwrap()).contains(
                old(state).input_value@,
            ) ==> old(state).modal.is_some(),
        ensures
            match event {
                Event::UserSelected(u) => {
                    &&& *final(state) == *old(state)
                    &&& message.is_some() == self.select_handler().is_some()
                    &&& message.is_some() ==> exists|text: String|
                        text@ == u@ && #[trigger] call_ensures(
                            self.select_handler()->0,
                            (text,),
                            message->0,
                        )
                },
                Event::OpenAddUserModal => {
                    &&& message.is_none()
                    &&& final(state).modal == Some(Modal::AddUser)
                    &&& final(state).input_value == old(state).input_value
                    &&& final(state).error == old(state).error
                },
                Event::OpenRenameModal => {
                    &&& message.is_none()
                    &&& final(state).modal == Some(Modal::RenameCurrent)
                    &&& final(state).input_value == old(state).input_value
                    &&& final(state).error == old(state).error
                },
                Event::CloseModal => {
                    &&& message.is_none()
                    &&& final(state).modal.is_none()
                    &&& final(state).input_value@.len() == 0
                    &&& final(state).error == old(state).error
                },
                Event::Noop => message.is_none() && *final(state) == *old(state),
                Event::ModalInput(s) => {
                    &&& message.is_none()
                    &&& final(state).input_value == s
                    &&& final(state).modal == old(state).modal
                    &&& final(state).error == old(state).error
                },
                Event::ModalSubmit => if names(self.user_list().unwrap()).contains(
                    old(state).input_value@,
                ) {
                    &&& message.is_none()
                    &&& final(state).error matches Some(complaint) && complaint@
                        == DUPLICATE_USER@
                    &&& final(state).modal == old(state).modal
                    &&& final(state).input_value == old(state).input_value
                } else {
                    &&& final(state).error.is_none()
                    &&& final(state).modal.is_none()
                    &&& final(state).input_value@.len() == 0
                    &&& match old(state).modal.unwrap() {
                        Modal::AddUser => reports(
                            self.create_handler(),
                            old(state).input_value,
                            message,
                        ),
                        Modal::RenameCurrent => reports(
                            self.rename_handler(),
                            old(state).input_value,
                            message,
                        ),
                    }
                },
            },
    {
        match event {
            Event::UserSelected(u) => {
                match &self.on_select {
                    Some(handle) => {
                        let name = u.to_owned();
                        let ghost sent = name;
                        assert(call_requires(*handle, (name,)));
                        let m = handle(name);
                        proof {
                            let msg = Some(m);
                            assert(sent@ == u@ && call_ensures(
                                self.select_handler()->0,
                                (sent,),
                                msg->0,
                            ));
                        }
                        Some(m)
                    },
                    None => None,
                }
            },
            Event::OpenAddUserModal => {
                state.modal = Some(Modal::AddUser);
                None
            },
            Event::OpenRenameModal => {
                state.modal = Some(Modal::RenameCurrent);
                None
            },
            Event::CloseModal => {
                state.close();
                None
            },
            Event::Noop => None,
            Event::ModalInput(s) => {
                state.input_value = s;
                None
            },
            Event::ModalSubmit => {
                let list = self.user_list.unwrap();
                if Self::is_taken(list, &state.input_value) {
                    state.error = Some(DUPLICATE_USER.to_owned());
                    None
                } else {
                    let v = state.input_value.clone();
                    let message = match state.modal.unwrap() {
                        Modal::AddUser => match &self.on_create {
                            Some(handle) => {
                                assert(call_requires(*handle, (v,)));
                                Some(handle(v))
                            },
                            None => None,
                        },
                        Modal::RenameCurrent => match &self.on_rename_current {
                            Some(handle) => {
                                assert(call_requires(*handle, (v,)));
                                Some(handle(v))
                            },
                            None => None,
                        },
                    };
                    state.error = None;
                    state.close();
                    message
                }
            },
        }
    }
}

} // verus!
