//! The trainer as a state machine: every message gives a new state and one
//! effect for the owner of the machine to carry out.

use crate::components::equation::{CheckState, EqData};
use crate::components::mult_table::{view_of, Hidden};
use crate::data::consts::CELL_N;
use crate::data::score::Tally;
use crate::data::user::{ScoreWithEq, User, UserView};
use crate::data::user_list::{UserList, UserListView};
use crate::helpers::get_n;
use crate::selection::{
    cells_once, distinct_cells, holds_every_score, is_worst_first, lemma_selection_is_sorted,
    lemma_selection_keeps_cells_once, select_cells, selection, shuffled_scores,
};
use vstd::prelude::*;
use vstd::string::StringExecFns;

verus! {

/// What the window is called before the name of the user.
pub const TITLE: &'static str = "Multiplication table - ";

/// What the trainer hears of.
#[derive(Debug)]
pub enum Message {
    Input(usize, Option<u32>),
    Focus(usize, bool),
    StartTest,
    UserListLoaded(UserList),
    UserLoaded(Box<User>, bool),
    UserCreated(Box<User>),
    UserSelected(String),
    UserFileRenamed(String),
    SetError(Option<String>),
    CreateUser(String),
    RenameCurrent(String),
    SyncUserList,
    CheckResults,
    ContinueTest,
    StartSet,
}

/// What the owner of the trainer is to do after a message.
#[derive(Debug)]
pub enum Effect {
    /// Nothing.
    Nothing,
    /// Move the focus to the next input field.
    FocusNext,
    /// Move the focus to the input field before.
    FocusPrevious,
    /// Read the directory, and answer with `Message::UserListLoaded`.
    LoadUserList,
    /// Read the record of the user of that name, and answer with
    /// `Message::UserLoaded` and the flag.
    LoadUser(String, bool),
    /// Write a record for a new user of that name, and answer with
    /// `Message::created`.
    CreateUser(String),
    /// Give the record of the user `from` the name `to`, and answer with
    /// `Message::renamed`.
    RenameUserFile { from: String, to: String },
    /// Write this record, and answer with `Message::saved`.
    SaveUser(User),
    /// Write this record, and answer with `Message::SyncUserList` however the
    /// writing went.
    SaveUserThenSync(User),
    /// Write this directory, and answer with `Message::saved`.
    SaveUserList(UserList),
    /// Answer with `Message::SyncUserList`.
    DispatchSync,
}

/// An effect, with what it holds taken by its view.
pub enum EffectView {
    Nothing,
    FocusNext,
    FocusPrevious,
    LoadUserList,
    LoadUser(Seq<char>, bool),
    CreateUser(Seq<char>),
    RenameUserFile { from: Seq<char>, to: Seq<char> },
    SaveUser(UserView),
    SaveUserThenSync(UserView),
    SaveUserList(UserListView),
    DispatchSync,
}

impl View for Effect {
    type V = EffectView;

    open spec fn view(&self) -> EffectView {
        match self {
            Effect::Nothing => EffectView::Nothing,
            Effect::FocusNext => EffectView::FocusNext,
            Effect::FocusPrevious => EffectView::FocusPrevious,
            Effect::LoadUserList => EffectView::LoadUserList,
            Effect::LoadUser(name, sync) => EffectView::LoadUser(name@, *sync),
            Effect::CreateUser(name) => EffectView::CreateUser(name@),
            Effect::RenameUserFile { from, to } => EffectView::RenameUserFile {
                from: from@,
                to: to@,
            },
            Effect::SaveUser(user) => EffectView::SaveUser(user@),
            Effect::SaveUserThenSync(user) => EffectView::SaveUserThenSync(user@),
            Effect::SaveUserList(list) => EffectView::SaveUserList(list@),
            Effect::DispatchSync => EffectView::DispatchSync,
        }
    }
}

/// Whether a round is on, and the cells that it has yet to ask.
#[derive(Debug)]
pub enum State {
    NoTest,
    TestInProgress { remaining: Vec<ScoreWithEq> },
}

impl PartialEq for State {
    fn eq(&self, other: &Self) -> (same: bool) {
        match (self, other) {
            (State::TestInProgress { .. }, State::TestInProgress { .. }) => true,
            (State::NoTest, State::NoTest) => true,
            _ => false,
        }
    }
}

impl vstd::std_specs::cmp::PartialEqSpecImpl for State {
    open spec fn obeys_eq_spec() -> bool {
        true
    }

    open spec fn eq_spec(&self, other: &State) -> bool {
        (*self is NoTest) == (*other is NoTest)
    }
}

/// What the trainer holds.
pub struct AppView {
    /// The user who is training, once loaded.
    pub user: Option<UserView>,
    /// The directory of users, once loaded.
    pub user_list: Option<UserListView>,
    /// The `CELL_N` questions on the screen.
    pub equations: Seq<EqData>,
    /// The cells that the round has yet to ask; nothing while no round is on.
    pub remaining: Option<Seq<ScoreWithEq>>,
    /// The cells of the table that are covered.
    pub show_table: Hidden,
    /// Whether the screen shows how the answers fared.
    pub show_results: bool,
    /// The failure to show, if the last step failed.
    pub error: Option<Seq<char>>,
}

/// The text of an optional string.
pub open spec fn text_of(text: Option<String>) -> Option<Seq<char>> {
    match text {
        Some(t) => Some(t@),
        None => None,
    }
}

/// What a directory holds, if there is one.
pub open spec fn list_view_of(list: Option<UserList>) -> Option<UserListView> {
    match list {
        Some(l) => Some(l@),
        None => None,
    }
}

/// The place in a user's table of the cell that the question asks for.
pub open spec fn cell_of(e: EqData) -> (int, int) {
    (e.numbers.unwrap().0 - 1, e.numbers.unwrap().1 - 1)
}

/// The question asks for a cell of the table, and its grade is that of its
/// answer.
pub open spec fn is_question(e: EqData) -> bool {
    &&& e.numbers matches Some(numbers) && 1 <= numbers.0 <= CELL_N && 1 <= numbers.1 <= CELL_N
    &&& e == e.answered(e.value)
}

/// The questions of a round on the screen: each asks for a cell of the
/// table, and no two for the same.
pub open spec fn is_batch(questions: Seq<EqData>) -> bool {
    &&& questions.len() == CELL_N
    &&& forall|i: int| 0 <= i < questions.len() ==> is_question(#[trigger] questions[i])
    &&& forall|i: int, j: int|
        0 <= i < j < questions.len() ==> (#[trigger] questions[i]).numbers
            != (#[trigger] questions[j]).numbers
}

/// The screen without questions.
pub open spec fn blank_batch() -> Seq<EqData> {
    Seq::new(CELL_N as nat, |i: int| EqData::fresh(None))
}

/// The questions that ask for the first `CELL_N` cells of the queue.
pub open spec fn questions_of(queue: Seq<ScoreWithEq>) -> Seq<EqData> {
    Seq::new(CELL_N as nat, |i: int| EqData::fresh(Some(queue[i].operands())))
}

/// A queue of a round: cells of the table, none twice, the worst scores
/// first.
pub open spec fn is_queue(queue: Seq<ScoreWithEq>) -> bool {
    &&& forall|k: int| 0 <= k < queue.len() ==> (#[trigger] queue[k]).in_table()
    &&& distinct_cells(queue)
    &&& is_worst_first(queue)
}

/// The user after the answers have been counted, one after the other: each
/// counts as one more try of its cell, and as a correct one if its grade is
/// `Correct`.
pub open spec fn fold_answers(user: UserView, answers: Seq<EqData>) -> UserView
    decreases answers.len(),
{
    if answers.len() == 0 {
        user
    } else {
        let before = fold_answers(user, answers.drop_last());
        let e = answers.last();
        let (x, y) = cell_of(e);
        before.with_score(x, y, before.scores[x][y].updated(e.correctness == CheckState::Correct))
    }
}

/// Every cell that the answers speak of can take one more try.
pub open spec fn can_count(user: UserView, answers: Seq<EqData>) -> bool {
    forall|k: int|
        0 <= k < answers.len() ==> user.scores[cell_of(#[trigger] answers[k]).0][cell_of(
            answers[k],
        ).1].tries < u16::MAX
}

/// The cells that the questions ask for.
pub open spec fn asked_cells(questions: Seq<EqData>) -> Set<(int, int)> {
    Set::new(
        |cell: (int, int)|
            exists|k: int| 0 <= k < questions.len() && cell_of(#[trigger] questions[k]) == cell,
    )
}

/// Every cell of the table.
pub open spec fn whole_table() -> Set<(int, int)> {
    Set::new(|cell: (int, int)| 0 <= cell.0 < CELL_N && 0 <= cell.1 < CELL_N)
}

impl AppView {
    /// What always holds of the trainer. While no round is on, the screen has
    /// no questions. While one is on, there is a user, the screen holds a
    /// batch of questions, the queue holds cells of the table, none twice
    /// and the worst first, and the cover of the table is kept cell by cell.
    pub open spec fn wf(self) -> bool {
        &&& self.equations.len() == CELL_N
        &&& self.user matches Some(u) ==> u.wf()
        &&& match self.remaining {
            None => self.equations == blank_batch(),
            Some(queue) => {
                &&& self.user.is_some()
                &&& is_batch(self.equations)
                &&& is_queue(queue)
                &&& self.show_table is Specified
            },
        }
    }

    /// The answers on the screen are to be counted when the round goes on:
    /// a round is on and the first question has a grade.
    pub open spec fn counts_answers(self) -> bool {
        self.remaining.is_some() && self.equations[0].correctness != CheckState::Unckecked
    }

    /// The user once the round has gone on.
    pub open spec fn user_after_advance(self) -> Option<UserView> {
        if self.counts_answers() {
            Some(fold_answers(self.user.unwrap(), self.equations))
        } else {
            self.user
        }
    }

    /// What the owner is to do once the round has gone on: save the user if
    /// answers were counted.
    pub open spec fn effect_after_advance(self) -> EffectView {
        if self.counts_answers() {
            EffectView::SaveUser(self.user_after_advance().unwrap())
        } else {
            EffectView::Nothing
        }
    }

    /// The trainer can let the round go on: if answers are to be counted,
    /// every cell they speak of can take one more try.
    pub open spec fn can_advance(self) -> bool {
        self.counts_answers() ==> can_count(self.user.unwrap(), self.equations)
    }

    /// `post` is the trainer after the round has gone on. The answers on the
    /// screen are counted and their cells uncovered, if there are answers to
    /// count. Then the next `CELL_N` cells of the queue are asked for; if
    /// the queue has fewer left, the round is over: the screen loses its
    /// questions and the table its cover. Without a round, only the grades
    /// are no longer shown.
    pub open spec fn advances_to(self, post: AppView) -> bool {
        &&& post.user == self.user_after_advance()
        &&& post.user_list == self.user_list
        &&& post.show_results == false
        &&& post.error == self.error
        &&& match self.remaining {
            None => {
                &&& post.equations == self.equations
                &&& post.remaining.is_none()
                &&& post.show_table == self.show_table
            },
            Some(queue) => if queue.len() >= CELL_N {
                &&& post.equations == questions_of(queue)
                &&& post.remaining == Some(queue.skip(CELL_N as int))
                &&& uncovers(self.show_table, post.show_table, self.counts_answers(), self.equations)
            } else {
                &&& post.equations == blank_batch()
                &&& post.remaining.is_none()
                &&& post.show_table == Hidden::Nothing
            },
        }
    }

    /// The trainer with a round begun: `queue` is to be asked, under `cover`.
    pub open spec fn with_round(self, queue: Seq<ScoreWithEq>, cover: Hidden) -> AppView {
        AppView { remaining: Some(queue), show_table: cover, ..self }
    }

    /// `post` is the trainer after a round of `size` questions was started on
    /// the shuffled scores: the queue is the selection, the whole table is
    /// covered, and the round has gone on to its first questions.
    pub open spec fn starts_to(self, shuffled: Seq<ScoreWithEq>, size: nat, post: AppView) -> bool {
        exists|cover: Hidden| #[trigger]
            is_full_cover(cover) && self.with_round(selection(shuffled, size), cover).advances_to(
                post,
            )
    }

    /// The trainer with an answer entered into one of the questions.
    pub open spec fn with_input(self, index: int, value: Option<u32>) -> AppView {
        AppView {
            equations: self.equations.update(index, self.equations[index].answered(value)),
            ..self
        }
    }

    /// The trainer takes the message. What it does not take is a breach of
    /// contract by its owner: an answer for a question that is not there, a
    /// round or a save without a user, a change of the directory before the
    /// directory is loaded, or a try beyond what a score can count.
    pub open spec fn accepts(self, message: Message) -> bool {
        match message {
            Message::Input(index, value) => index < CELL_N && (value.is_some()
                ==> self.equations[index as int].numbers.is_some()),
            Message::ContinueTest => self.can_advance(),
            Message::StartTest | Message::StartSet => self.user.is_some() && (
            self.equations[0].correctness != CheckState::Unckecked ==> can_count(
                self.user.unwrap(),
                self.equations,
            )),
            Message::CheckResults => self.user.is_some(),
            Message::UserCreated(_) => self.user_list.is_some(),
            Message::RenameCurrent(_) => self.user.is_some(),
            Message::SyncUserList => self.user_list.is_some(),
            Message::UserFileRenamed(_) => self.user.is_some() && self.user_list.is_some()
                && self.user_list.unwrap().all.contains(self.user_list.unwrap().current),
            _ => true,
        }
    }

    /// What the owner is to do after the message.
    pub open spec fn effect_of(self, message: Message) -> EffectView {
        match message {
            Message::Input(_, _) => EffectView::Nothing,
            Message::Focus(index, next) => if next {
                if index == CELL_N - 1 {
                    EffectView::Nothing
                } else {
                    EffectView::FocusNext
                }
            } else {
                EffectView::FocusPrevious
            },
            Message::ContinueTest => self.effect_after_advance(),
            Message::StartTest | Message::StartSet => if self.equations[0].correctness
                != CheckState::Unckecked {
                EffectView::SaveUser(fold_answers(self.user.unwrap(), self.equations))
            } else {
                EffectView::Nothing
            },
            Message::CheckResults => EffectView::SaveUser(self.user.unwrap()),
            Message::UserListLoaded(list) => EffectView::LoadUser(list@.current, false),
            Message::UserLoaded(_, should_sync) => if should_sync {
                EffectView::DispatchSync
            } else {
                EffectView::Nothing
            },
            Message::UserCreated(_) => EffectView::DispatchSync,
            Message::SetError(_) => EffectView::Nothing,
            Message::CreateUser(name) => EffectView::CreateUser(name@),
            Message::UserSelected(name) => EffectView::LoadUser(name@, true),
            Message::RenameCurrent(name) => EffectView::RenameUserFile {
                from: self.user.unwrap().name,
                to: name@,
            },
            Message::SyncUserList => EffectView::SaveUserList(self.user_list.unwrap()),
            Message::UserFileRenamed(name) => EffectView::SaveUserThenSync(
                self.user.unwrap().with_name(name@),
            ),
        }
    }

    /// `post` is the trainer after the message. The start of a round depends
    /// on the shuffle of the scores, which `shuffled` stands for; no other
    /// message looks at it.
    pub open spec fn steps_to(self, message: Message, shuffled: Seq<ScoreWithEq>, post: AppView) -> bool {
        match message {
            Message::Input(index, value) => post == self.with_input(index as int, value),
            Message::Focus(_, _) => post == self,
            Message::ContinueTest => self.advances_to(post),
            Message::StartTest => self.starts_to(shuffled, (CELL_N * CELL_N) as nat, post),
            Message::StartSet => self.starts_to(shuffled, CELL_N as nat, post),
            Message::CheckResults => post == (AppView { show_results: true, ..self }),
            Message::UserListLoaded(list) => post == (AppView { user_list: Some(list@), ..self }),
            Message::UserLoaded(user, _) => post == (AppView {
                user: Some(user@),
                user_list: match self.user_list {
                    Some(list) => Some(list.with_current(user@.name)),
                    None => None,
                },
                ..self
            }),
            Message::UserCreated(user) => post == (AppView {
                user: Some(user@),
                user_list: Some(self.user_list.unwrap().with_added(user@.name)),
                ..self
            }),
            Message::SetError(error) => post == (AppView { error: text_of(error), ..self }),
            Message::CreateUser(_) => post == self,
            Message::UserSelected(_) => post == self,
            Message::RenameCurrent(_) => post == self,
            Message::SyncUserList => post == self,
            Message::UserFileRenamed(name) => post == (AppView {
                user: Some(self.user.unwrap().with_name(name@)),
                user_list: Some(self.user_list.unwrap().renamed(name@)),
                ..self
            }),
        }
    }
}

/// The cover keeps every cell of the table covered.
pub open spec fn is_full_cover(cover: Hidden) -> bool {
    cover is Specified && cover.covered() == whole_table()
}

/// `after` is the cover `before` once the answers have been counted: where
/// answers were counted and the cover is kept cell by cell, the cells that
/// the answers speak of are uncovered; else the cover stays as it is.
pub open spec fn uncovers(before: Hidden, after: Hidden, counted: bool, answers: Seq<EqData>) -> bool {
    if counted && before is Specified {
        after is Specified && after.covered() == before.covered().difference(asked_cells(answers))
    } else {
        after == before
    }
}

/// A button below the questions: what it says, and what pressing it asks
/// for, if it can be pressed.
#[derive(Debug)]
pub struct Control {
    pub label: &'static str,
    pub on_press: Option<Message>,
}

impl AppView {
    /// Every question on the screen has a grade.
    pub open spec fn has_all_answers(self) -> bool {
        forall|i: int|
            0 <= i < CELL_N ==> (#[trigger] self.equations[i]).correctness != CheckState::Unckecked
    }

    /// The first button: it starts a full test once there is a user; during
    /// a round it shows the grades, once every question has one and they are
    /// not shown yet.
    pub open spec fn first_control(self, control: Control) -> bool {
        if self.remaining.is_none() {
            &&& control.label@ == "Test"@
            &&& control.on_press == if self.user.is_some() {
                Some(Message::StartTest)
            } else {
                None
            }
        } else {
            &&& control.label@ == "Check"@
            &&& control.on_press == if self.has_all_answers() && !self.show_results {
                Some(Message::CheckResults)
            } else {
                None
            }
        }
    }

    /// The second button: it starts a single set once there is a user;
    /// during a round it lets the round go on, once every question has a
    /// grade.
    pub open spec fn second_control(self, control: Control) -> bool {
        if self.remaining.is_none() {
            &&& control.label@ == "1 Set"@
            &&& control.on_press == if self.user.is_some() {
                Some(Message::StartSet)
            } else {
                None
            }
        } else {
            &&& control.label@ == "Continue"@
            &&& control.on_press == if self.has_all_answers() {
                Some(Message::ContinueTest)
            } else {
                None
            }
        }
    }
}

/// The trainer.
pub struct MultiplicationTableApp {
    user: Option<User>,
    user_list: Option<UserList>,
    equations: [EqData; CELL_N],
    state: State,
    show_table: Hidden,
    show_results: bool,
    error: Option<String>,
}

impl View for MultiplicationTableApp {
    type V = AppView;

    closed spec fn view(&self) -> AppView {
        AppView {
            user: view_of(self.user),
            user_list: list_view_of(self.user_list),
            equations: self.equations@,
            remaining: match self.state {
                State::NoTest => None,
                State::TestInProgress { remaining } => Some(remaining@),
            },
            show_table: self.show_table,
            show_results: self.show_results,
            error: text_of(self.error),
        }
    }
}

impl MultiplicationTableApp {
    /// The trainer at its start: no user, no directory, no round; and the
    /// directory is to be loaded.
    pub fn new() -> (start: (Self, Effect))
        ensures
            start.0@.wf(),
            start.0@.user.is_none(),
            start.0@.user_list.is_none(),
            start.0@.equations == blank_batch(),
            start.0@.remaining.is_none(),
            start.0@.show_table == Hidden::Nothing,
            !start.0@.show_results,
            start.0@.error.is_none(),
            start.1@ == EffectView::LoadUserList,
    {
        let app = Self {
            user: None,
            user_list: None,
            equations: [EqData::new(None); CELL_N],
            state: State::NoTest,
            show_table: Hidden::Nothing,
            show_results: false,
            error: None,
        };
        assert(app@.equations =~= blank_batch());
        (app, Effect::LoadUserList)
    }

    /// The title of the window: the name of the user behind `TITLE`.
    pub fn title(&self) -> (title: String)
        ensures
            title@ == TITLE@ + match self@.user {
                Some(user) => user.name,
                None => Seq::<char>::empty(),
            },
    {
        let name = match &self.user {
            Some(user) => user.name(),
            None => "",
        };
        proof {
            reveal_strlit("");
        }
        String::from_str(TITLE).concat(name)
    }

    /// The user who is training, once loaded.
    pub fn user(&self) -> (user: &Option<User>)
        ensures
            view_of(*user) == self@.user,
    {
        &self.user
    }

    /// The directory of users, once loaded.
    pub fn user_list(&self) -> (list: &Option<UserList>)
        ensures
            list_view_of(*list) == self@.user_list,
    {
        &self.user_list
    }

    /// The questions on the screen.
    pub fn equations(&self) -> (questions: &[EqData; CELL_N])
        ensures
            questions@ == self@.equations,
    {
        &self.equations
    }

    /// Whether a round is on, and what it has yet to ask.
    pub fn state(&self) -> (state: &State)
        ensures
            match state {
                State::NoTest => self@.remaining.is_none(),
                State::TestInProgress { remaining } => self@.remaining == Some(remaining@),
            },
    {
        &self.state
    }

    /// The cover of the table.
    pub fn show_table(&self) -> (cover: &Hidden)
        ensures
            *cover == self@.show_table,
    {
        &self.show_table
    }

    /// Whether the screen shows how the answers fared.
    pub fn show_results(&self) -> (shown: bool)
        ensures
            shown == self@.show_results,
    {
        self.show_results
    }

    /// The failure to show, if the last step failed.
    pub fn error(&self) -> (error: &Option<String>)
        ensures
            text_of(*error) == self@.error,
    {
        &self.error
    }

    /// The two buttons below the questions.
    pub fn controls(&self) -> (controls: (Control, Control))
        ensures
            self@.first_control(controls.0),
            self@.second_control(controls.1),
    {
        let has_all_answers = self.has_all_answers();
        match &self.state {
            State::NoTest => {
                let has_user = self.user.is_some();
                (
                    Control {
                        label: "Test",
                        on_press: if has_user {
                            Some(Message::StartTest)
                        } else {
                            None
                        },
                    },
                    Control {
                        label: "1 Set",
                        on_press: if has_user {
                            Some(Message::StartSet)
                        } else {
                            None
                        },
                    },
                )
            },
            State::TestInProgress { .. } => (
                Control {
                    label: "Check",
                    on_press: if has_all_answers && !self.show_results {
                        Some(Message::CheckResults)
                    } else {
                        None
                    },
                },
                Control {
                    label: "Continue",
                    on_press: if has_all_answers {
                        Some(Message::ContinueTest)
                    } else {
                        None
                    },
                },
            ),
        }
    }

    /// Whether every question on the screen has a grade.
    pub fn has_all_answers(&self) -> (all: bool)
        ensures
            all == self@.has_all_answers(),
    {
        for i in 0..CELL_N
            invariant
                forall|j: int|
                    0 <= j < i ==> (#[trigger] self@.equations[j]).correctness
                        != CheckState::Unckecked,
        {
            if self.equations[i].correctness == CheckState::Unckecked {
                return false;
            }
        }
        true
    }

    /// Enters an answer into one of the questions on the screen, and grades it.
    fn update_input(&mut self, index: usize, v: Option<u32>) -> (effect: Effect)
        requires
            old(self)@.wf(),
            old(self)@.accepts(Message::Input(index, v)),
        ensures
            final(self)@ == old(self)@.with_input(index as int, v),
            final(self)@.wf(),
            effect@ == EffectView::Nothing,
    {
        let answered = self.equations[index].answer(v);
        self.equations[index] = answered;
        proof {
            let before = old(self)@;
            assert(self@.equations =~= before.equations.update(
                index as int,
                before.equations[index as int].answered(v),
            ));
            match before.remaining {
                None => {
                    assert(before.equations[index as int] == EqData::fresh(None));
                    assert(self@.equations =~= blank_batch());
                },
                Some(_) => {
                    assert(is_question(before.equations[index as int]));
                    assert forall|i: int| 0 <= i < CELL_N implies is_question(
                        #[trigger] self@.equations[i],
                    ) by {
                        assert(is_question(before.equations[i]));
                    }
                },
            }
        }
        Effect::Nothing
    }

    /// Where the focus goes from the input field `index`: on, unless the field is
    /// the last one, or back.
    fn update_focus(&self, index: usize, next: bool) -> (effect: Effect)
        ensures
            effect@ == self@.effect_of(Message::Focus(index, next)),
    {
        if next {
            if index == CELL_N - 1 {
                Effect::Nothing
            } else {
                Effect::FocusNext
            }
        } else {
            Effect::FocusPrevious
        }
    }

    /// The effect that has the user saved as it is now.
    fn save_results(user: &Option<User>) -> (effect: Effect)
        requires
            user.is_some(),
        ensures
            effect@ == EffectView::SaveUser(user.unwrap()@),
    {
        match user {
            Some(u) => Effect::SaveUser(u.clone()),
            None => Effect::Nothing,
        }
    }

    /// The effect that has the directory saved as it is now.
    fn sync_user_list(&self) -> (effect: Effect)
        requires
            self@.user_list.is_some(),
        ensures
            effect@ == EffectView::SaveUserList(self@.user_list.unwrap()),
    {
        match &self.user_list {
            Some(list) => Effect::SaveUserList(list.clone()),
            None => Effect::Nothing,
        }
    }

    /// The effect that has a record written for a new user.
    fn create_new_user(&self, user: String) -> (effect: Effect)
        ensures
            effect@ == EffectView::CreateUser(user@),
    {
        Effect::CreateUser(user)
    }

    /// The effect that has the record of the current user renamed.
    fn rename_current_user(&self, new_user_name: String) -> (effect: Effect)
        requires
            self@.user.is_some(),
        ensures
            effect@ == (EffectView::RenameUserFile {
                from: self@.user.unwrap().name,
                to: new_user_name@,
            }),
    {
        match &self.user {
            Some(user) => Effect::RenameUserFile {
                from: user.name().to_owned(),
                to: new_user_name,
            },
            None => Effect::Nothing,
        }
    }

    /// Counts the answers on the screen into the scores of `user` and
    /// uncovers their cells in `cover`.
    fn count_answers(user: &mut User, cover: &mut Hidden, answers: &[EqData; CELL_N])
        requires
            is_batch(answers@),
            can_count(old(user)@, answers@),
        ensures
            final(user)@ == fold_answers(old(user)@, answers@),
            uncovers(*old(cover), *final(cover), true, answers@),
    {
        broadcast use User::lemma_view_wf;

        let ghost start = user@;
        let ghost covered = cover.covered();

        proof {
            assert(answers@.take(0) =~= Seq::<EqData>::empty());
            assert(asked_cells(answers@.take(0)) =~= Set::<(int, int)>::empty());
            assert(covered.difference(asked_cells(answers@.take(0))) =~= covered);
        }
        for k in 0..CELL_N
            invariant
                is_batch(answers@),
                can_count(start, answers@),
                start.wf(),
                user@.wf(),
                user@ == fold_answers(start, answers@.take(k as int)),
                forall|j: int|
                    k <= j < CELL_N ==> user@.scores[cell_of(#[trigger] answers@[j]).0][cell_of(
                        answers@[j],
                    ).1] == start.scores[cell_of(answers@[j]).0][cell_of(answers@[j]).1],
                covered == old(cover).covered(),
                if *old(cover) is Specified {
                    *cover is Specified && cover.covered() == covered.difference(
                        asked_cells(answers@.take(k as int)),
                    )
                } else {
                    *cover == *old(cover)
                },
        {
            let e = answers[k];
            assert(is_question(answers@[k as int]));
            let numbers = e.numbers.unwrap();
            let x: usize = (numbers.0 - 1) as usize;
            let y: usize = (numbers.1 - 1) as usize;
            let ghost before = user@;
            let ghost cover_before = *cover;
            match *cover {
                Hidden::Specified(cells) => {
                    let mut cells = cells;
                    cells[x][y] = false;
                    *cover = Hidden::Specified(cells);
                },
                _ => {},
            }
            match user.get_mut_score(x, y) {
                Some(score) => {
                    score.update(e.correctness == CheckState::Correct);
                },
                None => {},
            }
            proof {
                let t = before.scores[x as int][y as int].updated(
                    e.correctness == CheckState::Correct,
                );
                let want = before.with_score(x as int, y as int, t);
                assert(user@.wf());
                assert(user@.scores[x as int][y as int] == t);
                assert forall|i: int| 0 <= i < CELL_N implies #[trigger] user@.scores[i]
                    =~= want.scores[i] by {
                    assert forall|j: int| 0 <= j < CELL_N implies #[trigger] user@.scores[i][j]
                        == want.scores[i][j] by {
                        if !(i == x && j == y) {
                            assert(user@.scores[i][j] == before.scores[i][j]);
                        }
                    }
                }
                assert(user@.scores =~= want.scores);
                let taken = answers@.take(k + 1);
                assert(taken.drop_last() =~= answers@.take(k as int));
                assert(taken.last() == e);
                assert forall|j: int| k + 1 <= j < CELL_N implies user@.scores[cell_of(
                    #[trigger] answers@[j],
                ).0][cell_of(answers@[j]).1] == start.scores[cell_of(answers@[j]).0][cell_of(
                    answers@[j],
                ).1] by {
                    assert(is_question(answers@[j]));
                    assert(answers@[k as int].numbers != answers@[j].numbers);
                }
                assert(asked_cells(taken) =~= asked_cells(answers@.take(k as int)).insert(
                    (x as int, y as int),
                )) by {
                    assert forall|cell: (int, int)| #[trigger]
                        asked_cells(taken).contains(cell) <==> asked_cells(
                            answers@.take(k as int),
                        ).insert((x as int, y as int)).contains(cell) by {
                        if asked_cells(taken).contains(cell) {
                            let w = choose|w: int|
                                0 <= w < taken.len() && cell_of(#[trigger] taken[w]) == cell;
                            if w < k {
                                assert(cell_of(answers@.take(k as int)[w]) == cell);
                            }
                        }
                        if asked_cells(answers@.take(k as int)).contains(cell) {
                            let w = choose|w: int|
                                0 <= w < k && cell_of(#[trigger] answers@.take(k as int)[w])
                                    == cell;
                            assert(cell_of(taken[w]) == cell);
                        }
                        if cell == (x as int, y as int) {
                            assert(cell_of(taken[k as int]) == cell);
                        }
                    }
                }
                if cover_before is Specified {
                    assert(cover.covered() =~= cover_before.covered().remove((x as int, y as int)));
                    assert(cover.covered() =~= covered.difference(asked_cells(taken)));
                }
            }
        }
        proof {
            assert(answers@.take(CELL_N as int) =~= answers@);
        }
    }

    /// Lets the round go on: counts the answers on the screen, if there are
    /// answers to count, and puts the next questions on the screen or ends
    /// the round.
    fn next_set(&mut self) -> (effect: Effect)
        requires
            old(self)@.equations.len() == CELL_N,
            old(self)@.can_advance(),
            match old(self)@.remaining {
                None => old(self)@.wf(),
                Some(queue) => {
                    &&& old(self)@.user.is_some()
                    &&& is_queue(queue)
                    &&& old(self)@.show_table is Specified
                    &&& old(self)@.counts_answers() ==> is_batch(old(self)@.equations)
                },
            },
        ensures
            old(self)@.advances_to(final(self)@),
            effect@ == old(self)@.effect_after_advance(),
            final(self)@.wf(),
    {
        broadcast use User::lemma_view_wf;

        self.show_results = false;
        let mut effect = Effect::Nothing;
        let mut state = State::NoTest;
        std::mem::swap(&mut self.state, &mut state);
        match state {
            State::TestInProgress { remaining } => {
                let mut remaining = remaining;
                let ghost queue = remaining@;
                if self.equations[0].correctness != CheckState::Unckecked {
                    let mut user = self.user.take().unwrap();
                    let mut cover = self.show_table;
                    Self::count_answers(&mut user, &mut cover, &self.equations);
                    self.show_table = cover;
                    self.user = Some(user);
                    effect = Self::save_results(&self.user);
                }
                if remaining.len() != 0 {
                    let eq = get_n(&mut remaining);
                    match eq {
                        Some(e) => {
                            self.equations = e;
                            self.state = State::TestInProgress { remaining };
                            proof {
                                let post = self@;
                                assert(post.equations =~= questions_of(queue));
                                assert forall|i: int| 0 <= i < CELL_N implies is_question(
                                    #[trigger] post.equations[i],
                                ) by {
                                    assert(queue[i].in_table());
                                }
                                assert forall|i: int, j: int|
                                    0 <= i < j < CELL_N implies (#[trigger] post.equations[i]).numbers
                                    != (#[trigger] post.equations[j]).numbers by {
                                    assert(queue[i].in_table());
                                    assert(queue[j].in_table());
                                    assert(!(queue[i].0 == queue[j].0 && queue[i].1 == queue[j].1));
                                }
                                assert forall|k: int|
                                    0 <= k < queue.skip(CELL_N as int).len() implies (
                                #[trigger] queue.skip(CELL_N as int)[k]).in_table() by {
                                    assert(queue[k + CELL_N].in_table());
                                }
                                assert(is_worst_first(queue.skip(CELL_N as int)));
                            }
                            return effect;
                        },
                        None => {},
                    }
                }
                self.equations = [EqData::new(None); CELL_N];
                self.show_table = Hidden::Nothing;
                self.state = State::NoTest;
                proof {
                    assert(self@.equations =~= blank_batch());
                }
            },
            State::NoTest => {},
        }
        effect
    }

    /// Begins a round over the shuffled scores: the queue is their selection
    /// of `size`, and the whole table is covered.
    fn begin_round(&mut self, shuffled: Vec<ScoreWithEq>, size: usize)
        ensures
            is_full_cover(final(self)@.show_table),
            final(self)@ == old(self)@.with_round(
                selection(shuffled@, size as nat),
                final(self)@.show_table,
            ),
    {
        let remaining = select_cells(shuffled, size);
        self.state = State::TestInProgress { remaining };
        self.show_table = Hidden::Specified([[true; CELL_N]; CELL_N]);
        proof {
            assert(self@.show_table.covered() =~= whole_table());
        }
    }

    /// Begins a round of `size` questions over a fresh shuffle of the scores
    /// of the user.
    fn init_test(&mut self, size: usize) -> (shuffled: Ghost<Seq<ScoreWithEq>>)
        requires
            old(self)@.user.is_some(),
        ensures
            holds_every_score(shuffled@, old(self)@.user.unwrap()),
            cells_once(shuffled@),
            is_full_cover(final(self)@.show_table),
            final(self)@ == old(self)@.with_round(
                selection(shuffled@, size as nat),
                final(self)@.show_table,
            ),
    {
        let all_scores = match &self.user {
            Some(user) => shuffled_scores(user),
            None => Vec::new(),
        };
        let ghost shuffled = all_scores@;
        self.begin_round(all_scores, size);
        Ghost(shuffled)
    }

    /// Starts a round of `size` questions over the shuffled entries, and puts
    /// its first questions on the screen. The entries speak of cells of the
    /// table, of none twice; a round is meant to start on the scores of the
    /// user, in an order that was shuffled.
    pub fn start_with(&mut self, shuffled: Vec<ScoreWithEq>, size: usize) -> (effect: Effect)
        requires
            old(self)@.wf(),
            old(self)@.accepts(Message::StartTest),
            cells_once(shuffled@),
        ensures
            old(self)@.starts_to(shuffled@, size as nat, final(self)@),
            effect@ == old(self)@.effect_of(Message::StartTest),
            final(self)@.wf(),
    {
        self.begin_round(shuffled, size);
        proof {
            lemma_round_can_advance(old(self)@, shuffled@, size as nat, self@.show_table);
        }
        self.next_set()
    }

    /// Takes one message: the trainer changes as the message says, and the
    /// owner is told what to do.
    pub fn update(&mut self, message: Message) -> (effect: Effect)
        requires
            old(self)@.wf(),
            old(self)@.accepts(message),
        ensures
            final(self)@.wf(),
            effect@ == old(self)@.effect_of(message),
            exists|shuffled: Seq<ScoreWithEq>|
                {
                    &&& #[trigger] old(self)@.steps_to(message, shuffled, final(self)@)
                    &&& message is StartTest || message is StartSet ==> holds_every_score(
                        shuffled,
                        old(self)@.user.unwrap(),
                    )
                },
    {
        broadcast use User::lemma_view_wf;

        let ghost unused = Seq::<ScoreWithEq>::empty();
        let ghost pre = self@;
        match message {
            Message::Input(i, v) => {
                let effect = self.update_input(i, v);
                assert(pre.steps_to(message, unused, self@));
                effect
            },
            Message::Focus(i, next) => {
                let effect = self.update_focus(i, next);
                assert(pre.steps_to(message, unused, self@));
                effect
            },
            Message::ContinueTest => {
                let effect = self.next_set();
                assert(pre.steps_to(message, unused, self@));
                effect
            },
            Message::StartTest => {
                let shuffled = self.init_test(CELL_N * CELL_N);
                proof {
                    lemma_round_can_advance(
                        pre,
                        shuffled@,
                        (CELL_N * CELL_N) as nat,
                        self@.show_table,
                    );
                }
                let effect = self.next_set();
                assert(pre.steps_to(message, shuffled@, self@));
                effect
            },
            Message::StartSet => {
                let shuffled = self.init_test(CELL_N);
                proof {
                    lemma_round_can_advance(pre, shuffled@, CELL_N as nat, self@.show_table);
                }
                let effect = self.next_set();
                assert(pre.steps_to(message, shuffled@, self@));
                effect
            },
            Message::CheckResults => {
                self.show_results = true;
                let effect = Self::save_results(&self.user);
                assert(pre.steps_to(message, unused, self@));
                effect
            },
            Message::UserListLoaded(ul) => {
                let current = ul.get_current().to_owned();
                self.user_list = Some(ul);
                assert(pre.steps_to(message, unused, self@));
                Effect::LoadUser(current, false)
            },
            Message::UserLoaded(u, should_sync) => {
                let name = u.name().to_owned();
                match self.user_list.take() {
                    Some(list) => {
                        let mut list = list;
                        list.switch_current(name);
                        self.user_list = Some(list);
                    },
                    None => {},
                }
                self.user = Some(*u);
                assert(pre.steps_to(message, unused, self@));
                if should_sync {
                    Effect::DispatchSync
                } else {
                    Effect::Nothing
                }
            },
            Message::UserCreated(u) => {
                match self.user_list.take() {
                    Some(list) => {
                        let mut list = list;
                        list.add_user(u.name());
                        self.user_list = Some(list);
                    },
                    None => {},
                }
                self.user = Some(*u);
                assert(pre.steps_to(message, unused, self@));
                Effect::DispatchSync
            },
            Message::SetError(e) => {
                self.error = e;
                assert(pre.steps_to(message, unused, self@));
                Effect::Nothing
            },
            Message::CreateUser(u) => {
                assert(pre.steps_to(message, unused, self@));
                self.create_new_user(u)
            },
            Message::UserSelected(u) => {
                assert(pre.steps_to(message, unused, self@));
                Effect::LoadUser(u, true)
            },
            Message::RenameCurrent(u) => {
                assert(pre.steps_to(message, unused, self@));
                self.rename_current_user(u)
            },
            Message::SyncUserList => {
                assert(pre.steps_to(message, unused, self@));
                self.sync_user_list()
            },
            Message::UserFileRenamed(new_name) => {
                match self.user_list.take() {
                    Some(list) => {
                        let mut list = list;
                        list.update_current_user_after_rename(new_name.clone());
                        self.user_list = Some(list);
                    },
                    None => {},
                }
                match self.user.take() {
                    Some(user) => {
                        let mut user = user;
                        user.set_name(new_name);
                        self.user = Some(user);
                    },
                    None => {},
                }
                assert(pre.steps_to(message, unused, self@));
                match &self.user {
                    Some(user) => Effect::SaveUserThenSync(user.clone()),
                    None => Effect::Nothing,
                }
            },
        }
    }
}

/// The directory stays valid through every message, as long as its owner
/// hands in valid directories, loads users of the directory, creates users
/// under new names, and renames the current user to a name that no other
/// user has.
pub proof fn lemma_directory_stays_valid(
    pre: AppView,
    message: Message,
    shuffled: Seq<ScoreWithEq>,
    post: AppView,
)
    requires
        pre.accepts(message),
        pre.steps_to(message, shuffled, post),
        pre.user_list matches Some(list) ==> list.wf(),
        message matches Message::UserListLoaded(list) ==> list@.wf(),
        message matches Message::UserLoaded(user, _) ==> (pre.user_list matches Some(list)
            ==> list.all.contains(user@.name)),
        message matches Message::UserCreated(user) ==> !pre.user_list.unwrap().all.contains(
            user@.name,
        ),
        message matches Message::UserFileRenamed(name) ==> name@ == pre.user_list.unwrap().current
            || !pre.user_list.unwrap().all.contains(name@),
    ensures
        post.user_list matches Some(list) ==> list.wf(),
{
    match message {
        Message::UserLoaded(user, _) => {
            if pre.user_list.is_some() {
                crate::data::user_list::lemma_switched_stays_valid(
                    pre.user_list.unwrap(),
                    user@.name,
                );
            }
        },
        Message::UserCreated(user) => {
            crate::data::user_list::lemma_added_stays_valid(pre.user_list.unwrap(), user@.name);
        },
        Message::UserFileRenamed(name) => {
            crate::data::user_list::lemma_renamed_stays_valid(pre.user_list.unwrap(), name@);
        },
        Message::StartTest | Message::StartSet => {
            let size = if message is StartTest {
                (CELL_N * CELL_N) as nat
            } else {
                CELL_N as nat
            };
            assert(pre.starts_to(shuffled, size, post));
        },
        _ => {},
    }
}

/// Whatever a button offers, the trainer takes, as long as the scores of the
/// cells on the screen can count one more try.
pub proof fn lemma_controls_are_accepted(app: AppView, first: Control, second: Control)
    requires
        app.wf(),
        app.first_control(first),
        app.second_control(second),
        app.user matches Some(user) ==> app.remaining.is_some() ==> can_count(user, app.equations),
    ensures
        first.on_press matches Some(message) ==> app.accepts(message),
        second.on_press matches Some(message) ==> app.accepts(message),
{
    if app.remaining.is_none() {
        assert(app.equations[0] == EqData::fresh(None));
    }
}

/// A trainer in which a round over the shuffled scores has just begun can let
/// the round go on.
proof fn lemma_round_can_advance(pre: AppView, shuffled: Seq<ScoreWithEq>, size: nat, cover: Hidden)
    requires
        pre.wf(),
        pre.accepts(Message::StartTest),
        cells_once(shuffled),
    ensures
        is_queue(selection(shuffled, size)),
        pre.with_round(selection(shuffled, size), cover).can_advance(),
        pre.with_round(selection(shuffled, size), cover).counts_answers() ==> is_batch(
            pre.equations,
        ),
{
    lemma_selection_keeps_cells_once(shuffled, size);
    lemma_selection_is_sorted(shuffled, size);
    if pre.remaining.is_none() {
        assert(pre.equations[0] == EqData::fresh(None));
    }
}

impl Message {
    /// What the tabulator key asks for: the focus moves on, or back while
    /// shift is held.
    pub fn tab(shift_held: bool) -> (message: Message)
        ensures
            message == Message::Focus(0, !shift_held),
    {
        Message::Focus(0, !shift_held)
    }

    /// The answer to an effect that had something written: the failure, or
    /// that there was none.
    pub fn saved(result: Result<(), String>) -> (message: Message)
        ensures
            message == Message::SetError(result.err()),
    {
        match result {
            Ok(_) => Message::SetError(None),
            Err(e) => Message::SetError(Some(e)),
        }
    }

    /// The answer to `Effect::CreateUser`: the new user, or the failure.
    pub fn created(result: Result<User, String>) -> (message: Message)
        ensures
            message == match result {
                Ok(user) => Message::UserCreated(Box::new(user)),
                Err(e) => Message::SetError(Some(e)),
            },
    {
        match result {
            Ok(user) => Message::UserCreated(Box::new(user)),
            Err(e) => Message::SetError(Some(e)),
        }
    }

    /// The answer to `Effect::RenameUserFile`: the new name, or the failure.
    pub fn renamed(result: Result<String, String>) -> (message: Message)
        ensures
            message == match result {
                Ok(name) => Message::UserFileRenamed(name),
                Err(e) => Message::SetError(Some(e)),
            },
    {
        match result {
            Ok(name) => Message::UserFileRenamed(name),
            Err(e) => Message::SetError(Some(e)),
        }
    }
}

} // verus!
