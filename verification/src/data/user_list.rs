use crate::helpers::{get_file_path, RECORD_SUFFIX};
use vstd::prelude::*;

verus! {

/// The name of the only user of a fresh directory.
pub const DEFAULT_USER: &'static str = "User";

/// The name under which the directory itself is persisted.
pub const DIRECTORY_NAME: &'static str = "UserList";

/// What a [`UserList`] holds: the names of all users, in the order in which
/// they were created, and the name of the user who was active last.
pub struct UserListView {
    pub current: Seq<char>,
    pub all: Seq<Seq<char>>,
}

impl UserListView {
    /// No name occurs twice, and the current user is one of the users.
    pub open spec fn wf(self) -> bool {
        &&& self.all.no_duplicates()
        &&& self.all.contains(self.current)
    }

    /// The directory with `name` as the current user.
    pub open spec fn with_current(self, name: Seq<char>) -> UserListView {
        UserListView { current: name, all: self.all }
    }

    /// The directory with a user called `name` appended and made current.
    pub open spec fn with_added(self, name: Seq<char>) -> UserListView {
        UserListView { current: name, all: self.all.push(name) }
    }

    /// The first place at which the current user stands among the users.
    pub open spec fn place_of_current(self) -> int {
        choose|k: int| self.first_at(self.current, k)
    }

    /// The directory with the current user renamed to `name`, in the list
    /// and as the current user.
    pub open spec fn renamed(self, name: Seq<char>) -> UserListView {
        UserListView { current: name, all: self.all.update(self.place_of_current(), name) }
    }

    /// `k` is the first place at which `name` stands among the users.
    pub open spec fn first_at(self, name: Seq<char>, k: int) -> bool {
        &&& 0 <= k < self.all.len()
        &&& self.all[k] == name
        &&& forall|j: int| 0 <= j < k ==> self.all[j] != name
    }
}

/// A directory without doubles stays valid when a user with a new name is
/// added.
pub proof fn lemma_added_stays_valid(list: UserListView, name: Seq<char>)
    requires
        list.all.no_duplicates(),
        !list.all.contains(name),
    ensures
        list.with_added(name).wf(),
{
    let after = list.with_added(name);
    assert(after.all[after.all.len() - 1] == name);
    assert forall|i: int, j: int|
        0 <= i < after.all.len() && 0 <= j < after.all.len() && i != j implies after.all[i]
        != after.all[j] by {
        if i < list.all.len() {
            assert(list.all.contains(list.all[i]));
        }
        if j < list.all.len() {
            assert(list.all.contains(list.all[j]));
        }
    }
}

/// A valid directory stays valid when one of its users becomes current.
pub proof fn lemma_switched_stays_valid(list: UserListView, name: Seq<char>)
    requires
        list.wf(),
        list.all.contains(name),
    ensures
        list.with_current(name).wf(),
{
}

/// In a directory that holds its current user, the place of the current user
/// is the first place at which its name stands.
pub proof fn lemma_place_of_current(list: UserListView)
    requires
        list.all.contains(list.current),
    ensures
        list.first_at(list.current, list.place_of_current()),
{
    let w = choose|w: int| 0 <= w < list.all.len() && list.all[w] == list.current;
    lemma_first_place_exists(list, list.current, w);
}

/// A name that stands somewhere among the users stands somewhere first.
proof fn lemma_first_place_exists(list: UserListView, name: Seq<char>, w: int)
    requires
        0 <= w < list.all.len(),
        list.all[w] == name,
    ensures
        exists|k: int| list.first_at(name, k),
    decreases w,
{
    if exists|j: int| 0 <= j < w && list.all[j] == name {
        let j = choose|j: int| 0 <= j < w && list.all[j] == name;
        lemma_first_place_exists(list, name, j);
    } else {
        assert(list.first_at(name, w));
    }
}

/// A valid directory stays valid when its current user is renamed, as long
/// as no other user has the new name.
pub proof fn lemma_renamed_stays_valid(list: UserListView, name: Seq<char>)
    requires
        list.wf(),
        name == list.current || !list.all.contains(name),
    ensures
        list.renamed(name).wf(),
        list.renamed(name).all.len() == list.all.len(),
{
    lemma_place_of_current(list);
    let k = list.place_of_current();
    let after = list.renamed(name);
    assert(after.all[k] == after.current);
    assert forall|i: int, j: int|
        0 <= i < after.all.len() && 0 <= j < after.all.len() && i != j implies after.all[i]
        != after.all[j] by {
        if i == k {
            if name == list.current {
                assert(list.all[j] != list.all[k]);
            } else {
                assert(list.all.contains(list.all[j]));
            }
        } else if j == k {
            if name == list.current {
                assert(list.all[i] != list.all[k]);
            } else {
                assert(list.all.contains(list.all[i]));
            }
        } else {
            assert(list.all[i] != list.all[j]);
        }
    }
}

/// The directory of users.
#[derive(Debug)]
pub struct UserList {
    last_user: String,
    all_users: Vec<String>,
}

impl View for UserList {
    type V = UserListView;

    closed spec fn view(&self) -> UserListView {
        UserListView {
            current: self.last_user@,
            all: Seq::new(self.all_users@.len(), |i: int| self.all_users@[i]@),
        }
    }
}

impl Default for UserList {
    fn default() -> (list: Self)
        ensures
            list@.current == DEFAULT_USER@,
            list@.all == seq![DEFAULT_USER@],
            list@.wf(),
    {
        let mut all_users: Vec<String> = Vec::new();
        all_users.push(DEFAULT_USER.to_owned());
        let list = UserList { last_user: DEFAULT_USER.to_owned(), all_users };
        proof {
            assert(list@.all =~= seq![DEFAULT_USER@]);
            assert(list@.all[0] == list@.current);
        }
        list
    }
}

impl Clone for UserList {
    fn clone(&self) -> (copy: Self)
        ensures
            copy@ == self@,
    {
        let mut all_users: Vec<String> = Vec::new();
        for i in 0..self.all_users.len()
            invariant
                all_users@.len() == i,
                forall|j: int| 0 <= j < i ==> all_users@[j]@ == self.all_users@[j]@,
        {
            all_users.push(self.all_users[i].clone());
        }
        let copy = UserList { last_user: self.last_user.clone(), all_users };
        proof {
            assert(copy@.all =~= self@.all);
        }
        copy
    }
}

impl UserList {
    /// The name of the file that holds the directory.
    pub fn get_file_path() -> (path: String)
        ensures
            path@ == DIRECTORY_NAME@ + RECORD_SUFFIX@,
    {
        get_file_path(DIRECTORY_NAME)
    }

    /// The directory that a persisted current user and list of names stand
    /// for.
    pub fn from_saved(last_user: String, all_users: Vec<String>) -> (list: Self)
        ensures
            list@.current == last_user@,
            list@.all == Seq::new(all_users@.len(), |i: int| all_users@[i]@),
    {
        UserList { last_user, all_users }
    }

    /// The name of the user who was active last.
    pub fn get_current(&self) -> (name: &str)
        ensures
            name@ == self@.current,
    {
        self.last_user.as_str()
    }

    /// The names of all users, in the order in which they were created.
    pub fn get_all(&self) -> (names: &Vec<String>)
        ensures
            names@.len() == self@.all.len(),
            forall|i: int| 0 <= i < names@.len() ==> (#[trigger] names@[i])@ == self@.all[i],
    {
        &self.all_users
    }

    /// Whether a user of that name is in the directory.
    pub fn contains(&self, name: &str) -> (found: bool)
        ensures
            found == self@.all.contains(name@),
    {
        let wanted = name.to_owned();
        for i in 0..self.all_users.len()
            invariant
                wanted@ == name@,
                forall|j: int| 0 <= j < i ==> self@.all[j] != name@,
        {
            if self.all_users[i] == wanted {
                assert(self@.all[i as int] == name@);
                return true;
            }
        }
        false
    }

    /// Appends a user and makes it the current one.
    pub fn add_user(&mut self, user_name: &str)
        ensures
            final(self)@ == old(self)@.with_added(user_name@),
            final(self)@.all.contains(user_name@),
            old(self)@.all.no_duplicates() && !old(self)@.all.contains(user_name@)
                ==> final(self)@.wf(),
    {
        self.all_users.push(user_name.to_owned());
        self.last_user = user_name.to_owned();
        proof {
            assert(self@.all =~= old(self)@.all.push(user_name@));
            assert(self@.all[self@.all.len() - 1] == user_name@);
            if old(self)@.all.no_duplicates() && !old(self)@.all.contains(user_name@) {
                lemma_added_stays_valid(old(self)@, user_name@);
            }
        }
    }

    /// Makes `new_current` the current user; the list of users stays as it is.
    pub fn switch_current(&mut self, new_current: String)
        ensures
            final(self)@ == old(self)@.with_current(new_current@),
    {
        self.last_user = new_current;
    }

    /// Gives the current user the name `user_name`, in the list and as the
    /// current user. The list keeps its order.
    pub fn update_current_user_after_rename(&mut self, user_name: String)
        requires
            old(self)@.all.contains(old(self)@.current),
        ensures
            final(self)@ == old(self)@.renamed(user_name@),
            old(self)@.first_at(old(self)@.current, old(self)@.place_of_current()),
            old(self)@.wf() && (user_name@ == old(self)@.current || !old(self)@.all.contains(
                user_name@,
            )) ==> final(self)@.wf(),
    {
        let mut k: usize = 0;
        while k < self.all_users.len() && self.all_users[k] != self.last_user
            invariant
                k <= self.all_users@.len(),
                *self == *old(self),
                forall|j: int| 0 <= j < k ==> self@.all[j] != self@.current,
            decreases self.all_users@.len() - k,
        {
            k += 1;
        }
        proof {
            if k == self.all_users@.len() {
                let w = choose|w: int| 0 <= w < self@.all.len() && self@.all[w] == self@.current;
                assert(false);
            }
        }
        self.all_users.set(k, user_name.clone());
        self.switch_current(user_name);
        proof {
            let before = old(self)@;
            lemma_place_of_current(before);
            assert(before.first_at(before.current, k as int));
            let c = before.place_of_current();
            if c < k {
                assert(before.all[c] != before.current);
            } else if k < c {
                assert(before.all[k as int] != before.current);
            }
            assert(self@.all =~= before.all.update(k as int, user_name@));
            if before.wf() && (user_name@ == before.current || !before.all.contains(user_name@)) {
                lemma_renamed_stays_valid(before, user_name@);
            }
        }
    }
}

} // verus!
