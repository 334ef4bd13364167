use super::consts::CELL_N;
use super::score::{Score, Sdto, Tally};
use crate::helpers::{get_file_path, make_nxn_mat, RECORD_SUFFIX};
use std::cmp::Ordering;
use vstd::prelude::*;

verus! {

/// What a [`User`] holds: a name and one tally for each cell of the table,
/// `scores[x][y]` being the tally of the cell in row `x + 1`, column `y + 1`.
pub struct UserView {
    pub name: Seq<char>,
    pub scores: Seq<Seq<Tally>>,
}

impl UserView {
    /// The table is `CELL_N` by `CELL_N`.
    pub open spec fn wf(self) -> bool {
        &&& self.scores.len() == CELL_N
        &&& forall|x: int| 0 <= x < CELL_N ==> (#[trigger] self.scores[x]).len() == CELL_N
    }

    /// The pairs under which the scores are persisted, cell by cell.
    pub open spec fn saved(self) -> Seq<Seq<Sdto>> {
        Seq::new(
            CELL_N as nat,
            |x: int| Seq::new(CELL_N as nat, |y: int| self.scores[x][y].pair()),
        )
    }

    /// The user that a persisted name and table of pairs stand for.
    pub open spec fn loaded(name: Seq<char>, pairs: Seq<Seq<Sdto>>) -> UserView {
        UserView {
            name,
            scores: Seq::new(
                CELL_N as nat,
                |x: int| Seq::new(CELL_N as nat, |y: int| pairs[x][y].tally()),
            ),
        }
    }

    /// Every tally of the table is one that a score can hold.
    pub open spec fn holds_scores(self) -> bool {
        forall|x: int, y: int|
            0 <= x < CELL_N && 0 <= y < CELL_N ==> (#[trigger] self.scores[x][y]).wf()
    }

    /// The same scores under another name.
    pub open spec fn with_name(self, name: Seq<char>) -> UserView {
        UserView { name, scores: self.scores }
    }

    /// The same user with the tally of one cell replaced.
    pub open spec fn with_score(self, x: int, y: int, t: Tally) -> UserView {
        UserView { name: self.name, scores: self.scores.update(x, self.scores[x].update(y, t)) }
    }
}

/// A table of persisted pairs, row by row.
pub open spec fn pairs_of(pairs: [[Sdto; CELL_N]; CELL_N]) -> Seq<Seq<Sdto>> {
    Seq::new(CELL_N as nat, |x: int| Seq::new(CELL_N as nat, |y: int| pairs[x][y]))
}

/// Every pair of the table can belong to a score.
pub open spec fn all_pairs_valid(pairs: Seq<Seq<Sdto>>) -> bool {
    forall|x: int, y: int|
        0 <= x < CELL_N && 0 <= y < CELL_N ==> (#[trigger] pairs[x][y]).tally().wf()
}

/// Loading and saving lose nothing. A table of pairs that is loaded and at
/// once saved again comes out pair for pair as it went in; and a user whose
/// scores are saved and loaded again is the same user.
pub proof fn lemma_load_and_save_are_inverse(name: Seq<char>, pairs: Seq<Seq<Sdto>>, user: UserView)
    requires
        pairs.len() == CELL_N,
        forall|x: int| 0 <= x < CELL_N ==> (#[trigger] pairs[x]).len() == CELL_N,
        user.wf(),
        user.holds_scores(),
    ensures
        UserView::loaded(name, pairs).saved() == pairs,
        UserView::loaded(name, pairs).name == name,
        UserView::loaded(user.name, user.saved()) == user,
{
    let again = UserView::loaded(name, pairs).saved();
    assert forall|x: int| 0 <= x < CELL_N implies #[trigger] again[x] =~= pairs[x] by {
        assert forall|y: int| 0 <= y < CELL_N implies #[trigger] again[x][y] == pairs[x][y] by {
            crate::data::score::lemma_persisting_loses_nothing(pairs[x][y], pairs[x][y].tally());
        }
    }
    assert(again =~= pairs);
    let back = UserView::loaded(user.name, user.saved());
    assert forall|x: int| 0 <= x < CELL_N implies #[trigger] back.scores[x] =~= user.scores[x] by {
        assert forall|y: int| 0 <= y < CELL_N implies #[trigger] back.scores[x][y]
            == user.scores[x][y] by {
            assert(user.scores[x][y].wf());
            crate::data::score::lemma_persisting_loses_nothing(
                user.scores[x][y].pair(),
                user.scores[x][y],
            );
        }
    }
    assert(back.scores =~= user.scores);
}

/// A named user and the scores of every cell of the table.
#[derive(Debug)]
pub struct User {
    name: String,
    scores: [[Score; CELL_N]; CELL_N],
}

impl View for User {
    type V = UserView;

    closed spec fn view(&self) -> UserView {
        UserView {
            name: self.name@,
            scores: Seq::new(
                CELL_N as nat,
                |x: int| Seq::new(CELL_N as nat, |y: int| self.scores[x][y]@),
            ),
        }
    }
}

impl User {
    /// The table of every user is `CELL_N` by `CELL_N`.
    pub broadcast proof fn lemma_view_wf(self)
        ensures
            #[trigger] self@.wf(),
    {
    }

    /// A user of that name who was never asked anything.
    pub fn new(name: &str) -> (user: Self)
        ensures
            user@.name == name@,
            user@.wf(),
            forall|x: int, y: int|
                0 <= x < CELL_N && 0 <= y < CELL_N ==> #[trigger] user@.scores[x][y] == (Tally {
                    tries: 0,
                    correct: 0,
                }),
    {
        let scores: [[Score; CELL_N]; CELL_N] = make_nxn_mat();
        User { name: name.to_owned(), scores }
    }

    /// The score of the cell in row `x + 1`, column `y + 1`.
    pub fn get_score(&self, x: usize, y: usize) -> (s: Score)
        requires
            x < CELL_N,
            y < CELL_N,
        ensures
            s@ == self@.scores[x as int][y as int],
            s.wf(),
    {
        let s = self.scores[x][y];
        s.check_wf();
        s
    }

    /// The score of the cell in row `x + 1`, column `y + 1`, to be changed in
    /// place.
    pub fn get_mut_score(&mut self, x: usize, y: usize) -> (s: Option<&mut Score>)
        requires
            x < CELL_N,
            y < CELL_N,
        ensures
            s.is_some(),
            old(self)@.wf(),
            final(self)@.wf(),
            (*s.unwrap())@ == old(self)@.scores[x as int][y as int],
            (*s.unwrap()).wf(),
            final(self)@.name == old(self)@.name,
            final(self)@.scores[x as int][y as int] == (*final(s.unwrap()))@,
            forall|i: int, j: int|
                0 <= i < CELL_N && 0 <= j < CELL_N && !(i == x && j == y)
                    ==> final(self)@.scores[i][j] == old(self)@.scores[i][j],
    {
        self.scores[x][y].check_wf();
        Some(&mut self.scores[x][y])
    }

    /// The score of the cell in row `x + 1`, column `y + 1`, if the table has
    /// such a cell.
    pub fn get_opt_score(&self, x: usize, y: usize) -> (s: Option<Score>)
        ensures
            s.is_some() == (x < CELL_N && y < CELL_N),
            s matches Some(score) ==> score@ == self@.scores[x as int][y as int] && score.wf(),
    {
        if x < CELL_N && y < CELL_N {
            Some(self.get_score(x, y))
        } else {
            None
        }
    }

    /// The name of the user.
    pub fn name(&self) -> (name: &str)
        ensures
            name@ == self@.name,
    {
        self.name.as_str()
    }

    /// Gives the user a new name and returns the old one.
    pub fn set_name(&mut self, new_name: String) -> (old_name: String)
        ensures
            final(self)@ == old(self)@.with_name(new_name@),
            old_name@ == old(self)@.name,
    {
        let mut name = new_name;
        std::mem::swap(&mut self.name, &mut name);
        name
    }

    /// A walk over the scores, row by row, each with its cell.
    pub fn iter(&self) -> (it: ScoresIter<'_>)
        ensures
            it.position() == 0,
            it.user() == *self,
    {
        ScoresIter { index_x: 0, index_y: 0, user: self }
    }

    /// The name of the file that holds the record of the user called `name`.
    pub fn get_user_path(name: &str) -> (path: String)
        ensures
            path@ == name@ + RECORD_SUFFIX@,
    {
        get_file_path(name)
    }

    /// The pairs under which the scores are persisted, cell by cell.
    pub fn saved_scores(&self) -> (pairs: [[Sdto; CELL_N]; CELL_N])
        ensures
            pairs_of(pairs) == self@.saved(),
            all_pairs_valid(pairs_of(pairs)),
            self@.holds_scores(),
    {
        let mut pairs: [[Sdto; CELL_N]; CELL_N] = [[Sdto(0, 0); CELL_N]; CELL_N];
        for x in 0..CELL_N
            invariant
                forall|i: int, j: int|
                    0 <= i < x && 0 <= j < CELL_N ==> {
                        &&& (#[trigger] pairs[i][j]).tally() == self@.scores[i][j]
                        &&& pairs[i][j].tally().wf()
                    },
        {
            for y in 0..CELL_N
                invariant
                    0 <= x < CELL_N,
                    forall|i: int, j: int|
                        0 <= i < x && 0 <= j < CELL_N ==> {
                            &&& (#[trigger] pairs[i][j]).tally() == self@.scores[i][j]
                            &&& pairs[i][j].tally().wf()
                        },
                    forall|j: int|
                        0 <= j < y ==> {
                            &&& (#[trigger] pairs[x as int][j]).tally() == self@.scores[x as int][j]
                            &&& pairs[x as int][j].tally().wf()
                        },
            {
                let score = self.get_score(x, y);
                pairs[x][y] = Sdto(score.tries(), score.correct());
            }
        }
        proof {
            let saved = self@.saved();
            assert forall|x: int| 0 <= x < CELL_N implies #[trigger] pairs_of(pairs)[x]
                =~= saved[x] by {
                assert forall|y: int| 0 <= y < CELL_N implies #[trigger] pairs_of(pairs)[x][y]
                    == saved[x][y] by {
                    crate::data::score::lemma_persisting_loses_nothing(
                        pairs[x][y],
                        pairs[x][y].tally(),
                    );
                }
            }
            assert(pairs_of(pairs) =~= saved);
            assert forall|x: int, y: int| 0 <= x < CELL_N && 0 <= y < CELL_N implies (
            #[trigger] self@.scores[x][y]).wf() by {
                assert(pairs[x][y].tally().wf());
            }
        }
        pairs
    }

    /// The user that a persisted name and table of pairs stand for, if every
    /// pair can belong to a score.
    pub fn from_saved(name: String, pairs: &[[Sdto; CELL_N]; CELL_N]) -> (user: Option<Self>)
        ensures
            user.is_some() == all_pairs_valid(pairs_of(*pairs)),
            user matches Some(u) ==> u@ == UserView::loaded(name@, pairs_of(*pairs)) && u@.wf()
                && u@.holds_scores(),
    {
        let mut scores: [[Score; CELL_N]; CELL_N] = make_nxn_mat();
        for x in 0..CELL_N
            invariant
                forall|i: int, j: int|
                    0 <= i < x && 0 <= j < CELL_N ==> {
                        &&& (#[trigger] pairs[i][j]).tally().wf()
                        &&& scores[i][j]@ == pairs[i][j].tally()
                    },
        {
            for y in 0..CELL_N
                invariant
                    0 <= x < CELL_N,
                    forall|i: int, j: int|
                        0 <= i < x && 0 <= j < CELL_N ==> {
                            &&& (#[trigger] pairs[i][j]).tally().wf()
                            &&& scores[i][j]@ == pairs[i][j].tally()
                        },
                    forall|j: int|
                        0 <= j < y ==> {
                            &&& (#[trigger] pairs[x as int][j]).tally().wf()
                            &&& scores[x as int][j]@ == pairs[x as int][j].tally()
                        },
            {
                match Score::from_sdto(&pairs[x][y]) {
                    Some(score) => {
                        scores[x][y] = score;
                    },
                    None => {
                        assert(!pairs_of(*pairs)[x as int][y as int].tally().wf());
                        return None;
                    },
                }
            }
        }
        let user = User { name, scores };
        proof {
            let want = UserView::loaded(name@, pairs_of(*pairs));
            assert forall|x: int| 0 <= x < CELL_N implies #[trigger] user@.scores[x]
                =~= want.scores[x] by {
                assert forall|y: int| 0 <= y < CELL_N implies #[trigger] user@.scores[x][y]
                    == want.scores[x][y] by {
                    assert(pairs[x][y].tally().wf());
                }
            }
            assert(user@.scores =~= want.scores);
            assert forall|x: int, y: int| 0 <= x < CELL_N && 0 <= y < CELL_N implies (
            #[trigger] pairs_of(*pairs)[x][y]).tally().wf() by {
                assert(pairs[x][y].tally().wf());
            }
            assert forall|x: int, y: int| 0 <= x < CELL_N && 0 <= y < CELL_N implies (
            #[trigger] user@.scores[x][y]).wf() by {
                assert(pairs[x][y].tally().wf());
            }
        }
        Some(user)
    }
}

impl Clone for User {
    fn clone(&self) -> (copy: Self)
        ensures
            copy == *self,
    {
        User { name: self.name.clone(), scores: self.scores }
    }
}

/// A score together with its cell: the row and the column, both counted from
/// one.
#[derive(Debug, Clone, Copy, PartialEq, Eq, Structural)]
pub struct ScoreWithEq(pub usize, pub usize, pub Score);

impl ScoreWithEq {
    /// The entry is the one that a walk over the scores of `user` yields at
    /// place `p`.
    pub open spec fn is_entry(self, user: UserView, p: int) -> bool {
        &&& self.0 == p / (CELL_N as int) + 1
        &&& self.1 == p % (CELL_N as int) + 1
        &&& self.2@ == user.scores[p / (CELL_N as int)][p % (CELL_N as int)]
        &&& self.2.wf()
    }

    /// The cell lies in the table.
    pub open spec fn in_table(self) -> bool {
        1 <= self.0 <= CELL_N && 1 <= self.1 <= CELL_N
    }

    /// The cell of the entry, as the operands of a question.
    pub open spec fn operands(self) -> (u32, u32) {
        (self.0 as u32, self.1 as u32)
    }
}

impl ScoreWithEq {
    /// How `self` stands to `other`: an entry equals itself, and apart from
    /// that entries stand as their scores do.
    pub open spec fn ordering(self, other: ScoreWithEq) -> Ordering {
        if self == other {
            Ordering::Equal
        } else {
            self.2@.ordering(other.2@)
        }
    }

    /// How `self` stands to `other`: worse scores are less.
    pub fn cmp(&self, other: &Self) -> (o: Ordering)
        ensures
            o == self.ordering(*other),
    {
        if *self == *other {
            Ordering::Equal
        } else {
            self.2.cmp(&other.2)
        }
    }
}

impl PartialOrd for ScoreWithEq {
    fn partial_cmp(&self, other: &Self) -> (o: Option<Ordering>) {
        Some(self.cmp(other))
    }
}

impl vstd::std_specs::cmp::PartialOrdSpecImpl for ScoreWithEq {
    open spec fn obeys_partial_cmp_spec() -> bool {
        true
    }

    open spec fn partial_cmp_spec(&self, other: &ScoreWithEq) -> Option<Ordering> {
        Some(self.ordering(*other))
    }
}

impl From<ScoreWithEq> for (u32, u32) {
    fn from(value: ScoreWithEq) -> (cell: (u32, u32)) {
        (
            #[verifier::truncate]
            (value.0 as u32),
            #[verifier::truncate]
            (value.1 as u32),
        )
    }
}

impl vstd::std_specs::convert::FromSpecImpl<ScoreWithEq> for (u32, u32) {
    open spec fn obeys_from_spec() -> bool {
        true
    }

    open spec fn from_spec(value: ScoreWithEq) -> (u32, u32) {
        value.operands()
    }
}

/// A walk over the scores of a user, row by row.
pub struct ScoresIter<'user> {
    index_x: usize,
    index_y: usize,
    user: &'user User,
}

impl<'user> ScoresIter<'user> {
    /// How many entries the walk has yielded.
    pub closed spec fn position(&self) -> nat {
        (self.index_x * CELL_N + self.index_y) as nat
    }

    /// The user whose scores are walked.
    pub closed spec fn user(&self) -> User {
        *self.user
    }

    #[verifier::type_invariant]
    closed spec fn inv(&self) -> bool {
        &&& self.index_x <= CELL_N
        &&& self.index_y < CELL_N
        &&& self.index_x == CELL_N ==> self.index_y == 0
    }

    /// The next entry of the walk, until all `CELL_N * CELL_N` have been
    /// yielded.
    pub fn next(&mut self) -> (item: Option<ScoreWithEq>)
        ensures
            final(self).user() == old(self).user(),
            old(self).position() <= CELL_N * CELL_N,
            item.is_some() == (old(self).position() < CELL_N * CELL_N),
            item matches Some(entry) ==> {
                &&& entry.is_entry(old(self).user()@, old(self).position() as int)
                &&& entry.in_table()
                &&& final(self).position() == old(self).position() + 1
            },
            item.is_none() ==> final(self).position() == old(self).position(),
    {
        proof {
            use_type_invariant(&*self);
        }
        if self.index_x >= CELL_N {
            return None;
        }
        let score = self.user.get_score(self.index_x, self.index_y);
        let entry = ScoreWithEq(self.index_x + 1, self.index_y + 1, score);
        if self.index_y == CELL_N - 1 {
            self.index_y = 0;
            self.index_x += 1;
        } else {
            self.index_y += 1;
        }
        Some(entry)
    }

    /// Every entry that the walk has yet to yield, in its order.
    pub fn collect(self) -> (entries: Vec<ScoreWithEq>)
        ensures
            entries@.len() == CELL_N * CELL_N - self.position(),
            forall|k: int|
                0 <= k < entries@.len() ==> {
                    &&& (#[trigger] entries@[k]).is_entry(self.user()@, self.position() + k)
                    &&& entries@[k].in_table()
                },
    {
        let mut walk = self;
        let mut entries: Vec<ScoreWithEq> = Vec::new();
        proof {
            use_type_invariant(&walk);
        }
        loop
            invariant
                walk.user() == self.user(),
                walk.position() == self.position() + entries@.len(),
                walk.position() <= CELL_N * CELL_N,
                forall|k: int|
                    0 <= k < entries@.len() ==> {
                        &&& (#[trigger] entries@[k]).is_entry(self.user()@, self.position() + k)
                        &&& entries@[k].in_table()
                    },
            ensures
                walk.position() == CELL_N * CELL_N,
            decreases CELL_N * CELL_N - walk.position(),
        {
            match walk.next() {
                Some(entry) => {
                    entries.push(entry);
                },
                None => {
                    break ;
                },
            }
        }
        entries
    }
}

} // verus!
