use std::cmp::Ordering;
use vstd::prelude::*;

verus! {

/// One hundred percent, in hundredths of a percent.
pub const MAX_PERCENT: u16 = 10_000;

/// The mathematical content of a [`Score`]: how often a cell was asked and how
/// often it was answered correctly.
pub struct Tally {
    pub tries: nat,
    pub correct: nat,
}

impl Tally {
    /// A tally that a `Score` can hold.
    pub open spec fn wf(self) -> bool {
        self.correct <= self.tries <= u16::MAX
    }

    /// The share of correct answers in hundredths of a percent, rounded down;
    /// nothing while the cell was never asked.
    pub open spec fn percentage(self) -> Option<nat> {
        if self.tries == 0 {
            None
        } else {
            Some(self.correct * 10_000 / self.tries)
        }
    }

    /// The tally after one more answer.
    pub open spec fn updated(self, is_correct: bool) -> Tally {
        Tally {
            tries: self.tries + 1,
            correct: if is_correct {
                self.correct + 1
            } else {
                self.correct
            },
        }
    }

    /// The pair under which the tally is persisted.
    pub open spec fn pair(self) -> Sdto {
        Sdto(self.tries as u16, self.correct as u16)
    }

    /// `self` is strictly worse than `other`: a cell never asked is worse than
    /// any cell that was; otherwise the lower percentage is worse, and among
    /// equal percentages the cell asked less often.
    pub open spec fn precedes(self, other: Tally) -> bool {
        match (self.percentage(), other.percentage()) {
            (None, None) => false,
            (None, Some(_)) => true,
            (Some(_), None) => false,
            (Some(p), Some(q)) => p < q || (p == q && self.tries < other.tries),
        }
    }

    /// Neither tally is worse than the other.
    pub open spec fn ties_with(self, other: Tally) -> bool {
        !self.precedes(other) && !other.precedes(self)
    }

    /// How `self` stands to `other` in the order of `precedes`.
    pub open spec fn ordering(self, other: Tally) -> Ordering {
        if self.precedes(other) {
            Ordering::Less
        } else if other.precedes(self) {
            Ordering::Greater
        } else {
            Ordering::Equal
        }
    }
}

/// A percentage as the executable code holds it, read as a number.
pub open spec fn percent_value(p: Option<u16>) -> Option<nat> {
    match p {
        Some(v) => Some(v as nat),
        None => None,
    }
}

/// The accuracy record of one cell of the table.
#[derive(Debug, Clone, Copy, PartialEq, Eq, Structural)]
pub struct Score {
    pub(crate) tries: u16,
    pub(crate) correct: u16,
    pub(crate) percentage: Option<u16>,
}

impl View for Score {
    type V = Tally;

    closed spec fn view(&self) -> Tally {
        Tally { tries: self.tries as nat, correct: self.correct as nat }
    }
}

impl Score {
    /// The percentage that the record holds.
    pub closed spec fn stored_percentage(self) -> Option<nat> {
        percent_value(self.percentage)
    }

    /// The record is consistent: no more correct answers than answers, and the
    /// stored percentage is the one its tally gives.
    pub open spec fn wf(self) -> bool {
        &&& self@.wf()
        &&& self.stored_percentage() == self@.percentage()
    }

    #[verifier::type_invariant]
    closed spec fn inv(self) -> bool {
        self.wf()
    }

    /// Every record that executable code holds is consistent.
    pub fn check_wf(&self)
        ensures
            self.wf(),
    {
        proof {
            use_type_invariant(self);
        }
    }

    /// The share of correct answers in hundredths of a percent; nothing while
    /// the cell was never asked.
    pub fn get_percentage(&self) -> (p: Option<u16>)
        ensures
            percent_value(p) == self@.percentage(),
    {
        proof {
            use_type_invariant(self);
        }
        self.percentage
    }

    /// How often the cell was asked.
    pub fn tries(&self) -> (n: u16)
        ensures
            n == self@.tries,
    {
        self.tries
    }

    /// How often the cell was answered correctly.
    pub fn correct(&self) -> (n: u16)
        ensures
            n == self@.correct,
    {
        self.correct
    }

    /// The share of `correct` in `tries`, in hundredths of a percent and rounded
    /// down; nothing for no tries.
    pub fn calc_percentage(correct: u16, tries: u16) -> (p: Option<u16>)
        requires
            correct <= tries,
        ensures
            percent_value(p) == (Tally { tries: tries as nat, correct: correct as nat }).percentage(),
            p matches Some(v) ==> v <= MAX_PERCENT,
    {
        if tries != 0 {
            let scaled: u32 = (correct as u32) * (MAX_PERCENT as u32);
            let share: u32 = scaled / (tries as u32);
            assert(share <= 10_000) by (nonlinear_arith)
                requires
                    share == scaled / (tries as u32),
                    scaled == correct * 10_000,
                    correct <= tries,
                    tries > 0,
            ;
            Some(share as u16)
        } else {
            None
        }
    }

    /// Counts one more answer.
    pub fn update(&mut self, is_correct: bool)
        requires
            old(self)@.tries < u16::MAX,
        ensures
            final(self)@ == old(self)@.updated(is_correct),
            final(self)@.tries == old(self)@.tries + 1,
            final(self)@.correct == old(self)@.correct + (if is_correct { 1nat } else { 0nat }),
            final(self).wf(),
    {
        proof {
            use_type_invariant(&*self);
        }
        let tries: u16 = self.tries + 1;
        let correct: u16 = if is_correct {
            self.correct + 1
        } else {
            self.correct
        };
        *self = Score { tries, correct, percentage: Self::calc_percentage(correct, tries) };
    }

    /// The record of a cell that was asked `tries` times and answered correctly
    /// `correct` times.
    pub fn new(tries: u16, correct: u16) -> (s: Self)
        requires
            correct <= tries,
        ensures
            s@ == (Tally { tries: tries as nat, correct: correct as nat }),
            s.wf(),
            tries > 0 ==> s.stored_percentage() == Some(correct as nat * 10_000 / tries as nat),
            tries == 0 ==> s.stored_percentage().is_none(),
    {
        Score { tries, correct, percentage: Self::calc_percentage(correct, tries) }
    }

    /// The record that holds the persisted pair, if the pair can belong to a
    /// record at all.
    pub fn from_sdto(value: &Sdto) -> (s: Option<Self>)
        ensures
            s.is_some() == value.tally().wf(),
            s matches Some(score) ==> score.wf() && score@ == value.tally(),
    {
        if value.1 <= value.0 {
            Some(Self::new(value.0, value.1))
        } else {
            None
        }
    }
}

impl Default for Score {
    fn default() -> (s: Self)
        ensures
            s@ == (Tally { tries: 0, correct: 0 }),
            s.wf(),
    {
        Self::new(0, 0)
    }
}

/// The pair `(tries, correct)` under which a score is persisted. The
/// percentage is left out: it is recomputed whenever a pair is read back.
#[derive(Debug, Clone, Copy, PartialEq, Eq, Structural)]
pub struct Sdto(pub u16, pub u16);

impl Sdto {
    /// The tally that the pair stands for.
    pub open spec fn tally(self) -> Tally {
        Tally { tries: self.0 as nat, correct: self.1 as nat }
    }
}

impl From<&Score> for Sdto {
    fn from(val: &Score) -> (pair: Sdto) {
        Sdto(val.tries, val.correct)
    }
}

impl vstd::std_specs::convert::FromSpecImpl<&Score> for Sdto {
    open spec fn obeys_from_spec() -> bool {
        true
    }

    open spec fn from_spec(val: &Score) -> Sdto {
        val@.pair()
    }
}

impl Score {
    /// How `self` stands to `other`: worse scores are less.
    pub fn cmp(&self, other: &Self) -> (o: Ordering)
        ensures
            o == self@.ordering(other@),
    {
        match (self.get_percentage(), other.get_percentage()) {
            (None, None) => Ordering::Equal,
            (None, Some(_)) => Ordering::Less,
            (Some(_), None) => Ordering::Greater,
            (Some(ours), Some(theirs)) => {
                if ours < theirs {
                    Ordering::Less
                } else if ours > theirs {
                    Ordering::Greater
                } else if self.tries < other.tries {
                    Ordering::Less
                } else if self.tries > other.tries {
                    Ordering::Greater
                } else {
                    Ordering::Equal
                }
            },
        }
    }

    /// Whether `self` is strictly worse than `other`.
    pub fn is_worse_than(&self, other: &Self) -> (b: bool)
        ensures
            b == self@.precedes(other@),
    {
        match (self.get_percentage(), other.get_percentage()) {
            (None, None) => false,
            (None, Some(_)) => true,
            (Some(_), None) => false,
            (Some(ours), Some(theirs)) => ours < theirs || (ours == theirs && self.tries < other.tries),
        }
    }
}

impl PartialOrd for Score {
    fn partial_cmp(&self, other: &Self) -> (o: Option<Ordering>) {
        Some(self.cmp(other))
    }
}

impl vstd::std_specs::cmp::PartialOrdSpecImpl for Score {
    open spec fn obeys_partial_cmp_spec() -> bool {
        true
    }

    open spec fn partial_cmp_spec(&self, other: &Score) -> Option<Ordering> {
        Some(self@.ordering(other@))
    }
}

/// Reading a persisted pair and persisting it again gives the same pair; and
/// persisting a consistent tally and reading it back gives the same tally.
pub proof fn lemma_persisting_loses_nothing(p: Sdto, t: Tally)
    ensures
        p.tally().pair() == p,
        t.wf() ==> t.pair().tally() == t,
{
}

/// Two consistent records with the same tally are the same record.
pub proof fn lemma_tally_determines_score(a: Score, b: Score)
    requires
        a.wf(),
        b.wf(),
        a@ == b@,
    ensures
        a == b,
{
}

/// The percentage of a consistent tally lies between nothing and one hundred
/// percent.
pub proof fn lemma_percentage_bounded(t: Tally)
    requires
        t.wf(),
    ensures
        t.percentage() matches Some(p) ==> p <= MAX_PERCENT,
{
    if t.tries > 0 {
        assert(t.correct * 10_000 / t.tries <= 10_000) by (nonlinear_arith)
            requires
                t.correct <= t.tries,
                t.tries > 0,
        ;
    }
}

/// A cell that was never asked has no percentage, and is strictly worse than
/// every cell that was asked.
pub proof fn lemma_unasked_is_worst(a: Tally, b: Tally)
    requires
        a.tries == 0,
        b.tries > 0,
    ensures
        a.percentage().is_none(),
        a.precedes(b),
        !b.precedes(a),
        a.ordering(b) == Ordering::Less,
{
}

/// One more answer raises `tries` by exactly one and `correct` by one or not
/// at all, and keeps a consistent tally consistent as long as `tries` fits.
pub proof fn lemma_update_monotonic(t: Tally, is_correct: bool)
    requires
        t.wf(),
        t.tries < u16::MAX,
    ensures
        t.updated(is_correct).tries == t.tries + 1,
        t.updated(is_correct).correct == t.correct || t.updated(is_correct).correct == t.correct
            + 1,
        t.updated(is_correct).correct == t.correct + 1 <==> is_correct,
        t.updated(is_correct).wf(),
        t.updated(is_correct).percentage() == Some(
            t.updated(is_correct).correct * 10_000 / (t.tries + 1),
        ),
{
}

/// `precedes` is a strict weak order: nothing precedes itself, it is
/// transitive, and so is "does not precede".
pub proof fn lemma_precedes_is_strict_weak_order(a: Tally, b: Tally, c: Tally)
    ensures
        !a.precedes(a),
        a.precedes(b) ==> !b.precedes(a),
        a.precedes(b) && b.precedes(c) ==> a.precedes(c),
        !a.precedes(b) && !b.precedes(c) ==> !a.precedes(c),
{
}

} // verus!
