//! Which cells a round asks, and in which order: the worst scores first, and
//! among equal scores the order of a shuffle.

use crate::data::consts::CELL_N;
use crate::data::score::Tally;
use crate::data::user::{ScoreWithEq, User, UserView};
use rand::seq::SliceRandom;
use rand::thread_rng;
use vstd::prelude::*;

verus! {

/// `sorted` with `e` put in behind every entry that it is not strictly worse
/// than: behind the entries that tie with it, before the better ones.
pub open spec fn insert_worst_first(sorted: Seq<ScoreWithEq>, e: ScoreWithEq) -> Seq<ScoreWithEq>
    decreases sorted.len(),
{
    if sorted.len() == 0 {
        seq![e]
    } else if e.2@.precedes(sorted.last().2@) {
        insert_worst_first(sorted.drop_last(), e).push(sorted.last())
    } else {
        sorted.push(e)
    }
}

/// The entries of `s` in ascending order of their scores, entries with tying
/// scores in the order in which they stand in `s`.
pub open spec fn worst_first(s: Seq<ScoreWithEq>) -> Seq<ScoreWithEq>
    decreases s.len(),
{
    if s.len() == 0 {
        s
    } else {
        insert_worst_first(worst_first(s.drop_last()), s.last())
    }
}

/// The queue of a round of `size` questions over the shuffled entries: the
/// `size` worst of them, or all if there are no more.
pub open spec fn selection(shuffled: Seq<ScoreWithEq>, size: nat) -> Seq<ScoreWithEq> {
    if size < shuffled.len() {
        worst_first(shuffled).take(size as int)
    } else {
        worst_first(shuffled)
    }
}

/// No entry is strictly worse than one that stands before it.
pub open spec fn is_worst_first(s: Seq<ScoreWithEq>) -> bool {
    forall|i: int, j: int| 0 <= i < j < s.len() ==> !s[j].2@.precedes(s[i].2@)
}

/// The entries whose scores tie with `t`.
pub open spec fn tying(t: Tally) -> spec_fn(ScoreWithEq) -> bool {
    |e: ScoreWithEq| e.2@.ties_with(t)
}

/// No two entries of `s` speak of the same cell.
pub open spec fn distinct_cells(s: Seq<ScoreWithEq>) -> bool {
    forall|i: int, j: int|
        0 <= i < j < s.len() ==> !(s[i].0 == s[j].0 && s[i].1 == s[j].1)
}

/// Every entry speaks of a cell of the table, and no two of the same cell.
pub open spec fn cells_once(s: Seq<ScoreWithEq>) -> bool {
    &&& distinct_cells(s)
    &&& forall|k: int| 0 <= k < s.len() ==> (#[trigger] s[k]).in_table()
}

/// Where `insert_worst_first` puts the entry.
pub proof fn lemma_insert_place(sorted: Seq<ScoreWithEq>, e: ScoreWithEq) -> (place: int)
    ensures
        0 <= place <= sorted.len(),
        insert_worst_first(sorted, e) == sorted.insert(place, e),
        forall|k: int| place <= k < sorted.len() ==> e.2@.precedes(sorted[k].2@),
        place > 0 ==> !e.2@.precedes(sorted[place - 1].2@),
    decreases sorted.len(),
{
    if sorted.len() == 0 {
        assert(seq![e] =~= sorted.insert(0, e));
        0
    } else if e.2@.precedes(sorted.last().2@) {
        let place = lemma_insert_place(sorted.drop_last(), e);
        assert(sorted.drop_last().insert(place, e).push(sorted.last()) =~= sorted.insert(place, e));
        assert forall|k: int| place <= k < sorted.len() implies e.2@.precedes(sorted[k].2@) by {
            if k < sorted.len() - 1 {
                assert(sorted[k] == sorted.drop_last()[k]);
            }
        }
        if place > 0 {
            assert(sorted[place - 1] == sorted.drop_last()[place - 1]);
        }
        place
    } else {
        assert(sorted.push(e) =~= sorted.insert(sorted.len() as int, e));
        sorted.len() as int
    }
}

/// Sorting neither adds an entry nor loses one.
pub proof fn lemma_worst_first_is_permutation(s: Seq<ScoreWithEq>)
    ensures
        worst_first(s).len() == s.len(),
        worst_first(s).to_multiset() == s.to_multiset(),
    decreases s.len(),
{
    if s.len() > 0 {
        lemma_worst_first_is_permutation(s.drop_last());
        let rest = worst_first(s.drop_last());
        let place = lemma_insert_place(rest, s.last());
        vstd::seq_lib::to_multiset_insert(rest, place, s.last());
        vstd::seq_lib::to_multiset_build(s.drop_last(), s.last());
        assert(s.drop_last().push(s.last()) =~= s);
    }
}

/// Sorting puts the entries in ascending order of their scores.
pub proof fn lemma_worst_first_is_sorted(s: Seq<ScoreWithEq>)
    ensures
        is_worst_first(worst_first(s)),
    decreases s.len(),
{
    if s.len() > 0 {
        lemma_worst_first_is_sorted(s.drop_last());
        let rest = worst_first(s.drop_last());
        let e = s.last();
        let place = lemma_insert_place(rest, e);
        let out = rest.insert(place, e);
        assert forall|i: int, j: int| 0 <= i < j < out.len() implies !out[j].2@.precedes(
            out[i].2@,
        ) by {
            if j == place {
                // out[i] stands before the place: it is no better than rest[place - 1]
                assert(out[i] == rest[i]);
                if i < place - 1 {
                    assert(!rest[place - 1].2@.precedes(rest[i].2@));
                }
            } else if i == place {
                assert(out[j] == rest[j - 1]);
            } else {
                let ri = if i < place { i } else { i - 1 };
                let rj = if j < place { j } else { j - 1 };
                assert(out[i] == rest[ri]);
                assert(out[j] == rest[rj]);
            }
        }
    }
}

/// Sorting is stable: the entries whose scores tie with `t` stand in the
/// result in the same order as in `s`.
pub proof fn lemma_worst_first_is_stable(s: Seq<ScoreWithEq>, t: Tally)
    ensures
        worst_first(s).filter(tying(t)) == s.filter(tying(t)),
    decreases s.len(),
{
    if s.len() > 0 {
        lemma_worst_first_is_stable(s.drop_last(), t);
        let rest = worst_first(s.drop_last());
        let e = s.last();
        let place = lemma_insert_place(rest, e);
        let head = rest.take(place);
        let tail = rest.skip(place);
        assert(rest.insert(place, e) =~= head.push(e) + tail);
        assert(rest =~= head + tail);
        Seq::filter_distributes_over_add(head.push(e), tail, tying(t));
        Seq::filter_distributes_over_add(head, tail, tying(t));
        head.lemma_filter_push(e, tying(t));
        s.drop_last().lemma_filter_push(e, tying(t));
        assert(s.drop_last().push(e) =~= s);
        if tying(t)(e) {
            assert forall|k: int| 0 <= k < tail.len() implies !tying(t)(tail[k]) by {
                assert(tail[k] == rest[place + k]);
                assert(e.2@.precedes(tail[k].2@));
            }
            tail.lemma_all_neg_filter_empty(tying(t));
            assert(tail.filter(tying(t)) =~= Seq::<ScoreWithEq>::empty());
            assert(head.filter(tying(t)).push(e) + tail.filter(tying(t)) =~= (head.filter(tying(t))
                + tail.filter(tying(t))).push(e));
        }
    }
}

/// Puts the entries in ascending order of their scores, entries with tying
/// scores in the order in which they stood.
pub fn sort_worst_first(entries: &mut Vec<ScoreWithEq>)
    ensures
        final(entries)@ == worst_first(old(entries)@),
{
    let ghost orig = entries@;
    let n = entries.len();
    let mut i: usize = 0;
    assert(entries@.take(0) =~= worst_first(orig.take(0)));
    while i < n
        invariant
            n == orig.len(),
            entries@.len() == n,
            i <= n,
            entries@.take(i as int) == worst_first(orig.take(i as int)),
            entries@.skip(i as int) == orig.skip(i as int),
        decreases n - i,
    {
        let e = entries[i];
        let ghost prefix = entries@.take(i as int);
        let mut j: usize = i;
        assert(prefix.take(j as int) =~= prefix);
        assert(insert_worst_first(prefix.take(j as int), e) + prefix.skip(j as int)
            =~= insert_worst_first(prefix, e));
        while j > 0 && e.2.is_worse_than(&entries[j - 1].2)
            invariant
                j <= i < n,
                entries@.len() == n,
                prefix == entries@.take(i as int),
                insert_worst_first(prefix, e) == insert_worst_first(prefix.take(j as int), e)
                    + prefix.skip(j as int),
            decreases j,
        {
            proof {
                let front = prefix.take(j as int);
                assert(front.last() == entries@[j - 1]);
                assert(front.drop_last() =~= prefix.take(j - 1));
                assert(insert_worst_first(prefix.take(j - 1), e).push(front.last()) + prefix.skip(
                    j as int,
                ) =~= insert_worst_first(prefix.take(j - 1), e) + prefix.skip(j - 1));
            }
            j -= 1;
        }
        proof {
            let front = prefix.take(j as int);
            if j > 0 {
                assert(front.last() == entries@[j - 1]);
            }
            assert(insert_worst_first(front, e) =~= front.push(e));
            assert(front.push(e) + prefix.skip(j as int) =~= prefix.insert(j as int, e));
            assert(orig.take(i + 1).drop_last() =~= orig.take(i as int));
            assert(orig.take(i + 1).last() == e) by {
                assert(entries@.skip(i as int)[0] == orig.skip(i as int)[0]);
            }
        }
        let moved = entries.remove(i);
        entries.insert(j, moved);
        proof {
            assert(entries@.take(i + 1) =~= prefix.insert(j as int, e));
            let after = entries@.skip(i + 1);
            let wanted = orig.skip(i + 1);
            assert forall|k: int| 0 <= k < after.len() implies #[trigger] after[k] == wanted[k] by {
                assert(orig.skip(i as int)[k + 1] == orig[i + 1 + k]);
            }
            assert(after =~= wanted);
        }
        i += 1;
    }
    assert(entries@.take(n as int) =~= entries@);
    assert(orig.take(n as int) =~= orig);
}

/// The queue of a round of `size` questions: the `size` worst of the shuffled
/// entries, worst first, entries with tying scores in the order of the
/// shuffle.
pub fn select_cells(shuffled: Vec<ScoreWithEq>, size: usize) -> (queue: Vec<ScoreWithEq>)
    ensures
        queue@ == selection(shuffled@, size as nat),
{
    let mut queue = shuffled;
    sort_worst_first(&mut queue);
    proof {
        lemma_worst_first_is_permutation(shuffled@);
    }
    queue.truncate(size);
    queue
}

/// Shuffles the entries with `SliceRandom::shuffle` of the crate `rand`, on
/// the generator of the thread. Which order comes out is left open: the
/// shuffle only swaps entries, so the same entries are there afterwards, each
/// as often as before.
#[verifier::external_body]
fn shuffle_entries(entries: &mut Vec<ScoreWithEq>)
    ensures
        final(entries)@.to_multiset() == old(entries)@.to_multiset(),
{
    entries.shuffle(&mut thread_rng());
}

/// `entries` holds the score of every cell of the table of `user` exactly
/// once, each with its cell, in some order.
pub open spec fn holds_every_score(entries: Seq<ScoreWithEq>, user: UserView) -> bool {
    &&& entries.len() == CELL_N * CELL_N
    &&& holds_scores_of(entries, user)
    &&& forall|row: int, col: int|
        1 <= row <= CELL_N && 1 <= col <= CELL_N ==> #[trigger] has_cell(entries, row, col)
}

/// Some entry speaks of the cell in that row and column.
pub open spec fn has_cell(entries: Seq<ScoreWithEq>, row: int, col: int) -> bool {
    exists|k: int| 0 <= k < entries.len() && #[trigger] at_cell(entries[k], row, col)
}

/// `entries` holds scores of cells of the table of `user`, no cell twice.
pub open spec fn holds_scores_of(entries: Seq<ScoreWithEq>, user: UserView) -> bool {
    &&& distinct_cells(entries)
    &&& forall|k: int| 0 <= k < entries.len() ==> #[trigger] is_score_of(entries[k], user)
}

/// The entry holds the score that `user` has in the cell of the entry.
pub open spec fn is_score_of(e: ScoreWithEq, user: UserView) -> bool {
    &&& e.in_table()
    &&& e.2@ == user.scores[e.0 - 1][e.1 - 1]
    &&& e.2.wf()
}

/// The entry speaks of the cell in that row and column.
pub open spec fn at_cell(e: ScoreWithEq, row: int, col: int) -> bool {
    e.0 == row && e.1 == col
}

/// A list of entries with the same entries as one that speaks of cells of
/// the table, of none twice, does so too.
pub proof fn lemma_permutation_keeps_cells_once(a: Seq<ScoreWithEq>, b: Seq<ScoreWithEq>)
    requires
        cells_once(a),
        a.to_multiset() == b.to_multiset(),
    ensures
        cells_once(b),
        a.len() == b.len(),
{
    broadcast use vstd::seq_lib::to_multiset_contains;

    vstd::seq_lib::to_multiset_len(a);
    vstd::seq_lib::to_multiset_len(b);
    assert forall|k: int| 0 <= k < b.len() implies (#[trigger] b[k]).in_table() by {
        assert(b.contains(b[k]));
        assert(b.to_multiset().count(b[k]) > 0);
        assert(a.contains(b[k]));
        let w = choose|w: int| 0 <= w < a.len() && a[w] == b[k];
        assert(a[w].in_table());
    }
    assert(a.no_duplicates()) by {
        assert forall|i: int, j: int| 0 <= i < a.len() && 0 <= j < a.len() && i != j implies a[i]
            != a[j] by {
            if i < j {
                assert(!(a[i].0 == a[j].0 && a[i].1 == a[j].1));
            } else {
                assert(!(a[j].0 == a[i].0 && a[j].1 == a[i].1));
            }
        }
    }
    a.lemma_multiset_has_no_duplicates();
    b.lemma_multiset_has_no_duplicates_conv();
    assert forall|i: int, j: int| 0 <= i < j < b.len() implies !(b[i].0 == b[j].0 && b[i].1
        == b[j].1) by {
        if b[i].0 == b[j].0 && b[i].1 == b[j].1 {
            assert(b.contains(b[i]));
            assert(b.contains(b[j]));
            assert(b.to_multiset().count(b[i]) > 0);
            assert(b.to_multiset().count(b[j]) > 0);
            let x = choose|x: int| 0 <= x < a.len() && a[x] == b[i];
            let y = choose|y: int| 0 <= y < a.len() && a[y] == b[j];
            if x < y {
                assert(!(a[x].0 == a[y].0 && a[x].1 == a[y].1));
            } else if y < x {
                assert(!(a[y].0 == a[x].0 && a[y].1 == a[x].1));
            }
            assert(b[i] == b[j]);
        }
    }
}

/// A selection from entries that speak of cells of the table, of none twice,
/// does so too.
pub proof fn lemma_selection_keeps_cells_once(shuffled: Seq<ScoreWithEq>, size: nat)
    requires
        cells_once(shuffled),
    ensures
        cells_once(selection(shuffled, size)),
        selection(shuffled, size).len() == if size < shuffled.len() {
            size
        } else {
            shuffled.len()
        },
{
    lemma_worst_first_is_permutation(shuffled);
    lemma_permutation_keeps_cells_once(shuffled, worst_first(shuffled));
    let sorted = worst_first(shuffled);
    let chosen = selection(shuffled, size);
    assert forall|k: int| 0 <= k < chosen.len() implies (#[trigger] chosen[k]).in_table() by {
        assert(chosen[k] == sorted[k]);
    }
    assert forall|i: int, j: int| 0 <= i < j < chosen.len() implies !(chosen[i].0 == chosen[j].0
        && chosen[i].1 == chosen[j].1) by {
        assert(chosen[i] == sorted[i]);
        assert(chosen[j] == sorted[j]);
    }
}

/// A list of entries with the same entries as one that holds scores of
/// `user`, no cell twice, does so too.
pub proof fn lemma_permutation_holds_scores(a: Seq<ScoreWithEq>, b: Seq<ScoreWithEq>, user: UserView)
    requires
        holds_scores_of(a, user),
        a.to_multiset() == b.to_multiset(),
    ensures
        holds_scores_of(b, user),
        a.len() == b.len(),
{
    broadcast use vstd::seq_lib::to_multiset_contains;

    assert(cells_once(a)) by {
        assert forall|k: int| 0 <= k < a.len() implies (#[trigger] a[k]).in_table() by {
            assert(is_score_of(a[k], user));
        }
    }
    lemma_permutation_keeps_cells_once(a, b);
    assert forall|k: int| 0 <= k < b.len() implies #[trigger] is_score_of(b[k], user) by {
        assert(b.contains(b[k]));
        assert(b.to_multiset().count(b[k]) > 0);
        assert(a.contains(b[k]));
        let w = choose|w: int| 0 <= w < a.len() && a[w] == b[k];
        assert(is_score_of(a[w], user));
    }
}

/// A list of entries with the same entries as one that holds every score of
/// `user` does so too.
pub proof fn lemma_permutation_holds_every_score(
    a: Seq<ScoreWithEq>,
    b: Seq<ScoreWithEq>,
    user: UserView,
)
    requires
        holds_every_score(a, user),
        a.to_multiset() == b.to_multiset(),
    ensures
        holds_every_score(b, user),
{
    broadcast use vstd::seq_lib::to_multiset_contains;

    lemma_permutation_holds_scores(a, b, user);
    assert forall|row: int, col: int|
        1 <= row <= CELL_N && 1 <= col <= CELL_N implies #[trigger] has_cell(b, row, col) by {
        assert(has_cell(a, row, col));
        let w = choose|w: int| 0 <= w < a.len() && #[trigger] at_cell(a[w], row, col);
        assert(a.contains(a[w]));
        assert(a.to_multiset().count(a[w]) > 0);
        assert(b.contains(a[w]));
        let k = choose|k: int| 0 <= k < b.len() && b[k] == a[w];
        assert(at_cell(b[k], row, col));
    }
}

/// The walk over the scores of a user holds every score of the user.
pub proof fn lemma_walk_holds_every_score(walk: Seq<ScoreWithEq>, user: UserView)
    requires
        walk.len() == CELL_N * CELL_N,
        forall|p: int| 0 <= p < walk.len() ==> (#[trigger] walk[p]).is_entry(user, p),
    ensures
        holds_every_score(walk, user),
{
    assert forall|k: int| 0 <= k < walk.len() implies #[trigger] is_score_of(walk[k], user) by {
        assert(walk[k].is_entry(user, k));
    }
    assert forall|i: int, j: int| 0 <= i < j < walk.len() implies !(walk[i].0 == walk[j].0
        && walk[i].1 == walk[j].1) by {
        assert(walk[i].is_entry(user, i));
        assert(walk[j].is_entry(user, j));
    }
    assert forall|row: int, col: int|
        1 <= row <= CELL_N && 1 <= col <= CELL_N implies #[trigger] has_cell(walk, row, col) by {
        let p = (row - 1) * CELL_N + (col - 1);
        assert(walk[p].is_entry(user, p));
        assert(at_cell(walk[p], row, col));
    }
}

/// The scores of the user, each with its cell, in a random order.
pub fn shuffled_scores(user: &User) -> (shuffled: Vec<ScoreWithEq>)
    ensures
        holds_every_score(shuffled@, user@),
        cells_once(shuffled@),
{
    let mut entries = user.iter().collect();
    proof {
        lemma_walk_holds_every_score(entries@, user@);
    }
    let ghost walk = entries@;
    shuffle_entries(&mut entries);
    proof {
        lemma_permutation_holds_every_score(walk, entries@, user@);
        assert forall|k: int| 0 <= k < entries@.len() implies (#[trigger] entries@[k]).in_table() by {
            assert(is_score_of(entries@[k], user@));
        }
    }
    entries
}

/// A selection holds scores of the user, no cell twice, and as many as were
/// asked for, if there are that many. A selection of at least as many as the
/// table has cells holds every cell once: none twice and none left out.
pub proof fn lemma_selection_covers(shuffled: Seq<ScoreWithEq>, user: UserView, size: nat)
    requires
        holds_every_score(shuffled, user),
    ensures
        holds_scores_of(selection(shuffled, size), user),
        size <= CELL_N * CELL_N ==> selection(shuffled, size).len() == size,
        size >= CELL_N * CELL_N ==> holds_every_score(selection(shuffled, size), user),
{
    lemma_worst_first_is_permutation(shuffled);
    lemma_permutation_holds_every_score(shuffled, worst_first(shuffled), user);
    let sorted = worst_first(shuffled);
    let chosen = selection(shuffled, size);
    assert forall|k: int| 0 <= k < chosen.len() implies #[trigger] is_score_of(chosen[k], user) by {
        assert(chosen[k] == sorted[k]);
        assert(is_score_of(sorted[k], user));
    }
    assert forall|i: int, j: int| 0 <= i < j < chosen.len() implies !(chosen[i].0 == chosen[j].0
        && chosen[i].1 == chosen[j].1) by {
        assert(chosen[i] == sorted[i]);
        assert(chosen[j] == sorted[j]);
    }
}

/// A selection has the worst scores first.
pub proof fn lemma_selection_is_sorted(shuffled: Seq<ScoreWithEq>, size: nat)
    ensures
        is_worst_first(selection(shuffled, size)),
{
    lemma_worst_first_is_sorted(shuffled);
    lemma_worst_first_is_permutation(shuffled);
}

/// Worst first: where an entry that was asked before stands in a selection,
/// every entry of the shuffled list that was never asked stands before it.
pub proof fn lemma_unasked_come_first(
    shuffled: Seq<ScoreWithEq>,
    size: nat,
    place: int,
    unasked: ScoreWithEq,
)
    requires
        0 <= place < selection(shuffled, size).len(),
        selection(shuffled, size)[place].2@.tries > 0,
        shuffled.contains(unasked),
        unasked.2@.tries == 0,
    ensures
        exists|i: int| 0 <= i < place && selection(shuffled, size)[i] == unasked,
{
    broadcast use vstd::seq_lib::to_multiset_contains;

    lemma_worst_first_is_permutation(shuffled);
    lemma_worst_first_is_sorted(shuffled);
    let sorted = worst_first(shuffled);
    assert(shuffled.to_multiset().count(unasked) > 0);
    assert(sorted.contains(unasked));
    let i = choose|i: int| 0 <= i < sorted.len() && sorted[i] == unasked;
    assert(selection(shuffled, size)[place] == sorted[place]);
    crate::data::score::lemma_unasked_is_worst(unasked.2@, sorted[place].2@);
    if i > place {
        assert(!sorted[i].2@.precedes(sorted[place].2@));
    }
    assert(i < place);
    assert(selection(shuffled, size)[i] == unasked);
}

} // verus!
