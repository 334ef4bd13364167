use rust_mult_table::data::score::{Score, Sdto, MAX_PERCENT};
use std::cmp::Ordering;

#[test]
fn new_score_has_the_share_of_correct_answers() {
    assert_eq!(Score::new(3, 1).get_percentage(), Some(3333));
    assert_eq!(Score::new(3, 2).get_percentage(), Some(6666));
    assert_eq!(Score::new(1, 0).get_percentage(), Some(0));
    assert_eq!(Score::new(1, 1).get_percentage(), Some(10_000));
}

#[test]
fn percentage_is_exact_where_the_numbers_are_large() {
    assert_eq!(Score::new(10, 7).get_percentage(), Some(7000));
    assert_eq!(Score::new(65_535, 65_535).get_percentage(), Some(MAX_PERCENT));
    assert_eq!(Score::new(65_535, 65_534).get_percentage(), Some(9999));
    assert_eq!(Score::new(60_000, 1).get_percentage(), Some(0));
    assert_eq!(Score::new(60_000, 6).get_percentage(), Some(1));
}

#[test]
fn score_without_tries_has_no_percentage() {
    let s = Score::new(0, 0);
    assert_eq!(s.get_percentage(), None);
    assert_eq!(s.tries(), 0);
    assert_eq!(s.correct(), 0);
}

#[test]
fn default_score_was_never_asked() {
    assert_eq!(Score::default(), Score::new(0, 0));
    assert_eq!(Score::default().get_percentage(), None);
}

#[test]
fn calc_percentage_follows_the_formula() {
    assert_eq!(Score::calc_percentage(0, 0), None);
    assert_eq!(Score::calc_percentage(1, 3), Some(3333));
    assert_eq!(Score::calc_percentage(9, 9), Some(10_000));
}

#[test]
fn update_counts_a_correct_answer() {
    let mut s = Score::default();
    s.update(true);
    assert_eq!(s.tries(), 1);
    assert_eq!(s.correct(), 1);
    assert_eq!(s.get_percentage(), Some(10_000));
    assert_eq!(s, Score::new(1, 1));
}

#[test]
fn update_counts_a_wrong_answer() {
    let mut s = Score::default();
    s.update(false);
    assert_eq!(s.tries(), 1);
    assert_eq!(s.correct(), 0);
    assert_eq!(s.get_percentage(), Some(0));
}

#[test]
fn update_recomputes_the_percentage_every_time() {
    let mut s = Score::new(1, 1);
    s.update(false);
    assert_eq!(s, Score::new(2, 1));
    assert_eq!(s.get_percentage(), Some(5000));
    s.update(false);
    assert_eq!(s.get_percentage(), Some(3333));
    s.update(true);
    assert_eq!(s, Score::new(4, 2));
    assert_eq!(s.get_percentage(), Some(5000));
}

#[test]
fn update_reaches_the_last_try_that_fits() {
    let mut s = Score::new(65_534, 65_534);
    s.update(true);
    assert_eq!(s, Score::new(65_535, 65_535));
}

#[test]
fn unasked_score_is_less_than_any_asked_one() {
    let unasked = Score::new(0, 0);
    for asked in [Score::new(1, 0), Score::new(1, 1), Score::new(500, 3)] {
        assert_eq!(unasked.cmp(&asked), Ordering::Less);
        assert_eq!(asked.cmp(&unasked), Ordering::Greater);
        assert!(unasked < asked);
        assert!(unasked.is_worse_than(&asked));
        assert!(!asked.is_worse_than(&unasked));
    }
}

#[test]
fn unasked_scores_tie() {
    assert_eq!(Score::new(0, 0).cmp(&Score::default()), Ordering::Equal);
    assert!(!Score::new(0, 0).is_worse_than(&Score::default()));
}

#[test]
fn lower_percentage_is_less() {
    assert_eq!(Score::new(4, 1).cmp(&Score::new(2, 1)), Ordering::Less);
    assert_eq!(Score::new(2, 1).cmp(&Score::new(4, 1)), Ordering::Greater);
    assert!(Score::new(100, 0) < Score::new(1, 1));
}

#[test]
fn fewer_tries_are_less_among_equal_percentages() {
    assert_eq!(Score::new(2, 1).cmp(&Score::new(4, 2)), Ordering::Less);
    assert_eq!(Score::new(4, 2).cmp(&Score::new(2, 1)), Ordering::Greater);
    assert_eq!(Score::new(4, 2).cmp(&Score::new(4, 2)), Ordering::Equal);
    assert!(Score::new(1, 1).is_worse_than(&Score::new(2, 2)));
}

#[test]
fn partial_cmp_agrees_with_cmp() {
    let a = Score::new(3, 1);
    let b = Score::new(3, 2);
    assert_eq!(a.partial_cmp(&b), Some(Ordering::Less));
    assert_eq!(b.partial_cmp(&a), Some(Ordering::Greater));
    assert_eq!(a.partial_cmp(&a), Some(Ordering::Equal));
    assert!(a <= b && b >= a && !(a > b));
}

#[test]
fn score_is_persisted_as_tries_and_correct() {
    let pair = Sdto::from(&Score::new(7, 5));
    assert_eq!(pair, Sdto(7, 5));
}

#[test]
fn persisted_pair_gives_the_score_back() {
    let s = Score::from_sdto(&Sdto(7, 5)).unwrap();
    assert_eq!(s, Score::new(7, 5));
    assert_eq!(s.get_percentage(), Some(7142));
    assert_eq!(Sdto::from(&s), Sdto(7, 5));
}

#[test]
fn persisted_pair_with_more_correct_than_tries_is_no_score() {
    assert_eq!(Score::from_sdto(&Sdto(1, 2)), None);
    assert_eq!(Score::from_sdto(&Sdto(0, 1)), None);
    assert_eq!(Score::from_sdto(&Sdto(0, 0)), Some(Score::default()));
}
