use crate::data::score::{Score, Tally, MAX_PERCENT};
use vstd::prelude::*;

verus! {

/// The colours a cell of the table or an answer can have.
#[derive(Debug, Clone, Copy, PartialEq, Eq, Structural)]
pub enum CellColor {
    Grey,
    DarkGrey,
    Green,
    Orange,
    Yellow,
    Red,
    White,
}

/// The colour of mastery: red below 20 percent, orange below 50, yellow below
/// 70, green up to 100, and white for a cell that was never asked.
pub open spec fn color_of(t: Tally) -> CellColor {
    match t.percentage() {
        Some(p) => if p < 2_000 {
            CellColor::Red
        } else if p < 5_000 {
            CellColor::Orange
        } else if p < 7_000 {
            CellColor::Yellow
        } else if p <= 10_000 {
            CellColor::Green
        } else {
            CellColor::White
        },
        None => CellColor::White,
    }
}

impl From<&Score> for CellColor {
    fn from(s: &Score) -> (color: CellColor) {
        match s.get_percentage() {
            Some(p) => {
                if p < MAX_PERCENT / 10 * 2 {
                    CellColor::Red
                } else if p < MAX_PERCENT / 10 * 5 {
                    CellColor::Orange
                } else if p < MAX_PERCENT / 10 * 7 {
                    CellColor::Yellow
                } else if p <= MAX_PERCENT {
                    CellColor::Green
                } else {
                    CellColor::White
                }
            },
            None => CellColor::White,
        }
    }
}

impl vstd::std_specs::convert::FromSpecImpl<&Score> for CellColor {
    open spec fn obeys_from_spec() -> bool {
        true
    }

    open spec fn from_spec(s: &Score) -> CellColor {
        color_of(s@)
    }
}

impl From<Score> for CellColor {
    fn from(value: Score) -> (color: CellColor) {
        CellColor::from(&value)
    }
}

impl vstd::std_specs::convert::FromSpecImpl<Score> for CellColor {
    open spec fn obeys_from_spec() -> bool {
        true
    }

    open spec fn from_spec(s: Score) -> CellColor {
        color_of(s@)
    }
}

/// A cell with consistent scores is white exactly as long as it was never
/// asked.
pub proof fn lemma_white_means_unasked(t: Tally)
    requires
        t.wf(),
    ensures
        color_of(t) == CellColor::White <==> t.tries == 0,
{
    crate::data::score::lemma_percentage_bounded(t);
}

} // verus!
