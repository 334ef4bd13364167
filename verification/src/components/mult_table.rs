use crate::components::equation::EqData;
use crate::data::consts::CELL_N;
use crate::data::score::Score;
use crate::data::user::{User, UserView};
use crate::styles::cell::{color_of, CellColor};
use vstd::prelude::*;

verus! {

/// Which cells of the table are covered.
#[derive(Debug, Clone, Copy)]
pub enum Hidden {
    All,
    Nothing,
    Specified([[bool; CELL_N]; CELL_N]),
}

impl Hidden {
    /// Whether the cell of `x + 1` times `y + 1` is covered.
    pub open spec fn hides(self, x: int, y: int) -> bool {
        match self {
            Hidden::All => true,
            Hidden::Nothing => false,
            Hidden::Specified(s) => s[x][y],
        }
    }

    /// The cells of the table that are covered, each as `(x, y)`.
    pub open spec fn covered(self) -> Set<(int, int)> {
        Set::new(
            |cell: (int, int)|
                0 <= cell.0 < CELL_N && 0 <= cell.1 < CELL_N && self.hides(cell.0, cell.1),
        )
    }

    /// Whether the cell of `x + 1` times `y + 1` is covered.
    pub fn is_hidden(&self, x: usize, y: usize) -> (hidden: bool)
        requires
            x < CELL_N,
            y < CELL_N,
        ensures
            hidden == self.hides(x as int, y as int),
    {
        match self {
            Hidden::All => true,
            Hidden::Nothing => false,
            Hidden::Specified(s) => s[x][y],
        }
    }
}

/// What one cell of the table shows.
#[derive(Debug, Clone, Copy)]
pub struct TableCell {
    /// The product that the cell shows; nothing where the cell is blank.
    pub product: Option<u32>,
    /// The colour of the cell.
    pub color: CellColor,
    /// Whether a question of the round asks for this cell.
    pub selected: bool,
    /// The score to show along with the cell, where it shows one.
    pub score: Option<Score>,
}

/// What the user holds, if there is a user.
pub open spec fn view_of(user: Option<User>) -> Option<UserView> {
    match user {
        Some(u) => Some(u@),
        None => None,
    }
}

/// One of the questions asks for the product of `x + 1` and `y + 1`.
pub open spec fn is_selected(selected: Seq<EqData>, x: int, y: int) -> bool {
    exists|k: int|
        0 <= k < selected.len() && (#[trigger] selected[k]).numbers == Some(
            ((x + 1) as u32, (y + 1) as u32),
        )
}

/// `cell` is what the table shows for `x + 1` times `y + 1`: the product, in
/// the colour of the user's score and along with the score, unless there is
/// no user or the cell is covered; and the mark of a cell that is asked for.
pub open spec fn shows(
    cell: TableCell,
    user: Option<UserView>,
    hidden: Hidden,
    selected: Seq<EqData>,
    x: int,
    y: int,
) -> bool {
    let visible = user.is_some() && !hidden.hides(x, y);
    &&& cell.product == if visible {
        Some(((x + 1) * (y + 1)) as u32)
    } else {
        None
    }
    &&& cell.color == if visible {
        color_of(user.unwrap().scores[x][y])
    } else {
        CellColor::White
    }
    &&& cell.selected == is_selected(selected, x, y)
    &&& cell.score.is_some() == visible
    &&& cell.score matches Some(s) ==> s@ == user.unwrap().scores[x][y] && s.wf()
}

/// What the multiplication table shows: `table[y][x]` is the cell of
/// `x + 1` times `y + 1`.
pub fn mult_table(user: &Option<User>, hidden: &Hidden, selected: &[EqData; CELL_N]) -> (table: Vec<
    Vec<TableCell>,
>)
    ensures
        table@.len() == CELL_N,
        forall|y: int| 0 <= y < CELL_N ==> (#[trigger] table@[y])@.len() == CELL_N,
        forall|x: int, y: int|
            0 <= x < CELL_N && 0 <= y < CELL_N ==> shows(
                #[trigger] table@[y]@[x],
                view_of(*user),
                *hidden,
                selected@,
                x,
                y,
            ),
{
    let mut table: Vec<Vec<TableCell>> = Vec::new();
    for y in 0..CELL_N
        invariant
            table@.len() == y,
            forall|j: int| 0 <= j < y ==> (#[trigger] table@[j])@.len() == CELL_N,
            forall|i: int, j: int|
                0 <= i < CELL_N && 0 <= j < y ==> shows(
                    #[trigger] table@[j]@[i],
                    view_of(*user),
                    *hidden,
                    selected@,
                    i,
                    j,
                ),
    {
        let mut row: Vec<TableCell> = Vec::new();
        for x in 0..CELL_N
            invariant
                y < CELL_N,
                row@.len() == x,
                forall|i: int|
                    0 <= i < x ==> shows(
                        #[trigger] row@[i],
                        view_of(*user),
                        *hidden,
                        selected@,
                        i,
                        y as int,
                    ),
        {
            let cell = table_cell(user, hidden, selected, x, y);
            row.push(cell);
        }
        table.push(row);
    }
    table
}

/// What the table shows for `x + 1` times `y + 1`.
pub fn table_cell(
    user: &Option<User>,
    hidden: &Hidden,
    selected: &[EqData; CELL_N],
    x: usize,
    y: usize,
) -> (cell: TableCell)
    requires
        x < CELL_N,
        y < CELL_N,
    ensures
        shows(cell, view_of(*user), *hidden, selected@, x as int, y as int),
{
    let should_hide = hidden.is_hidden(x, y);
    let score = match user {
        Some(u) => Some(u.get_score(x, y)),
        None => None,
    };
    let wanted: (u32, u32) = ((x + 1) as u32, (y + 1) as u32);
    let mut is_asked = false;
    for k in 0..CELL_N
        invariant
            is_asked == exists|j: int|
                0 <= j < k && (#[trigger] selected@[j]).numbers == Some(wanted),
    {
        match selected[k].numbers {
            Some(numbers) => {
                if numbers.0 == wanted.0 && numbers.1 == wanted.1 {
                    is_asked = true;
                }
            },
            None => {},
        }
    }
    assert((x + 1) * (y + 1) <= CELL_N * CELL_N) by (nonlinear_arith)
        requires
            x < CELL_N,
            y < CELL_N,
    ;
    match score {
        Some(s) => {
            if !should_hide {
                TableCell {
                    product: Some(((x + 1) * (y + 1)) as u32),
                    color: CellColor::from(&s),
                    selected: is_asked,
                    score: Some(s),
                }
            } else {
                TableCell { product: None, color: CellColor::White, selected: is_asked, score: None }
            }
        },
        None => TableCell {
            product: None,
            color: CellColor::White,
            selected: is_asked,
            score: None,
        },
    }
}

} // verus!
