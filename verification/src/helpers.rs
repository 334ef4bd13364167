use crate::components::equation::EqData;
use crate::data::consts::CELL_N;
use crate::data::user::ScoreWithEq;
use vstd::prelude::*;
use vstd::string::StringExecFns;

verus! {

/// A `CELL_N` by `CELL_N` table with the default value of `T` in every cell.
pub fn make_nxn_mat<T: Default + Copy>() -> (mat: [[T; CELL_N]; CELL_N])
    ensures
        forall|x: int, y: int|
            0 <= x < CELL_N && 0 <= y < CELL_N ==> call_ensures(
                T::default,
                (),
                #[trigger] mat[x][y],
            ) && mat[x][y] == mat[0][0],
{
    let cell = T::default();
    [[cell; CELL_N]; CELL_N]
}

/// Takes the next `CELL_N` entries off the queue and makes a question of
/// each. A queue that has fewer left is emptied and gives no questions.
pub fn get_n(scores: &mut Vec<ScoreWithEq>) -> (batch: Option<[EqData; CELL_N]>)
    ensures
        batch.is_some() == (old(scores)@.len() >= CELL_N),
        batch matches Some(questions) ==> {
            &&& final(scores)@ == old(scores)@.skip(CELL_N as int)
            &&& forall|i: int|
                0 <= i < CELL_N ==> #[trigger] questions[i] == EqData::fresh(
                    Some(old(scores)@[i].operands()),
                )
        },
        batch.is_none() ==> final(scores)@.len() == 0,
{
    if scores.len() >= CELL_N {
        let rest = scores.split_off(CELL_N);
        let mut questions: [EqData; CELL_N] = [EqData::new(None); CELL_N];
        for i in 0..CELL_N
            invariant
                old(scores)@.len() >= CELL_N,
                scores@ == old(scores)@.take(CELL_N as int),
                forall|k: int|
                    0 <= k < i ==> #[trigger] questions[k] == EqData::fresh(
                        Some(old(scores)@[k].operands()),
                    ),
        {
            let cell: (u32, u32) = <(u32, u32)>::from(scores[i]);
            questions[i] = EqData::new(Some(cell));
        }
        *scores = rest;
        Some(questions)
    } else {
        scores.clear();
        None
    }
}

/// One handler for the outcome of a fallible step, made of a handler for its
/// success and one for its failure.
pub fn convert_to_msg<T, E, Message>(
    on_success: impl FnOnce(T) -> Message,
    on_error: impl FnOnce(E) -> Message,
) -> (handler: impl FnOnce(Result<T, E>) -> Message)
    requires
        forall|t: T| call_requires(on_success, (t,)),
        forall|e: E| call_requires(on_error, (e,)),
    ensures
        forall|res: Result<T, E>| call_requires(handler, (res,)),
        forall|t: T, m: Message|
            call_ensures(handler, (Ok(t),), m) ==> call_ensures(on_success, (t,), m),
        forall|e: E, m: Message|
            call_ensures(handler, (Err(e),), m) ==> call_ensures(on_error, (e,), m),
{
    move |res: Result<T, E>| -> (m: Message)
        ensures
            res matches Ok(t) ==> call_ensures(on_success, (t,), m),
            res matches Err(e) ==> call_ensures(on_error, (e,), m),
        {
            match res {
                Ok(r) => on_success(r),
                Err(e) => on_error(e),
            }
        }
}

/// What follows the name of a record in the name of its file.
pub const RECORD_SUFFIX: &'static str = ".ron";

/// The name of the file, in the directory of the application, that holds the
/// record called `name`.
pub fn get_file_path(name: &str) -> (path: String)
    ensures
        path@ == name@ + RECORD_SUFFIX@,
{
    String::from_str(name).concat(RECORD_SUFFIX)
}

} // verus!
