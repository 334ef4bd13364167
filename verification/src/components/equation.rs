use crate::styles::cell::CellColor;
use vstd::prelude::*;
use vstd::string::StrSliceExecFns;

verus! {

/// Whether the answer to a question was looked at, and how it fared.
#[derive(Debug, Clone, Copy, PartialEq, Eq, Structural)]
pub enum CheckState {
    Unckecked,
    Correct,
    Wrong,
}

/// The largest answer that can be entered.
pub const MAX_ANSWER: u32 = 999;

/// One question of a round: the two numbers to multiply, the answer entered
/// so far, and how the answer fared.
#[derive(Debug, Clone, Copy, PartialEq, Eq)]
pub struct EqData {
    pub numbers: Option<(u32, u32)>,
    pub value: Option<u32>,
    pub correctness: CheckState,
}

/// How an answer to the question fares: no answer is unchecked, and an
/// answer is correct exactly if it is the product of the two numbers.
pub open spec fn grade(numbers: (u32, u32), value: Option<u32>) -> CheckState {
    match value {
        Some(v) => if numbers.0 * numbers.1 == v {
            CheckState::Correct
        } else {
            CheckState::Wrong
        },
        None => CheckState::Unckecked,
    }
}

impl EqData {
    /// The question before anything was entered.
    pub open spec fn fresh(numbers: Option<(u32, u32)>) -> EqData {
        EqData { numbers, value: None, correctness: CheckState::Unckecked }
    }

    /// The question with `value` entered and graded.
    pub open spec fn answered(self, value: Option<u32>) -> EqData
        recommends
            value.is_some() ==> self.numbers.is_some(),
    {
        EqData {
            numbers: self.numbers,
            value,
            correctness: match value {
                Some(_) => grade(self.numbers.unwrap(), value),
                None => CheckState::Unckecked,
            },
        }
    }

    /// A question for the product of the two numbers, with no answer yet.
    pub fn new(numbers: Option<(u32, u32)>) -> (eq: Self)
        ensures
            eq == Self::fresh(numbers),
    {
        Self { numbers, value: None, correctness: CheckState::Unckecked }
    }

    /// The two numbers to multiply, if the question asks for any.
    pub fn get_numbers(&self) -> (numbers: Option<(u32, u32)>)
        ensures
            numbers == self.numbers,
    {
        self.numbers
    }

    /// The question with `value` entered and graded. A value can only be
    /// entered where there are numbers to multiply.
    pub fn answer(&self, value: Option<u32>) -> (eq: Self)
        requires
            value.is_some() ==> self.numbers.is_some(),
        ensures
            eq == self.answered(value),
    {
        let correctness = match value {
            Some(c) => {
                let (n1, n2) = self.numbers.unwrap();
                assert(n1 * n2 <= u64::MAX) by (nonlinear_arith)
                    requires
                        n1 <= u32::MAX,
                        n2 <= u32::MAX,
                ;
                if (n1 as u64) * (n2 as u64) == c as u64 {
                    CheckState::Correct
                } else {
                    CheckState::Wrong
                }
            },
            None => CheckState::Unckecked,
        };
        Self { numbers: self.numbers, value, correctness }
    }
}

impl Default for EqData {
    fn default() -> (eq: Self)
        ensures
            eq == Self::fresh(None),
    {
        Self::new(None)
    }
}

impl From<&CheckState> for CellColor {
    fn from(value: &CheckState) -> (color: CellColor) {
        match value {
            CheckState::Unckecked => CellColor::White,
            CheckState::Correct => CellColor::Green,
            CheckState::Wrong => CellColor::Red,
        }
    }
}

impl vstd::std_specs::convert::FromSpecImpl<&CheckState> for CellColor {
    open spec fn obeys_from_spec() -> bool {
        true
    }

    open spec fn from_spec(value: &CheckState) -> CellColor {
        grade_color(*value)
    }
}

/// The colour of a grade: green for a correct answer, red for a wrong one,
/// white while there is none.
pub open spec fn grade_color(state: CheckState) -> CellColor {
    match state {
        CheckState::Unckecked => CellColor::White,
        CheckState::Correct => CellColor::Green,
        CheckState::Wrong => CellColor::Red,
    }
}

/// The value of a decimal digit.
pub open spec fn digit_value(c: char) -> Option<nat> {
    if '0' <= c <= '9' {
        Some((c as nat - '0' as nat) as nat)
    } else {
        None
    }
}

/// The number that a nonempty run of decimal digits writes; nothing for the
/// empty text and for text with any other character in it.
pub open spec fn decimal_value(digits: Seq<char>) -> Option<nat>
    decreases digits.len(),
{
    if digits.len() == 0 {
        None
    } else if digits.len() == 1 {
        digit_value(digits[0])
    } else {
        match (decimal_value(digits.drop_last()), digit_value(digits.last())) {
            (Some(v), Some(d)) => Some(v * 10 + d),
            _ => None,
        }
    }
}

/// The number that a text writes: decimal digits, which a single `+` may
/// precede.
pub open spec fn number_value(text: Seq<char>) -> Option<nat> {
    if text.len() > 1 && text[0] == '+' {
        decimal_value(text.skip(1))
    } else {
        decimal_value(text)
    }
}

/// The answer that a text writes: a number of at most `MAX_ANSWER`.
pub open spec fn answer_value(text: Seq<char>) -> Option<u32> {
    match number_value(text) {
        Some(v) => if v <= MAX_ANSWER {
            Some(v as u32)
        } else {
            None
        },
        None => None,
    }
}

/// What an input field that held `current` holds once its text reads `text`:
/// nothing for the empty text, the answer that the text writes if it writes
/// one, and else what it held.
pub open spec fn next_value(text: Seq<char>, current: Option<u32>) -> Option<u32> {
    if text.len() == 0 {
        None
    } else {
        match answer_value(text) {
            Some(v) => Some(v),
            None => current,
        }
    }
}

/// A number is no less than what any nonempty beginning of its digits writes,
/// and every such beginning writes a number.
proof fn lemma_decimal_value_grows(digits: Seq<char>, i: int)
    requires
        0 < i <= digits.len(),
    ensures
        decimal_value(digits) matches Some(w) ==> (decimal_value(digits.take(i)) matches Some(v)
            && v <= w),
    decreases digits.len(),
{
    if i == digits.len() {
        assert(digits.take(i) =~= digits);
    } else {
        assert(digits.drop_last().take(i) =~= digits.take(i));
        lemma_decimal_value_grows(digits.drop_last(), i);
    }
}

/// The answer that a text writes.
pub fn parse_answer(text: &str) -> (answer: Option<u32>)
    ensures
        answer == answer_value(text@),
{
    let n = text.unicode_len();
    if n == 0 {
        return None;
    }
    let start: usize = if n > 1 && text.get_char(0) == '+' {
        1
    } else {
        0
    };
    let ghost digits = if start == 1 {
        text@.skip(1)
    } else {
        text@
    };
    let mut acc: u32 = 0;
    let mut i: usize = start;
    while i < n
        invariant
            start <= i <= n,
            n == text@.len(),
            start <= 1,
            digits == text@.skip(start as int),
            number_value(text@) == decimal_value(digits),
            acc <= MAX_ANSWER,
            i == start ==> acc == 0,
            i > start ==> decimal_value(digits.take(i - start)) == Some(acc as nat),
        decreases n - i,
    {
        let c = text.get_char(i);
        proof {
            let read = digits.take(i - start + 1);
            assert(read.len() == i - start + 1);
            assert(read.last() == c);
            if i > start {
                assert(read.drop_last() =~= digits.take(i - start));
            } else {
                assert(read[0] == c);
            }
            lemma_decimal_value_grows(digits, i - start + 1);
        }
        if !('0' <= c && c <= '9') {
            return None;
        }
        let d: u32 = (c as u32) - ('0' as u32);
        let next: u32 = acc * 10 + d;
        if next > MAX_ANSWER {
            return None;
        }
        acc = next;
        i += 1;
    }
    proof {
        assert(digits.take(n - start) =~= digits);
    }
    Some(acc)
}

/// What the input field of a question tells its owner.
#[derive(Debug)]
pub enum Event {
    InputChanged(String),
    FocusNext,
}

/// The input field of one question. It reports a changed answer through
/// `on_change` and a wish to move on through `on_submit`.
pub struct Equation<C, S> {
    eq_data: EqData,
    show_checked: bool,
    on_change: C,
    on_submit: S,
}

/// The input field of the question `eq_data`.
pub fn equation<C, S>(eq_data: EqData, show_checked: bool, on_change: C, on_submit: S) -> (field:
    Equation<C, S>)
    ensures
        field.eq_data() == eq_data,
        field.show_checked() == show_checked,
        field.on_change() == on_change,
        field.on_submit() == on_submit,
{
    Equation::new(eq_data, show_checked, on_change, on_submit)
}

impl<C, S> Equation<C, S> {
    /// The question that the field shows.
    pub closed spec fn eq_data(&self) -> EqData {
        self.eq_data
    }

    /// Whether the field shows how the answer fared.
    pub closed spec fn show_checked(&self) -> bool {
        self.show_checked
    }

    /// What the field calls with a changed answer.
    pub closed spec fn on_change(&self) -> C {
        self.on_change
    }

    /// What the field calls to move on.
    pub closed spec fn on_submit(&self) -> S {
        self.on_submit
    }

    /// The input field of the question `eq_data`.
    pub fn new(eq_data: EqData, show_checked: bool, on_change: C, on_submit: S) -> (field: Self)
        ensures
            field.eq_data() == eq_data,
            field.show_checked() == show_checked,
            field.on_change() == on_change,
            field.on_submit() == on_submit,
    {
        Self { eq_data, show_checked, on_change, on_submit }
    }

    /// The question that the field shows.
    pub fn data(&self) -> (eq_data: EqData)
        ensures
            eq_data == self.eq_data(),
    {
        self.eq_data
    }

    /// The colour of the field: that of the answer's grade once grades are
    /// shown, and white before.
    pub fn color(&self) -> (color: CellColor)
        ensures
            color == if self.show_checked() {
                grade_color(self.eq_data().correctness)
            } else {
                CellColor::White
            },
    {
        if self.show_checked {
            CellColor::from(&self.eq_data.correctness)
        } else {
            CellColor::from(&CheckState::Unckecked)
        }
    }

    /// Whether the field takes input: it has a question and the grades are
    /// not shown yet.
    pub fn accepts_input(&self) -> (open: bool)
        ensures
            open == (self.eq_data().numbers.is_some() && !self.show_checked()),
    {
        self.eq_data.numbers.is_some() && !self.show_checked
    }

    /// Handles what the field reports. New text in the field is read as an
    /// answer, and the owner hears of it only if the answer differs from the
    /// one that the question holds.
    pub fn update<Message>(&self, event: Event) -> (message: Option<Message>) where
        C: Fn(Option<u32>) -> Message,
        S: Fn() -> Message,

        requires
            forall|v: Option<u32>| call_requires(self.on_change(), (v,)),
            call_requires(self.on_submit(), ()),
        ensures
            match event {
                Event::InputChanged(text) => {
                    let new_value = next_value(text@, self.eq_data().value);
                    if new_value != self.eq_data().value {
                        message matches Some(m) && call_ensures(self.on_change(), (new_value,), m)
                    } else {
                        message.is_none()
                    }
                },
                Event::FocusNext => message matches Some(m) && call_ensures(
                    self.on_submit(),
                    (),
                    m,
                ),
            },
    {
        match event {
            Event::InputChanged(value) => {
                let new_value = if value.as_str().unicode_len() == 0 {
                    None
                } else {
                    match parse_answer(value.as_str()) {
                        Some(num) => Some(num),
                        None => self.eq_data.value,
                    }
                };
                if new_value != self.eq_data.value {
                    assert(call_requires(self.on_change(), (new_value,)));
                    Some((self.on_change)(new_value))
                } else {
                    None
                }
            },
            Event::FocusNext => Some((self.on_submit)()),
        }
    }
}

} // verus!
