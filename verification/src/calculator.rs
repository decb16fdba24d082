//! The calculator's state machine.
//!
//! A calculator holds a left and a right operand as text, the operand being
//! edited, an optional pending operator and an optional result. Keys are
//! events that move it from state to state. Evaluating `left op right` is
//! floating-point work that the caller performs: `equals_request` and
//! `operator_request` say what would be evaluated, and `on_equals` and
//! `on_entered_operator` take the text of that evaluation as an argument.

use crate::text::{
    concat, contains_char, is_single, opt_view, text_is_char, without_first_char, without_last_char,
};
use vstd::prelude::*;
use vstd::string::*;

verus! {

/// The four binary operators.
#[derive(Clone, Copy, Debug, PartialEq, Eq, Structural)]
pub enum MathOperator {
    Add,
    Subtract,
    Multiply,
    Divide,
}

impl MathOperator {
    /// The key label of the operator.
    pub open spec fn symbol(self) -> Seq<char> {
        match self {
            MathOperator::Add => seq!['+'],
            MathOperator::Subtract => seq!['\u{2212}'],
            MathOperator::Multiply => seq!['\u{d7}'],
            MathOperator::Divide => seq!['\u{f7}'],
        }
    }

    /// The key label: `+`, the minus sign U+2212, `×` or `÷`.
    pub fn as_str(self) -> (s: &'static str)
        ensures
            s@ == self.symbol(),
    {
        match self {
            MathOperator::Add => {
                proof {
                    reveal_strlit("+");
                }
                "+"
            },
            MathOperator::Subtract => {
                proof {
                    reveal_strlit("\u{2212}");
                }
                "\u{2212}"
            },
            MathOperator::Multiply => {
                proof {
                    reveal_strlit("\u{d7}");
                }
                "\u{d7}"
            },
            MathOperator::Divide => {
                proof {
                    reveal_strlit("\u{f7}");
                }
                "\u{f7}"
            },
        }
    }
}

/// One evaluation the caller is asked to perform: `left operator right`,
/// both operands as the text the user entered (or a prior result).
pub struct Evaluation {
    pub operator: MathOperator,
    pub left: String,
    pub right: String,
}

/// The abstract state of a calculator.
pub struct CalcState {
    /// 0 while the left operand is edited, 1 for the right one.
    pub index: int,
    /// Whether the next digit replaces the current entry.
    pub clear_on_input: bool,
    pub left: Seq<char>,
    pub right: Seq<char>,
    pub result: Option<Seq<char>>,
    pub operation: Option<MathOperator>,
}

/// The number being entered after a key press of `digit` on `num`, or `None`
/// where the key is refused (a second decimal point).
pub open spec fn entered_number(num: Seq<char>, digit: Seq<char>) -> Option<Seq<char>> {
    if is_single(digit, '.') {
        if num.contains('.') {
            None
        } else if num.len() == 0 {
            Some(seq!['0', '.'])
        } else {
            Some(num.push('.'))
        }
    } else if is_single(num, '0') || num.len() == 0 {
        Some(digit)
    } else {
        Some(num + digit)
    }
}

/// The sign toggled: a leading `-` removed, or one put in front.
pub open spec fn negated(num: Seq<char>) -> Seq<char> {
    if num.len() > 0 && num[0] == '-' {
        num.drop_first()
    } else {
        seq!['-'] + num
    }
}

impl CalcState {
    /// The state every well-formed calculator is in.
    pub open spec fn wf(self) -> bool {
        &&& 0 <= self.index < 2
        &&& self.index == 1 ==> self.operation is Some
        &&& self.right.len() > 0 ==> self.operation is Some
        &&& self.result is Some ==> {
            &&& self.operation is Some
            &&& self.right.len() > 0
            &&& self.index == 0
            &&& self.result->0.len() > 0
        }
        &&& (self.operation is Some && self.result is None) ==> (self.index == 1 && self.left.len()
            > 0)
    }

    /// The operand being edited.
    pub open spec fn current(self) -> Seq<char> {
        if self.index == 0 {
            self.left
        } else {
            self.right
        }
    }

    /// The state with the operand being edited replaced by `num`.
    pub open spec fn with_current(self, num: Seq<char>) -> CalcState {
        if self.index == 0 {
            CalcState { left: num, ..self }
        } else {
            CalcState { right: num, ..self }
        }
    }

    /// Everything cleared; only the flag for the next input is kept.
    pub open spec fn cleared(self) -> CalcState {
        CalcState {
            index: 0,
            result: None,
            operation: None,
            left: Seq::empty(),
            right: Seq::empty(),
            ..self
        }
    }

    /// The "CE" key: a result clears everything, otherwise the current entry.
    pub open spec fn entry_cleared(self) -> CalcState {
        let s = CalcState { clear_on_input: false, ..self };
        if s.result is Some {
            s.cleared()
        } else {
            s.with_current(Seq::empty())
        }
    }

    /// A digit key (or the decimal point) pressed.
    pub open spec fn after_digit(self, digit: Seq<char>) -> CalcState {
        let s = if self.result is Some {
            self.cleared()
        } else if self.clear_on_input {
            self.entry_cleared()
        } else {
            self
        };
        match entered_number(s.current(), digit) {
            Some(num) => s.with_current(num),
            None => s,
        }
    }

    /// What the "=" key would evaluate: `None` unless both operands are
    /// entered; a present result stands in for the left operand.
    pub open spec fn equals_request(self) -> Option<(MathOperator, Seq<char>, Seq<char>)> {
        if self.left.len() == 0 || self.right.len() == 0 {
            None
        } else {
            let left = match self.result {
                Some(r) => r,
                None => self.left,
            };
            Some((self.operation->0, left, self.right))
        }
    }

    /// The "=" key, with `outcome` the text of the requested evaluation.
    pub open spec fn after_equals(self, outcome: Seq<char>) -> CalcState {
        match self.equals_request() {
            None => self,
            Some(request) => CalcState {
                left: request.1,
                index: 0,
                result: Some(outcome),
                ..self
            },
        }
    }

    /// The result becomes the left operand of a new expression.
    pub open spec fn result_moved_left(self) -> CalcState {
        CalcState {
            clear_on_input: true,
            left: self.result->0,
            right: Seq::empty(),
            operation: None,
            index: 0,
            result: None,
        }
    }

    /// What an operator key would evaluate first: the pending expression,
    /// when both operands are entered and no result is shown yet.
    pub open spec fn operator_request(self) -> Option<(MathOperator, Seq<char>, Seq<char>)> {
        if self.operation is Some && self.right.len() > 0 && self.result is None {
            self.equals_request()
        } else {
            None
        }
    }

    /// An operator key, with `outcome` the text of the requested evaluation.
    pub open spec fn after_operator(self, op: MathOperator, outcome: Seq<char>) -> CalcState {
        let s = CalcState { clear_on_input: false, ..self };
        if s.operation is Some && s.right.len() > 0 {
            let t = if s.result is None {
                s.after_equals(outcome)
            } else {
                s
            };
            CalcState { index: 1, operation: Some(op), ..t.result_moved_left() }
        } else if s.index == 0 {
            if s.left.len() == 0 {
                s
            } else {
                CalcState { index: 1, operation: Some(op), ..s }
            }
        } else {
            CalcState { operation: Some(op), ..s }
        }
    }

    /// The "DEL" key: the last character of the current entry removed.
    pub open spec fn after_delete(self) -> CalcState {
        if self.result is Some || self.current().len() == 0 {
            self
        } else {
            self.with_current(self.current().drop_last())
        }
    }

    /// The "±" key: a result is first moved to the left operand.
    pub open spec fn after_negate(self) -> CalcState {
        let s = if self.result is Some {
            self.result_moved_left()
        } else {
            self
        };
        if s.current().len() == 0 {
            s
        } else {
            s.with_current(negated(s.current()))
        }
    }

    /// The primary display line.
    pub open spec fn entry_text(self) -> Seq<char> {
        match self.result {
            Some(r) => r,
            None => if self.current().len() == 0 {
                seq!['0']
            } else {
                self.current()
            },
        }
    }

    /// The secondary display line: the pending expression, parts separated
    /// by single spaces.
    pub open spec fn expression_text(self) -> Seq<char> {
        let with_left = self.operation is Some || self.result is Some;
        let p1: Seq<char> = if with_left {
            self.left
        } else {
            Seq::empty()
        };
        let p2: Seq<char> = match self.operation {
            Some(op) => if with_left {
                p1 + seq![' '] + op.symbol()
            } else {
                op.symbol()
            },
            None => p1,
        };
        if self.result is Some {
            p2 + seq![' '] + self.right + seq![' ', '=']
        } else {
            p2
        }
    }

    /// Whether the "CE" key has anything to clear.
    pub open spec fn can_clear_entry(self) -> bool {
        self.current().len() > 0 || self.result is Some
    }
}

/// The registers of a calculator, as plain fields.
struct Registers {
    current_num_index: usize,
    clear_current_entry_on_input: bool,
    left: String,
    right: String,
    result: Option<String>,
    operation: Option<MathOperator>,
}

impl Registers {
    /// The abstract state.
    spec fn state(&self) -> CalcState {
        CalcState {
            index: self.current_num_index as int,
            clear_on_input: self.clear_current_entry_on_input,
            left: self.left@,
            right: self.right@,
            result: opt_view(self.result),
            operation: self.operation,
        }
    }

    /// A calculator with nothing entered.
    fn new() -> (c: Registers)
        ensures
            c.state().wf(),
            c.state().index == 0,
            !c.state().clear_on_input,
            c.state().left == Seq::<char>::empty(),
            c.state().right == Seq::<char>::empty(),
            c.state().result is None,
            c.state().operation is None,
    {
        Registers {
            current_num_index: 0,
            clear_current_entry_on_input: false,
            left: String::new(),
            right: String::new(),
            result: None,
            operation: None,
        }
    }

    /// A copy of the operand being edited.
    fn get_current_number(&self) -> (s: String)
        requires
            self.state().wf(),
        ensures
            s@ == self.state().current(),
    {
        self.current_number().to_owned()
    }

    /// The operand being edited.
    fn current_number(&self) -> (s: &str)
        requires
            self.state().wf(),
        ensures
            s@ == self.state().current(),
    {
        if self.current_num_index == 0 {
            self.left.as_str()
        } else {
            self.right.as_str()
        }
    }

    /// Replace the operand being edited.
    fn set_current_number(&mut self, new_num: String)
        requires
            old(self).state().wf(),
        ensures
            final(self).state() == old(self).state().with_current(new_num@),
            final(self).state().wf(),
    {
        if self.current_num_index == 0 {
            self.left = new_num;
        } else {
            self.right = new_num;
        }
    }

    /// The "C" key.
    fn clear_all(&mut self)
        requires
            old(self).state().wf(),
        ensures
            final(self).state() == old(self).state().cleared(),
            final(self).state().wf(),
    {
        self.current_num_index = 0;
        self.result = None;
        self.operation = None;
        self.left = String::new();
        self.right = String::new();
    }

    /// The "CE" key.
    fn clear_entry(&mut self)
        requires
            old(self).state().wf(),
        ensures
            final(self).state() == old(self).state().entry_cleared(),
            final(self).state().wf(),
    {
        self.clear_current_entry_on_input = false;
        if self.result.is_some() {
            self.clear_all();
            return;
        }
        self.set_current_number(String::new());
    }

    /// A digit key, or the decimal point key with `digit == "."`.
    fn on_entered_digit(&mut self, digit: &str)
        requires
            old(self).state().wf(),
        ensures
            final(self).state() == old(self).state().after_digit(digit@),
            final(self).state().wf(),
    {
        if self.result.is_some() {
            self.clear_all();
        } else if self.clear_current_entry_on_input {
            self.clear_entry();
        }
        let num = self.get_current_number();
        let new_num;
        if text_is_char(digit, '.') {
            if contains_char(num.as_str(), '.') {
                return;
            }
            if num.as_str().unicode_len() == 0 {
                proof {
                    reveal_strlit("0.");
                }
                new_num = "0.".to_owned();
                assert(new_num@ =~= seq!['0', '.']);
            } else {
                proof {
                    reveal_strlit(".");
                }
                new_num = concat(num.as_str(), ".");
                assert(new_num@ =~= num@.push('.'));
            }
        } else if text_is_char(num.as_str(), '0') || num.as_str().unicode_len() == 0 {
            new_num = digit.to_owned();
        } else {
            new_num = concat(num.as_str(), digit);
        }
        self.set_current_number(new_num);
    }

    /// What the "=" key would evaluate.
    fn equals_request(&self) -> (r: Option<Evaluation>)
        requires
            self.state().wf(),
        ensures
            match r {
                Some(e) => self.state().equals_request() == Some((e.operator, e.left@, e.right@)),
                None => self.state().equals_request() is None,
            },
    {
        if self.left.as_str().unicode_len() == 0 || self.right.as_str().unicode_len() == 0 {
            return None;
        }
        let left = match &self.result {
            Some(r) => r.clone(),
            None => self.left.clone(),
        };
        let operator = match self.operation {
            Some(op) => op,
            None => MathOperator::Add,
        };
        Some(Evaluation { operator, left, right: self.right.clone() })
    }

    /// What an operator key would evaluate before taking effect.
    fn operator_request(&self) -> (r: Option<Evaluation>)
        requires
            self.state().wf(),
        ensures
            match r {
                Some(e) => self.state().operator_request() == Some((e.operator, e.left@, e.right@)),
                None => self.state().operator_request() is None,
            },
    {
        if self.operation.is_some() && self.right.as_str().unicode_len() > 0
            && self.result.is_none() {
            self.equals_request()
        } else {
            None
        }
    }

    /// The "=" key. `outcome` is the text of the evaluation that
    /// `equals_request` names; it is not read when that is `None`.
    fn on_equals(&mut self, outcome: String)
        requires
            old(self).state().wf(),
            old(self).state().equals_request() is Some ==> outcome@.len() > 0,
        ensures
            final(self).state() == old(self).state().after_equals(outcome@),
            final(self).state().wf(),
    {
        if self.left.as_str().unicode_len() == 0 || self.right.as_str().unicode_len() == 0 {
            return;
        }
        let prior = self.result.take();
        match prior {
            Some(r) => {
                self.left = r;
            },
            None => {},
        }
        self.current_num_index = 0;
        self.result = Some(outcome);
    }

    /// A present result becomes the left operand of a new expression.
    fn move_result_to_left(&mut self)
        requires
            old(self).state().wf(),
            old(self).state().result is Some,
        ensures
            final(self).state() == old(self).state().result_moved_left(),
            final(self).state().wf(),
    {
        self.clear_current_entry_on_input = true;
        let prior = self.result.take();
        match prior {
            Some(r) => {
                self.left = r;
            },
            None => {},
        }
        self.right = String::new();
        self.operation = None;
        self.current_num_index = 0;
    }

    /// An operator key. `outcome` is the text of the evaluation that
    /// `operator_request` names; it is not read when that is `None`.
    fn on_entered_operator(&mut self, operator: MathOperator, outcome: String)
        requires
            old(self).state().wf(),
            old(self).state().operator_request() is Some ==> outcome@.len() > 0,
        ensures
            final(self).state() == old(self).state().after_operator(operator, outcome@),
            final(self).state().wf(),
    {
        self.clear_current_entry_on_input = false;
        if self.operation.is_some() && self.right.as_str().unicode_len() > 0 {
            if self.result.is_none() {
                self.on_equals(outcome);
            }
            self.move_result_to_left();
            self.current_num_index = 1;
        } else if self.current_num_index == 0 {
            if self.left.as_str().unicode_len() == 0 {
                return;
            } else {
                self.current_num_index = 1;
            }
        }
        self.operation = Some(operator);
    }

    /// The "DEL" key.
    fn on_delete(&mut self)
        requires
            old(self).state().wf(),
        ensures
            final(self).state() == old(self).state().after_delete(),
            final(self).state().wf(),
    {
        if self.result.is_some() {
            return;
        }
        let num = self.get_current_number();
        if num.as_str().unicode_len() > 0 {
            let shorter = without_last_char(num.as_str());
            self.set_current_number(shorter);
        }
    }

    /// The "±" key.
    fn negate(&mut self)
        requires
            old(self).state().wf(),
        ensures
            final(self).state() == old(self).state().after_negate(),
            final(self).state().wf(),
    {
        if self.result.is_some() {
            self.move_result_to_left();
        }
        let num = self.get_current_number();
        let n = num.as_str().unicode_len();
        if n == 0 {
            return;
        }
        let flipped = if num.as_str().get_char(0) == '-' {
            without_first_char(num.as_str())
        } else {
            proof {
                reveal_strlit("-");
            }
            let t = concat("-", num.as_str());
            assert(t@ =~= seq!['-'] + num@);
            t
        };
        self.set_current_number(flipped);
    }

    /// The secondary display line: the pending expression.
    fn expression_text(&self) -> (s: String)
        requires
            self.state().wf(),
        ensures
            s@ == self.state().expression_text(),
    {
        let with_left = self.operation.is_some() || self.result.is_some();
        let mut s = if with_left {
            self.left.clone()
        } else {
            String::new()
        };
        match self.operation {
            Some(op) => {
                if with_left {
                    proof {
                        reveal_strlit(" ");
                    }
                    s.append(" ");
                }
                s.append(op.as_str());
            },
            None => {},
        }
        if self.result.is_some() {
            proof {
                reveal_strlit(" ");
                reveal_strlit(" =");
            }
            s.append(" ");
            s.append(self.right.as_str());
            s.append(" =");
        }
        s
    }

    /// The primary display line: the result, or the number being entered.
    fn entry_text(&self) -> (s: String)
        requires
            self.state().wf(),
        ensures
            s@ == self.state().entry_text(),
    {
        match &self.result {
            Some(r) => {
                return r.clone();
            },
            None => {},
        }
        let current = self.current_number();
        if current.unicode_len() == 0 {
            proof {
                reveal_strlit("0");
            }
            "0".to_owned()
        } else {
            current.to_owned()
        }
    }

    /// Whether the "CE" key has anything to clear; the keypad shows it as a
    /// function key then, and as a plain key otherwise.
    fn can_clear_entry(&self) -> (b: bool)
        requires
            self.state().wf(),
        ensures
            b == self.state().can_clear_entry(),
    {
        self.current_number().unicode_len() > 0 || self.result.is_some()
    }
}

/// The calculator. Every calculator is in a well-formed state: `new`
/// starts in one and every key keeps it there.
pub struct Calculator {
    regs: Registers,
}

impl View for Calculator {
    type V = CalcState;

    open spec fn view(&self) -> CalcState {
        self.state()
    }
}

impl Calculator {
    /// The abstract state.
    pub closed spec fn state(&self) -> CalcState {
        self.regs.state()
    }

    #[verifier::type_invariant]
    spec fn well_formed(self) -> bool {
        self.regs.state().wf()
    }

    /// A calculator with nothing entered.
    pub fn new() -> (c: Calculator)
        ensures
            c@.wf(),
            c@.index == 0,
            !c@.clear_on_input,
            c@.left == Seq::<char>::empty(),
            c@.right == Seq::<char>::empty(),
            c@.result is None,
            c@.operation is None,
    {
        Calculator { regs: Registers::new() }
    }

    /// Take the registers out, leaving an empty calculator in their place.
    fn take_registers(&mut self) -> (r: Registers)
        ensures
            r.state() == old(self)@,
            r.state().wf(),
    {
        proof {
            use_type_invariant(&*self);
        }
        let mut r = Registers::new();
        std::mem::swap(&mut r, &mut self.regs);
        r
    }

    /// A copy of the operand being edited.
    pub fn get_current_number(&self) -> (s: String)
        ensures
            s@ == self@.current(),
    {
        proof {
            use_type_invariant(self);
        }
        self.regs.get_current_number()
    }

    /// The operand being edited.
    pub fn current_number(&self) -> (s: &str)
        ensures
            s@ == self@.current(),
    {
        proof {
            use_type_invariant(self);
        }
        self.regs.current_number()
    }

    /// Replace the operand being edited.
    pub fn set_current_number(&mut self, new_num: String)
        ensures
            final(self)@ == old(self)@.with_current(new_num@),
            final(self)@.wf(),
    {
        let mut r = self.take_registers();
        r.set_current_number(new_num);
        self.regs = r;
    }

    /// The "C" key.
    pub fn clear_all(&mut self)
        ensures
            final(self)@ == old(self)@.cleared(),
            final(self)@.wf(),
    {
        let mut r = self.take_registers();
        r.clear_all();
        self.regs = r;
    }

    /// The "CE" key.
    pub fn clear_entry(&mut self)
        ensures
            final(self)@ == old(self)@.entry_cleared(),
            final(self)@.wf(),
    {
        let mut r = self.take_registers();
        r.clear_entry();
        self.regs = r;
    }

    /// A digit key, or the decimal point key with `digit == "."`.
    pub fn on_entered_digit(&mut self, digit: &str)
        ensures
            final(self)@ == old(self)@.after_digit(digit@),
            final(self)@.wf(),
    {
        let mut r = self.take_registers();
        r.on_entered_digit(digit);
        self.regs = r;
    }

    /// What the "=" key would evaluate.
    pub fn equals_request(&self) -> (r: Option<Evaluation>)
        ensures
            match r {
                Some(e) => self@.equals_request() == Some((e.operator, e.left@, e.right@)),
                None => self@.equals_request() is None,
            },
    {
        proof {
            use_type_invariant(self);
        }
        self.regs.equals_request()
    }

    /// What an operator key would evaluate before taking effect.
    pub fn operator_request(&self) -> (r: Option<Evaluation>)
        ensures
            match r {
                Some(e) => self@.operator_request() == Some((e.operator, e.left@, e.right@)),
                None => self@.operator_request() is None,
            },
    {
        proof {
            use_type_invariant(self);
        }
        self.regs.operator_request()
    }

    /// The "=" key. `outcome` is the text of the evaluation that
    /// `equals_request` names (never empty: the text of a number or of a
    /// parse error); it is not read when that is `None`.
    pub fn on_equals(&mut self, outcome: String)
        requires
            old(self)@.equals_request() is Some ==> outcome@.len() > 0,
        ensures
            final(self)@ == old(self)@.after_equals(outcome@),
            final(self)@.wf(),
    {
        let mut r = self.take_registers();
        r.on_equals(outcome);
        self.regs = r;
    }

    /// A present result becomes the left operand of a new expression.
    pub fn move_result_to_left(&mut self)
        requires
            old(self)@.result is Some,
        ensures
            final(self)@ == old(self)@.result_moved_left(),
            final(self)@.wf(),
    {
        let mut r = self.take_registers();
        r.move_result_to_left();
        self.regs = r;
    }

    /// An operator key. `outcome` is the text of the evaluation that
    /// `operator_request` names (never empty, as for `on_equals`); it is not
    /// read when that is `None`.
    pub fn on_entered_operator(&mut self, operator: MathOperator, outcome: String)
        requires
            old(self)@.operator_request() is Some ==> outcome@.len() > 0,
        ensures
            final(self)@ == old(self)@.after_operator(operator, outcome@),
            final(self)@.wf(),
    {
        let mut r = self.take_registers();
        r.on_entered_operator(operator, outcome);
        self.regs = r;
    }

    /// The "DEL" key.
    pub fn on_delete(&mut self)
        ensures
            final(self)@ == old(self)@.after_delete(),
            final(self)@.wf(),
    {
        let mut r = self.take_registers();
        r.on_delete();
        self.regs = r;
    }

    /// The "±" key.
    pub fn negate(&mut self)
        ensures
            final(self)@ == old(self)@.after_negate(),
            final(self)@.wf(),
    {
        let mut r = self.take_registers();
        r.negate();
        self.regs = r;
    }

    /// The secondary display line: the pending expression.
    pub fn expression_text(&self) -> (s: String)
        ensures
            s@ == self@.expression_text(),
    {
        proof {
            use_type_invariant(self);
        }
        self.regs.expression_text()
    }

    /// The primary display line: the result, or the number being entered.
    pub fn entry_text(&self) -> (s: String)
        ensures
            s@ == self@.entry_text(),
    {
        proof {
            use_type_invariant(self);
        }
        self.regs.entry_text()
    }

    /// Whether the "CE" key has anything to clear; the keypad shows it as a
    /// function key then, and as a plain key otherwise.
    pub fn can_clear_entry(&self) -> (b: bool)
        ensures
            b == self@.can_clear_entry(),
    {
        proof {
            use_type_invariant(self);
        }
        self.regs.can_clear_entry()
    }
}

/// What a key looks like: digit keys, function keys (clear, delete,
/// negate), operator keys and the primary action (equals).
#[derive(Clone, Copy, Debug, PartialEq, Eq, Structural)]
pub enum KeyRole {
    Digit,
    Function,
    Operator,
    Primary,
}

impl KeyRole {
    /// The key colour of the role, as 8-bit sRGB.
    pub open spec fn rgb(self) -> (u8, u8, u8) {
        match self {
            KeyRole::Digit => (0x2a, 0x2a, 0x2e),
            KeyRole::Function => (0x3a, 0x3a, 0x40),
            KeyRole::Operator => (0x3b, 0x6e, 0xc4),
            KeyRole::Primary => (0xe0, 0x8a, 0x3c),
        }
    }

    /// The key colour of the role, as 8-bit sRGB.
    pub fn color(self) -> (c: (u8, u8, u8))
        ensures
            c == self.rgb(),
    {
        match self {
            KeyRole::Digit => (0x2a, 0x2a, 0x2e),
            KeyRole::Function => (0x3a, 0x3a, 0x40),
            KeyRole::Operator => (0x3b, 0x6e, 0xc4),
            KeyRole::Primary => (0xe0, 0x8a, 0x3c),
        }
    }
}

/// What pressing a key does to the calculator.
#[derive(Clone, Copy, Debug, PartialEq, Eq, Structural)]
pub enum KeyAction {
    ClearEntry,
    ClearAll,
    Delete,
    Negate,
    Equals,
    Operator(MathOperator),
    /// Enter the key's label (a digit or the decimal point).
    EnterLabel,
}

/// One key of the keypad.
pub struct Key {
    pub label: &'static str,
    pub role: KeyRole,
    pub action: KeyAction,
}

/// The keypad, row by row, four keys a row: label, role and action. "CE"
/// looks like a function key only while there is something to clear.
pub open spec fn keypad_layout(can_clear_entry: bool) -> Seq<(Seq<char>, KeyRole, KeyAction)> {
    seq![
        ("CE"@, if can_clear_entry { KeyRole::Function } else { KeyRole::Digit }, KeyAction::ClearEntry),
        ("C"@, KeyRole::Function, KeyAction::ClearAll),
        ("DEL"@, KeyRole::Function, KeyAction::Delete),
        (MathOperator::Divide.symbol(), KeyRole::Operator, KeyAction::Operator(MathOperator::Divide)),
        ("7"@, KeyRole::Digit, KeyAction::EnterLabel),
        ("8"@, KeyRole::Digit, KeyAction::EnterLabel),
        ("9"@, KeyRole::Digit, KeyAction::EnterLabel),
        (MathOperator::Multiply.symbol(), KeyRole::Operator, KeyAction::Operator(MathOperator::Multiply)),
        ("4"@, KeyRole::Digit, KeyAction::EnterLabel),
        ("5"@, KeyRole::Digit, KeyAction::EnterLabel),
        ("6"@, KeyRole::Digit, KeyAction::EnterLabel),
        (MathOperator::Subtract.symbol(), KeyRole::Operator, KeyAction::Operator(MathOperator::Subtract)),
        ("1"@, KeyRole::Digit, KeyAction::EnterLabel),
        ("2"@, KeyRole::Digit, KeyAction::EnterLabel),
        ("3"@, KeyRole::Digit, KeyAction::EnterLabel),
        (MathOperator::Add.symbol(), KeyRole::Operator, KeyAction::Operator(MathOperator::Add)),
        ("\u{b1}"@, KeyRole::Function, KeyAction::Negate),
        ("0"@, KeyRole::Digit, KeyAction::EnterLabel),
        ("."@, KeyRole::Digit, KeyAction::EnterLabel),
        ("="@, KeyRole::Primary, KeyAction::Equals),
    ]
}

/// The key as plain values.
pub open spec fn key_view(k: Key) -> (Seq<char>, KeyRole, KeyAction) {
    (k.label@, k.role, k.action)
}

fn operator_key(op: MathOperator) -> (k: Key)
    ensures
        key_view(k) == (op.symbol(), KeyRole::Operator, KeyAction::Operator(op)),
{
    Key { label: op.as_str(), role: KeyRole::Operator, action: KeyAction::Operator(op) }
}

fn key(label: &'static str, role: KeyRole, action: KeyAction) -> (k: Key)
    ensures
        key_view(k) == (label@, role, action),
{
    Key { label, role, action }
}

/// The twenty keys of the keypad in grid order, four to a row.
pub fn keypad(can_clear_entry: bool) -> (keys: Vec<Key>)
    ensures
        keys@.map_values(|k: Key| key_view(k)) == keypad_layout(can_clear_entry),
{
    let ce_role = if can_clear_entry {
        KeyRole::Function
    } else {
        KeyRole::Digit
    };
    let keys = vec![
        key("CE", ce_role, KeyAction::ClearEntry),
        key("C", KeyRole::Function, KeyAction::ClearAll),
        key("DEL", KeyRole::Function, KeyAction::Delete),
        operator_key(MathOperator::Divide),
        key("7", KeyRole::Digit, KeyAction::EnterLabel),
        key("8", KeyRole::Digit, KeyAction::EnterLabel),
        key("9", KeyRole::Digit, KeyAction::EnterLabel),
        operator_key(MathOperator::Multiply),
        key("4", KeyRole::Digit, KeyAction::EnterLabel),
        key("5", KeyRole::Digit, KeyAction::EnterLabel),
        key("6", KeyRole::Digit, KeyAction::EnterLabel),
        operator_key(MathOperator::Subtract),
        key("1", KeyRole::Digit, KeyAction::EnterLabel),
        key("2", KeyRole::Digit, KeyAction::EnterLabel),
        key("3", KeyRole::Digit, KeyAction::EnterLabel),
        operator_key(MathOperator::Add),
        key("\u{b1}", KeyRole::Function, KeyAction::Negate),
        key("0", KeyRole::Digit, KeyAction::EnterLabel),
        key(".", KeyRole::Digit, KeyAction::EnterLabel),
        key("=", KeyRole::Primary, KeyAction::Equals),
    ];
    assert(keys@.map_values(|k: Key| key_view(k)) =~= keypad_layout(can_clear_entry));
    keys
}

/// An entry the sign key toggles cleanly: non-empty, and either unsigned or
/// one `-` followed by a non-empty unsigned text.
pub open spec fn plain_signed_entry(num: Seq<char>) -> bool {
    &&& num.len() > 0
    &&& num[0] == '-' ==> num.len() > 1 && num[1] != '-'
}

/// No two decimal points in `num`.
pub open spec fn at_most_one_point(num: Seq<char>) -> bool {
    forall|i: int, j: int| 0 <= i < j < num.len() ==> !(num[i] == '.' && num[j] == '.')
}

/// The sign key undoes itself: pressed twice on an entry (with no result
/// shown) it gives back the state it started from.
pub proof fn lemma_negate_twice(s: CalcState)
    requires
        s.wf(),
        s.result is None,
        plain_signed_entry(s.current()),
    ensures
        s.after_negate().after_negate() == s,
{
    let num = s.current();
    let once = negated(num);
    if num[0] == '-' {
        assert(negated(once) =~= seq!['-'] + num.drop_first());
        assert(negated(once) =~= num);
    } else {
        assert(once[0] == '-');
        assert(once.drop_first() =~= num);
    }
    assert(s.with_current(once).with_current(num) == s);
}

/// "DEL" takes back the key just typed: on an entry that is neither empty
/// nor a lone `0`, typing one character and deleting it restores the state
/// (for the decimal point, where the entry has none yet).
pub proof fn lemma_delete_undoes_digit(s: CalcState, d: char)
    requires
        s.wf(),
        s.result is None,
        !s.clear_on_input,
        s.current().len() > 0,
        !is_single(s.current(), '0'),
        d == '.' ==> !s.current().contains('.'),
    ensures
        s.after_digit(seq![d]).after_delete() == s,
{
    let num = s.current();
    if d == '.' {
        assert(num.push('.').drop_last() =~= num);
    } else {
        assert((num + seq![d]).drop_last() =~= num);
    }
    assert(s.with_current(num) == s);
}

/// The decimal point key never produces a second decimal point.
pub proof fn lemma_single_decimal_point(s: CalcState)
    requires
        s.wf(),
        at_most_one_point(s.current()),
    ensures
        at_most_one_point(s.after_digit(seq!['.']).current()),
{
    let t = if s.result is Some {
        s.cleared()
    } else if s.clear_on_input {
        s.entry_cleared()
    } else {
        s
    };
    let num = t.current();
    assert(at_most_one_point(num));
    match entered_number(num, seq!['.']) {
        Some(n) => {
            if num.len() == 0 {
                assert(n =~= seq!['0', '.']);
            } else {
                assert(!num.contains('.'));
                assert forall|i: int, j: int| 0 <= i < j < n.len() implies !(n[i] == '.' && n[j]
                    == '.') by {
                    if j < num.len() {
                        assert(n[i] == num[i] && n[j] == num[j]);
                    } else {
                        assert(n[i] == num[i]);
                    }
                }
            }
        },
        None => {},
    }
}

/// The primary display always shows something: the result, the entry, or
/// "0" when there is nothing to clear.
pub proof fn lemma_display_never_blank(s: CalcState)
    requires
        s.wf(),
    ensures
        s.entry_text().len() > 0,
        !s.can_clear_entry() ==> s.entry_text() == seq!['0'],
{
}

/// After "C" the display shows `0` and no expression.
pub proof fn lemma_cleared_display(s: CalcState)
    requires
        s.wf(),
    ensures
        s.cleared().wf(),
        s.cleared().entry_text() == seq!['0'],
        s.cleared().expression_text() == Seq::<char>::empty(),
{
}

/// Pressing "=" again repeats the operation with the prior result as the
/// left operand and the same right operand.
pub proof fn lemma_repeated_equals(s: CalcState, outcome: Seq<char>)
    requires
        s.wf(),
        s.equals_request() is Some,
        outcome.len() > 0,
    ensures
        s.after_equals(outcome).wf(),
        s.after_equals(outcome).equals_request() == Some(
            (s.equals_request().unwrap().0, outcome, s.right),
        ),
{
}

/// An operator key pressed on a complete expression evaluates it and
/// continues with the outcome as the left operand of the new operator.
pub proof fn lemma_operator_chains(s: CalcState, op: MathOperator, outcome: Seq<char>)
    requires
        s.wf(),
        s.operator_request() is Some,
        outcome.len() > 0,
    ensures
        s.after_operator(op, outcome).wf(),
        s.after_operator(op, outcome).left == outcome,
        s.after_operator(op, outcome).right == Seq::<char>::empty(),
        s.after_operator(op, outcome).operation == Some(op),
        s.after_operator(op, outcome).index == 1,
        s.after_operator(op, outcome).result is None,
{
}

/// What pressing a key does to a state: `label` is the key's label, and
/// `outcome` the text of the evaluation the key asks for, if any.
pub open spec fn after_key(s: CalcState, action: KeyAction, label: Seq<char>, outcome: Seq<char>) -> CalcState {
    match action {
        KeyAction::ClearEntry => s.entry_cleared(),
        KeyAction::ClearAll => s.cleared(),
        KeyAction::Delete => s.after_delete(),
        KeyAction::Negate => s.after_negate(),
        KeyAction::Equals => s.after_equals(outcome),
        KeyAction::Operator(op) => s.after_operator(op, outcome),
        KeyAction::EnterLabel => s.after_digit(label),
    }
}

/// The evaluation a key asks for before it takes effect.
pub open spec fn key_request(s: CalcState, action: KeyAction) -> Option<(MathOperator, Seq<char>, Seq<char>)> {
    match action {
        KeyAction::Equals => s.equals_request(),
        KeyAction::Operator(_) => s.operator_request(),
        _ => None,
    }
}

/// Every key keeps a calculator well-formed: whatever is pressed, the
/// operand index stays 0 or 1, a pending operator is there whenever the
/// right operand or a result is, and a result comes with both operands
/// entered. The one condition is that an evaluation the key asks for has a
/// non-empty text, as the text of a number or of a parse error is.
pub proof fn lemma_keys_keep_wf(s: CalcState, action: KeyAction, label: Seq<char>, outcome: Seq<char>)
    requires
        s.wf(),
        key_request(s, action) is Some ==> outcome.len() > 0,
    ensures
        after_key(s, action, label, outcome).wf(),
{
}

/// An operator key pressed while a result is shown evaluates nothing: the
/// shown result becomes the left operand of the new operator, whatever
/// evaluation text is passed, and the right operand starts empty.
pub proof fn lemma_operator_continues_from_result(s: CalcState, op: MathOperator, outcome: Seq<char>)
    requires
        s.wf(),
        s.result is Some,
    ensures
        s.operator_request() is None,
        s.after_operator(op, outcome).left == s.result->0,
        s.after_operator(op, outcome).right == Seq::<char>::empty(),
        s.after_operator(op, outcome).operation == Some(op),
        s.after_operator(op, outcome).index == 1,
        s.after_operator(op, outcome).result is None,
        s.after_operator(op, outcome).clear_on_input,
        s.after_operator(op, outcome).wf(),
{
}

/// An operator key pressed before the right operand is entered evaluates
/// nothing. With a left operand it sets (or replaces) the pending operator
/// and moves on to the right operand, leaving both operands as they are;
/// without one it changes nothing but the clear-on-input flag.
pub proof fn lemma_operator_before_right_operand(s: CalcState, op: MathOperator, outcome: Seq<char>)
    requires
        s.wf(),
        s.result is None,
        s.right.len() == 0,
    ensures
        s.operator_request() is None,
        s.after_operator(op, outcome).left == s.left,
        s.after_operator(op, outcome).right == s.right,
        s.after_operator(op, outcome).result is None,
        !s.after_operator(op, outcome).clear_on_input,
        s.left.len() > 0 ==> s.after_operator(op, outcome).operation == Some(op)
            && s.after_operator(op, outcome).index == 1,
        s.left.len() == 0 ==> s.after_operator(op, outcome).operation == s.operation
            && s.after_operator(op, outcome).index == s.index,
        s.after_operator(op, outcome).wf(),
{
}

/// The sign key, with no result shown, touches only the operand being
/// edited: the other operand, the operator, the index and the flag stay.
/// An empty entry stays empty; otherwise a leading `-` is removed or one is
/// put in front. With a result shown, the result (with its sign toggled)
/// becomes the left operand of a fresh expression.
pub proof fn lemma_negate_changes_only_the_entry(s: CalcState)
    requires
        s.wf(),
    ensures
        s.result is None ==> {
            let t = s.after_negate();
            &&& t.index == s.index
            &&& t.operation == s.operation
            &&& t.result is None
            &&& t.clear_on_input == s.clear_on_input
            &&& s.index == 1 ==> t.left == s.left
            &&& s.index == 0 ==> t.right == s.right
            &&& s.current().len() == 0 ==> t == s
            &&& (s.current().len() > 0 && s.current()[0] == '-') ==> t.current() == s.current().drop_first()
            &&& (s.current().len() > 0 && s.current()[0] != '-') ==> t.current() == seq!['-'] + s.current()
        },
        s.result matches Some(r) ==> {
            let t = s.after_negate();
            &&& t.index == 0
            &&& t.operation is None
            &&& t.result is None
            &&& t.right == Seq::<char>::empty()
            &&& t.clear_on_input
            &&& r[0] == '-' ==> t.left == r.drop_first()
            &&& r[0] != '-' ==> t.left == seq!['-'] + r
        },
{
}

/// Each key of the keypad does what its label says, whatever the state:
/// "C" clears everything, "CE" the entry, "DEL" deletes, "±" toggles the
/// sign, "=" evaluates, an operator symbol applies that operator, and a
/// digit or the decimal point is entered.
pub proof fn lemma_keypad_keys_do_what_they_say(
    can_clear_entry: bool,
    i: int,
    s: CalcState,
    outcome: Seq<char>,
)
    requires
        0 <= i < 20,
    ensures
        ({
            let (label, role, action) = keypad_layout(can_clear_entry)[i];
            &&& label == "C"@ ==> after_key(s, action, label, outcome) == s.cleared()
            &&& label == "CE"@ ==> after_key(s, action, label, outcome) == s.entry_cleared()
            &&& label == "DEL"@ ==> after_key(s, action, label, outcome) == s.after_delete()
            &&& label == "\u{b1}"@ ==> after_key(s, action, label, outcome) == s.after_negate()
            &&& label == "="@ ==> after_key(s, action, label, outcome) == s.after_equals(outcome)
            &&& forall|op: MathOperator|
                label == #[trigger] op.symbol() ==> after_key(s, action, label, outcome)
                    == s.after_operator(op, outcome)
            &&& (label.len() == 1 && (('0' <= label[0] && label[0] <= '9') || label[0] == '.'))
                ==> after_key(s, action, label, outcome) == s.after_digit(label)
                && role == KeyRole::Digit
            &&& (label == "C"@ || label == "DEL"@ || label == "\u{b1}"@) ==> role == KeyRole::Function
            &&& label == "CE"@ ==> role == (if can_clear_entry { KeyRole::Function } else { KeyRole::Digit })
            &&& label == "="@ ==> role == KeyRole::Primary
            &&& (forall|op: MathOperator| label == #[trigger] op.symbol() ==> role == KeyRole::Operator)
        }),
{
    reveal_strlit("C");
    reveal_strlit("CE");
    reveal_strlit("DEL");
    reveal_strlit("\u{b1}");
    reveal_strlit("=");
    reveal_strlit("0");
    reveal_strlit("1");
    reveal_strlit("2");
    reveal_strlit("3");
    reveal_strlit("4");
    reveal_strlit("5");
    reveal_strlit("6");
    reveal_strlit("7");
    reveal_strlit("8");
    reveal_strlit("9");
    reveal_strlit(".");
    let (label, role, action) = keypad_layout(can_clear_entry)[i];
    assert forall|op: MathOperator| label == #[trigger] op.symbol() implies after_key(
        s,
        action,
        label,
        outcome,
    ) == s.after_operator(op, outcome) by {
        assert(op.symbol().len() == 1);
    }
    assert forall|op: MathOperator| label == #[trigger] op.symbol() implies role == KeyRole::Operator by {
        assert(op.symbol().len() == 1);
    }
}

/// The keys every calculator needs, each once: the ten digits, the decimal
/// point, the four operators, "=", "±", "DEL", "C" and "CE".
pub open spec fn needed_labels() -> Seq<Seq<char>> {
    seq![
        "0"@, "1"@, "2"@, "3"@, "4"@, "5"@, "6"@, "7"@, "8"@, "9"@, "."@,
        MathOperator::Add.symbol(), MathOperator::Subtract.symbol(),
        MathOperator::Multiply.symbol(), MathOperator::Divide.symbol(),
        "="@, "\u{b1}"@, "DEL"@, "C"@, "CE"@,
    ]
}

/// Every needed key is on the keypad.
pub proof fn lemma_keypad_has_every_key(can_clear_entry: bool, n: int)
    requires
        0 <= n < needed_labels().len(),
    ensures
        exists|i: int| 0 <= i < 20 && #[trigger] keypad_layout(can_clear_entry)[i].0 == needed_labels()[n],
{
    let k = keypad_layout(can_clear_entry);
    let at: Seq<int> = seq![17int, 12, 13, 14, 8, 9, 10, 4, 5, 6, 18, 15, 11, 7, 3, 19, 16, 2, 1, 0];
    assert(k[at[n]].0 == needed_labels()[n]);
}

/// "=" with either operand missing changes nothing. With both entered it
/// evaluates the pending operator on the shown result (or, with none, the
/// left operand) and the right operand, and shows the outcome: the
/// evaluated left operand is kept as the left operand, the right operand
/// and the operator stay, and editing returns to the left operand.
pub proof fn lemma_equals_evaluates_pending_expression(s: CalcState, outcome: Seq<char>)
    requires
        s.wf(),
    ensures
        (s.left.len() == 0 || s.right.len() == 0) ==> s.equals_request() is None && s.after_equals(
            outcome,
        ) == s,
        (s.left.len() > 0 && s.right.len() > 0) ==> {
            let evaluated = if s.result is Some {
                s.result->0
            } else {
                s.left
            };
            &&& s.operation is Some
            &&& s.equals_request() == Some((s.operation->0, evaluated, s.right))
            &&& s.after_equals(outcome).result == Some(outcome)
            &&& s.after_equals(outcome).left == evaluated
            &&& s.after_equals(outcome).right == s.right
            &&& s.after_equals(outcome).operation == s.operation
            &&& s.after_equals(outcome).index == 0
            &&& s.after_equals(outcome).clear_on_input == s.clear_on_input
        },
{
}

/// A digit key (not the decimal point): with a result shown it starts a new
/// expression holding just that digit; after the sign key on a result it
/// replaces the entry; otherwise it is appended to the entry, except that
/// it replaces an empty entry or a lone `0`. The other operand, the
/// operator and the index are unchanged unless a result was shown.
pub proof fn lemma_digit_key(s: CalcState, d: char)
    requires
        s.wf(),
        d != '.',
    ensures
        s.result is Some ==> s.after_digit(seq![d]) == (CalcState {
            index: 0,
            clear_on_input: s.clear_on_input,
            left: seq![d],
            right: Seq::empty(),
            result: None,
            operation: None,
        }),
        s.result is None ==> {
            let t = s.after_digit(seq![d]);
            &&& t.index == s.index
            &&& t.operation == s.operation
            &&& t.result is None
            &&& !s.clear_on_input ==> t.clear_on_input == s.clear_on_input
            &&& s.clear_on_input ==> !t.clear_on_input
            &&& s.index == 1 ==> t.left == s.left
            &&& s.index == 0 ==> t.right == s.right
            &&& (s.clear_on_input || s.current().len() == 0 || s.current() == seq!['0']) ==> t.current()
                == seq![d]
            &&& !(s.clear_on_input || s.current().len() == 0 || s.current() == seq!['0']) ==> t.current()
                == s.current().push(d)
        },
{
    if s.result is None && !s.clear_on_input && s.current().len() > 0 && s.current() != seq!['0'] {
        assert(!is_single(s.current(), '0')) by {
            if is_single(s.current(), '0') {
                assert(s.current() =~= seq!['0']);
            }
        }
        assert(s.current() + seq![d] =~= s.current().push(d));
    }
}

/// The decimal point key: it starts an empty entry as `0.`, is appended to
/// an entry without a point, and is refused (the state is kept) on an
/// entry that already has one.
pub proof fn lemma_decimal_point_key(s: CalcState)
    requires
        s.wf(),
        s.result is None,
        !s.clear_on_input,
    ensures
        s.current().contains('.') ==> s.after_digit(seq!['.']) == s,
        s.current().len() == 0 ==> s.after_digit(seq!['.']).current() == seq!['0', '.'],
        (s.current().len() > 0 && !s.current().contains('.')) ==> s.after_digit(seq!['.']).current()
            == s.current().push('.'),
{
    assert(is_single(seq!['.'], '.'));
}

/// "DEL" removes the last character of the entry and nothing else; it does
/// nothing to an empty entry or while a result is shown.
pub proof fn lemma_delete_key(s: CalcState)
    requires
        s.wf(),
    ensures
        (s.result is Some || s.current().len() == 0) ==> s.after_delete() == s,
        (s.result is None && s.current().len() > 0) ==> {
            let t = s.after_delete();
            &&& t.current() == s.current().subrange(0, s.current().len() - 1)
            &&& t.index == s.index
            &&& t.operation == s.operation
            &&& t.result is None
            &&& t.clear_on_input == s.clear_on_input
            &&& s.index == 1 ==> t.left == s.left
            &&& s.index == 0 ==> t.right == s.right
        },
{
}

/// "CE" clears the entry being edited and keeps the rest of the expression;
/// while a result is shown it clears everything. "C" always clears
/// everything. Neither leaves the next digit set to replace the entry
/// after "CE".
pub proof fn lemma_clear_keys(s: CalcState)
    requires
        s.wf(),
    ensures
        s.cleared().left == Seq::<char>::empty() && s.cleared().right == Seq::<char>::empty()
            && s.cleared().result is None && s.cleared().operation is None && s.cleared().index == 0,
        s.result is Some ==> s.entry_cleared().left == Seq::<char>::empty()
            && s.entry_cleared().right == Seq::<char>::empty() && s.entry_cleared().result is None
            && s.entry_cleared().operation is None && s.entry_cleared().index == 0,
        s.result is None ==> {
            let t = s.entry_cleared();
            &&& t.current() == Seq::<char>::empty()
            &&& t.index == s.index
            &&& t.operation == s.operation
            &&& t.result is None
            &&& s.index == 1 ==> t.left == s.left
            &&& s.index == 0 ==> t.right == s.right
        },
        !s.entry_cleared().clear_on_input,
        s.entry_cleared().wf(),
        s.cleared().wf(),
{
}

/// The two display lines. The primary line shows the result, else the
/// entry, else `0`. The secondary line shows nothing before an operator;
/// `left op` while the right operand is entered; `left op right =` with a
/// result.
pub proof fn lemma_display_lines(s: CalcState)
    requires
        s.wf(),
    ensures
        s.result matches Some(r) ==> s.entry_text() == r,
        (s.result is None && s.current().len() > 0) ==> s.entry_text() == s.current(),
        (s.result is None && s.current().len() == 0) ==> s.entry_text() == seq!['0'],
        s.operation is None ==> s.expression_text() == Seq::<char>::empty(),
        s.operation matches Some(op) ==> (s.result is None ==> s.expression_text() == s.left
            + seq![' '] + op.symbol()),
        s.operation matches Some(op) ==> (s.result is Some ==> s.expression_text() == s.left
            + seq![' '] + op.symbol() + seq![' '] + s.right + seq![' ', '=']),
{
}

} // verus!
