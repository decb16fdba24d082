use virtua_grotesk_figures::calculator::{Calculator, Evaluation, KeyAction, KeyRole, MathOperator, keypad};

fn evaluate(e: &Evaluation) -> String {
    let left = e.left.parse::<f64>();
    let right = e.right.parse::<f64>();
    match (left, right) {
        (Ok(a), Ok(b)) => match e.operator {
            MathOperator::Add => (a + b).to_string(),
            MathOperator::Subtract => (a - b).to_string(),
            MathOperator::Multiply => (a * b).to_string(),
            MathOperator::Divide => (a / b).to_string(),
        },
        (Err(err), _) => err.to_string(),
        (_, Err(err)) => err.to_string(),
    }
}

fn digits(c: &mut Calculator, s: &str) {
    for ch in s.chars() {
        c.on_entered_digit(&ch.to_string());
    }
}

fn equals(c: &mut Calculator) {
    let outcome = c.equals_request().map(|e| evaluate(&e)).unwrap_or_default();
    c.on_equals(outcome);
}

fn operator(c: &mut Calculator, op: MathOperator) {
    let outcome = c.operator_request().map(|e| evaluate(&e)).unwrap_or_default();
    c.on_entered_operator(op, outcome);
}

#[test]
fn fresh_calculator_shows_zero() {
    let c = Calculator::new();
    assert_eq!(c.entry_text(), "0");
    assert_eq!(c.expression_text(), "");
    assert!(!c.can_clear_entry());
    assert_eq!(c.get_current_number(), "");
}

#[test]
fn leading_zero_is_replaced() {
    let mut c = Calculator::new();
    digits(&mut c, "0");
    assert_eq!(c.entry_text(), "0");
    digits(&mut c, "7");
    assert_eq!(c.entry_text(), "7");
    digits(&mut c, "5");
    assert_eq!(c.current_number(), "75");
}

#[test]
fn decimal_point_enters_once_with_leading_zero() {
    let mut c = Calculator::new();
    digits(&mut c, ".");
    assert_eq!(c.current_number(), "0.");
    digits(&mut c, "5.2");
    assert_eq!(c.current_number(), "0.52");
}

#[test]
fn addition_shows_expression_and_result() {
    let mut c = Calculator::new();
    digits(&mut c, "12");
    operator(&mut c, MathOperator::Add);
    assert_eq!(c.expression_text(), "12 +");
    digits(&mut c, "30");
    assert_eq!(c.entry_text(), "30");
    equals(&mut c);
    assert_eq!(c.entry_text(), "42");
    assert_eq!(c.expression_text(), "12 + 30 =");
    assert!(c.can_clear_entry());
}

#[test]
fn repeated_equals_reapplies_the_operation() {
    let mut c = Calculator::new();
    digits(&mut c, "2");
    operator(&mut c, MathOperator::Multiply);
    digits(&mut c, "3");
    equals(&mut c);
    assert_eq!(c.entry_text(), "6");
    equals(&mut c);
    assert_eq!(c.entry_text(), "18");
    assert_eq!(c.expression_text(), "6 \u{d7} 3 =");
}

#[test]
fn operator_after_full_expression_chains_the_result() {
    let mut c = Calculator::new();
    digits(&mut c, "8");
    operator(&mut c, MathOperator::Subtract);
    digits(&mut c, "3");
    operator(&mut c, MathOperator::Divide);
    assert_eq!(c.expression_text(), "5 \u{f7}");
    digits(&mut c, "2");
    equals(&mut c);
    assert_eq!(c.entry_text(), "2.5");
}

#[test]
fn operator_without_left_operand_is_ignored() {
    let mut c = Calculator::new();
    operator(&mut c, MathOperator::Add);
    assert_eq!(c.expression_text(), "");
    assert_eq!(c.entry_text(), "0");
}

#[test]
fn equals_without_right_operand_is_ignored() {
    let mut c = Calculator::new();
    digits(&mut c, "4");
    operator(&mut c, MathOperator::Add);
    assert!(c.equals_request().is_none());
    equals(&mut c);
    assert_eq!(c.expression_text(), "4 +");
}

#[test]
fn digit_after_result_starts_over() {
    let mut c = Calculator::new();
    digits(&mut c, "1");
    operator(&mut c, MathOperator::Add);
    digits(&mut c, "1");
    equals(&mut c);
    digits(&mut c, "9");
    assert_eq!(c.entry_text(), "9");
    assert_eq!(c.expression_text(), "");
}

#[test]
fn delete_removes_last_character() {
    let mut c = Calculator::new();
    digits(&mut c, "123");
    c.on_delete();
    assert_eq!(c.current_number(), "12");
    c.on_delete();
    c.on_delete();
    c.on_delete();
    assert_eq!(c.current_number(), "");
}

#[test]
fn delete_leaves_a_result_alone() {
    let mut c = Calculator::new();
    digits(&mut c, "5");
    operator(&mut c, MathOperator::Add);
    digits(&mut c, "5");
    equals(&mut c);
    c.on_delete();
    assert_eq!(c.entry_text(), "10");
}

#[test]
fn negate_twice_restores_entry() {
    let mut c = Calculator::new();
    digits(&mut c, "42");
    c.negate();
    assert_eq!(c.current_number(), "-42");
    c.negate();
    assert_eq!(c.current_number(), "42");
}

#[test]
fn negate_on_empty_entry_does_nothing() {
    let mut c = Calculator::new();
    c.negate();
    assert_eq!(c.current_number(), "");
}

#[test]
fn negate_a_result_moves_it_left() {
    let mut c = Calculator::new();
    digits(&mut c, "3");
    operator(&mut c, MathOperator::Add);
    digits(&mut c, "4");
    equals(&mut c);
    c.negate();
    assert_eq!(c.entry_text(), "-7");
    assert_eq!(c.expression_text(), "");
    // the negated result is replaced by the next digit
    digits(&mut c, "2");
    assert_eq!(c.entry_text(), "2");
}

#[test]
fn clear_entry_keeps_the_pending_expression() {
    let mut c = Calculator::new();
    digits(&mut c, "9");
    operator(&mut c, MathOperator::Multiply);
    digits(&mut c, "8");
    c.clear_entry();
    assert_eq!(c.entry_text(), "0");
    assert_eq!(c.expression_text(), "9 \u{d7}");
}

#[test]
fn clear_entry_after_result_clears_all() {
    let mut c = Calculator::new();
    digits(&mut c, "9");
    operator(&mut c, MathOperator::Multiply);
    digits(&mut c, "8");
    equals(&mut c);
    c.clear_entry();
    assert_eq!(c.entry_text(), "0");
    assert_eq!(c.expression_text(), "");
}

#[test]
fn clear_all_resets_everything() {
    let mut c = Calculator::new();
    digits(&mut c, "9");
    operator(&mut c, MathOperator::Add);
    digits(&mut c, "1");
    c.clear_all();
    assert_eq!(c.entry_text(), "0");
    assert_eq!(c.expression_text(), "");
    assert!(!c.can_clear_entry());
}

#[test]
fn invalid_operand_text_reports_the_parse_error() {
    let mut c = Calculator::new();
    digits(&mut c, "1");
    operator(&mut c, MathOperator::Add);
    c.negate();
    c.negate();
    // "-" alone cannot be entered; set the entry directly
    c.set_current_number("-".to_string());
    equals(&mut c);
    assert_eq!(c.entry_text(), "invalid float literal");
}

#[test]
fn division_by_zero_gives_infinity() {
    let mut c = Calculator::new();
    digits(&mut c, "1");
    operator(&mut c, MathOperator::Divide);
    digits(&mut c, "0");
    equals(&mut c);
    assert_eq!(c.entry_text(), "inf");
}

#[test]
fn operator_labels() {
    assert_eq!(MathOperator::Add.as_str(), "+");
    assert_eq!(MathOperator::Subtract.as_str(), "\u{2212}");
    assert_eq!(MathOperator::Multiply.as_str(), "\u{d7}");
    assert_eq!(MathOperator::Divide.as_str(), "\u{f7}");
}

#[test]
fn keypad_layout_and_roles() {
    let keys = keypad(false);
    let labels: Vec<&str> = keys.iter().map(|k| k.label).collect();
    assert_eq!(
        labels,
        vec![
            "CE", "C", "DEL", "\u{f7}", "7", "8", "9", "\u{d7}", "4", "5", "6", "\u{2212}", "1",
            "2", "3", "+", "\u{b1}", "0", ".", "="
        ]
    );
    assert_eq!(keys[0].role, KeyRole::Digit);
    assert_eq!(keypad(true)[0].role, KeyRole::Function);
    assert_eq!(keys[3].action, KeyAction::Operator(MathOperator::Divide));
    assert_eq!(keys[19].role, KeyRole::Primary);
    assert_eq!(keys[19].action, KeyAction::Equals);
    assert_eq!(keys[18].action, KeyAction::EnterLabel);
}

#[test]
fn key_colors() {
    assert_eq!(KeyRole::Digit.color(), (0x2a, 0x2a, 0x2e));
    assert_eq!(KeyRole::Function.color(), (0x3a, 0x3a, 0x40));
    assert_eq!(KeyRole::Operator.color(), (0x3b, 0x6e, 0xc4));
    assert_eq!(KeyRole::Primary.color(), (0xe0, 0x8a, 0x3c));
}
