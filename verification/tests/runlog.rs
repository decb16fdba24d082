use virtua_grotesk_figures::runlog::{of_stage, parse_log, LogError};

const LOG: &str = "\
preamble step    1 | loss 9.9 | 1s
=== A: control, graded corpus only
step    100 | loss 4.4714 | 46s
step    200 | loss 3.9000 | 92s
checkpoint step 500 | val loss 3.1574 (best, saved)
=== B1: pretrain on OFL
step    100 | loss 5.0000 | 40s
time budget reached at step 4937
checkpoint final | val loss 1.5300
=== B2: finetune
step 100 | loss 3.3 | 41s
step short
=== v0.8 finished
step    300 | loss 0.1 | 1s
";

fn pairs(v: Vec<(String, String)>) -> Vec<(String, String)> {
    v
}

fn p(a: &str, b: &str) -> (String, String) {
    (a.to_string(), b.to_string())
}

#[test]
fn log_splits_into_three_stages() {
    let log = parse_log(LOG).unwrap();
    assert_eq!(pairs(of_stage(&log.train, 0)), vec![p("100", "4.4714"), p("200", "3.9000")]);
    assert_eq!(pairs(of_stage(&log.val, 0)), vec![p("500", "3.1574")]);
    assert_eq!(pairs(of_stage(&log.train, 1)), vec![p("100", "5.0000")]);
    assert_eq!(pairs(of_stage(&log.val, 1)), vec![p("4937", "1.5300")]);
    assert_eq!(pairs(of_stage(&log.train, 2)), vec![p("100", "3.3")]);
    assert!(of_stage(&log.val, 2).is_empty());
}

#[test]
fn lines_outside_a_stage_are_ignored() {
    let log = parse_log(LOG).unwrap();
    assert_eq!(log.train.len(), 4);
    assert!(log.train.iter().all(|q| q.step != "300" && q.step != "1"));
}

#[test]
fn final_checkpoint_uses_the_last_train_step() {
    let log = parse_log("=== A:\nstep 700 | loss 2.0 | 1s\ncheckpoint final | val loss 1.9\n").unwrap();
    assert_eq!(pairs(of_stage(&log.val, 0)), vec![p("700", "1.9")]);
}

#[test]
fn final_checkpoint_before_any_step_is_at_zero() {
    let log = parse_log("=== B2: x\ncheckpoint final | val loss 2.5\n").unwrap();
    assert_eq!(pairs(of_stage(&log.val, 2)), vec![p("0", "2.5")]);
}

#[test]
fn crlf_line_endings_are_read() {
    let log = parse_log("=== A:\r\nstep 100 | loss 4.5 | 1s\r\ncheckpoint step 500 | val loss 3.1\r\n").unwrap();
    assert_eq!(pairs(of_stage(&log.train, 0)), vec![p("100", "4.5")]);
    assert_eq!(pairs(of_stage(&log.val, 0)), vec![p("500", "3.1")]);
}

#[test]
fn checkpoint_without_its_loss_is_an_error() {
    let text = "=== A:\nstep 100 | loss 4.4 | 1s\ncheckpoint step 500 | val\n";
    assert_eq!(parse_log(text).err(), Some(LogError::MissingField { line: 3 }));
}

#[test]
fn time_budget_without_a_step_is_an_error() {
    let text = "=== B1:\ntime budget reached at step\n";
    assert_eq!(parse_log(text).err(), Some(LogError::MissingField { line: 2 }));
}

#[test]
fn short_step_lines_are_skipped() {
    let log = parse_log("=== A:\nstep 1 | loss\nstep 2 | loss 0.5 | x\n").unwrap();
    assert_eq!(pairs(of_stage(&log.train, 0)), vec![p("2", "0.5")]);
}

#[test]
fn empty_log_has_no_points() {
    let log = parse_log("").unwrap();
    assert!(log.train.is_empty() && log.val.is_empty());
}

#[test]
fn fields_split_on_any_white_space() {
    let log = parse_log("=== A:\nstep 100\u{a0}|\u{2003}loss\t4.0 | 1s\n").unwrap();
    assert_eq!(pairs(of_stage(&log.train, 0)), vec![p("100", "4.0")]);
}
