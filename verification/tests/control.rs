use htipc::control::{before_deadline, hello_message, on_interrupt, InterruptAction};

#[test]
fn interrupts_reset_then_exit() {
    let (running, action) = on_interrupt(true);
    assert!(!running);
    assert_eq!(action, InterruptAction::Reset);
    let (running, action) = on_interrupt(running);
    assert!(!running);
    assert_eq!(action, InterruptAction::Exit);
}

#[test]
fn deadline_in_microseconds() {
    assert!(before_deadline(10000, 9_999_999));
    assert!(!before_deadline(10000, 10_000_000));
    assert!(!before_deadline(0, 0));
}

#[test]
fn hello_reports() {
    assert_eq!(hello_message(true, "a"), "successed a");
    assert_eq!(hello_message(false, "a"), "failed a");
}
