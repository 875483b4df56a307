//! Decisions of the command-line tool around waiting: the Ctrl-C handler, the
//! deadline of a bounded wait, and what the greeting reports.
use vstd::prelude::*;

verus! {

/// What the Ctrl-C handler does.
#[derive(Debug, Clone, Copy, PartialEq, Eq, Structural)]
pub enum InterruptAction {
    /// The first interrupt: stop the running work, keep the process.
    Reset,
    /// A further interrupt: end the process with exit code 1.
    Exit,
}

/// The exit code of a process that a second interrupt ends.
pub const INTERRUPT_EXIT_CODE: i32 = 1;

/// The handler's answer to an interrupt, given whether the work is still running:
/// the new running flag and the action.
pub open spec fn interrupt_spec(running: bool) -> (bool, InterruptAction) {
    if running {
        (false, InterruptAction::Reset)
    } else {
        (false, InterruptAction::Exit)
    }
}

/// Handles one Ctrl-C: a first one clears the running flag, a later one exits.
pub fn on_interrupt(running: bool) -> (r: (bool, InterruptAction))
    ensures
        r == interrupt_spec(running),
{
    if running {
        (false, InterruptAction::Reset)
    } else {
        (false, InterruptAction::Exit)
    }
}

/// An interrupt of running work stops it without ending the process; only an
/// interrupt of work already stopped ends the process. Either way the work is
/// stopped afterwards.
pub proof fn law_interrupt_ends_only_stopped_work(running: bool)
    ensures
        !interrupt_spec(running).0,
        (interrupt_spec(running).1 == InterruptAction::Exit) == !running,
{
}

/// Two interrupts in a row end the process, whatever the state before.
pub proof fn law_second_interrupt_exits(running: bool)
    ensures
        interrupt_spec(interrupt_spec(running).0).1 == InterruptAction::Exit,
        !interrupt_spec(running).0,
{
}

/// Whether a wait that may last `limit_micros` microseconds goes on after
/// `elapsed_nanos` nanoseconds.
pub open spec fn before_deadline_spec(limit_micros: u64, elapsed_nanos: int) -> bool {
    limit_micros * 1000 > elapsed_nanos
}

/// Whether a wait that may last `limit_micros` microseconds goes on after
/// `elapsed_nanos` nanoseconds.
pub fn before_deadline(limit_micros: u64, elapsed_nanos: u128) -> (r: bool)
    ensures
        r == before_deadline_spec(limit_micros, elapsed_nanos as int),
        r <==> (elapsed_nanos as int) < (limit_micros as int) * 1000,
{
    (limit_micros as u128) * 1000u128 > elapsed_nanos
}

/// A wait of `limit` microseconds goes on for exactly the first `limit * 1000`
/// nanoseconds, counted without any bound on the width of the number; a longer
/// limit never ends a wait earlier than a shorter one.
pub proof fn law_deadline_is_exact(limit: u64, limit2: u64, t: int)
    ensures
        before_deadline_spec(limit, t) <==> t < limit as int * 1000,
        limit <= limit2 && before_deadline_spec(limit, t) ==> before_deadline_spec(limit2, t),
{
    if limit <= limit2 {
        assert(limit as int * 1000 <= limit2 as int * 1000);
    }
}

/// Once the deadline has passed it stays passed.
pub proof fn law_deadline_is_final(limit_micros: u64, t1: int, t2: int)
    requires
        t1 <= t2,
        !before_deadline_spec(limit_micros, t1),
    ensures
        !before_deadline_spec(limit_micros, t2),
{
}

/// What the greeting reports once its wait has ended.
pub open spec fn hello_report(completed: bool, opt: Seq<char>) -> Seq<char> {
    if completed {
        "successed "@ + opt
    } else {
        "failed "@ + opt
    }
}

/// What the greeting reports: whether its wait ran to the end or an interrupt cut
/// it short, and the option it was given.
pub fn hello_message(completed: bool, opt: &str) -> (r: String)
    ensures
        r@ == hello_report(completed, opt@),
{
    let mut r = String::new();
    if completed {
        r.append("successed ");
    } else {
        r.append("failed ");
    }
    r.append(opt);
    r
}

} // verus!
