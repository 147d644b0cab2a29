use deet::breakpoint::BreakpointTable;
use deet::debugger::{DebugError, Debugger};
use deet::inferior::{Action, Event, Inferior, Status, SIGTRAP};
use deet::word::{align_addr_to_word, patch_word, TRAP_BYTE};

const PID: i32 = 4242;

#[test]
fn align_rounds_down_to_word() {
    assert_eq!(align_addr_to_word(0x1007), 0x1000);
    assert_eq!(align_addr_to_word(0x1000), 0x1000);
    assert_eq!(align_addr_to_word(0x1008), 0x1008);
    assert_eq!(align_addr_to_word(5), 0);
}

#[test]
fn patch_replaces_one_byte() {
    let (w, orig) = patch_word(0x1122334455667788, 0x1003, TRAP_BYTE);
    assert_eq!(w, 0x11223344cc667788);
    assert_eq!(orig, 0x55);
    let (w0, orig0) = patch_word(0x1122334455667788, 0x2000, TRAP_BYTE);
    assert_eq!(w0, 0x11223344556677cc);
    assert_eq!(orig0, 0x88);
    let (w7, orig7) = patch_word(0x1122334455667788, 0x2007, TRAP_BYTE);
    assert_eq!(w7, 0xcc22334455667788);
    assert_eq!(orig7, 0x11);
}

#[test]
fn patch_then_restore_gives_original_word() {
    let words: [u64; 3] = [0x1122334455667788, 0, u64::MAX];
    for &word in words.iter() {
        for addr in 0x4000usize..0x4008 {
            let (patched, orig) = patch_word(word, addr, TRAP_BYTE);
            let (restored, trap) = patch_word(patched, addr, orig);
            assert_eq!(restored, word);
            assert_eq!(trap, TRAP_BYTE);
        }
    }
}

#[test]
fn new_needs_initial_trap_stop() {
    let table = BreakpointTable::new();
    assert!(Inferior::new(PID, Status::Stopped(SIGTRAP, 0x1000), &table).is_some());
    assert!(Inferior::new(PID, Status::Stopped(11, 0x1000), &table).is_none());
    assert!(Inferior::new(PID, Status::Exited(0), &table).is_none());
    assert!(Inferior::new(PID, Status::Signaled(9), &table).is_none());
}

/// Runs a debugger with one breakpoint at `bp` up to the stop on it.
fn stopped_at_breakpoint(bp: usize) -> Debugger {
    let mut d = Debugger::new();
    assert_eq!(d.add_breakpoint(Some(bp)), Ok((0, bp)));
    let a = d.start(PID, Status::Stopped(SIGTRAP, 0x7000)).unwrap();
    assert_eq!(a, Action::WriteByte(bp, TRAP_BYTE));
    assert_eq!(d.on_event(Event::Byte(0x55)), Action::ReadPc);
    assert_eq!(d.on_event(Event::Pc(0x7000)), Action::Cont);
    assert_eq!(d.on_event(Event::Stop(Status::Stopped(SIGTRAP, bp + 1))), Action::WriteByte(bp, 0x55));
    assert_eq!(d.on_event(Event::Byte(TRAP_BYTE)), Action::SetPc(bp));
    assert_eq!(d.on_event(Event::Done), Action::Report(Status::Stopped(SIGTRAP, bp)));
    d
}

#[test]
fn breakpoint_on_main_stops_at_its_address() {
    let main_addr: usize = 0x401136;
    let d = stopped_at_breakpoint(main_addr);
    assert_eq!(d.stopped_process(), Ok(PID));
}

#[test]
fn hit_reports_breakpoint_address_not_one_past() {
    let d = stopped_at_breakpoint(0x401000);
    assert_eq!(d.pid(), Some(PID));
}

#[test]
fn stop_elsewhere_is_reported_as_is() {
    let mut d = Debugger::new();
    d.add_breakpoint(Some(0x401000)).unwrap();
    d.start(PID, Status::Stopped(SIGTRAP, 0x7000)).unwrap();
    d.on_event(Event::Byte(0x90));
    d.on_event(Event::Pc(0x7000));
    assert_eq!(d.on_event(Event::Stop(Status::Stopped(11, 0x402000))), Action::Report(Status::Stopped(11, 0x402000)));
    assert_eq!(d.pid(), Some(PID));
}

#[test]
fn resume_steps_over_current_breakpoint() {
    let bp: usize = 0x401000;
    let mut d = stopped_at_breakpoint(bp);
    // The trap that was hit is back in memory before the process moves on.
    assert_eq!(d.resume(), Ok(Action::WriteByte(bp, TRAP_BYTE)));
    assert_eq!(d.on_event(Event::Byte(0x55)), Action::ReadPc);
    assert_eq!(d.on_event(Event::Pc(bp)), Action::WriteByte(bp, 0x55));
    assert_eq!(d.on_event(Event::Byte(TRAP_BYTE)), Action::Step);
    assert_eq!(d.on_event(Event::Stop(Status::Stopped(SIGTRAP, bp + 3))), Action::WriteByte(bp, TRAP_BYTE));
    assert_eq!(d.on_event(Event::Byte(0x55)), Action::Cont);
    assert_eq!(d.on_event(Event::Stop(Status::Exited(0))), Action::Report(Status::Exited(0)));
    assert_eq!(d.pid(), None);
}

#[test]
fn process_ending_during_step_is_reported() {
    let bp: usize = 0x401000;
    let mut d = stopped_at_breakpoint(bp);
    d.resume().unwrap();
    d.on_event(Event::Byte(0x55));
    d.on_event(Event::Pc(bp));
    d.on_event(Event::Byte(TRAP_BYTE));
    assert_eq!(d.on_event(Event::Stop(Status::Signaled(9))), Action::Report(Status::Signaled(9)));
    assert_eq!(d.resume(), Err(DebugError::NoProcess));
}

#[test]
fn install_skips_installed_breakpoints() {
    let mut table = BreakpointTable::new();
    table.add(0x401000);
    let mut inf = Inferior::new(PID, Status::Stopped(SIGTRAP, 0x7000), &table).unwrap();
    assert_eq!(inf.begin_resume(&table), Action::WriteByte(0x401000, TRAP_BYTE));
    assert_eq!(inf.advance(Event::Byte(0x48)), Action::ReadPc);
    assert_eq!(inf.advance(Event::Pc(0x7000)), Action::Cont);
    assert_eq!(inf.advance(Event::Stop(Status::Stopped(11, 0x5000))), Action::Report(Status::Stopped(11, 0x5000)));
    // A breakpoint set meanwhile is installed; the first one is left alone.
    table.add(0x402000);
    assert_eq!(inf.begin_resume(&table), Action::WriteByte(0x402000, TRAP_BYTE));
    assert_eq!(inf.advance(Event::Byte(0x31)), Action::ReadPc);
    let p = inf.patches();
    assert_eq!(p.len(), 2);
    assert_eq!(p[0].bp.orig_byte, 0x48);
    assert!(p[0].installed);
    assert_eq!(p[1].bp.orig_byte, 0x31);
    assert!(p[1].installed);
}

#[test]
fn failed_operation_makes_controller_defunct() {
    let mut d = Debugger::new();
    d.add_breakpoint(Some(0x401000)).unwrap();
    d.start(PID, Status::Stopped(SIGTRAP, 0x7000)).unwrap();
    assert_eq!(d.on_event(Event::Failed), Action::Fail);
    assert_eq!(d.pid(), None);
    assert_eq!(d.resume(), Err(DebugError::NoProcess));
    assert_eq!(d.break_points().len(), 1);
}

#[test]
fn unexpected_event_fails_the_resume() {
    let mut d = Debugger::new();
    d.start(PID, Status::Stopped(SIGTRAP, 0x7000)).unwrap();
    assert_eq!(d.on_event(Event::Done), Action::Fail);
    assert_eq!(d.pid(), None);
}

#[test]
fn spawn_without_trap_stop_is_an_error() {
    let mut d = Debugger::new();
    assert_eq!(d.start(PID, Status::Exited(127)), Err(DebugError::Spawn));
    assert_eq!(d.pid(), None);
}

#[test]
fn unresolved_line_leaves_table_unchanged() {
    let mut d = Debugger::new();
    d.add_breakpoint(Some(0x401000)).unwrap();
    assert_eq!(d.add_breakpoint(None), Err(DebugError::Resolution));
    assert_eq!(d.break_points().len(), 1);
}

#[test]
fn continue_without_run_reports_no_process() {
    let mut d = Debugger::new();
    assert_eq!(d.resume(), Err(DebugError::NoProcess));
    assert_eq!(d.stopped_process(), Err(DebugError::NoProcess));
}

#[test]
fn run_to_completion_reports_exit_code() {
    let mut d = Debugger::new();
    assert_eq!(d.start(PID, Status::Stopped(SIGTRAP, 0x7000)), Ok(Action::ReadPc));
    assert_eq!(d.on_event(Event::Pc(0x7000)), Action::Cont);
    assert_eq!(d.on_event(Event::Stop(Status::Exited(3))), Action::Report(Status::Exited(3)));
    assert_eq!(d.resume(), Err(DebugError::NoProcess));
}

#[test]
fn quit_at_breakpoint_kills_and_forgets_process() {
    let mut d = stopped_at_breakpoint(0x401000);
    assert_eq!(d.take_process(), Some(PID));
    assert_eq!(d.stopped_process(), Err(DebugError::NoProcess));
    assert_eq!(d.take_process(), None);
}

#[test]
fn run_again_gives_up_previous_process_first() {
    let mut d = stopped_at_breakpoint(0x401000);
    assert_eq!(d.take_process(), Some(PID));
    assert_eq!(d.pid(), None);
    let a = d.start(PID + 1, Status::Stopped(SIGTRAP, 0x7000)).unwrap();
    assert_eq!(a, Action::WriteByte(0x401000, TRAP_BYTE));
    assert_eq!(d.pid(), Some(PID + 1));
}

#[test]
fn duplicate_breakpoint_reports_existing_index() {
    let mut d = Debugger::new();
    assert_eq!(d.add_breakpoint(Some(0x10)), Ok((0, 0x10)));
    assert_eq!(d.add_breakpoint(Some(0x20)), Ok((1, 0x20)));
    assert_eq!(d.add_breakpoint(Some(0x10)), Ok((0, 0x10)));
    assert_eq!(d.break_points().len(), 2);
    assert_eq!(d.break_points().index_of(0x20), Some(1));
    assert_eq!(d.break_points().index_of(0x30), None);
}

#[test]
fn error_messages_are_distinct() {
    let all = [
        DebugError::NoProcess,
        DebugError::Spawn,
        DebugError::Resolution,
        DebugError::TraceOperation,
        DebugError::StackWalk,
    ];
    for i in 0..all.len() {
        for j in 0..all.len() {
            if i != j {
                assert_ne!(all[i].message(), all[j].message());
            }
        }
    }
}

#[test]
fn next_runs_to_transient_trap_and_lifts_it() {
    let bp: usize = 0x401000;
    let line: usize = 0x401010;
    let mut d = stopped_at_breakpoint(bp);
    assert_eq!(d.begin_next(line), Ok(Action::WriteByte(line, TRAP_BYTE)));
    assert_eq!(d.stopped_process(), Err(DebugError::NoProcess));
    assert_eq!(d.on_event(Event::Byte(0x8b)), Action::WriteByte(bp, TRAP_BYTE));
    assert_eq!(d.on_event(Event::Byte(0x55)), Action::ReadPc);
    assert_eq!(d.on_event(Event::Pc(bp)), Action::WriteByte(bp, 0x55));
    assert_eq!(d.on_event(Event::Byte(TRAP_BYTE)), Action::Step);
    assert_eq!(d.on_event(Event::Stop(Status::Stopped(SIGTRAP, bp + 4))), Action::WriteByte(bp, TRAP_BYTE));
    assert_eq!(d.on_event(Event::Byte(0x55)), Action::Cont);
    assert_eq!(d.on_event(Event::Stop(Status::Stopped(SIGTRAP, line + 1))), Action::WriteByte(line, 0x8b));
    assert_eq!(d.on_event(Event::Byte(TRAP_BYTE)), Action::SetPc(line));
    assert_eq!(d.on_event(Event::Done), Action::Report(Status::Stopped(SIGTRAP, line)));
    assert_eq!(d.stopped_process(), Ok(PID));
}

#[test]
fn next_lifts_transient_trap_when_stopping_elsewhere() {
    let line: usize = 0x401010;
    let mut d = Debugger::new();
    d.start(PID, Status::Stopped(SIGTRAP, 0x7000)).unwrap();
    d.on_event(Event::Pc(0x7000));
    d.on_event(Event::Stop(Status::Stopped(11, 0x7100)));
    assert_eq!(d.begin_next(line), Ok(Action::WriteByte(line, TRAP_BYTE)));
    assert_eq!(d.on_event(Event::Byte(0x90)), Action::ReadPc);
    assert_eq!(d.on_event(Event::Pc(0x7100)), Action::Cont);
    assert_eq!(d.on_event(Event::Stop(Status::Stopped(11, 0x7200))), Action::WriteByte(line, 0x90));
    assert_eq!(d.on_event(Event::Byte(TRAP_BYTE)), Action::Report(Status::Stopped(11, 0x7200)));
}

#[test]
fn next_onto_breakpoint_is_a_plain_resume() {
    let bp: usize = 0x401000;
    let mut d = Debugger::new();
    d.add_breakpoint(Some(bp)).unwrap();
    d.start(PID, Status::Stopped(SIGTRAP, 0x7000)).unwrap();
    d.on_event(Event::Byte(0x55));
    d.on_event(Event::Pc(0x7000));
    d.on_event(Event::Stop(Status::Stopped(11, 0x7100)));
    assert_eq!(d.begin_next(bp), Ok(Action::ReadPc));
}

#[test]
fn next_where_process_exits() {
    let mut d = stopped_at_breakpoint(0x401000);
    d.begin_next(0x401010).unwrap();
    d.on_event(Event::Byte(0x8b));
    d.on_event(Event::Byte(0x55));
    d.on_event(Event::Pc(0x5000));
    assert_eq!(d.on_event(Event::Stop(Status::Exited(0))), Action::Report(Status::Exited(0)));
    assert_eq!(d.pid(), None);
    assert_eq!(d.begin_next(0x401010), Err(DebugError::NoProcess));
}

#[test]
fn next_without_process_reports_no_process() {
    let mut d = Debugger::new();
    assert_eq!(d.begin_next(0x401010), Err(DebugError::NoProcess));
}
