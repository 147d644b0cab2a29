//! The debugger's orchestration: the breakpoint table, at most one process
//! controller, and the rules on which command may act on which state.
use vstd::prelude::*;
use crate::breakpoint::BreakpointTable;
use crate::inferior::{install_from, patch_addrs, synced, transition, Action, Event, Inferior, InferiorState, Phase, Status, SIGTRAP};
use crate::word::TRAP_BYTE;

verus! {

/// Why a command could not be carried out.
#[derive(Clone, Copy, PartialEq, Eq, Structural, Debug)]
pub enum DebugError {
    /// The command needs a stopped process and there is none.
    NoProcess,
    /// The target could not be started, or did not stop before its own code.
    Spawn,
    /// A breakpoint's target resolved to no address.
    Resolution,
    /// An operation on the traced process failed.
    TraceOperation,
    /// The frame chain was too long or led to unreadable memory.
    StackWalk,
}

impl DebugError {
    /// A message for the user.
    pub fn message(&self) -> (r: &'static str) {
        match self {
            DebugError::NoProcess => "no process is running; use 'run' to start one",
            DebugError::Spawn => "could not start the target under tracing",
            DebugError::Resolution => "the breakpoint's target resolves to no address",
            DebugError::TraceOperation => "an operation on the traced process failed",
            DebugError::StackWalk => "the frame chain cannot be followed",
        }
    }
}

/// Where a `Next` stands.
#[derive(Clone, Copy, PartialEq, Eq, Structural, Debug)]
pub enum NextPhase {
    /// Waiting for the byte that the transient trap replaced.
    Arming,
    /// The controller is resuming the process.
    Resuming,
    /// Waiting for the transient trap to be lifted; then report the status,
    /// after moving the program counter back onto the trap if the flag says so.
    Lifting(Status, bool),
    /// Waiting for the program counter to be moved back; then report.
    Rewinding(Status),
}

/// A `Next` under way: the transient trap at the next line's address.
#[derive(Clone, Copy, PartialEq, Eq, Structural, Debug)]
pub struct NextStep {
    pub addr: usize,
    pub orig_byte: u8,
    pub phase: NextPhase,
}

/// After the controller's action `a` in a `Next` with transient trap `n`:
/// a stop of a live process first lifts the transient trap, and a stop one
/// past it is reported at the trap's address.
pub open spec fn on_report(n: NextStep, a: Action, live: bool) -> (Option<NextStep>, Action) {
    match a {
        Action::Report(Status::Stopped(sig, pc)) => if live {
            let hit = pc as int == n.addr + 1;
            let st = if hit { Status::Stopped(sig, n.addr) } else { Status::Stopped(sig, pc) };
            (Some(NextStep { phase: NextPhase::Lifting(st, hit), ..n }), Action::WriteByte(n.addr, n.orig_byte))
        } else {
            (None, Action::Fail)
        },
        Action::Report(_) | Action::Fail => (None, a),
        _ => (Some(n), a),
    }
}

/// The debugger's state: the breakpoints, the controller of the traced
/// process if there is one, and the `Next` under way if there is one.
pub struct Debugger {
    break_points: BreakpointTable,
    inferior: Option<Inferior>,
    next: Option<NextStep>,
}

impl Debugger {
    /// The addresses of the breakpoints, in the order they were set.
    pub closed spec fn table(&self) -> Seq<usize> {
        self.break_points@
    }

    /// The controller's state, if there is a controller.
    pub closed spec fn controller(&self) -> Option<InferiorState> {
        match self.inferior {
            Some(inf) => Some(inf@),
            None => None,
        }
    }

    /// The id of the traced process, if there is one.
    pub closed spec fn process(&self) -> Option<i32> {
        match self.inferior {
            Some(inf) => Some(inf.pid_spec()),
            None => None,
        }
    }

    /// The `Next` under way, if any.
    pub closed spec fn next_step(&self) -> Option<NextStep> {
        self.next
    }

    /// The table is well formed; a controller is live, knows a prefix of
    /// the table, and exists exactly when there is a process; a `Next` is
    /// under way only with a controller, which is idle except while resuming.
    pub closed spec fn wf(&self) -> bool {
        &&& self.break_points.wf()
        &&& match self.next {
            Some(n) => self.inferior matches Some(inf) && (n.phase == NextPhase::Resuming || inf@.phase == Phase::Idle),
            None => true,
        }
        &&& match self.inferior {
            Some(inf) => {
                &&& inf.wf()
                &&& inf@.live
                &&& inf@.patches.len() <= self.break_points@.len()
                &&& patch_addrs(inf@.patches) == self.break_points@.subrange(0, inf@.patches.len() as int)
            },
            None => true,
        }
    }

    /// A debugger with no breakpoint and no process.
    pub fn new() -> (r: Debugger)
        ensures
            r.wf(),
            r.table() == Seq::<usize>::empty(),
            r.controller().is_none(),
            r.next_step().is_none(),
    {
        Debugger { break_points: BreakpointTable::new(), inferior: None, next: None }
    }

    pub fn break_points(&self) -> (r: &BreakpointTable)
        ensures
            r@ == self.table(),
    {
        &self.break_points
    }

    /// The id of the traced process, if there is one.
    pub fn pid(&self) -> (r: Option<i32>)
        ensures
            r == self.process(),
            r.is_some() == self.controller().is_some(),
    {
        match &self.inferior {
            Some(inf) => Some(inf.pid()),
            None => None,
        }
    }

    /// Gives up the controller, if any, and returns the id of its process,
    /// which the caller must kill and reap. `Run` does this before it starts
    /// a new process, and `Quit` before it leaves.
    pub fn take_process(&mut self) -> (r: Option<i32>)
        requires
            old(self).wf(),
        ensures
            final(self).wf(),
            r == old(self).process(),
            final(self).controller().is_none(),
            final(self).next_step().is_none(),
            final(self).table() == old(self).table(),
    {
        let r = self.pid();
        self.inferior = None;
        self.next = None;
        r
    }

    /// Takes control of a process just spawned with tracing, given its id
    /// and how it stood after its first wait, and starts resuming it with
    /// all breakpoints installed. Only one controller exists at a time: the
    /// previous one must have been given up.
    pub fn start(&mut self, pid: i32, initial: Status) -> (r: Result<Action, DebugError>)
        requires
            old(self).wf(),
            old(self).controller().is_none(),
        ensures
            final(self).wf(),
            final(self).table() == old(self).table(),
            final(self).next_step().is_none(),
            r is Err <==> !(initial matches Status::Stopped(sig, _) && sig == SIGTRAP),
            r is Err ==> r == Err::<Action, DebugError>(DebugError::Spawn) && final(self).controller().is_none(),
            r matches Ok(a) ==> final(self).process() == Some(pid),
            r matches Ok(a) ==> (if old(self).table().len() > 0 {
                a == Action::WriteByte(old(self).table()[0], TRAP_BYTE)
            } else {
                a == Action::ReadPc
            }),
            r matches Ok(a) ==> final(self).controller() matches Some(c) && {
                let s0 = InferiorState { patches: c.patches, phase: Phase::Idle, live: true };
                &&& patch_addrs(c.patches) == old(self).table()
                &&& forall|i: int| 0 <= i < c.patches.len() ==> !(#[trigger] c.patches[i]).installed
                &&& (c, a) == install_from(s0, 0)
            },
    {
        self.next = None;
        match Inferior::new(pid, initial, &self.break_points) {
            None => Err(DebugError::Spawn),
            Some(mut inf) => {
                proof {
                    assert(self.break_points@.subrange(0, inf@.patches.len() as int) =~= self.break_points@);
                }
                let ghost before = inf@;
                let a = inf.begin_resume(&self.break_points);
                assert(inf@.patches == before.patches);
                proof {
                    if self.break_points@.len() > 0 {
                        assert(patch_addrs(inf@.patches)[0] == inf@.patches[0].bp.addr);
                        assert(!inf@.patches[0].installed);
                    }
                }
                self.inferior = Some(inf);
                Ok(a)
            },
        }
    }

    /// `Continue`: resumes the stopped process, after installing the traps
    /// of all breakpoints, those set since it last ran included.
    pub fn resume(&mut self) -> (r: Result<Action, DebugError>)
        requires
            old(self).wf(),
        ensures
            final(self).wf(),
            final(self).table() == old(self).table(),
            final(self).process() == old(self).process(),
            final(self).next_step() == old(self).next_step(),
            r is Err <==> !(old(self).controller() matches Some(c) && c.phase == Phase::Idle && old(self).next_step().is_none()),
            r is Err ==> r == Err::<Action, DebugError>(DebugError::NoProcess) && final(self).controller() == old(self).controller(),
            r matches Ok(a) ==> (old(self).controller() matches Some(c0) && final(self).controller() matches Some(c) && {
                let synced = InferiorState { patches: c.patches, ..c0 };
                &&& patch_addrs(c.patches) == old(self).table()
                &&& forall|i: int| 0 <= i < c0.patches.len() ==> c.patches[i] == c0.patches[i]
                &&& (c, a) == install_from(synced, 0)
            }),
    {
        if self.next.is_some() {
            return Err(DebugError::NoProcess);
        }
        match self.inferior.take() {
            None => Err(DebugError::NoProcess),
            Some(mut inf) => {
                if !inf.is_idle() {
                    self.inferior = Some(inf);
                    return Err(DebugError::NoProcess);
                }
                let a = inf.begin_resume(&self.break_points);
                assert(self.break_points@.subrange(0, self.break_points@.len() as int) =~= self.break_points@);
                self.inferior = Some(inf);
                Ok(a)
            },
        }
    }

    /// Hands the event that answered the last action on: to the controller
    /// during a resume, or to the `Next` under way (see [`Debugger::on_next_event`]).
    /// When a resume ends with the process gone, or with a failed
    /// operation, the controller is given up.
    pub fn on_event(&mut self, ev: Event) -> (r: Action)
        requires
            old(self).wf(),
            old(self).controller().is_some(),
        ensures
            final(self).wf(),
            final(self).table() == old(self).table(),
            old(self).next_step().is_none() ==> {
                &&& final(self).next_step().is_none()
                &&& r == transition(old(self).controller().unwrap(), ev).1
                &&& final(self).controller().is_some() == transition(old(self).controller().unwrap(), ev).0.live
                &&& final(self).controller().is_some() ==> final(self).controller() == Some(
                    transition(old(self).controller().unwrap(), ev).0,
                ) && final(self).process() == old(self).process()
            },
            old(self).next_step() matches Some(n) ==> next_event_ok(old(self), final(self), n, ev, r),
    {
        if self.next.is_some() {
            return self.on_next_event(ev);
        }
        self.forward(ev)
    }

    fn forward(&mut self, ev: Event) -> (r: Action)
        requires
            old(self).wf(),
            old(self).controller().is_some(),
            old(self).next_step().is_none() || old(self).next_step().unwrap().phase == NextPhase::Resuming,
        ensures
            final(self).table() == old(self).table(),
            final(self).next_step() == old(self).next_step(),
            r == transition(old(self).controller().unwrap(), ev).1,
            final(self).controller().is_some() == transition(old(self).controller().unwrap(), ev).0.live,
            final(self).controller().is_some() ==> final(self).controller() == Some(
                transition(old(self).controller().unwrap(), ev).0,
            ) && final(self).process() == old(self).process(),
            final(self).break_points.wf(),
            match final(self).inferior {
                Some(inf) => {
                    &&& inf.wf()
                    &&& inf@.live
                    &&& inf@.patches.len() <= final(self).break_points@.len()
                    &&& patch_addrs(inf@.patches) == final(self).break_points@.subrange(0, inf@.patches.len() as int)
                },
                None => true,
            },
    {
        match self.inferior.take() {
            None => Action::Fail,
            Some(mut inf) => {
                let a = inf.advance(ev);
                if inf.is_live() {
                    self.inferior = Some(inf);
                }
                a
            },
        }
    }

    /// `Next`: runs to `addr`, the address of the source line after the
    /// current one, with a transient trap there that is lifted whatever the
    /// outcome. Where `addr` holds a breakpoint already, this is `Continue`.
    /// The process must be stopped, with no `Next` under way.
    pub fn begin_next(&mut self, addr: usize) -> (r: Result<Action, DebugError>)
        requires
            old(self).wf(),
        ensures
            final(self).wf(),
            final(self).table() == old(self).table(),
            final(self).process() == old(self).process(),
            r is Err <==> !(old(self).controller() matches Some(c) && c.phase == Phase::Idle && old(self).next_step().is_none()),
            r is Err ==> r == Err::<Action, DebugError>(DebugError::NoProcess) && final(self).controller() == old(self).controller()
                && final(self).next_step() == old(self).next_step(),
            r is Ok && old(self).table().contains(addr) ==> final(self).next_step().is_none(),
            r is Ok && !old(self).table().contains(addr) ==> {
                &&& r == Ok::<Action, DebugError>(Action::WriteByte(addr, TRAP_BYTE))
                &&& final(self).next_step() matches Some(n) && n.addr == addr && n.phase == NextPhase::Arming
                &&& final(self).controller() == old(self).controller()
            },
    {
        if self.next.is_some() {
            return Err(DebugError::NoProcess);
        }
        match &self.inferior {
            None => {
                return Err(DebugError::NoProcess);
            },
            Some(inf) => {
                if !inf.is_idle() {
                    return Err(DebugError::NoProcess);
                }
            },
        }
        if self.break_points.index_of(addr).is_some() {
            return self.resume();
        }
        self.next = Some(NextStep { addr, orig_byte: 0, phase: NextPhase::Arming });
        Ok(Action::WriteByte(addr, TRAP_BYTE))
    }

    /// The steps of a `Next`: the transient trap goes in, the controller
    /// resumes, the trap comes out, and a stop on it is reported at its
    /// address.
    fn on_next_event(&mut self, ev: Event) -> (r: Action)
        requires
            old(self).wf(),
            old(self).next_step().is_some(),
        ensures
            final(self).wf(),
            final(self).table() == old(self).table(),
            next_event_ok(old(self), final(self), old(self).next_step().unwrap(), ev, r),
    {
        let n = self.next.unwrap();
        match (n.phase, ev) {
            (NextPhase::Arming, Event::Byte(b)) => {
                self.next = Some(NextStep { addr: n.addr, orig_byte: b, phase: NextPhase::Resuming });
                match self.inferior.take() {
                    None => Action::Fail,
                    Some(mut inf) => {
                        let a = inf.begin_resume(&self.break_points);
                        assert(self.break_points@.subrange(0, self.break_points@.len() as int) =~= self.break_points@);
                        self.inferior = Some(inf);
                        a
                    },
                }
            },
            (NextPhase::Resuming, _) => {
                let a = self.forward(ev);
                let live = self.inferior.is_some();
                match a {
                    Action::Report(Status::Stopped(sig, pc)) => {
                        if live {
                            let hit = pc > 0 && pc - 1 == n.addr;
                            let st = if hit { Status::Stopped(sig, n.addr) } else { Status::Stopped(sig, pc) };
                            self.next = Some(NextStep { addr: n.addr, orig_byte: n.orig_byte, phase: NextPhase::Lifting(st, hit) });
                            Action::WriteByte(n.addr, n.orig_byte)
                        } else {
                            self.next = None;
                            Action::Fail
                        }
                    },
                    Action::Report(_) | Action::Fail => {
                        self.next = None;
                        a
                    },
                    _ => a,
                }
            },
            (NextPhase::Lifting(st, rewind), Event::Byte(_)) => {
                if rewind {
                    self.next = Some(NextStep { addr: n.addr, orig_byte: n.orig_byte, phase: NextPhase::Rewinding(st) });
                    Action::SetPc(n.addr)
                } else {
                    self.next = None;
                    Action::Report(st)
                }
            },
            (NextPhase::Rewinding(st), Event::Done) => {
                self.next = None;
                Action::Report(st)
            },
            _ => {
                self.next = None;
                self.inferior = None;
                Action::Fail
            },
        }
    }

    /// `Break`: adds a breakpoint at the address its target resolved to, or
    /// fails when it resolved to none. Returns the breakpoint's position and
    /// address; a second breakpoint at one address is not made. A process
    /// that is stopped now gets the new trap when it is next resumed.
    pub fn add_breakpoint(&mut self, addr: Option<usize>) -> (r: Result<(usize, usize), DebugError>)
        requires
            old(self).wf(),
        ensures
            final(self).wf(),
            final(self).controller() == old(self).controller(),
            final(self).process() == old(self).process(),
            final(self).next_step() == old(self).next_step(),
            addr.is_none() ==> r == Err::<(usize, usize), DebugError>(DebugError::Resolution) && final(self).table() == old(self).table(),
            addr matches Some(a) ==> r matches Ok((i, ra)) && ra == a && {
                if old(self).table().contains(a) {
                    final(self).table() == old(self).table() && old(self).table()[i as int] == a
                } else {
                    final(self).table() == old(self).table().push(a) && i == old(self).table().len()
                }
            },
    {
        match addr {
            None => Err(DebugError::Resolution),
            Some(a) => {
                let ghost before = self.break_points@;
                let (i, _) = self.break_points.add(a);
                proof {
                    if let Some(inf) = &self.inferior {
                        assert(before.subrange(0, inf@.patches.len() as int) =~= self.break_points@.subrange(0, inf@.patches.len() as int));
                    }
                }
                Ok((i, a))
            },
        }
    }

    /// `Backtrace` and `Next`: the id of the stopped process to inspect.
    pub fn stopped_process(&self) -> (r: Result<i32, DebugError>)
        ensures
            r is Ok <==> (self.controller() matches Some(c) && c.phase == Phase::Idle && self.next_step().is_none()),
            r is Err ==> r == Err::<i32, DebugError>(DebugError::NoProcess),
            r matches Ok(pid) ==> self.process() == Some(pid),
    {
        if self.next.is_some() {
            return Err(DebugError::NoProcess);
        }
        match &self.inferior {
            Some(inf) => {
                if inf.is_idle() {
                    Ok(inf.pid())
                } else {
                    Err(DebugError::NoProcess)
                }
            },
            None => Err(DebugError::NoProcess),
        }
    }
}

/// One step of a `Next` with transient trap `n`, from debugger `d0` to
/// `d1` on event `ev`, giving action `r`.
pub open spec fn next_event_ok(d0: &Debugger, d1: &Debugger, n: NextStep, ev: Event, r: Action) -> bool {
    match (n.phase, ev) {
        (NextPhase::Arming, Event::Byte(b)) => d0.controller() matches Some(c0) && {
            let s = InferiorState { patches: synced(c0.patches, d0.table()), ..c0 };
            &&& d1.controller() == Some(install_from(s, 0).0)
            &&& r == install_from(s, 0).1
            &&& d1.next_step() == Some(NextStep { addr: n.addr, orig_byte: b, phase: NextPhase::Resuming })
        },
        (NextPhase::Resuming, _) => d0.controller() matches Some(c0) && {
            let (c1, a) = transition(c0, ev);
            let (n1, r1) = on_report(n, a, c1.live);
            &&& r == r1
            &&& d1.next_step() == n1
            &&& c1.live ==> d1.controller() == Some(c1)
            &&& !c1.live ==> d1.controller().is_none()
        },
        (NextPhase::Lifting(st, true), Event::Byte(_)) =>
            r == Action::SetPc(n.addr) && d1.next_step() == Some(NextStep { phase: NextPhase::Rewinding(st), ..n })
                && d1.controller() == d0.controller(),
        (NextPhase::Lifting(st, false), Event::Byte(_)) =>
            r == Action::Report(st) && d1.next_step().is_none() && d1.controller() == d0.controller(),
        (NextPhase::Rewinding(st), Event::Done) =>
            r == Action::Report(st) && d1.next_step().is_none() && d1.controller() == d0.controller(),
        _ => r == Action::Fail && d1.next_step().is_none() && d1.controller().is_none(),
    }
}

} // verus!
