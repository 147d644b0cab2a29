//! The process controller: bookkeeping for one traced process and the
//! decisions taken while it is resumed.
//!
//! The controller does no system calls itself. Each decision is an
//! [`Action`] for the caller to perform on the process; the caller answers
//! with the [`Event`] it observed, until the controller gives a report.
use vstd::prelude::*;
use crate::breakpoint::{Breakpoint, BreakpointTable};
use crate::word::TRAP_BYTE;

verus! {

/// The signal number of `SIGTRAP`.
pub const SIGTRAP: i32 = 5;

/// How a traced process stood after a wait.
#[derive(Clone, Copy, PartialEq, Eq, Structural, Debug)]
pub enum Status {
    /// Stopped by a signal (its number) at a program counter.
    Stopped(i32, usize),
    /// Exited normally, with its exit code.
    Exited(i32),
    /// Killed by a signal (its number).
    Signaled(i32),
}

/// A breakpoint as the live process holds it: its address and the byte that
/// the trap replaced, and whether the trap is in memory now. The cached byte
/// is authoritative only while the trap is installed.
#[derive(Clone, Copy, PartialEq, Eq, Structural, Debug)]
pub struct Patch {
    pub bp: Breakpoint,
    pub installed: bool,
}

/// Where the controller is in a resume.
#[derive(Clone, Copy, PartialEq, Eq, Structural, Debug)]
pub enum Phase {
    /// Stopped, with no operation under way.
    Idle,
    /// Waiting for the byte that the trap replaced at a patch.
    Install(usize),
    /// Waiting for the program counter.
    CheckPc,
    /// Waiting for the trap at the current patch to be lifted before a step.
    LiftForStep(usize),
    /// Waiting for the single step over a patch to stop.
    Stepping(usize),
    /// Waiting for the trap at a patch to be written back after the step.
    Rearm(usize),
    /// Waiting for the process to stop after a continue.
    Running,
    /// Waiting for the trap at a hit patch to be lifted (signal of the stop).
    Lift(usize, i32),
    /// Waiting for the program counter to be moved back onto a hit patch.
    Rewind(usize, i32),
}

/// An operation the caller performs on the traced process.
#[derive(Clone, Copy, PartialEq, Eq, Structural, Debug)]
pub enum Action {
    /// Write the byte at an address (through its aligned word); answer with
    /// `Event::Byte` and the byte that was there.
    WriteByte(usize, u8),
    /// Read the program counter; answer with `Event::Pc`.
    ReadPc,
    /// Set the program counter; answer with `Event::Done`.
    SetPc(usize),
    /// Execute one instruction and wait; answer with `Event::Stop`.
    Step,
    /// Let the process run and wait; answer with `Event::Stop`.
    Cont,
    /// The resume is over: how the process stands now.
    Report(Status),
    /// The resume is over: an operation on the process failed.
    Fail,
}

/// What the caller observed after performing an action.
#[derive(Clone, Copy, PartialEq, Eq, Structural, Debug)]
pub enum Event {
    Byte(u8),
    Pc(usize),
    Done,
    Stop(Status),
    /// The operation failed.
    Failed,
}

/// The controller's state as the contracts see it.
pub struct InferiorState {
    pub patches: Seq<Patch>,
    pub phase: Phase,
    pub live: bool,
}

/// The first patch at or after `from` whose trap is not in memory, or the
/// number of patches if there is none.
pub open spec fn first_uninstalled(p: Seq<Patch>, from: int) -> int
    decreases p.len() - from,
{
    if from >= p.len() {
        p.len() as int
    } else if from < 0 {
        first_uninstalled(p, 0)
    } else if !p[from].installed {
        from
    } else {
        first_uninstalled(p, from + 1)
    }
}

/// The first patch at or after `from` whose address is `addr`, or the
/// number of patches if there is none.
pub open spec fn find_from(p: Seq<Patch>, addr: usize, from: int) -> int
    decreases p.len() - from,
{
    if from < 0 || from >= p.len() {
        p.len() as int
    } else if p[from].bp.addr == addr {
        from
    } else {
        find_from(p, addr, from + 1)
    }
}

/// The position of the patch at `addr`, or the number of patches.
pub open spec fn find_patch(p: Seq<Patch>, addr: usize) -> int {
    find_from(p, addr, 0)
}

/// Whether a trap is in memory at `addr`, as one of the patches.
pub open spec fn trap_at(p: Seq<Patch>, addr: usize) -> bool {
    find_patch(p, addr) < p.len() && p[find_patch(p, addr)].installed
}

pub open spec fn set_installed(p: Seq<Patch>, i: int, on: bool) -> Seq<Patch> {
    p.update(i, Patch { bp: p[i].bp, installed: on })
}

/// Goes on installing traps from patch `from` on; once all are in, reads the
/// program counter.
pub open spec fn install_from(s: InferiorState, from: int) -> (InferiorState, Action) {
    let i = first_uninstalled(s.patches, from);
    if i < s.patches.len() {
        (InferiorState { phase: Phase::Install(i as usize), ..s }, Action::WriteByte(s.patches[i].bp.addr, TRAP_BYTE))
    } else {
        (InferiorState { phase: Phase::CheckPc, ..s }, Action::ReadPc)
    }
}

/// The end of a resume: report `st`; the controller is live while the
/// process is stopped.
pub open spec fn report(s: InferiorState, st: Status) -> (InferiorState, Action) {
    (InferiorState { phase: Phase::Idle, live: st is Stopped, ..s }, Action::Report(st))
}

/// The end of a resume on a failed operation: the controller is defunct.
pub open spec fn fail(s: InferiorState) -> (InferiorState, Action) {
    (InferiorState { phase: Phase::Idle, live: false, ..s }, Action::Fail)
}

/// The controller's step: from its state and the event that answered its
/// last action, to its next state and action.
pub open spec fn transition(s: InferiorState, ev: Event) -> (InferiorState, Action) {
    let p = s.patches;
    match (s.phase, ev) {
        (Phase::Install(i), Event::Byte(b)) => install_from(
            InferiorState {
                patches: p.update(i as int, Patch { bp: Breakpoint { addr: p[i as int].bp.addr, orig_byte: b }, installed: true }),
                ..s
            },
            i + 1,
        ),
        (Phase::CheckPc, Event::Pc(pc)) => if trap_at(p, pc) {
            let j = find_patch(p, pc);
            (InferiorState { phase: Phase::LiftForStep(j as usize), ..s }, Action::WriteByte(pc, p[j].bp.orig_byte))
        } else {
            (InferiorState { phase: Phase::Running, ..s }, Action::Cont)
        },
        (Phase::LiftForStep(j), Event::Byte(_)) =>
            (InferiorState { patches: set_installed(p, j as int, false), phase: Phase::Stepping(j), ..s }, Action::Step),
        (Phase::Stepping(j), Event::Stop(st)) => if st is Stopped {
            (InferiorState { phase: Phase::Rearm(j), ..s }, Action::WriteByte(p[j as int].bp.addr, TRAP_BYTE))
        } else {
            report(s, st)
        },
        (Phase::Rearm(j), Event::Byte(_)) =>
            (InferiorState { patches: set_installed(p, j as int, true), phase: Phase::Running, ..s }, Action::Cont),
        (Phase::Running, Event::Stop(st)) => match st {
            Status::Stopped(sig, pc) => if pc >= 1 && trap_at(p, (pc - 1) as usize) {
                let j = find_patch(p, (pc - 1) as usize);
                (InferiorState { phase: Phase::Lift(j as usize, sig), ..s }, Action::WriteByte((pc - 1) as usize, p[j].bp.orig_byte))
            } else {
                report(s, st)
            },
            _ => report(s, st),
        },
        (Phase::Lift(j, sig), Event::Byte(_)) =>
            (InferiorState { patches: set_installed(p, j as int, false), phase: Phase::Rewind(j, sig), ..s }, Action::SetPc(p[j as int].bp.addr)),
        (Phase::Rewind(j, sig), Event::Done) => report(s, Status::Stopped(sig, p[j as int].bp.addr)),
        _ => fail(s),
    }
}

/// `p` followed by a patch, not installed, for each address of `t` past
/// the length of `p`.
pub open spec fn synced(p: Seq<Patch>, t: Seq<usize>) -> Seq<Patch> {
    p + Seq::new((t.len() - p.len()) as nat, |k: int| Patch { bp: Breakpoint { addr: t[p.len() + k], orig_byte: 0 }, installed: false })
}

/// The patch addresses, in order.
pub open spec fn patch_addrs(p: Seq<Patch>) -> Seq<usize> {
    p.map_values(|q: Patch| q.bp.addr)
}

/// One traced process, as the controller knows it.
pub struct Inferior {
    pid: i32,
    patches: Vec<Patch>,
    phase: Phase,
    live: bool,
}

impl View for Inferior {
    type V = InferiorState;

    closed spec fn view(&self) -> InferiorState {
        InferiorState { patches: self.patches@, phase: self.phase, live: self.live }
    }
}

/// A phase names a patch only while it exists, and installing only visits
/// patches whose trap is not in memory yet.
pub open spec fn phase_ok(s: InferiorState) -> bool {
    let n = s.patches.len();
    match s.phase {
        Phase::Idle | Phase::CheckPc | Phase::Running => true,
        Phase::Install(i) => i < n && !s.patches[i as int].installed,
        Phase::LiftForStep(i) | Phase::Stepping(i) | Phase::Rearm(i) => i < n,
        Phase::Lift(i, _) | Phase::Rewind(i, _) => i < n,
    }
}

/// Well-formed: patch addresses are distinct and the phase fits the patches.
pub open spec fn state_ok(s: InferiorState) -> bool {
    crate::breakpoint::distinct_addrs(patch_addrs(s.patches)) && phase_ok(s)
}

proof fn lemma_find_from(p: Seq<Patch>, addr: usize, from: int)
    requires
        0 <= from <= p.len(),
    ensures
        from <= find_from(p, addr, from) <= p.len(),
        find_from(p, addr, from) < p.len() ==> p[find_from(p, addr, from)].bp.addr == addr,
        forall|k: int| from <= k < find_from(p, addr, from) ==> p[k].bp.addr != addr,
    decreases p.len() - from,
{
    if from < p.len() && p[from].bp.addr != addr {
        lemma_find_from(p, addr, from + 1);
    }
}

proof fn lemma_first_uninstalled(p: Seq<Patch>, from: int)
    requires
        0 <= from <= p.len(),
    ensures
        from <= first_uninstalled(p, from) <= p.len(),
        first_uninstalled(p, from) < p.len() ==> !p[first_uninstalled(p, from)].installed,
        forall|k: int| from <= k < first_uninstalled(p, from) ==> p[k].installed,
    decreases p.len() - from,
{
    if from < p.len() && p[from].installed {
        lemma_first_uninstalled(p, from + 1);
    }
}

proof fn lemma_same_addrs(p: Seq<Patch>, i: int, q: Patch)
    requires
        0 <= i < p.len(),
        q.bp.addr == p[i].bp.addr,
    ensures
        patch_addrs(p.update(i, q)) == patch_addrs(p),
{
    assert(patch_addrs(p.update(i, q)) =~= patch_addrs(p));
}

proof fn lemma_install_from_ok(s: InferiorState, from: int)
    requires
        crate::breakpoint::distinct_addrs(patch_addrs(s.patches)),
        0 <= from <= s.patches.len(),
        s.patches.len() <= usize::MAX,
    ensures
        state_ok(install_from(s, from).0),
        install_from(s, from).0.patches == s.patches,
        install_from(s, from).0.live == s.live,
{
    lemma_first_uninstalled(s.patches, from);
}

/// The position of the patch at `addr`, or the number of patches.
fn find_patch_exec(p: &Vec<Patch>, addr: usize) -> (r: usize)
    ensures
        r == find_patch(p@, addr),
{
    let mut i: usize = 0;
    while i < p.len()
        invariant
            i <= p@.len(),
            find_patch(p@, addr) == find_from(p@, addr, i as int),
        decreases p@.len() - i,
    {
        if p[i].bp.addr == addr {
            return i;
        }
        i = i + 1;
    }
    i
}

impl Inferior {
    pub open spec fn wf(&self) -> bool {
        state_ok(self@)
    }

    pub closed spec fn pid_spec(&self) -> i32 {
        self.pid
    }

    /// Takes control of a freshly spawned process with id `pid`, given how
    /// it stood after its first wait. The process must have stopped on a
    /// trap before running any of its own code; the breakpoints of `table`
    /// are then known to the controller, none installed yet.
    pub fn new(pid: i32, initial: Status, table: &BreakpointTable) -> (r: Option<Inferior>)
        requires
            table.wf(),
        ensures
            r.is_some() == (initial matches Status::Stopped(sig, _) && sig == SIGTRAP),
            r matches Some(inf) ==> {
                &&& inf.wf()
                &&& inf.pid_spec() == pid
                &&& inf@.phase == Phase::Idle
                &&& inf@.live
                &&& patch_addrs(inf@.patches) == table@
                &&& forall|i: int| 0 <= i < inf@.patches.len() ==> !(#[trigger] inf@.patches[i]).installed
            },
    {
        match initial {
            Status::Stopped(sig, _) => {
                if sig != SIGTRAP {
                    return None;
                }
            },
            _ => {
                return None;
            },
        }
        let mut inf = Inferior { pid: pid, patches: Vec::new(), phase: Phase::Idle, live: true };
        assert(patch_addrs(inf.patches@) =~= table@.subrange(0, 0));
        inf.sync(table);
        Some(inf)
    }

    /// Appends a patch, not installed, for each breakpoint of `table` that
    /// the controller does not know yet.
    fn sync(&mut self, table: &BreakpointTable)
        requires
            table.wf(),
            patch_addrs(old(self).patches@).len() <= table@.len(),
            patch_addrs(old(self).patches@) == table@.subrange(0, old(self).patches@.len() as int),
        ensures
            final(self).pid == old(self).pid,
            final(self).phase == old(self).phase,
            final(self).live == old(self).live,
            final(self).patches@.len() == table@.len(),
            final(self).patches@ == synced(old(self).patches@, table@),
            patch_addrs(final(self).patches@) == table@,
            forall|i: int| 0 <= i < old(self).patches@.len() ==> final(self).patches@[i] == old(self).patches@[i],
            forall|i: int| old(self).patches@.len() <= i < table@.len() ==> !(#[trigger] final(self).patches@[i]).installed,
    {
        let n = table.len();
        let mut i = self.patches.len();
        assert(self.patches@ =~= synced(old(self).patches@, table@.subrange(0, i as int)));
        while i < n
            invariant
                n == table@.len(),
                i == self.patches@.len(),
                old(self).patches@.len() <= i <= n,
                self.pid == old(self).pid,
                self.phase == old(self).phase,
                self.live == old(self).live,
                patch_addrs(self.patches@) == table@.subrange(0, i as int),
                forall|k: int| 0 <= k < old(self).patches@.len() ==> self.patches@[k] == old(self).patches@[k],
                forall|k: int| old(self).patches@.len() <= k < i ==> !(#[trigger] self.patches@[k]).installed,
                self.patches@ == synced(old(self).patches@, table@.subrange(0, i as int)),
            decreases n - i,
        {
            let a = table.addr_at(i);
            self.patches.push(Patch { bp: Breakpoint { addr: a, orig_byte: 0 }, installed: false });
            assert(patch_addrs(self.patches@) =~= table@.subrange(0, i + 1));
            assert(self.patches@ =~= synced(old(self).patches@, table@.subrange(0, i + 1)));
            i = i + 1;
        }
        assert(table@.subrange(0, n as int) =~= table@);
    }

    /// The id of the traced process.
    pub fn pid(&self) -> (r: i32)
        ensures
            r == self.pid_spec(),
    {
        self.pid
    }

    /// Whether the process can still be operated on.
    pub fn is_live(&self) -> (r: bool)
        ensures
            r == self@.live,
    {
        self.live
    }

    /// Whether no resume is under way.
    pub fn is_idle(&self) -> (r: bool)
        ensures
            r == (self@.phase == Phase::Idle),
    {
        self.phase == Phase::Idle
    }

    /// The controller's patches, one per breakpoint it knows.
    pub fn patches(&self) -> (r: &Vec<Patch>)
        ensures
            r@ == self@.patches,
    {
        &self.patches
    }

    fn install_from_exec(&mut self, from: usize) -> (r: Action)
        requires
            crate::breakpoint::distinct_addrs(patch_addrs(old(self)@.patches)),
            from <= old(self)@.patches.len(),
        ensures
            (final(self)@, r) == install_from(old(self)@, from as int),
            final(self).pid == old(self).pid,
            final(self).wf(),
    {
        let n = self.patches.len();
        proof { lemma_install_from_ok(self@, from as int); }
        let mut i = from;
        while i < self.patches.len()
            invariant
                self@ == old(self)@,
                self.pid == old(self).pid,
                from <= i <= self@.patches.len(),
                first_uninstalled(self@.patches, from as int) == first_uninstalled(self@.patches, i as int),
                state_ok(install_from(old(self)@, from as int).0),
            decreases self@.patches.len() - i,
        {
            if !self.patches[i].installed {
                let a = self.patches[i].bp.addr;
                self.phase = Phase::Install(i);
                return Action::WriteByte(a, TRAP_BYTE);
            }
            i = i + 1;
        }
        self.phase = Phase::CheckPc;
        Action::ReadPc
    }

    /// Starts a resume of a stopped process: first learns the breakpoints of
    /// `table` that were set since the last resume, then installs every trap
    /// that is not in memory.
    pub fn begin_resume(&mut self, table: &BreakpointTable) -> (r: Action)
        requires
            old(self).wf(),
            old(self)@.phase == Phase::Idle,
            table.wf(),
            old(self)@.patches.len() <= table@.len(),
            patch_addrs(old(self)@.patches) == table@.subrange(0, old(self)@.patches.len() as int),
        ensures
            final(self).wf(),
            final(self).pid_spec() == old(self).pid_spec(),
            patch_addrs(final(self)@.patches) == table@,
            final(self)@.patches == synced(old(self)@.patches, table@),
            forall|i: int| 0 <= i < old(self)@.patches.len() ==> final(self)@.patches[i] == old(self)@.patches[i],
            ({
                let synced = InferiorState { patches: final(self)@.patches, ..old(self)@ };
                &&& forall|i: int| old(self)@.patches.len() <= i < table@.len() ==> !(#[trigger] synced.patches[i]).installed
                &&& (final(self)@, r) == install_from(synced, 0)
            }),
    {
        self.sync(table);
        self.install_from_exec(0)
    }

    /// Takes the event that answered the last action and decides the next
    /// action, following [`transition`].
    pub fn advance(&mut self, ev: Event) -> (r: Action)
        requires
            old(self).wf(),
        ensures
            final(self).wf(),
            final(self).pid_spec() == old(self).pid_spec(),
            (final(self)@, r) == transition(old(self)@, ev),
            patch_addrs(final(self)@.patches) == patch_addrs(old(self)@.patches),
    {
        let n = self.patches.len();
        proof { lemma_transition_ok(self@, ev); }
        match (self.phase, ev) {
            (Phase::Install(i), Event::Byte(b)) => {
                let a = self.patches[i].bp.addr;
                self.patches.set(i, Patch { bp: Breakpoint { addr: a, orig_byte: b }, installed: true });
                proof { lemma_same_addrs(old(self)@.patches, i as int, self.patches@[i as int]); }
                self.install_from_exec(i + 1)
            },
            (Phase::CheckPc, Event::Pc(pc)) => {
                let j = find_patch_exec(&self.patches, pc);
                if j < n && self.patches[j].installed {
                    self.phase = Phase::LiftForStep(j);
                    Action::WriteByte(pc, self.patches[j].bp.orig_byte)
                } else {
                    self.phase = Phase::Running;
                    Action::Cont
                }
            },
            (Phase::LiftForStep(j), Event::Byte(_)) => {
                self.set_installed(j, false);
                self.phase = Phase::Stepping(j);
                Action::Step
            },
            (Phase::Stepping(j), Event::Stop(st)) => {
                match st {
                    Status::Stopped(_, _) => {
                        self.phase = Phase::Rearm(j);
                        Action::WriteByte(self.patches[j].bp.addr, TRAP_BYTE)
                    },
                    _ => self.finish(st),
                }
            },
            (Phase::Rearm(j), Event::Byte(_)) => {
                self.set_installed(j, true);
                self.phase = Phase::Running;
                Action::Cont
            },
            (Phase::Running, Event::Stop(st)) => {
                match st {
                    Status::Stopped(sig, pc) => {
                        if pc >= 1 {
                            let j = find_patch_exec(&self.patches, pc - 1);
                            if j < n && self.patches[j].installed {
                                self.phase = Phase::Lift(j, sig);
                                return Action::WriteByte(pc - 1, self.patches[j].bp.orig_byte);
                            }
                        }
                        self.finish(st)
                    },
                    _ => self.finish(st),
                }
            },
            (Phase::Lift(j, sig), Event::Byte(_)) => {
                self.set_installed(j, false);
                self.phase = Phase::Rewind(j, sig);
                Action::SetPc(self.patches[j].bp.addr)
            },
            (Phase::Rewind(j, sig), Event::Done) => {
                let a = self.patches[j].bp.addr;
                self.finish(Status::Stopped(sig, a))
            },
            _ => {
                self.phase = Phase::Idle;
                self.live = false;
                Action::Fail
            },
        }
    }

    fn set_installed(&mut self, j: usize, on: bool)
        requires
            j < old(self).patches@.len(),
        ensures
            final(self).patches@ == set_installed(old(self).patches@, j as int, on),
            final(self).pid == old(self).pid,
            final(self).phase == old(self).phase,
            final(self).live == old(self).live,
    {
        let q = self.patches[j];
        self.patches.set(j, Patch { bp: q.bp, installed: on });
    }

    fn finish(&mut self, st: Status) -> (r: Action)
        ensures
            (final(self)@, r) == report(old(self)@, st),
            final(self).pid == old(self).pid,
    {
        self.phase = Phase::Idle;
        self.live = match st {
            Status::Stopped(_, _) => true,
            _ => false,
        };
        Action::Report(st)
    }
}

proof fn lemma_transition_ok(s: InferiorState, ev: Event)
    requires
        state_ok(s),
        s.patches.len() <= usize::MAX,
    ensures
        state_ok(transition(s, ev).0),
        patch_addrs(transition(s, ev).0.patches) == patch_addrs(s.patches),
        transition(s, ev).0.patches.len() == s.patches.len(),
{
    let p = s.patches;
    match (s.phase, ev) {
        (Phase::Install(i), Event::Byte(b)) => {
            let q = Patch { bp: Breakpoint { addr: p[i as int].bp.addr, orig_byte: b }, installed: true };
            lemma_same_addrs(p, i as int, q);
            lemma_install_from_ok(InferiorState { patches: p.update(i as int, q), ..s }, i + 1);
        },
        (Phase::CheckPc, Event::Pc(pc)) => {
            lemma_find_from(p, pc, 0);
        },
        (Phase::LiftForStep(j), Event::Byte(_)) => {
            lemma_same_addrs(p, j as int, set_installed(p, j as int, false)[j as int]);
        },
        (Phase::Rearm(j), Event::Byte(_)) => {
            lemma_same_addrs(p, j as int, set_installed(p, j as int, true)[j as int]);
        },
        (Phase::Running, Event::Stop(Status::Stopped(sig, pc))) => {
            if pc >= 1 {
                lemma_find_from(p, (pc - 1) as usize, 0);
            }
        },
        (Phase::Lift(j, sig), Event::Byte(_)) => {
            lemma_same_addrs(p, j as int, set_installed(p, j as int, false)[j as int]);
        },
        _ => {},
    }
}

/// Breakpoint hit correction: when a continued process stops on a trap,
/// whose program counter is one past a breakpoint's address, the controller
/// lifts that trap, moves the program counter back, and reports the
/// breakpoint's address itself. A stop anywhere else is reported as it came.
pub proof fn lemma_hit_reports_breakpoint(s: InferiorState, sig: i32, pc: usize, b: u8)
    requires
        state_ok(s),
        s.patches.len() <= usize::MAX,
        s.phase == Phase::Running,
    ensures
        ({
            let (s1, a1) = transition(s, Event::Stop(Status::Stopped(sig, pc)));
            let (s2, a2) = transition(s1, Event::Byte(b));
            let (s3, a3) = transition(s2, Event::Done);
            if pc >= 1 && trap_at(s.patches, (pc - 1) as usize) {
                &&& a1 == Action::WriteByte((pc - 1) as usize, s.patches[find_patch(s.patches, (pc - 1) as usize)].bp.orig_byte)
                &&& a2 == Action::SetPc((pc - 1) as usize)
                &&& a3 == Action::Report(Status::Stopped(sig, (pc - 1) as usize))
                &&& s3.live
                &&& !trap_at(s3.patches, (pc - 1) as usize)
            } else {
                a1 == Action::Report(Status::Stopped(sig, pc)) && s1.live
            }
        }),
{
    if pc >= 1 && trap_at(s.patches, (pc - 1) as usize) {
        let a = (pc - 1) as usize;
        let j = find_patch(s.patches, a);
        lemma_find_from(s.patches, a, 0);
        let p2 = set_installed(s.patches, j, false);
        lemma_same_addrs(s.patches, j, p2[j]);
        assert(find_patch(p2, a) == j) by {
            lemma_find_from(p2, a, 0);
            let f = find_patch(p2, a);
            if f < j {
                assert(p2[f].bp.addr == s.patches[f].bp.addr);
            } else if f > j {
                assert(p2[j].bp.addr == a);
            }
        }
    }
}

/// Idempotent install: installing traps never writes over a trap that is
/// already in memory, and never changes the byte cached for it.
pub proof fn lemma_install_idempotent(s: InferiorState, ev: Event, k: int)
    requires
        state_ok(s),
        s.patches.len() <= usize::MAX,
        0 <= k < s.patches.len(),
        s.patches[k].installed,
    ensures
        install_from(s, 0).0.patches == s.patches,
        install_from(s, 0).1 != Action::WriteByte(s.patches[k].bp.addr, TRAP_BYTE),
        s.phase is Install ==> transition(s, ev).0.patches[k] == s.patches[k],
        s.phase is Install ==> transition(s, ev).1 != Action::WriteByte(s.patches[k].bp.addr, TRAP_BYTE),
{
    lemma_writes_uninstalled(s, 0, k);
    if let Phase::Install(i) = s.phase {
        if let Event::Byte(b) = ev {
            let q = Patch { bp: Breakpoint { addr: s.patches[i as int].bp.addr, orig_byte: b }, installed: true };
            let s1 = InferiorState { patches: s.patches.update(i as int, q), ..s };
            lemma_same_addrs(s.patches, i as int, q);
            assert(s1.patches[k] == s.patches[k]);
            lemma_writes_uninstalled(s1, i + 1, k);
        }
    }
}

proof fn lemma_writes_uninstalled(s: InferiorState, from: int, k: int)
    requires
        crate::breakpoint::distinct_addrs(patch_addrs(s.patches)),
        0 <= from <= s.patches.len(),
        0 <= k < s.patches.len(),
        s.patches[k].installed,
    ensures
        install_from(s, from).0.patches == s.patches,
        install_from(s, from).1 != Action::WriteByte(s.patches[k].bp.addr, TRAP_BYTE),
{
    lemma_first_uninstalled(s.patches, from);
    let i = first_uninstalled(s.patches, from);
    if i < s.patches.len() {
        assert(i != k);
        assert(patch_addrs(s.patches)[i] == s.patches[i].bp.addr);
        assert(patch_addrs(s.patches)[k] == s.patches[k].bp.addr);
    }
}

} // verus!