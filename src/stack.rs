//! Reconstruction of the call chain by following saved frame pointers.
//!
//! Each frame stores the caller's frame pointer at `fp` and the return
//! address at `fp + 8`. The walk stops at the program's entry function, and
//! gives up after [`MAX_FRAMES`] frames or on a frame pointer that cannot be
//! followed.
use vstd::prelude::*;
use vstd::string::*;

verus! {

/// The most frames that a backtrace shows.
pub const MAX_FRAMES: usize = 1024;

/// The registers that locate one frame.
#[derive(Clone, Copy, PartialEq, Eq, Structural, Debug)]
pub struct Frame {
    pub pc: usize,
    pub fp: usize,
}

/// What to do after a frame has been shown.
#[derive(Clone, Copy, PartialEq, Eq, Structural, Debug)]
pub enum WalkStep {
    /// The frame was the entry function's: the walk is complete.
    Done,
    /// Read the return address at the first address and the saved frame
    /// pointer at the second; they locate the caller's frame.
    Read(usize, usize),
    /// The chain is longer than [`MAX_FRAMES`].
    TooDeep,
    /// The frame pointer does not lead to readable memory.
    Unreadable,
}

/// The decision after showing frame `f`, the `depth`-th of the walk
/// (counting from 0), where `is_entry` tells whether it belongs to the entry
/// function.
pub open spec fn step_of(f: Frame, is_entry: bool, depth: nat) -> WalkStep {
    if is_entry {
        WalkStep::Done
    } else if depth + 1 >= MAX_FRAMES {
        WalkStep::TooDeep
    } else if f.fp > usize::MAX - 8 {
        WalkStep::Unreadable
    } else {
        WalkStep::Read((f.fp + 8) as usize, f.fp)
    }
}

/// The name of the entry function.
pub open spec fn is_entry_name(name: Seq<char>) -> bool {
    name == seq!['m', 'a', 'i', 'n']
}

/// Whether a resolved function name is the program's entry function.
pub fn is_entry_function(name: &str) -> (r: bool)
    ensures
        r == is_entry_name(name@),
{
    let n = name.unicode_len();
    if n != 4 {
        return false;
    }
    let r = name.get_char(0) == 'm' && name.get_char(1) == 'a' && name.get_char(2) == 'i'
        && name.get_char(3) == 'n';
    assert(r ==> name@ =~= seq!['m', 'a', 'i', 'n']);
    r
}

/// A walk in progress: the frame to show next and how many came before it.
pub struct StackWalker {
    frame: Frame,
    depth: usize,
}

impl StackWalker {
    pub closed spec fn frame_spec(&self) -> Frame {
        self.frame
    }

    pub closed spec fn depth_spec(&self) -> nat {
        self.depth as nat
    }

    pub open spec fn wf(&self) -> bool {
        self.depth_spec() < MAX_FRAMES
    }

    /// Starts at the frame of the current program counter and frame pointer.
    pub fn new(pc: usize, fp: usize) -> (r: StackWalker)
        ensures
            r.wf(),
            r.frame_spec() == (Frame { pc, fp }),
            r.depth_spec() == 0,
    {
        StackWalker { frame: Frame { pc, fp }, depth: 0 }
    }

    /// The frame to show now.
    pub fn frame(&self) -> (r: Frame)
        ensures
            r == self.frame_spec(),
    {
        self.frame
    }

    /// Decides what follows the current frame, given the name of its
    /// function if the resolver knows it.
    pub fn step(&self, function: Option<&str>) -> (r: WalkStep)
        requires
            self.wf(),
        ensures
            r == step_of(
                self.frame_spec(),
                function matches Some(name) && is_entry_name(name@),
                self.depth_spec(),
            ),
    {
        let entry = match function {
            Some(name) => is_entry_function(name),
            None => false,
        };
        if entry {
            WalkStep::Done
        } else if self.depth + 1 >= MAX_FRAMES {
            WalkStep::TooDeep
        } else if self.frame.fp > usize::MAX - 8 {
            WalkStep::Unreadable
        } else {
            WalkStep::Read(self.frame.fp + 8, self.frame.fp)
        }
    }

    /// Moves to the caller's frame, from the two words that `step` asked for.
    pub fn enter_caller(&mut self, ret_addr: usize, saved_fp: usize)
        requires
            old(self).wf(),
            old(self).depth_spec() + 1 < MAX_FRAMES,
        ensures
            final(self).wf(),
            final(self).frame_spec() == (Frame { pc: ret_addr, fp: saved_fp }),
            final(self).depth_spec() == old(self).depth_spec() + 1,
    {
        self.frame = Frame { pc: ret_addr, fp: saved_fp };
        self.depth = self.depth + 1;
    }
}

/// The frames that a walk from `f`, the `depth`-th frame, shows, and how it
/// ends, in memory `mem` (word at each readable address) where `entry` holds
/// the program counters that belong to the entry function.
pub open spec fn walk_from(f: Frame, mem: Map<usize, usize>, entry: Set<usize>, depth: nat) -> (Seq<Frame>, WalkStep)
    decreases MAX_FRAMES - depth,
{
    match step_of(f, entry.contains(f.pc), depth) {
        WalkStep::Read(r, s) => if mem.contains_key(r) && mem.contains_key(s) && depth + 1 < MAX_FRAMES {
            let rest = walk_from(Frame { pc: mem[r], fp: mem[s] }, mem, entry, depth + 1);
            (seq![f] + rest.0, rest.1)
        } else {
            (seq![f], WalkStep::Unreadable)
        },
        other => (seq![f], other),
    }
}

/// `frames` is a well-formed frame chain in `mem`: each frame's saved words
/// lead to the next, and only the last belongs to the entry function.
pub open spec fn chain_ok(frames: Seq<Frame>, mem: Map<usize, usize>, entry: Set<usize>) -> bool {
    &&& frames.len() >= 1
    &&& entry.contains(frames.last().pc)
    &&& forall|i: int| 0 <= i < frames.len() - 1 ==> {
        let f = #[trigger] frames[i];
        &&& !entry.contains(f.pc)
        &&& f.fp <= usize::MAX - 8
        &&& mem.contains_key((f.fp + 8) as usize) && mem[(f.fp + 8) as usize] == frames[i + 1].pc
        &&& mem.contains_key(f.fp) && mem[f.fp] == frames[i + 1].fp
    }
}

/// Stack walk termination: on a well-formed frame chain of at most
/// [`MAX_FRAMES`] frames, the walk shows exactly the chain's frames and ends
/// at the entry function's frame.
pub proof fn lemma_walk_terminates(frames: Seq<Frame>, mem: Map<usize, usize>, entry: Set<usize>)
    requires
        chain_ok(frames, mem, entry),
        frames.len() <= MAX_FRAMES,
    ensures
        walk_from(frames[0], mem, entry, 0) == (frames, WalkStep::Done),
{
    lemma_walk_suffix(frames, mem, entry, 0);
    assert(frames.subrange(0, frames.len() as int) == frames);
}

proof fn lemma_walk_suffix(frames: Seq<Frame>, mem: Map<usize, usize>, entry: Set<usize>, d: nat)
    requires
        chain_ok(frames, mem, entry),
        frames.len() <= MAX_FRAMES,
        d < frames.len(),
    ensures
        walk_from(frames[d as int], mem, entry, d) == (frames.subrange(d as int, frames.len() as int), WalkStep::Done),
    decreases frames.len() - d,
{
    let f = frames[d as int];
    if d + 1 < frames.len() {
        assert(!entry.contains(f.pc));
        lemma_walk_suffix(frames, mem, entry, d + 1);
        assert(frames.subrange(d as int, frames.len() as int) =~= seq![f] + frames.subrange((d + 1) as int, frames.len() as int));
    } else {
        assert(frames.subrange(d as int, frames.len() as int) =~= seq![f]);
    }
}

} // verus!
