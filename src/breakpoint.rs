//! The breakpoint table: the breakpoints that the user asked for, one per
//! address, kept across restarts of the traced process.
use vstd::prelude::*;

verus! {

/// A software breakpoint: the address of the first byte of an instruction,
/// and the byte that a trap replaced there.
#[derive(Clone, Copy, PartialEq, Eq, Structural, Debug)]
pub struct Breakpoint {
    pub addr: usize,
    pub orig_byte: u8,
}

/// The addresses of the breakpoints, in the order they were set; no two are
/// equal. The bytes that traps replace are cached, as [`Breakpoint`]
/// records, by the controller of each process, whose memory they come from.
pub struct BreakpointTable {
    entries: Vec<usize>,
}

/// No address occurs twice in `s`.
pub open spec fn distinct_addrs(s: Seq<usize>) -> bool {
    forall|i: int, j: int| 0 <= i < j < s.len() ==> s[i] != s[j]
}

impl View for BreakpointTable {
    type V = Seq<usize>;

    /// The addresses of the breakpoints, in the order they were set.
    closed spec fn view(&self) -> Seq<usize> {
        self.entries@
    }
}

impl BreakpointTable {
    pub open spec fn wf(&self) -> bool {
        distinct_addrs(self@)
    }

    pub fn new() -> (r: BreakpointTable)
        ensures
            r.wf(),
            r@ == Seq::<usize>::empty(),
    {
        BreakpointTable { entries: Vec::new() }
    }

    pub fn len(&self) -> (r: usize)
        ensures
            r == self@.len(),
    {
        self.entries.len()
    }

    pub fn addr_at(&self, i: usize) -> (r: usize)
        requires
            i < self@.len(),
        ensures
            r == self@[i as int],
    {
        self.entries[i]
    }

    /// The position of the breakpoint at `addr`, if there is one.
    pub fn index_of(&self, addr: usize) -> (r: Option<usize>)
        requires
            self.wf(),
        ensures
            r.is_none() <==> !self@.contains(addr),
            r.is_some() ==> r.unwrap() < self@.len() && self@[r.unwrap() as int] == addr,
    {
        let mut i: usize = 0;
        while i < self.entries.len()
            invariant
                i <= self@.len(),
                self@.len() == self.entries@.len(),
                self@ == self.entries@,
                forall|k: int| 0 <= k < i ==> self@[k] != addr,
            decreases self@.len() - i,
        {
            if self.entries[i] == addr {
                assert(self@[i as int] == addr);
                return Some(i);
            }
            i = i + 1;
        }
        None
    }

    /// Adds a breakpoint at `addr` unless one is there already. Returns its
    /// position and whether it is new.
    pub fn add(&mut self, addr: usize) -> (r: (usize, bool))
        requires
            old(self).wf(),
        ensures
            final(self).wf(),
            r.1 == !old(self)@.contains(addr),
            r.1 ==> final(self)@ == old(self)@.push(addr) && r.0 == old(self)@.len(),
            !r.1 ==> final(self)@ == old(self)@ && r.0 < old(self)@.len() && old(self)@[r.0 as int] == addr,
    {
        match self.index_of(addr) {
            Some(i) => (i, false),
            None => {
                let n = self.entries.len();
                self.entries.push(addr);
                assert(self@ == old(self)@.push(addr));
                (n, true)
            },
        }
    }
}

} // verus!
