//! The walk from a process up through its parents, one lookup at a time, and
//! the header under which each process of the chain is shown.
//!
//! The walk does no reading itself. It names the process whose status file
//! is wanted next, is handed what was read of it, and decides from that
//! whether the chain grows or ends.

use vstd::prelude::*;
use vstd::string::StringExecFns;
use crate::decimal::{decimal_digits, push_decimal};
use crate::stat::{lookup_of, ProcStat, StatRecord};
use crate::text::push_char;

verus! {

/// The id of the process at the root of every chain.
pub const ROOT_PID: u32 = 1;

/// The state shown for a process whose status could not be resolved.
pub const UNKNOWN_STATE: char = '?';

/// The mathematical content of an [`AncestorWalk`].
pub struct WalkState {
    /// The ids found so far, the requested process first.
    pub chain: Seq<u32>,
    /// A lookup has failed.
    pub stopped: bool,
}

impl WalkState {
    /// The walk that has just been asked for process `start`.
    pub open spec fn begin(start: u32) -> WalkState {
        WalkState { chain: seq![start], stopped: false }
    }

    /// The id reached last.
    pub open spec fn current(self) -> u32 {
        self.chain.last()
    }

    /// Nothing more is to be looked up: the root is reached, or a lookup
    /// has failed.
    pub open spec fn finished(self) -> bool {
        self.stopped || self.current() == ROOT_PID
    }

    /// The process whose status is wanted next, if any.
    pub open spec fn pending(self) -> Option<u32> {
        if self.finished() {
            None
        } else {
            Some(self.current())
        }
    }

    /// The walk after the lookup of the pending process gave `found`.
    ///
    /// A record extends the chain by the parent id it names. A failed lookup
    /// ends the walk and leaves the chain as it is. A finished walk takes no
    /// notice of anything.
    pub open spec fn step(self, found: Option<StatRecord>) -> WalkState {
        if self.finished() {
            self
        } else {
            match found {
                Some(record) => WalkState { chain: self.chain.push(record.ppid), stopped: false },
                None => WalkState { chain: self.chain, stopped: true },
            }
        }
    }

    /// The walk from `start` after the lookups `found`, taken in order.
    pub open spec fn run(start: u32, found: Seq<Option<StatRecord>>) -> WalkState
        decreases found.len(),
    {
        if found.len() == 0 {
            WalkState::begin(start)
        } else {
            WalkState::run(start, found.drop_last()).step(found.last())
        }
    }
}

/// A walk towards the root of the process tree.
pub struct AncestorWalk {
    start: u32,
    parents: Vec<u32>,
    stopped: bool,
}

impl View for AncestorWalk {
    type V = WalkState;

    closed spec fn view(&self) -> WalkState {
        WalkState { chain: seq![self.start] + self.parents@, stopped: self.stopped }
    }
}

impl AncestorWalk {
    /// Begins a walk at process `pid`.
    pub fn start(pid: u32) -> (walk: AncestorWalk)
        ensures
            walk@ == WalkState::begin(pid),
    {
        let walk = AncestorWalk { start: pid, parents: Vec::new(), stopped: false };
        assert(walk@.chain =~= seq![pid]);
        walk
    }

    /// The id reached last.
    pub fn current(&self) -> (pid: u32)
        ensures
            pid == self@.current(),
    {
        if self.parents.len() == 0 {
            self.start
        } else {
            self.parents[self.parents.len() - 1]
        }
    }

    /// The process whose status file is to be read next, or `None` when the
    /// walk is finished.
    pub fn pending(&self) -> (next: Option<u32>)
        ensures
            next == self@.pending(),
    {
        let current = self.current();
        if self.stopped || current == ROOT_PID {
            None
        } else {
            Some(current)
        }
    }

    /// Takes what was read of the pending process's status file: its text,
    /// or `None` where it could not be read.
    ///
    /// The walk moves as [`WalkState::step`] says, on the record that the
    /// text holds for the pending process.
    pub fn advance(&mut self, stat: Option<&str>)
        ensures
            final(self)@ == old(self)@.step(lookup_of(old(self)@.current(), stat)),
    {
        let current = self.current();
        if self.stopped || current == ROOT_PID {
            return ;
        }
        match ProcStat::read_pid(current, stat) {
            Some(found) => {
                self.parents.push(found.ppid);
                assert(self@.chain =~= old(self)@.chain.push(found.ppid));
            },
            None => {
                self.stopped = true;
            },
        }
    }

    /// The chain so far, the requested process first.
    pub fn chain(&self) -> (chain: Vec<u32>)
        ensures
            chain@ == self@.chain,
    {
        let mut chain: Vec<u32> = Vec::new();
        chain.push(self.start);
        let mut i: usize = 0;
        while i < self.parents.len()
            invariant
                i <= self.parents@.len(),
                chain@ == seq![self.start] + self.parents@.take(i as int),
            decreases self.parents@.len() - i,
        {
            chain.push(self.parents[i]);
            assert(self.parents@.take(i + 1) =~= self.parents@.take(i as int).push(
                self.parents@[i as int],
            ));
            i += 1;
        }
        assert(self.parents@.take(i as int) =~= self.parents@);
        chain
    }

    /// The chain in the order in which it is shown: the process nearest the
    /// root first, the requested process last.
    pub fn display_order(&self) -> (order: Vec<u32>)
        ensures
            order@ == self@.chain.reverse(),
    {
        let mut order: Vec<u32> = Vec::new();
        let mut left: usize = self.parents.len();
        while left > 0
            invariant
                left <= self.parents@.len(),
                order@.len() == self.parents@.len() - left,
                forall|k: int|
                    0 <= k < order@.len() ==> order@[k] == self.parents@[self.parents@.len() - 1
                        - k],
            decreases left,
        {
            left -= 1;
            order.push(self.parents[left]);
        }
        order.push(self.start);
        assert(order@ =~= self@.chain.reverse());
        order
    }
}

/// The header of one process in the listing of a chain: an empty line, then
/// the line `pid <id> [<state>]:`, line break included.
pub open spec fn header_text(pid: u32, state: char) -> Seq<char> {
    seq!['\n', 'p', 'i', 'd', ' '] + decimal_digits(pid as nat) + seq![' ', '['] + seq![state]
        + seq![']', ':', '\n']
}

/// The state to show for a process: that of its record, or
/// [`UNKNOWN_STATE`] where the lookup gave none.
pub open spec fn shown_state(found: Option<StatRecord>) -> char {
    match found {
        Some(record) => record.state,
        None => UNKNOWN_STATE,
    }
}

/// The header for process `pid`, given what a fresh read of its status file
/// returned. A process that can no longer be resolved is shown with
/// [`UNKNOWN_STATE`].
pub fn header_line(pid: u32, stat: Option<&str>) -> (line: String)
    ensures
        line@ == header_text(pid, shown_state(lookup_of(pid, stat))),
{
    let state = match ProcStat::read_pid(pid, stat) {
        Some(found) => found.state,
        None => UNKNOWN_STATE,
    };
    let mut line = String::from_str("\npid ");
    proof {
        reveal_strlit("\npid ");
        assert(line@ =~= seq!['\n', 'p', 'i', 'd', ' ']);
    }
    push_decimal(&mut line, pid);
    push_char(&mut line, ' ');
    push_char(&mut line, '[');
    push_char(&mut line, state);
    push_char(&mut line, ']');
    push_char(&mut line, ':');
    push_char(&mut line, '\n');
    assert(line@ =~= header_text(pid, state));
    line
}

/// The chain always begins with the process that was asked for.
pub proof fn lemma_walk_begins_at_start(start: u32, found: Seq<Option<StatRecord>>)
    ensures
        WalkState::run(start, found).chain.len() >= 1,
        WalkState::run(start, found).chain[0] == start,
    decreases found.len(),
{
    if found.len() > 0 {
        lemma_walk_begins_at_start(start, found.drop_last());
    }
}

/// A finished walk stays as it is, whatever it is handed.
pub proof fn lemma_finished_walk_is_final(walk: WalkState, found: Option<StatRecord>)
    requires
        walk.finished(),
    ensures
        walk.step(found) == walk,
{
}

/// A lookup that fails ends the walk at once: the walk is finished, and the
/// chain still ends with the id that could not be resolved.
pub proof fn lemma_failed_lookup_ends_walk(walk: WalkState)
    ensures
        walk.step(None).finished(),
        walk.step(None).chain == walk.chain,
{
}

/// Once a lookup has failed the walk is over for good: it is finished, the
/// chain holds no id beyond the one that could not be resolved, and nothing
/// that is handed over afterwards changes it.
pub proof fn lemma_walk_ends_at_failed_lookup(
    start: u32,
    found: Seq<Option<StatRecord>>,
    k: int,
)
    requires
        0 <= k < found.len(),
        found[k] is None,
    ensures
        WalkState::run(start, found).finished(),
        WalkState::run(start, found).chain.len() <= k + 1,
        WalkState::run(start, found) == WalkState::run(start, found.take(k + 1)),
    decreases found.len(),
{
    if found.len() == k + 1 {
        assert(found.take(k + 1) =~= found);
        lemma_walk_length(start, found.drop_last());
    } else {
        lemma_walk_ends_at_failed_lookup(start, found.drop_last(), k);
        assert(found.drop_last().take(k + 1) =~= found.take(k + 1));
    }
}

/// Every lookup adds at most one id, and a walk that is not finished has
/// used every lookup it was handed.
pub proof fn lemma_walk_length(start: u32, found: Seq<Option<StatRecord>>)
    ensures
        WalkState::run(start, found).chain.len() <= found.len() + 1,
        !WalkState::run(start, found).finished() ==> WalkState::run(start, found).chain.len()
            == found.len() + 1,
    decreases found.len(),
{
    if found.len() > 0 {
        lemma_walk_length(start, found.drop_last());
    }
}

/// Each id after the first is the parent that the record of the id before
/// it names, and the root occurs nowhere but at the end of the chain.
pub proof fn lemma_walk_links(start: u32, found: Seq<Option<StatRecord>>, k: int)
    requires
        0 <= k < WalkState::run(start, found).chain.len() - 1,
    ensures
        k < found.len(),
        found[k] is Some,
        WalkState::run(start, found).chain[k + 1] == found[k]->0.ppid,
        WalkState::run(start, found).chain[k] != ROOT_PID,
    decreases found.len(),
{
    if found.len() > 0 {
        let before = WalkState::run(start, found.drop_last());
        lemma_walk_length(start, found.drop_last());
        lemma_walk_begins_at_start(start, found.drop_last());
        if k < before.chain.len() - 1 {
            lemma_walk_links(start, found.drop_last(), k);
        }
    }
}

} // verus!
