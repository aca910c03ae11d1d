//! The mathematical model of a recording: frames in the order of their
//! entry, the stack of open calls, and the steps that change them.
//!
//! Recursion policy: every call is charged its own inclusive time. A
//! function that calls itself is charged once for the outer call and once
//! more for each inner one.

use vstd::prelude::*;

verus! {

/// One call, as the recorder holds it.
pub struct FrameView {
    /// Name of the called function.
    pub name: Seq<char>,
    /// Number of calls that were open when this one was entered.
    pub depth: nat,
    /// Position of the calling frame; `None` for a top-level call.
    pub parent: Option<int>,
    /// Time of entry, in nanoseconds since the recorder was created.
    pub start: nat,
    /// Inclusive time of the call; `None` while it is open.
    pub elapsed: Option<nat>,
}

/// The state of a recorder.
pub struct RecorderView {
    /// All calls so far, open and closed, in the order of their entry.
    pub frames: Seq<FrameView>,
    /// Positions of the open calls, outermost first.
    pub stack: Seq<int>,
    /// The latest time the recorder has seen.
    pub now: nat,
    /// Time spent so far inside the recorder's own bookkeeping.
    pub overhead: nat,
    /// Whether the recording has been closed.
    pub finished: bool,
}

/// How often `name` was entered.
pub open spec fn call_count(frames: Seq<FrameView>, name: Seq<char>) -> nat
    decreases frames.len(),
{
    if frames.len() == 0 {
        0
    } else {
        call_count(frames.drop_last(), name) + if frames.last().name == name {
            1nat
        } else {
            0nat
        }
    }
}

/// The inclusive time of all closed calls of `name`, added up.
pub open spec fn time_in(frames: Seq<FrameView>, name: Seq<char>) -> nat
    decreases frames.len(),
{
    if frames.len() == 0 {
        0
    } else {
        time_in(frames.drop_last(), name) + match frames.last().elapsed {
            Some(e) if frames.last().name == name => e,
            _ => 0nat,
        }
    }
}

/// The inclusive time of all closed top-level calls, added up.
pub open spec fn root_time(frames: Seq<FrameView>) -> nat
    decreases frames.len(),
{
    if frames.len() == 0 {
        0
    } else {
        root_time(frames.drop_last()) + match frames.last().elapsed {
            Some(e) if frames.last().parent is None => e,
            _ => 0nat,
        }
    }
}

/// The distinct function names, in the order in which each was first
/// entered.
pub open spec fn first_seen(frames: Seq<FrameView>) -> Seq<Seq<char>>
    decreases frames.len(),
{
    if frames.len() == 0 {
        Seq::empty()
    } else {
        let before = first_seen(frames.drop_last());
        if before.contains(frames.last().name) {
            before
        } else {
            before.push(frames.last().name)
        }
    }
}

/// A call on a recorder.
pub enum Event {
    Enter { name: Seq<char>, at: nat },
    Exit { at: nat },
    Settle { at: nat },
    Finish { at: nat },
}

impl RecorderView {
    /// A recorder that has seen nothing.
    pub open spec fn initial() -> RecorderView {
        RecorderView {
            frames: Seq::empty(),
            stack: Seq::empty(),
            now: 0,
            overhead: 0,
            finished: false,
        }
    }

    /// The time a clock reading stands for: the reading itself, or the
    /// latest time seen where the reading lies before it. Time never runs
    /// backwards inside a recording.
    pub open spec fn reading(self, at: nat) -> nat {
        if at >= self.now {
            at
        } else {
            self.now
        }
    }

    /// The state after entering `name` at time `at`.
    pub open spec fn enter(self, name: Seq<char>, at: nat) -> RecorderView {
        let t = self.reading(at);
        let frame = FrameView {
            name,
            depth: self.stack.len(),
            parent: if self.stack.len() == 0 {
                None
            } else {
                Some(self.stack.last())
            },
            start: t,
            elapsed: None,
        };
        RecorderView {
            frames: self.frames.push(frame),
            stack: self.stack.push(self.frames.len() as int),
            now: t,
            ..self
        }
    }

    /// The state after leaving the innermost open call at time `at`.
    pub open spec fn exit(self, at: nat) -> RecorderView
        recommends
            self.stack.len() > 0,
    {
        let t = self.reading(at);
        let top = self.stack.last();
        let closed = FrameView {
            elapsed: Some((t - self.frames[top].start) as nat),
            ..self.frames[top]
        };
        RecorderView {
            frames: self.frames.update(top, closed),
            stack: self.stack.drop_last(),
            now: t,
            ..self
        }
    }

    /// The state after charging the time since the last step, up to `at`,
    /// to the recorder's own bookkeeping.
    pub open spec fn settle(self, at: nat) -> RecorderView {
        let t = self.reading(at);
        RecorderView { overhead: self.overhead + (t - self.now) as nat, now: t, ..self }
    }

    /// The state after closing the recording at time `at`.
    pub open spec fn finish(self, at: nat) -> RecorderView {
        RecorderView { now: self.reading(at), finished: true, ..self }
    }

    /// The state after a call on the recorder. A call out of turn (any
    /// call after the finish, an exit with no call open, a finish with a
    /// call open) leaves the state as it is.
    pub open spec fn after(self, event: Event) -> RecorderView {
        match event {
            Event::Enter { name, at } => if self.finished {
                self
            } else {
                self.enter(name, at)
            },
            Event::Exit { at } => if self.stack.len() == 0 {
                self
            } else {
                self.exit(at)
            },
            Event::Settle { at } => if self.finished {
                self
            } else {
                self.settle(at)
            },
            Event::Finish { at } => if self.finished || self.stack.len() > 0 {
                self
            } else {
                self.finish(at)
            },
        }
    }

    /// The state that a sequence of calls leaves a new recorder in.
    pub open spec fn replay(events: Seq<Event>) -> RecorderView
        decreases events.len(),
    {
        if events.len() == 0 {
            RecorderView::initial()
        } else {
            RecorderView::replay(events.drop_last()).after(events.last())
        }
    }

    /// Whether position `i` is that of an open call.
    pub open spec fn is_open(self, i: int) -> bool {
        exists|k: int| 0 <= k < self.stack.len() && self.stack[k] == i
    }

    /// The stack lists existing frames, outermost first, each one open,
    /// at the depth of its place in the stack and called by the one
    /// below it.
    #[verifier::opaque]
    pub open spec fn stack_ok(self) -> bool {
        &&& forall|k: int|
            0 <= k < self.stack.len() ==> 0 <= #[trigger] self.stack[k] < self.frames.len()
        &&& forall|k: int, l: int|
            0 <= k < l < self.stack.len() ==> #[trigger] self.stack[k] < #[trigger] self.stack[l]
        &&& forall|k: int|
            0 <= k < self.stack.len() ==> {
                let f = self.frames[#[trigger] self.stack[k]];
                &&& f.elapsed is None
                &&& f.depth == k
                &&& f.parent == if k == 0 {
                    None
                } else {
                    Some(self.stack[k - 1])
                }
            }
    }

    /// Every frame began no later than now; a closed one ended no later
    /// than now, a frame that is not closed is on the stack, and a caller
    /// comes before the frames it called, one level above them.
    #[verifier::opaque]
    pub open spec fn frames_ok(self) -> bool {
        forall|i: int|
            0 <= i < self.frames.len() ==> {
                let f = #[trigger] self.frames[i];
                &&& f.start <= self.now
                &&& f.elapsed matches Some(e) ==> f.start + e <= self.now
                &&& f.elapsed is None ==> self.is_open(i)
                &&& match f.parent {
                    Some(p) => 0 <= p < i && f.depth == self.frames[p].depth + 1,
                    None => f.depth == 0,
                }
            }
    }

    /// A call lies inside the call that made it: it begins no earlier,
    /// and once the caller is closed it is closed too and ended no later.
    #[verifier::opaque]
    pub open spec fn nesting_ok(self) -> bool {
        forall|i: int|
            0 <= i < self.frames.len() ==> (#[trigger] self.frames[i].parent matches Some(p) ==> {
                let f = self.frames[i];
                let c = self.frames[p];
                &&& c.start <= f.start
                &&& c.elapsed matches Some(ce) ==> (f.elapsed matches Some(fe) && f.start + fe
                    <= c.start + ce)
            })
    }

    /// The closed top-level calls fit into the time before the open
    /// top-level call began or, where none is open, into the time up to now.
    #[verifier::opaque]
    pub open spec fn roots_ok(self) -> bool {
        root_time(self.frames) <= if self.stack.len() == 0 {
            self.now
        } else {
            self.frames[self.stack[0]].start
        }
    }

    /// What holds of every state that a recorder can reach.
    pub open spec fn inv(self) -> bool {
        &&& self.stack_ok()
        &&& self.frames_ok()
        &&& self.nesting_ok()
        &&& self.roots_ok()
        &&& self.overhead <= self.now
        &&& self.finished ==> self.stack.len() == 0
    }
}

} // verus!
