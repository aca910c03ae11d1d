//! Facts about the model of a recording: how the per-function sums react
//! to a new or a closed frame, and that every step keeps the invariant.

use vstd::prelude::*;
use super::trace::{call_count, first_seen, root_time, time_in, Event, FrameView, RecorderView};

verus! {

/// The time that closing `frame` adds to the account of `name`.
pub open spec fn charge(frame: FrameView, name: Seq<char>) -> nat {
    match frame.elapsed {
        Some(e) if frame.name == name => e,
        _ => 0,
    }
}

/// The time that closing `frame` adds to the top-level account.
pub open spec fn root_charge(frame: FrameView) -> nat {
    match frame.elapsed {
        Some(e) if frame.parent is None => e,
        _ => 0,
    }
}

/// A new frame counts once for its own name and adds its time, if it has
/// one, to the accounts that it belongs to.
pub proof fn lemma_push(frames: Seq<FrameView>, frame: FrameView, name: Seq<char>)
    ensures
        call_count(frames.push(frame), name) == call_count(frames, name) + if frame.name == name {
            1nat
        } else {
            0nat
        },
        time_in(frames.push(frame), name) == time_in(frames, name) + charge(frame, name),
        root_time(frames.push(frame)) == root_time(frames) + root_charge(frame),
        first_seen(frames.push(frame)) == if first_seen(frames).contains(frame.name) {
            first_seen(frames)
        } else {
            first_seen(frames).push(frame.name)
        },
{
    assert(frames.push(frame).drop_last() =~= frames);
    assert(frames.push(frame).last() == frame);
}

/// Closing an open frame changes no call count and no order of first
/// entry, and adds the frame's time to the accounts that it belongs to.
pub proof fn lemma_close(frames: Seq<FrameView>, i: int, e: nat, name: Seq<char>)
    requires
        0 <= i < frames.len(),
        frames[i].elapsed is None,
    ensures
        ({
            let closed = FrameView { elapsed: Some(e), ..frames[i] };
            let after = frames.update(i, closed);
            &&& call_count(after, name) == call_count(frames, name)
            &&& first_seen(after) == first_seen(frames)
            &&& time_in(after, name) == time_in(frames, name) + charge(closed, name)
            &&& root_time(after) == root_time(frames) + root_charge(closed)
        }),
    decreases frames.len(),
{
    let closed = FrameView { elapsed: Some(e), ..frames[i] };
    let after = frames.update(i, closed);
    if i == frames.len() - 1 {
        assert(after.drop_last() =~= frames.drop_last());
        assert(after.last() == closed);
    } else {
        assert(after.drop_last() =~= frames.drop_last().update(i, closed));
        assert(after.last() == frames.last());
        lemma_close(frames.drop_last(), i, e, name);
    }
}

/// No function was entered more often than there are frames.
pub proof fn lemma_count_bounded(frames: Seq<FrameView>, name: Seq<char>)
    ensures
        call_count(frames, name) <= frames.len(),
    decreases frames.len(),
{
    if frames.len() > 0 {
        lemma_count_bounded(frames.drop_last(), name);
    }
}

/// The order of first entry names each entered function once: a name is
/// in it exactly when a frame bears it, and no name is in it twice.
pub proof fn lemma_first_seen(frames: Seq<FrameView>)
    ensures
        forall|name: Seq<char>| #[trigger]
            first_seen(frames).contains(name) <==> call_count(frames, name) > 0,
        forall|i: int| 0 <= i < frames.len() ==> first_seen(frames).contains(#[trigger] frames[i].name),
        forall|a: int, b: int|
            0 <= a < b < first_seen(frames).len() ==> first_seen(frames)[a] != first_seen(
                frames,
            )[b],
    decreases frames.len(),
{
    if frames.len() > 0 {
        let before = frames.drop_last();
        let seen = first_seen(before);
        let last = frames.last().name;
        lemma_first_seen(before);
        let now_seen = first_seen(frames);
        assert forall|name: Seq<char>| #[trigger]
            now_seen.contains(name) <==> call_count(frames, name) > 0 by {
            if seen.contains(last) {
            } else {
                if seen.contains(name) {
                    let w = choose|w: int| 0 <= w < seen.len() && seen[w] == name;
                    assert(now_seen[w] == name);
                }
                if name == last {
                    assert(now_seen[seen.len() as int] == last);
                }
            }
        }
        assert forall|i: int| 0 <= i < frames.len() implies now_seen.contains(
            #[trigger] frames[i].name,
        ) by {
            if i < frames.len() - 1 {
                assert(before[i] == frames[i]);
                assert(seen.contains(before[i].name));
                lemma_count_bounded(before, frames[i].name);
            } else {
                assert(call_count(frames, frames[i].name) > 0);
            }
        }
    }
}

impl RecorderView {
    /// A recorder that has seen nothing meets the invariant.
    pub proof fn lemma_initial_inv()
        ensures
            RecorderView::initial().inv(),
    {
        reveal(RecorderView::stack_ok);
        reveal(RecorderView::frames_ok);
        reveal(RecorderView::nesting_ok);
        reveal(RecorderView::roots_ok);
    }

    /// Entering a call keeps the invariant.
    pub proof fn lemma_enter_inv(self, name: Seq<char>, at: nat)
        requires
            self.inv(),
            !self.finished,
        ensures
            self.enter(name, at).inv(),
    {
        reveal(RecorderView::stack_ok);
        reveal(RecorderView::frames_ok);
        reveal(RecorderView::nesting_ok);
        reveal(RecorderView::roots_ok);
        let next = self.enter(name, at);
        let n = self.frames.len() as int;
        let depth = self.stack.len() as int;
        lemma_push(self.frames, next.frames[n], name);
        assert(next.stack[depth] == n);
        assert forall|i: int| 0 <= i < next.frames.len() implies {
            let f = #[trigger] next.frames[i];
            &&& f.start <= next.now
            &&& f.elapsed matches Some(e) ==> f.start + e <= next.now
            &&& f.elapsed is None ==> next.is_open(i)
            &&& match f.parent {
                Some(p) => 0 <= p < i && f.depth == next.frames[p].depth + 1,
                None => f.depth == 0,
            }
        } by {
            if i < n {
                assert(next.frames[i] == self.frames[i]);
                if self.frames[i].elapsed is None {
                    let k = choose|k: int| 0 <= k < self.stack.len() && self.stack[k] == i;
                    assert(next.stack[k] == i);
                }
            } else {
                assert(next.stack[depth] == i);
                if depth > 0 {
                    assert(self.frames[self.stack[depth - 1]].depth == depth - 1);
                }
            }
        }
        assert(next.stack_ok()) by {
            assert forall|k: int| 0 <= k < next.stack.len() implies {
                let f = next.frames[#[trigger] next.stack[k]];
                &&& f.elapsed is None
                &&& f.depth == k
                &&& f.parent == if k == 0 {
                    None
                } else {
                    Some(next.stack[k - 1])
                }
            } by {
                if k < depth {
                    assert(next.stack[k] == self.stack[k]);
                    assert(next.frames[self.stack[k]] == self.frames[self.stack[k]]);
                    if k > 0 {
                        assert(next.stack[k - 1] == self.stack[k - 1]);
                    }
                }
            }
        }
        assert(next.nesting_ok()) by {
            assert forall|i: int| 0 <= i < next.frames.len() implies (
            #[trigger] next.frames[i].parent matches Some(p) ==> {
                let f = next.frames[i];
                let c = next.frames[p];
                &&& c.start <= f.start
                &&& c.elapsed matches Some(ce) ==> (f.elapsed matches Some(fe) && f.start + fe
                    <= c.start + ce)
            }) by {
                if i < n {
                    assert(next.frames[i] == self.frames[i]);
                } else if depth > 0 {
                    let p = self.stack[depth - 1];
                    assert(next.frames[p] == self.frames[p]);
                }
            }
        }
        assert(next.roots_ok()) by {
            if depth > 0 {
                assert(next.stack[0] == self.stack[0]);
                assert(next.frames[self.stack[0]] == self.frames[self.stack[0]]);
            }
        }
    }

    proof fn lemma_exit_stack(self, at: nat)
        requires
            self.stack_ok(),
            self.stack.len() > 0,
        ensures
            self.exit(at).stack_ok(),
    {
        reveal(RecorderView::stack_ok);
        let next = self.exit(at);
        let depth = self.stack.len() as int;
        assert forall|k: int| 0 <= k < next.stack.len() implies {
            let f = next.frames[#[trigger] next.stack[k]];
            &&& f.elapsed is None
            &&& f.depth == k
            &&& f.parent == if k == 0 {
                None
            } else {
                Some(next.stack[k - 1])
            }
        } by {
            assert(next.stack[k] == self.stack[k]);
            assert(self.stack[k] < self.stack[depth - 1]);
            if k > 0 {
                assert(next.stack[k - 1] == self.stack[k - 1]);
            }
        }
        assert forall|k: int, l: int| 0 <= k < l < next.stack.len() implies #[trigger] next.stack[k]
            < #[trigger] next.stack[l] by {
            assert(next.stack[k] == self.stack[k]);
            assert(next.stack[l] == self.stack[l]);
        }
        assert forall|k: int| 0 <= k < next.stack.len() implies 0 <= #[trigger] next.stack[k]
            < next.frames.len() by {
            assert(next.stack[k] == self.stack[k]);
        }
    }

    proof fn lemma_exit_frames(self, at: nat)
        requires
            self.stack_ok(),
            self.frames_ok(),
            self.stack.len() > 0,
        ensures
            self.exit(at).frames_ok(),
    {
        reveal(RecorderView::stack_ok);
        reveal(RecorderView::frames_ok);
        let next = self.exit(at);
        let depth = self.stack.len() as int;
        let top = self.stack[depth - 1];
        assert forall|i: int| 0 <= i < next.frames.len() implies {
            let f = #[trigger] next.frames[i];
            &&& f.start <= next.now
            &&& f.elapsed matches Some(e) ==> f.start + e <= next.now
            &&& f.elapsed is None ==> next.is_open(i)
            &&& match f.parent {
                Some(p) => 0 <= p < i && f.depth == next.frames[p].depth + 1,
                None => f.depth == 0,
            }
        } by {
            let old_f = self.frames[i];
            if i != top {
                assert(next.frames[i] == old_f);
                if old_f.elapsed is None {
                    let k = choose|k: int| 0 <= k < self.stack.len() && self.stack[k] == i;
                    assert(k < depth - 1);
                    assert(next.stack[k] == i);
                }
            }
            if let Some(p) = old_f.parent {
                assert(next.frames[p].depth == self.frames[p].depth);
            }
        }
    }

    proof fn lemma_exit_nesting(self, at: nat)
        requires
            self.stack_ok(),
            self.frames_ok(),
            self.nesting_ok(),
            self.stack.len() > 0,
        ensures
            self.exit(at).nesting_ok(),
    {
        reveal(RecorderView::stack_ok);
        reveal(RecorderView::frames_ok);
        reveal(RecorderView::nesting_ok);
        let next = self.exit(at);
        let depth = self.stack.len() as int;
        let top = self.stack[depth - 1];
        assert forall|i: int| 0 <= i < next.frames.len() implies (
        #[trigger] next.frames[i].parent matches Some(p) ==> {
            let f = next.frames[i];
            let c = next.frames[p];
            &&& c.start <= f.start
            &&& c.elapsed matches Some(ce) ==> (f.elapsed matches Some(fe) && f.start + fe
                <= c.start + ce)
        }) by {
            let old_f = self.frames[i];
            if let Some(p) = old_f.parent {
                let old_c = self.frames[p];
                if p == top {
                    if old_f.elapsed is None {
                        let k = choose|k: int| 0 <= k < self.stack.len() && self.stack[k] == i;
                        if k < depth - 1 {
                            assert(self.stack[k] < self.stack[depth - 1]);
                        }
                    }
                }
            }
        }
    }

    proof fn lemma_exit_roots(self, at: nat)
        requires
            self.stack_ok(),
            self.frames_ok(),
            self.roots_ok(),
            self.stack.len() > 0,
        ensures
            self.exit(at).roots_ok(),
    {
        reveal(RecorderView::stack_ok);
        reveal(RecorderView::frames_ok);
        reveal(RecorderView::roots_ok);
        let next = self.exit(at);
        let depth = self.stack.len() as int;
        let top = self.stack[depth - 1];
        let t = self.reading(at);
        let e = (t - self.frames[top].start) as nat;
        lemma_close(self.frames, top, e, self.frames[top].name);
        if depth > 1 {
            assert(next.stack[0] == self.stack[0]);
            assert(self.stack[0] < self.stack[depth - 1]);
            assert(self.frames[top].parent is Some);
        } else {
            assert(self.frames[top].parent is None);
        }
    }

    /// Leaving the innermost open call keeps the invariant.
    pub proof fn lemma_exit_inv(self, at: nat)
        requires
            self.inv(),
            self.stack.len() > 0,
        ensures
            self.exit(at).inv(),
    {
        self.lemma_exit_stack(at);
        self.lemma_exit_frames(at);
        self.lemma_exit_nesting(at);
        self.lemma_exit_roots(at);
    }

    /// What the invariant says of the innermost open call: it is a frame
    /// that is still open and began no later than now.
    pub proof fn lemma_top(self)
        requires
            self.inv(),
            self.stack.len() > 0,
        ensures
            0 <= self.stack.last() < self.frames.len(),
            self.frames[self.stack.last()].elapsed is None,
            self.frames[self.stack.last()].start <= self.now,
            !self.finished,
    {
        reveal(RecorderView::stack_ok);
        reveal(RecorderView::frames_ok);
    }

    /// With no call open, every frame is closed, and the top-level calls
    /// together took no longer than the time seen.
    pub proof fn lemma_idle(self)
        requires
            self.inv(),
            self.stack.len() == 0,
        ensures
            forall|i: int| 0 <= i < self.frames.len() ==> (#[trigger] self.frames[i]).elapsed is Some,
            root_time(self.frames) <= self.now,
    {
        reveal(RecorderView::frames_ok);
        reveal(RecorderView::roots_ok);
    }

    /// Charging time to the bookkeeping keeps the invariant.
    pub proof fn lemma_settle_inv(self, at: nat)
        requires
            self.inv(),
        ensures
            self.settle(at).inv(),
    {
        reveal(RecorderView::stack_ok);
        reveal(RecorderView::frames_ok);
        reveal(RecorderView::nesting_ok);
        reveal(RecorderView::roots_ok);
        let next = self.settle(at);
        assert forall|i: int| 0 <= i < next.frames.len() implies {
            let f = #[trigger] next.frames[i];
            &&& f.elapsed is None ==> next.is_open(i)
        } by {
            if self.frames[i].elapsed is None {
                let k = choose|k: int| 0 <= k < self.stack.len() && self.stack[k] == i;
                assert(next.stack[k] == i);
            }
        }
    }

    /// Closing a recording in which no call is open keeps the invariant.
    pub proof fn lemma_finish_inv(self, at: nat)
        requires
            self.inv(),
            self.stack.len() == 0,
        ensures
            self.finish(at).inv(),
    {
        reveal(RecorderView::stack_ok);
        reveal(RecorderView::frames_ok);
        reveal(RecorderView::nesting_ok);
        reveal(RecorderView::roots_ok);
        let next = self.finish(at);
        assert forall|i: int| 0 <= i < next.frames.len() implies {
            let f = #[trigger] next.frames[i];
            &&& f.elapsed is None ==> next.is_open(i)
        } by {
            if self.frames[i].elapsed is None {
                let k = choose|k: int| 0 <= k < self.stack.len() && self.stack[k] == i;
            }
        }
    }

    /// Every call on a recorder keeps the invariant.
    pub proof fn lemma_after_inv(self, event: Event)
        requires
            self.inv(),
        ensures
            self.after(event).inv(),
    {
        match event {
            Event::Enter { name, at } => {
                if !self.finished {
                    self.lemma_enter_inv(name, at);
                }
            },
            Event::Exit { at } => {
                if self.stack.len() > 0 {
                    self.lemma_exit_inv(at);
                }
            },
            Event::Settle { at } => {
                if !self.finished {
                    self.lemma_settle_inv(at);
                }
            },
            Event::Finish { at } => {
                if !self.finished && self.stack.len() == 0 {
                    self.lemma_finish_inv(at);
                }
            },
        }
    }

    /// Whatever calls are made on a recorder, in whatever order, the
    /// invariant holds afterwards.
    pub proof fn lemma_replay_inv(events: Seq<Event>)
        ensures
            RecorderView::replay(events).inv(),
        decreases events.len(),
    {
        if events.len() == 0 {
            RecorderView::lemma_initial_inv();
        } else {
            RecorderView::lemma_replay_inv(events.drop_last());
            RecorderView::replay(events.drop_last()).lemma_after_inv(events.last());
        }
    }

    /// After any sequence of calls that leaves no call open, the
    /// inclusive times of the top-level calls add up to no more than the
    /// time that has passed.
    pub proof fn lemma_top_level_time_within_run(events: Seq<Event>)
        requires
            RecorderView::replay(events).stack.len() == 0,
        ensures
            root_time(RecorderView::replay(events).frames) <= RecorderView::replay(events).now,
    {
        RecorderView::lemma_replay_inv(events);
        RecorderView::replay(events).lemma_idle();
    }

    /// A call is counted for its function as soon as it is entered,
    /// before it has ended.
    pub proof fn lemma_enter_counts_at_once(self, name: Seq<char>, at: nat)
        ensures
            call_count(self.enter(name, at).frames, name) == call_count(self.frames, name) + 1,
            time_in(self.enter(name, at).frames, name) == time_in(self.frames, name),
    {
        let n = self.frames.len() as int;
        lemma_push(self.frames, self.enter(name, at).frames[n], name);
    }

    /// No call on a recorder takes anything back: the call count and the
    /// total time of every function stay or grow.
    pub proof fn lemma_totals_never_shrink(self, event: Event, name: Seq<char>)
        requires
            self.inv(),
        ensures
            call_count(self.after(event).frames, name) >= call_count(self.frames, name),
            time_in(self.after(event).frames, name) >= time_in(self.frames, name),
    {
        match event {
            Event::Enter { name: entered, at } => {
                if !self.finished {
                    let n = self.frames.len() as int;
                    lemma_push(self.frames, self.enter(entered, at).frames[n], name);
                }
            },
            Event::Exit { at } => {
                if self.stack.len() > 0 {
                    self.lemma_top();
                    let top = self.stack.last();
                    let spent = (self.reading(at) - self.frames[top].start) as nat;
                    lemma_close(self.frames, top, spent, name);
                }
            },
            Event::Settle { at } => {},
            Event::Finish { at } => {},
        }
    }
}

} // verus!
