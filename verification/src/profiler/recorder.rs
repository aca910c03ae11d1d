//! The call recorder: a stack of open calls over an arena of frames, with
//! a running tally for each function.

use vstd::prelude::*;
use vstd::string::StringExecFns;
use super::error::{ProfileError, RecorderStage};
use super::profile::{
    function_views, opt_text, FunctionProfile, FunctionProfileView, ProfileData, ProfileDataView,
};
use super::trace::{call_count, first_seen, root_time, time_in, FrameView, RecorderView};
use super::trace_proofs::{lemma_close, lemma_count_bounded, lemma_first_seen, lemma_push};
use super::tree::{lemma_tree_of_wf, node_views, tree_of, CallNode, CallTree};
use super::units::{capped, lemma_share_bounded, share_of, Duration, Percent};

verus! {

/// One call in the arena.
struct Frame {
    name: String,
    depth: usize,
    parent: Option<usize>,
    start: u64,
    elapsed: Option<u64>,
    /// Position of the function's tally.
    slot: usize,
}

/// The running figures of one function.
struct Tally {
    name: String,
    call_count: u64,
    total_time: u64,
}

/// Records nested calls against timestamps that the caller supplies.
///
/// Timestamps count nanoseconds from the recorder's creation. A timestamp
/// that lies before one already seen is read as that one.
pub struct CallRecorder {
    frames: Vec<Frame>,
    stack: Vec<usize>,
    tallies: Vec<Tally>,
    now: u64,
    overhead: u64,
    finished: bool,
}

spec fn frame_view(frame: Frame) -> FrameView {
    FrameView {
        name: frame.name@,
        depth: frame.depth as nat,
        parent: match frame.parent {
            Some(p) => Some(p as int),
            None => None,
        },
        start: frame.start as nat,
        elapsed: match frame.elapsed {
            Some(e) => Some(e as nat),
            None => None,
        },
    }
}

spec fn frame_views(frames: Seq<Frame>) -> Seq<FrameView> {
    Seq::new(frames.len(), |i: int| frame_view(frames[i]))
}

spec fn positions(stack: Seq<usize>) -> Seq<int> {
    Seq::new(stack.len(), |k: int| stack[k] as int)
}

/// Each tally belongs to one entered function, in the order of first
/// entry, and holds that function's figures; each frame knows its tally.
#[verifier::opaque]
spec fn tallies_ok(tallies: Seq<Tally>, frames: Seq<Frame>) -> bool {
    let views = frame_views(frames);
    &&& tallies.len() == first_seen(views).len()
    &&& forall|k: int|
        0 <= k < tallies.len() ==> {
            let tally = #[trigger] tallies[k];
            &&& tally.name@ == first_seen(views)[k]
            &&& tally.call_count == call_count(views, tally.name@)
            &&& tally.total_time == capped(time_in(views, tally.name@) as int)
        }
    &&& forall|i: int|
        0 <= i < frames.len() ==> {
            let frame = #[trigger] frames[i];
            &&& frame.slot < tallies.len()
            &&& tallies[frame.slot as int].name@ == frame.name@
        }
}

/// The statistics of `name` in a finished recording.
pub open spec fn stat_of(frames: Seq<FrameView>, name: Seq<char>) -> FunctionProfileView {
    let total = capped(time_in(frames, name) as int) as nat;
    FunctionProfileView {
        name,
        call_count: call_count(frames, name),
        total_time: total,
        avg_time: (total / call_count(frames, name)) as nat,
    }
}

/// The statistics of every entered function, in the order of first entry.
pub open spec fn function_stats(frames: Seq<FrameView>) -> Seq<FunctionProfileView> {
    Seq::new(first_seen(frames).len(), |k: int| stat_of(frames, first_seen(frames)[k]))
}

/// The profile that a finished recording amounts to.
pub open spec fn profile_of(
    finished: RecorderView,
    contract_path: Seq<char>,
    method: Option<Seq<char>>,
) -> ProfileDataView {
    ProfileDataView {
        contract_path,
        method,
        total_duration: finished.now,
        overhead_percent: share_of(finished.overhead as int, finished.now as int),
        functions: function_stats(finished.frames),
    }
}

/// A function that was never entered has no time on its account.
proof fn lemma_unseen_no_time(frames: Seq<FrameView>, name: Seq<char>)
    requires
        call_count(frames, name) == 0,
    ensures
        time_in(frames, name) == 0,
    decreases frames.len(),
{
    if frames.len() > 0 {
        lemma_unseen_no_time(frames.drop_last(), name);
    }
}

/// The statistics drawn from a recording form a valid set: one entry per
/// function, each called at least once, each average exact.
pub proof fn lemma_function_stats_wf(frames: Seq<FrameView>)
    ensures
        forall|k: int|
            0 <= k < function_stats(frames).len() ==> (#[trigger] function_stats(frames)[k]).wf(),
        forall|a: int, b: int|
            0 <= a < b < function_stats(frames).len() ==> (#[trigger] function_stats(
                frames,
            )[a]).name != (#[trigger] function_stats(frames)[b]).name,
{
    lemma_first_seen(frames);
    let seen = first_seen(frames);
    assert forall|k: int| 0 <= k < function_stats(frames).len() implies (
    #[trigger] function_stats(frames)[k]).wf() by {
        assert(seen.contains(seen[k]));
    }
}

fn find_tally(tallies: &Vec<Tally>, name: &String) -> (found: Option<usize>)
    ensures
        match found {
            Some(k) => k < tallies.len() && tallies[k as int].name@ == name@,
            None => forall|k: int| 0 <= k < tallies.len() ==> tallies[k].name@ != name@,
        },
{
    let mut k: usize = 0;
    while k < tallies.len()
        invariant
            k <= tallies.len(),
            forall|j: int| 0 <= j < k ==> tallies[j].name@ != name@,
        decreases tallies.len() - k,
    {
        if tallies[k].name == *name {
            return Some(k);
        }
        k += 1;
    }
    None
}

proof fn lemma_views_push(frames: Seq<Frame>, frame: Frame)
    ensures
        frame_views(frames.push(frame)) == frame_views(frames).push(frame_view(frame)),
{
    assert(frame_views(frames.push(frame)) =~= frame_views(frames).push(frame_view(frame)));
}

/// What a tally holds: the call count of its function, which is positive
/// and no larger than the number of frames.
proof fn lemma_tally(tallies: Seq<Tally>, frames: Seq<Frame>, k: int)
    requires
        tallies_ok(tallies, frames),
        0 <= k < tallies.len(),
    ensures
        tallies.len() == first_seen(frame_views(frames)).len(),
        tallies[k].name@ == first_seen(frame_views(frames))[k],
        tallies[k].call_count == call_count(frame_views(frames), tallies[k].name@),
        tallies[k].total_time == capped(time_in(frame_views(frames), tallies[k].name@) as int),
        0 < tallies[k].call_count <= frames.len(),
{
    reveal(tallies_ok);
    let views = frame_views(frames);
    lemma_count_bounded(views, tallies[k].name@);
    lemma_first_seen(views);
    assert(first_seen(views).contains(first_seen(views)[k]));
}

/// Each frame points at the tally of its own function.
proof fn lemma_slot(tallies: Seq<Tally>, frames: Seq<Frame>, i: int)
    requires
        tallies_ok(tallies, frames),
        0 <= i < frames.len(),
    ensures
        frames[i].slot < tallies.len(),
        tallies[frames[i].slot as int].name@ == frames[i].name@,
{
    reveal(tallies_ok);
}

proof fn lemma_tallies_initial()
    ensures
        tallies_ok(Seq::<Tally>::empty(), Seq::<Frame>::empty()),
{
    reveal(tallies_ok);
    assert(frame_views(Seq::<Frame>::empty()) =~= Seq::<FrameView>::empty());
}

/// The tallies stay right when a frame is entered and its function's
/// tally is raised by one, or begun at one where the function is new.
proof fn lemma_tallies_enter(
    old_t: Seq<Tally>,
    old_f: Seq<Frame>,
    new_t: Seq<Tally>,
    frame: Frame,
    found: Option<usize>,
)
    requires
        tallies_ok(old_t, old_f),
        frame.elapsed is None,
        match found {
            Some(k) => {
                &&& k < old_t.len()
                &&& old_t[k as int].name@ == frame.name@
                &&& frame.slot == k
                &&& new_t.len() == old_t.len()
                &&& forall|j: int| 0 <= j < old_t.len() && j != k ==> new_t[j] == old_t[j]
                &&& new_t[k as int].name@ == old_t[k as int].name@
                &&& new_t[k as int].call_count == old_t[k as int].call_count + 1
                &&& new_t[k as int].total_time == old_t[k as int].total_time
            },
            None => {
                &&& forall|j: int| 0 <= j < old_t.len() ==> old_t[j].name@ != frame.name@
                &&& frame.slot == old_t.len()
                &&& new_t.len() == old_t.len() + 1
                &&& forall|j: int| 0 <= j < old_t.len() ==> new_t[j] == old_t[j]
                &&& new_t[old_t.len() as int].name@ == frame.name@
                &&& new_t[old_t.len() as int].call_count == 1
                &&& new_t[old_t.len() as int].total_time == 0
            },
        },
    ensures
        tallies_ok(new_t, old_f.push(frame)),
{
    reveal(tallies_ok);
    let old_views = frame_views(old_f);
    let entered = frame_view(frame);
    let new_f = old_f.push(frame);
    let views = frame_views(new_f);
    let name = frame.name@;
    let seen = first_seen(old_views);
    lemma_views_push(old_f, frame);
    lemma_first_seen(old_views);
    lemma_push(old_views, entered, name);
    if found is Some {
        assert(seen[found->0 as int] == name);
        assert(seen.contains(name));
    } else {
        assert(!seen.contains(name)) by {
            if seen.contains(name) {
                let w = choose|w: int| 0 <= w < seen.len() && seen[w] == name;
                assert(old_t[w].name@ == name);
            }
        }
        lemma_unseen_no_time(old_views, name);
    }
    assert forall|k: int| 0 <= k < new_t.len() implies {
        let tally = #[trigger] new_t[k];
        &&& tally.name@ == first_seen(views)[k]
        &&& tally.call_count == call_count(views, tally.name@)
        &&& tally.total_time == capped(time_in(views, tally.name@) as int)
    } by {
        let tally = new_t[k];
        lemma_push(old_views, entered, tally.name@);
        if k < old_t.len() {
            assert(tally.name@ == old_t[k].name@);
            assert(old_t[k].name@ == seen[k]);
        }
    }
    assert forall|i: int| 0 <= i < new_f.len() implies {
        let f = #[trigger] new_f[i];
        &&& f.slot < new_t.len()
        &&& new_t[f.slot as int].name@ == f.name@
    } by {
        if i < old_f.len() {
            assert(new_f[i] == old_f[i]);
        }
    }
}

/// The tallies stay right when a frame is closed and its time is added
/// to its function's tally.
proof fn lemma_tallies_exit(
    old_t: Seq<Tally>,
    old_f: Seq<Frame>,
    new_t: Seq<Tally>,
    new_f: Seq<Frame>,
    top: int,
    e: u64,
)
    requires
        tallies_ok(old_t, old_f),
        0 <= top < old_f.len(),
        old_f[top].elapsed is None,
        new_f.len() == old_f.len(),
        forall|i: int| 0 <= i < old_f.len() && i != top ==> new_f[i] == old_f[i],
        new_f[top] == (Frame { elapsed: Some(e), ..old_f[top] }),
        new_t.len() == old_t.len(),
        forall|j: int| 0 <= j < old_t.len() && j != old_f[top].slot ==> new_t[j] == old_t[j],
        new_t[old_f[top].slot as int].name@ == old_t[old_f[top].slot as int].name@,
        new_t[old_f[top].slot as int].call_count == old_t[old_f[top].slot as int].call_count,
        new_t[old_f[top].slot as int].total_time == capped(
            old_t[old_f[top].slot as int].total_time + e,
        ),
    ensures
        tallies_ok(new_t, new_f),
        frame_views(new_f) == frame_views(old_f).update(
            top,
            FrameView { elapsed: Some(e as nat), ..frame_views(old_f)[top] },
        ),
{
    reveal(tallies_ok);
    let old_views = frame_views(old_f);
    let views = frame_views(new_f);
    let slot = old_f[top].slot as int;
    let name = old_f[top].name@;
    let seen = first_seen(old_views);
    assert(views =~= old_views.update(
        top,
        FrameView { elapsed: Some(e as nat), ..old_views[top] },
    ));
    lemma_first_seen(old_views);
    lemma_close(old_views, top, e as nat, name);
    assert forall|k: int| 0 <= k < new_t.len() implies {
        let tally = #[trigger] new_t[k];
        &&& tally.name@ == first_seen(views)[k]
        &&& tally.call_count == call_count(views, tally.name@)
        &&& tally.total_time == capped(time_in(views, tally.name@) as int)
    } by {
        let tally = new_t[k];
        lemma_close(old_views, top, e as nat, tally.name@);
        assert(tally.name@ == old_t[k].name@);
        assert(old_t[k].name@ == seen[k]);
        assert(old_t[slot].name@ == seen[slot]);
    }
    assert forall|i: int| 0 <= i < new_f.len() implies {
        let f = #[trigger] new_f[i];
        &&& f.slot < new_t.len()
        &&& new_t[f.slot as int].name@ == f.name@
    } by {
        assert(new_f[i].slot == old_f[i].slot);
        assert(new_f[i].name == old_f[i].name);
        assert(new_t[old_f[i].slot as int].name@ == old_t[old_f[i].slot as int].name@);
    }
}

impl View for CallRecorder {
    type V = RecorderView;

    closed spec fn view(&self) -> RecorderView {
        RecorderView {
            frames: frame_views(self.frames@),
            stack: positions(self.stack@),
            now: self.now as nat,
            overhead: self.overhead as nat,
            finished: self.finished,
        }
    }
}

impl CallRecorder {
    /// Whether the recorder is in a state that its own operations lead
    /// to. Every operation keeps it so.
    pub closed spec fn wf(&self) -> bool {
        &&& self@.inv()
        &&& tallies_ok(self.tallies@, self.frames@)
    }

    /// A well-formed recorder meets the invariant of recordings.
    pub proof fn lemma_wf_inv(&self)
        requires
            self.wf(),
        ensures
            self@.inv(),
    {
    }

    /// An empty recorder: no frames, no time seen, no overhead.
    pub fn new() -> (recorder: CallRecorder)
        ensures
            recorder.wf(),
            recorder@ == RecorderView::initial(),
    {
        let recorder = CallRecorder {
            frames: Vec::new(),
            stack: Vec::new(),
            tallies: Vec::new(),
            now: 0,
            overhead: 0,
            finished: false,
        };
        proof {
            assert(recorder@.frames =~= Seq::<FrameView>::empty());
            assert(recorder@.stack =~= Seq::<int>::empty());
            RecorderView::lemma_initial_inv();
            lemma_tallies_initial();
            assert(recorder.tallies@ =~= Seq::<Tally>::empty());
            assert(recorder.frames@ =~= Seq::<Frame>::empty());
        }
        recorder
    }

    /// Whether `finish` has closed the recording.
    pub fn is_finished(&self) -> (finished: bool)
        ensures
            finished == self@.finished,
    {
        self.finished
    }

    /// The number of calls that are open.
    pub fn open_calls(&self) -> (n: usize)
        ensures
            n == self@.stack.len(),
    {
        self.stack.len()
    }

    /// The number of calls entered so far.
    pub fn entered_calls(&self) -> (n: usize)
        ensures
            n == self@.frames.len(),
    {
        self.frames.len()
    }

    /// How often `name` has been entered so far, whether or not the calls
    /// have ended.
    pub fn calls_of(&self, name: &str) -> (n: u64)
        requires
            self.wf(),
        ensures
            n == call_count(self@.frames, name@),
    {
        let wanted = String::from_str(name);
        let found = find_tally(&self.tallies, &wanted);
        proof {
            let views = frame_views(self.frames@);
            lemma_first_seen(views);
            match found {
                Some(k) => {
                    lemma_tally(self.tallies@, self.frames@, k as int);
                },
                None => {
                    let seen = first_seen(views);
                    if seen.contains(name@) {
                        let w = choose|w: int| 0 <= w < seen.len() && seen[w] == name@;
                        if self.tallies@.len() > 0 {
                            lemma_tally(self.tallies@, self.frames@, 0);
                        } else {
                            reveal(tallies_ok);
                        }
                        lemma_tally(self.tallies@, self.frames@, w);
                    }
                },
            }
        }
        match found {
            Some(k) => self.tallies[k].call_count,
            None => 0,
        }
    }

    /// The latest time seen.
    pub fn now(&self) -> (t: u64)
        ensures
            t == self@.now,
    {
        self.now
    }

    /// The time charged to the recorder's own bookkeeping so far.
    pub fn overhead(&self) -> (d: Duration)
        ensures
            d.nanos == self@.overhead,
    {
        Duration { nanos: self.overhead }
    }

    /// Opens a call of `name` at time `at`, below the innermost open call
    /// or at top level where none is open, and counts it for `name` at
    /// once. Fails, changing nothing, once the recording is finished.
    pub fn enter(&mut self, name: &str, at: u64) -> (done: Result<(), ProfileError>)
        requires
            old(self).wf(),
        ensures
            final(self).wf(),
            old(self)@.finished ==> done == Err::<(), ProfileError>(
                ProfileError::RecorderMisuse { stage: RecorderStage::Enter },
            ) && final(self)@ == old(self)@,
            !old(self)@.finished ==> done is Ok && final(self)@ == old(self)@.enter(
                name@,
                at as nat,
            ),
    {
        if self.finished {
            return Err(ProfileError::RecorderMisuse { stage: RecorderStage::Enter });
        }
        let ghost before = self@;
        let ghost old_frames = self.frames@;
        let ghost old_tallies = self.tallies@;
        let t: u64 = if at >= self.now {
            at
        } else {
            self.now
        };
        let owned = String::from_str(name);
        let found = find_tally(&self.tallies, &owned);
        let slot: usize = match found {
            Some(k) => k,
            None => self.tallies.len(),
        };
        let depth: usize = self.stack.len();
        let parent: Option<usize> = if depth == 0 {
            None
        } else {
            Some(self.stack[depth - 1])
        };
        let index: usize = self.frames.len();
        let kept = owned.clone();
        let frame = Frame { name: owned, depth, parent, start: t, elapsed: None, slot };
        let ghost entered = frame;
        self.frames.push(frame);
        self.stack.push(index);
        self.now = t;
        let entered_total: usize = self.frames.len();
        proof {
            lemma_views_push(old_frames, entered);
            assert(positions(self.stack@) =~= before.stack.push(index as int));
            if depth > 0 {
                assert(before.stack.last() == before.stack[depth - 1]);
            }
            assert(self@ == before.enter(name@, at as nat));
            before.lemma_enter_inv(name@, at as nat);
        }
        match found {
            Some(k) => {
                proof {
                    lemma_tally(old_tallies, old_frames, k as int);
                    assert(old_frames.len() + 1 == entered_total);
                }
                self.tallies[k].call_count += 1;
            },
            None => {
                self.tallies.push(Tally { name: kept, call_count: 1, total_time: 0 });
            },
        }
        proof {
            lemma_tallies_enter(old_tallies, old_frames, self.tallies@, entered, found);
        }
        Ok(())
    }

    /// Closes the innermost open call at time `at`: its inclusive time is
    /// the span since its entry, and is added to its function's total.
    /// Fails, changing nothing, where no call is open.
    pub fn exit(&mut self, at: u64) -> (done: Result<(), ProfileError>)
        requires
            old(self).wf(),
        ensures
            final(self).wf(),
            old(self)@.stack.len() == 0 ==> done == Err::<(), ProfileError>(
                ProfileError::RecorderMisuse { stage: RecorderStage::Exit },
            ) && final(self)@ == old(self)@,
            old(self)@.stack.len() > 0 ==> done is Ok && final(self)@ == old(self)@.exit(at as nat),
    {
        let depth: usize = self.stack.len();
        if depth == 0 {
            return Err(ProfileError::RecorderMisuse { stage: RecorderStage::Exit });
        }
        let ghost before = self@;
        let ghost old_frames = self.frames@;
        let ghost old_tallies = self.tallies@;
        let top: usize = self.stack[depth - 1];
        proof {
            before.lemma_top();
            assert(before.stack.last() == top);
            assert(before.frames[top as int] == frame_view(old_frames[top as int]));
            lemma_slot(old_tallies, old_frames, top as int);
        }
        let t: u64 = if at >= self.now {
            at
        } else {
            self.now
        };
        let e: u64 = t - self.frames[top].start;
        let slot: usize = self.frames[top].slot;
        self.stack.pop();
        self.frames[top].elapsed = Some(e);
        let total: u64 = self.tallies[slot].total_time.saturating_add(e);
        self.tallies[slot].total_time = total;
        self.now = t;
        proof {
            lemma_tallies_exit(old_tallies, old_frames, self.tallies@, self.frames@, top as int, e);
            assert(positions(self.stack@) =~= before.stack.drop_last());
            assert(self@ == before.exit(at as nat));
            before.lemma_exit_inv(at as nat);
        }
        Ok(())
    }

    /// Charges the time since the last step, up to `at`, to the recorder's
    /// own bookkeeping. Fails, changing nothing, once the recording is
    /// finished.
    pub fn settle(&mut self, at: u64) -> (done: Result<(), ProfileError>)
        requires
            old(self).wf(),
        ensures
            final(self).wf(),
            old(self)@.finished ==> done == Err::<(), ProfileError>(
                ProfileError::RecorderMisuse { stage: RecorderStage::Settle },
            ) && final(self)@ == old(self)@,
            !old(self)@.finished ==> done is Ok && final(self)@ == old(self)@.settle(at as nat),
    {
        if self.finished {
            return Err(ProfileError::RecorderMisuse { stage: RecorderStage::Settle });
        }
        let ghost before = self@;
        let t: u64 = if at >= self.now {
            at
        } else {
            self.now
        };
        self.overhead = self.overhead + (t - self.now);
        self.now = t;
        proof {
            assert(self@ == before.settle(at as nat));
            before.lemma_settle_inv(at as nat);
        }
        Ok(())
    }

    /// Closes the recording at time `at` and returns its profile: the
    /// run lasted from the recorder's creation until `at`, every function
    /// gets its call count, its total and its exact average, and the
    /// overhead is the bookkeeping's share of the run. Fails, changing
    /// nothing, where a call is still open or the recording was finished
    /// before.
    pub fn finish(&mut self, contract_path: String, method: Option<String>, at: u64) -> (done:
        Result<ProfileData, ProfileError>)
        requires
            old(self).wf(),
        ensures
            final(self).wf(),
            old(self)@.finished || old(self)@.stack.len() > 0 ==> done == Err::<
                ProfileData,
                ProfileError,
            >(ProfileError::RecorderMisuse { stage: RecorderStage::Finish }) && final(self)@ == old(
                self,
            )@,
            !old(self)@.finished && old(self)@.stack.len() == 0 ==> {
                &&& final(self)@ == old(self)@.finish(at as nat)
                &&& done matches Ok(profile)
                &&& profile@ == profile_of(final(self)@, contract_path@, opt_text(method))
                &&& profile@.wf()
                &&& root_time(final(self)@.frames) <= profile@.total_duration
            },
    {
        if self.finished || self.stack.len() > 0 {
            return Err(ProfileError::RecorderMisuse { stage: RecorderStage::Finish });
        }
        let ghost before = self@;
        let ghost views = frame_views(self.frames@);
        let t: u64 = if at >= self.now {
            at
        } else {
            self.now
        };
        let mut functions: Vec<FunctionProfile> = Vec::new();
        let mut k: usize = 0;
        while k < self.tallies.len()
            invariant
                k <= self.tallies.len(),
                tallies_ok(self.tallies@, self.frames@),
                views == frame_views(self.frames@),
                functions.len() == k,
                forall|j: int| 0 <= j < k ==> (#[trigger] functions[j])@ == stat_of(
                    views,
                    first_seen(views)[j],
                ),
            decreases self.tallies.len() - k,
        {
            proof {
                lemma_tally(self.tallies@, self.frames@, k as int);
            }
            let name = self.tallies[k].name.clone();
            let call_count: u64 = self.tallies[k].call_count;
            let total: u64 = self.tallies[k].total_time;
            functions.push(
                FunctionProfile {
                    name,
                    call_count,
                    total_time: Duration { nanos: total },
                    avg_time: Duration { nanos: total / call_count },
                },
            );
            k += 1;
        }
        let overhead_percent = Percent::share(Duration { nanos: self.overhead }, Duration { nanos: t });
        self.now = t;
        self.finished = true;
        proof {
            assert(self@ == before.finish(at as nat));
            before.lemma_finish_inv(at as nat);
            self@.lemma_idle();
            if self.tallies@.len() > 0 {
                lemma_tally(self.tallies@, self.frames@, 0);
            } else {
                reveal(tallies_ok);
            }
            assert(function_views(functions@) =~= function_stats(views));
            lemma_function_stats_wf(views);
            lemma_share_bounded(self.overhead as int, t as int);
        }
        Ok(
            ProfileData::assemble(
                contract_path,
                method,
                Duration { nanos: t },
                overhead_percent,
                functions,
            ),
        )
    }

    /// The call tree of the finished recording. Fails while the recording
    /// is not finished.
    pub fn call_tree(&self) -> (made: Result<CallTree, ProfileError>)
        requires
            self.wf(),
        ensures
            !self@.finished ==> made == Err::<CallTree, ProfileError>(
                ProfileError::RecorderMisuse { stage: RecorderStage::Tree },
            ),
            self@.finished ==> (made matches Ok(tree) && tree@ == tree_of(self@) && tree@.wf()),
    {
        if !self.finished {
            return Err(ProfileError::RecorderMisuse { stage: RecorderStage::Tree });
        }
        let ghost views = frame_views(self.frames@);
        let mut nodes: Vec<CallNode> = Vec::new();
        let mut i: usize = 0;
        while i < self.frames.len()
            invariant
                i <= self.frames.len(),
                nodes.len() == i,
                forall|k: int| 0 <= k < i ==> (#[trigger] nodes[k])@ == tree_of(self@).nodes[k],
            decreases self.frames.len() - i,
        {
            let frame = &self.frames[i];
            proof {
                assert(self@.frames[i as int] == frame_view(*frame));
            }
            let duration: u64 = match frame.elapsed {
                Some(e) => e,
                None => 0,
            };
            nodes.push(
                CallNode {
                    name: frame.name.clone(),
                    depth: frame.depth,
                    parent: frame.parent,
                    start: frame.start,
                    duration,
                },
            );
            i += 1;
        }
        proof {
            assert(node_views(nodes@) =~= tree_of(self@).nodes);
            lemma_tree_of_wf(self@);
        }
        Ok(CallTree::assemble(nodes, self.now))
    }
}

} // verus!
