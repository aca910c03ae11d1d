//! The profiler proper: a call recorder driven by a running clock.

use vstd::prelude::*;
use crate::clock::Clock;
use super::error::{ProfileError, RecorderStage};
use super::profile::{opt_text, ProfileData};
use super::recorder::{profile_of, CallRecorder};
use super::trace::{call_count, root_time, RecorderView};
use super::tree::{tree_of, CallTree};

verus! {

/// The state after a call of `name` was entered at `at` and the
/// bookkeeping for it ended at `done`.
pub open spec fn entered(before: RecorderView, name: Seq<char>, at: nat, done: nat) -> RecorderView {
    before.enter(name, at).settle(done)
}

/// The state after the innermost call was left at `at` and the
/// bookkeeping for it ended at `done`.
pub open spec fn left(before: RecorderView, at: nat, done: nat) -> RecorderView {
    before.exit(at).settle(done)
}

/// Records calls as they happen. Each operation reads the clock when it
/// begins and again when it is done, and charges the time between the two
/// readings to the profiler's own overhead.
pub struct Profiler {
    clock: Clock,
    recorder: CallRecorder,
}

impl View for Profiler {
    type V = RecorderView;

    closed spec fn view(&self) -> RecorderView {
        self.recorder@
    }
}

impl Profiler {
    /// Whether the profiler is in a state that its own operations lead
    /// to: the recorder is well formed and has seen no time that the clock
    /// has not shown.
    pub closed spec fn wf(&self) -> bool {
        &&& self.recorder.wf()
        &&& self.recorder@.now <= self.clock.last()
    }

    /// A well-formed profiler has seen no time that its clock has not
    /// shown, so that its recorder takes every reading as it is.
    pub proof fn lemma_wf_now(&self, at: nat)
        requires
            self.wf(),
            self.clock_reading() <= at,
        ensures
            self@.reading(at) == at,
    {
    }

    /// The latest reading of the profiler's clock.
    pub closed spec fn clock_reading(&self) -> nat {
        self.clock.last()
    }

    /// A well-formed profiler meets the invariant of recordings.
    pub proof fn lemma_wf_inv(&self)
        requires
            self.wf(),
        ensures
            self@.inv(),
    {
        self.recorder.lemma_wf_inv();
    }

    /// Starts the clock on an empty recording.
    pub fn new() -> (profiler: Profiler)
        ensures
            profiler.wf(),
            profiler@ == RecorderView::initial(),
            profiler.clock_reading() == 0,
    {
        Profiler { clock: Clock::start(), recorder: CallRecorder::new() }
    }

    /// The latest reading of the profiler's clock, in nanoseconds since
    /// the profiler was made.
    pub fn latest_reading(&self) -> (ns: u64)
        ensures
            ns == self.clock_reading(),
    {
        self.clock.latest()
    }

    /// Whether `finish` has closed the recording.
    pub fn is_finished(&self) -> (finished: bool)
        ensures
            finished == self@.finished,
    {
        self.recorder.is_finished()
    }

    /// The number of calls that are open.
    pub fn open_calls(&self) -> (n: usize)
        ensures
            n == self@.stack.len(),
    {
        self.recorder.open_calls()
    }

    /// The number of calls entered so far.
    pub fn entered_calls(&self) -> (n: usize)
        ensures
            n == self@.frames.len(),
    {
        self.recorder.entered_calls()
    }

    /// How often `name` has been entered so far, whether or not the calls
    /// have ended.
    pub fn calls_of(&self, name: &str) -> (n: u64)
        requires
            self.wf(),
        ensures
            n == call_count(self@.frames, name@),
    {
        self.recorder.calls_of(name)
    }

    /// Opens a call of `name` now. Whatever the clock reads, the call is
    /// entered at the first reading and the bookkeeping settled at the
    /// second. Fails, changing nothing, once the recording is finished.
    pub fn enter(&mut self, name: &str) -> (done: Result<(), ProfileError>)
        requires
            old(self).wf(),
        ensures
            final(self).wf(),
            old(self)@.finished ==> done == Err::<(), ProfileError>(
                ProfileError::RecorderMisuse { stage: RecorderStage::Enter },
            ) && final(self)@ == old(self)@,
            !old(self)@.finished ==> done is Ok && exists|at: nat, settled: nat|
                {
                    &&& old(self).clock_reading() <= at <= settled
                    &&& settled == final(self).clock_reading()
                    &&& final(self)@ == #[trigger] entered(old(self)@, name@, at, settled)
                },
    {
        if self.recorder.is_finished() {
            return Err(ProfileError::RecorderMisuse { stage: RecorderStage::Enter });
        }
        let at: u64 = self.clock.read();
        let opened = self.recorder.enter(name, at);
        let settled: u64 = self.clock.read();
        let charged = self.recorder.settle(settled);
        proof {
            assert(self@ == entered(old(self)@, name@, at as nat, settled as nat));
        }
        match opened {
            Ok(()) => charged,
            Err(misuse) => Err(misuse),
        }
    }

    /// Closes the innermost open call now. Fails, changing nothing, where
    /// no call is open.
    pub fn exit(&mut self) -> (done: Result<(), ProfileError>)
        requires
            old(self).wf(),
        ensures
            final(self).wf(),
            old(self)@.stack.len() == 0 ==> done == Err::<(), ProfileError>(
                ProfileError::RecorderMisuse { stage: RecorderStage::Exit },
            ) && final(self)@ == old(self)@,
            old(self)@.stack.len() > 0 ==> done is Ok && exists|at: nat, settled: nat|
                {
                    &&& old(self).clock_reading() <= at <= settled
                    &&& settled == final(self).clock_reading()
                    &&& final(self)@ == #[trigger] left(old(self)@, at, settled)
                },
    {
        if self.recorder.open_calls() == 0 {
            return Err(ProfileError::RecorderMisuse { stage: RecorderStage::Exit });
        }
        proof {
            self.recorder.lemma_wf_inv();
            self.recorder@.lemma_top();
        }
        let at: u64 = self.clock.read();
        let closed = self.recorder.exit(at);
        let settled: u64 = self.clock.read();
        let charged = self.recorder.settle(settled);
        proof {
            assert(self@ == left(old(self)@, at as nat, settled as nat));
        }
        match closed {
            Ok(()) => charged,
            Err(misuse) => Err(misuse),
        }
    }

    /// Closes the recording now and returns its profile. Fails, changing
    /// nothing, where a call is still open or the recording was finished
    /// before.
    pub fn finish(&mut self, contract_path: String, method: Option<String>) -> (done: Result<
        ProfileData,
        ProfileError,
    >)
        requires
            old(self).wf(),
        ensures
            final(self).wf(),
            old(self)@.finished || old(self)@.stack.len() > 0 ==> done == Err::<
                ProfileData,
                ProfileError,
            >(ProfileError::RecorderMisuse { stage: RecorderStage::Finish }) && final(self)@ == old(
                self,
            )@,
            !old(self)@.finished && old(self)@.stack.len() == 0 ==> {
                &&& exists|at: nat|
                    {
                        &&& old(self).clock_reading() <= at
                        &&& at == final(self).clock_reading()
                        &&& final(self)@ == #[trigger] old(self)@.finish(at)
                    }
                &&& done matches Ok(profile)
                &&& profile@ == profile_of(final(self)@, contract_path@, opt_text(method))
                &&& profile@.wf()
                &&& root_time(final(self)@.frames) <= profile@.total_duration
            },
    {
        if self.recorder.is_finished() || self.recorder.open_calls() > 0 {
            return Err(ProfileError::RecorderMisuse { stage: RecorderStage::Finish });
        }
        let at: u64 = self.clock.read();
        let done = self.recorder.finish(contract_path, method, at);
        proof {
            assert(self@ == old(self)@.finish(at as nat));
        }
        done
    }

    /// The call tree of the finished recording. Fails while the recording
    /// is not finished.
    pub fn call_tree(&self) -> (made: Result<CallTree, ProfileError>)
        requires
            self.wf(),
        ensures
            !self@.finished ==> made == Err::<CallTree, ProfileError>(
                ProfileError::RecorderMisuse { stage: RecorderStage::Tree },
            ),
            self@.finished ==> (made matches Ok(tree) && tree@ == tree_of(self@) && tree@.wf()),
    {
        self.recorder.call_tree()
    }
}

} // verus!
