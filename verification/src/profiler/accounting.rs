//! How the per-function totals of a recording relate to the length of
//! the run.

use vstd::prelude::*;
use super::recorder::{profile_of, stat_of};
use super::trace::{root_time, time_in, FrameView, RecorderView};
use super::trace_proofs::{charge, root_charge};

verus! {

/// Whether every call of `name` is a top-level call.
pub open spec fn only_top_level(frames: Seq<FrameView>, name: Seq<char>) -> bool {
    forall|i: int|
        0 <= i < frames.len() && (#[trigger] frames[i]).name == name ==> frames[i].parent is None
}

/// Whether no name is listed twice.
pub open spec fn distinct(names: Seq<Seq<char>>) -> bool {
    forall|a: int, b: int| 0 <= a < b < names.len() ==> names[a] != names[b]
}

/// The total times of the named functions in a recording's profile,
/// added up.
pub open spec fn total_of(frames: Seq<FrameView>, names: Seq<Seq<char>>) -> nat
    decreases names.len(),
{
    if names.len() == 0 {
        0
    } else {
        total_of(frames, names.drop_last()) + stat_of(frames, names.last()).total_time
    }
}

/// The inclusive times on the accounts of the named functions, added up.
spec fn time_in_all(frames: Seq<FrameView>, names: Seq<Seq<char>>) -> nat
    decreases names.len(),
{
    if names.len() == 0 {
        0
    } else {
        time_in_all(frames, names.drop_last()) + time_in(frames, names.last())
    }
}

/// What one frame adds to the accounts of the named functions.
spec fn charge_all(frame: FrameView, names: Seq<Seq<char>>) -> nat
    decreases names.len(),
{
    if names.len() == 0 {
        0
    } else {
        charge_all(frame, names.drop_last()) + charge(frame, names.last())
    }
}

proof fn lemma_totals_below_times(frames: Seq<FrameView>, names: Seq<Seq<char>>)
    ensures
        total_of(frames, names) <= time_in_all(frames, names),
    decreases names.len(),
{
    if names.len() > 0 {
        lemma_totals_below_times(frames, names.drop_last());
    }
}

proof fn lemma_last_frame(frames: Seq<FrameView>, names: Seq<Seq<char>>)
    requires
        frames.len() > 0,
    ensures
        time_in_all(frames, names) == time_in_all(frames.drop_last(), names) + charge_all(
            frames.last(),
            names,
        ),
    decreases names.len(),
{
    if names.len() > 0 {
        lemma_last_frame(frames, names.drop_last());
    }
}

proof fn lemma_charged_once(frame: FrameView, names: Seq<Seq<char>>)
    requires
        distinct(names),
    ensures
        !names.contains(frame.name) ==> charge_all(frame, names) == 0,
        charge_all(frame, names) <= charge(frame, frame.name),
    decreases names.len(),
{
    if names.len() > 0 {
        let rest = names.drop_last();
        assert(distinct(rest)) by {
            assert forall|a: int, b: int| 0 <= a < b < rest.len() implies rest[a] != rest[b] by {
                assert(rest[a] == names[a] && rest[b] == names[b]);
            }
        }
        lemma_charged_once(frame, rest);
        if names.last() == frame.name {
            if rest.contains(frame.name) {
                let w = choose|w: int| 0 <= w < rest.len() && rest[w] == frame.name;
                assert(names[w] == names[names.len() - 1]);
            }
        } else {
            if !names.contains(frame.name) && rest.contains(frame.name) {
                let w = choose|w: int| 0 <= w < rest.len() && rest[w] == frame.name;
                assert(names[w] == frame.name);
            }
        }
    }
}

proof fn lemma_times_below_roots(frames: Seq<FrameView>, names: Seq<Seq<char>>)
    requires
        distinct(names),
        forall|k: int| 0 <= k < names.len() ==> only_top_level(frames, #[trigger] names[k]),
    ensures
        time_in_all(frames, names) <= root_time(frames),
    decreases frames.len(),
{
    if frames.len() == 0 {
        assert(time_in_all(frames, names) == 0) by {
            assert(frames =~= Seq::<FrameView>::empty());
            lemma_no_frames(names);
        }
    } else {
        let rest = frames.drop_last();
        let last = frames.last();
        assert forall|k: int| 0 <= k < names.len() implies only_top_level(
            rest,
            #[trigger] names[k],
        ) by {
            assert(only_top_level(frames, names[k]));
            assert forall|i: int| 0 <= i < rest.len() && (#[trigger] rest[i]).name
                == names[k] implies rest[i].parent is None by {
                assert(frames[i] == rest[i]);
            }
        }
        lemma_times_below_roots(rest, names);
        lemma_last_frame(frames, names);
        lemma_charged_once(last, names);
        if names.contains(last.name) {
            let w = choose|w: int| 0 <= w < names.len() && names[w] == last.name;
            assert(only_top_level(frames, names[w]));
            assert(frames[frames.len() - 1].parent is None);
        }
        assert(charge_all(last, names) <= root_charge(last));
    }
}

proof fn lemma_no_frames(names: Seq<Seq<char>>)
    ensures
        time_in_all(Seq::<FrameView>::empty(), names) == 0,
    decreases names.len(),
{
    if names.len() > 0 {
        lemma_no_frames(names.drop_last());
    }
}

/// In the profile of a finished recording, the total times of functions
/// that were only ever called at top level add up to no more than the
/// length of the run.
pub proof fn lemma_top_level_totals_within_run(
    finished: RecorderView,
    names: Seq<Seq<char>>,
    contract_path: Seq<char>,
    method: Option<Seq<char>>,
)
    requires
        finished.inv(),
        finished.stack.len() == 0,
        distinct(names),
        forall|k: int| 0 <= k < names.len() ==> only_top_level(finished.frames, #[trigger] names[k]),
    ensures
        total_of(finished.frames, names) <= profile_of(
            finished,
            contract_path,
            method,
        ).total_duration,
{
    lemma_totals_below_times(finished.frames, names);
    lemma_times_below_roots(finished.frames, names);
    finished.lemma_idle();
}

} // verus!
