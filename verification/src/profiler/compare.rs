//! Comparing two profiles function by function.
//!
//! A function missing on one side counts with a total time of zero on
//! that side. The change in percent is measured against the baseline;
//! where the baseline is zero no percentage exists, and the comparison
//! reports [`UNDEFINED_PERCENT`], which lies above every threshold.

use vstd::prelude::*;
use vstd::string::StringExecFns;
use super::order::{
    arranged, is_ranking, key_values, lemma_ranked_complete, lemma_ranking_descends,
    lemma_ranking_exists, position_values, rank_descending, ranked, ranking,
};
use super::profile::{
    find_function, function_views, lemma_entry_found, ProfileData, ProfileDataView,
};
use super::units::{Duration, Percent, WHOLE};

verus! {

/// The threshold that [`compare_profiles`] applies: 5%, in hundredths of
/// a percent.
pub const DEFAULT_THRESHOLD: u32 = 500;

/// The value reported as the change in percent where the baseline time
/// is zero.
pub const UNDEFINED_PERCENT: i128 = i128::MAX;

/// How a function's time changed from the baseline to the current run.
#[derive(Clone, Copy, Debug, PartialEq, Eq, Structural)]
pub enum Status {
    /// Slower by more than the threshold.
    Regression,
    /// Faster by more than the threshold.
    Improvement,
    /// Within the threshold.
    Unchanged,
}

impl Status {
    /// The class in words.
    pub open spec fn words(self) -> Seq<char> {
        match self {
            Status::Regression => "regression"@,
            Status::Improvement => "improvement"@,
            Status::Unchanged => "unchanged"@,
        }
    }

    /// The class in words.
    pub fn label(&self) -> (text: &'static str)
        ensures
            text@ == self.words(),
    {
        match self {
            Status::Regression => "regression",
            Status::Improvement => "improvement",
            Status::Unchanged => "unchanged",
        }
    }
}

/// The change of one function between two profiles.
#[derive(Clone, Debug, PartialEq, Eq)]
pub struct Comparison {
    /// Name of the function.
    pub function: String,
    /// The class of the change.
    pub status: Status,
    /// Current total time less baseline total time, in nanoseconds.
    pub time_diff_ns: i128,
    /// The change as a share of the baseline time, rounded toward zero to
    /// a hundredth of a percent; [`UNDEFINED_PERCENT`] where the baseline
    /// time is zero.
    pub time_diff_percent: Percent,
    /// Total time in the baseline; zero where the function is missing.
    pub baseline_time: Duration,
    /// Total time in the current run; zero where the function is missing.
    pub current_time: Duration,
}

/// A `Comparison` as plain mathematical values.
pub struct ComparisonView {
    pub function: Seq<char>,
    pub status: Status,
    pub time_diff_ns: int,
    pub time_diff_percent: int,
    pub baseline_time: nat,
    pub current_time: nat,
}

impl View for Comparison {
    type V = ComparisonView;

    open spec fn view(&self) -> ComparisonView {
        ComparisonView {
            function: self.function@,
            status: self.status,
            time_diff_ns: self.time_diff_ns as int,
            time_diff_percent: self.time_diff_percent.hundredths as int,
            baseline_time: self.baseline_time.nanos as nat,
            current_time: self.current_time.nanos as nat,
        }
    }
}

/// The views of a sequence of comparisons, in the same order.
pub open spec fn comparison_views(items: Seq<Comparison>) -> Seq<ComparisonView> {
    Seq::new(items.len(), |i: int| items[i]@)
}

/// The change from `baseline` to `current` in hundredths of a percent of
/// `baseline`, rounded toward zero.
pub open spec fn percent_change(baseline: nat, current: nat) -> int {
    if baseline == 0 {
        UNDEFINED_PERCENT as int
    } else if current >= baseline {
        ((current - baseline) * WHOLE) / (baseline as int)
    } else {
        -(((baseline - current) * WHOLE) / (baseline as int))
    }
}

/// The class of the change from `baseline` to `current`, decided on the
/// exact quotient: a regression where the change is more than `threshold`
/// hundredths of a percent of the baseline, an improvement where it is
/// less than minus that. With a zero baseline the change counts as
/// lying above every threshold.
pub open spec fn status_of(baseline: nat, current: nat, threshold: nat) -> Status {
    if baseline == 0 {
        Status::Regression
    } else if (current - baseline) * WHOLE > threshold * baseline {
        Status::Regression
    } else if (baseline - current) * WHOLE > threshold * baseline {
        Status::Improvement
    } else {
        Status::Unchanged
    }
}

/// The comparison of a function with the given times.
pub open spec fn comparison_from(
    function: Seq<char>,
    baseline: nat,
    current: nat,
    threshold: nat,
) -> ComparisonView {
    ComparisonView {
        function,
        status: status_of(baseline, current, threshold),
        time_diff_ns: current - baseline,
        time_diff_percent: percent_change(baseline, current),
        baseline_time: baseline,
        current_time: current,
    }
}

/// The comparison of `function` between two profiles.
pub open spec fn comparison_of(
    function: Seq<char>,
    baseline: ProfileDataView,
    current: ProfileDataView,
    threshold: nat,
) -> ComparisonView {
    comparison_from(
        function,
        baseline.total_time_of(function),
        current.total_time_of(function),
        threshold,
    )
}

/// The names among the first `n` entries of `current` that `baseline`
/// lacks, in their order.
pub open spec fn new_names(current: ProfileDataView, baseline: ProfileDataView, n: int) -> Seq<
    Seq<char>,
>
    decreases n,
{
    if n <= 0 {
        Seq::empty()
    } else {
        let before = new_names(current, baseline, n - 1);
        let name = current.functions[n - 1].name;
        if baseline.has(name) {
            before
        } else {
            before.push(name)
        }
    }
}

/// The names of the functions of either profile: those of `baseline` in
/// their order, then those that only `current` has, in theirs.
pub open spec fn all_names(baseline: ProfileDataView, current: ProfileDataView) -> Seq<Seq<char>> {
    Seq::new(baseline.functions.len(), |i: int| baseline.functions[i].name) + new_names(
        current,
        baseline,
        current.functions.len() as int,
    )
}

/// One comparison for each function of either profile, not yet ranked.
pub open spec fn comparisons(
    baseline: ProfileDataView,
    current: ProfileDataView,
    threshold: nat,
) -> Seq<ComparisonView> {
    let names = all_names(baseline, current);
    Seq::new(names.len(), |i: int| comparison_of(names[i], baseline, current, threshold))
}

/// The size of each change, without its sign.
pub open spec fn magnitudes(items: Seq<ComparisonView>) -> Seq<int> {
    Seq::new(
        items.len(),
        |i: int|
            if items[i].time_diff_ns >= 0 {
                items[i].time_diff_ns
            } else {
                -items[i].time_diff_ns
            },
    )
}

/// What comparing two profiles gives: one comparison for each function
/// of either profile, the largest change first, equal changes in the
/// order of [`all_names`].
pub open spec fn comparison_report(
    baseline: ProfileDataView,
    current: ProfileDataView,
    threshold: nat,
) -> Seq<ComparisonView> {
    let items = comparisons(baseline, current, threshold);
    ranked(items, magnitudes(items))
}

/// A profile has no name that it lacks itself.
proof fn lemma_no_new_names(profile: ProfileDataView, n: int)
    requires
        0 <= n <= profile.functions.len(),
    ensures
        new_names(profile, profile, n).len() == 0,
    decreases n,
{
    if n > 0 {
        lemma_no_new_names(profile, n - 1);
        assert(profile.has(profile.functions[n - 1].name));
    }
}

/// A name that only `current` has is among the new names.
proof fn lemma_new_name_listed(current: ProfileDataView, baseline: ProfileDataView, n: int, i: int)
    requires
        0 <= i < n <= current.functions.len(),
        !baseline.has(current.functions[i].name),
    ensures
        new_names(current, baseline, n).contains(current.functions[i].name),
    decreases n,
{
    let before = new_names(current, baseline, n - 1);
    let last = current.functions[n - 1].name;
    if i < n - 1 {
        lemma_new_name_listed(current, baseline, n - 1, i);
        let w = choose|w: int| 0 <= w < before.len() && before[w] == current.functions[i].name;
        if !baseline.has(last) {
            assert(before.push(last)[w] == current.functions[i].name);
        }
    } else {
        assert(before.push(last)[before.len() as int] == last);
    }
}

/// Comparing a profile with itself gives one entry for each of its
/// functions, each with a difference of zero. An entry whose time is not
/// zero is unchanged, at zero percent; for a time of zero no percentage
/// exists.
pub proof fn lemma_self_comparison(profile: ProfileDataView, threshold: nat, r: int)
    requires
        profile.wf(),
        0 <= r < profile.functions.len(),
    ensures
        comparison_report(profile, profile, threshold).len() == profile.functions.len(),
        ({
            let entry = comparison_report(profile, profile, threshold)[r];
            &&& profile.has(entry.function)
            &&& entry.time_diff_ns == 0
            &&& entry.baseline_time == entry.current_time
            &&& entry.baseline_time > 0 ==> entry.status == Status::Unchanged
                && entry.time_diff_percent == 0
            &&& entry.baseline_time == 0 ==> entry.time_diff_percent == UNDEFINED_PERCENT
        }),
{
    let items = comparisons(profile, profile, threshold);
    lemma_no_new_names(profile, profile.functions.len() as int);
    assert(items.len() == profile.functions.len());
    lemma_ranked_complete(items, magnitudes(items));
    let i = ranking(magnitudes(items))[r];
    let name = profile.functions[i].name;
    assert(all_names(profile, profile)[i] == name);
    assert(items[i] == comparison_of(name, profile, profile, threshold));
    assert(profile.has(name));
    let t = profile.total_time_of(name);
    if t > 0 {
        assert((t - t) * WHOLE == 0);
        assert(threshold * t >= 0) by (nonlinear_arith)
            requires
                threshold >= 0,
                t >= 0,
        ;
        assert((0 * WHOLE) / (t as int) == 0) by (nonlinear_arith)
            requires
                t > 0,
        ;
    }
}

/// A function that only the current profile has is in the report: with
/// a baseline time of zero, its whole time as the difference, and the
/// undefined percentage.
pub proof fn lemma_new_function_reported(
    baseline: ProfileDataView,
    current: ProfileDataView,
    threshold: nat,
    name: Seq<char>,
)
    requires
        current.has(name),
        !baseline.has(name),
    ensures
        comparison_report(baseline, current, threshold).contains(
            comparison_from(name, 0, current.total_time_of(name), threshold),
        ),
        comparison_from(name, 0, current.total_time_of(name), threshold).time_diff_percent
            == UNDEFINED_PERCENT,
        comparison_from(name, 0, current.total_time_of(name), threshold).time_diff_ns
            == current.total_time_of(name),
{
    let items = comparisons(baseline, current, threshold);
    let names = all_names(baseline, current);
    let fresh = new_names(current, baseline, current.functions.len() as int);
    let i = current.position(name);
    lemma_new_name_listed(current, baseline, current.functions.len() as int, i);
    let w = choose|w: int| 0 <= w < fresh.len() && fresh[w] == name;
    let k = baseline.functions.len() + w;
    assert(names[k] == name);
    assert(items[k] == comparison_of(name, baseline, current, threshold));
    lemma_ranked_complete(items, magnitudes(items));
    assert(ranked(items, magnitudes(items)).contains(items[k]));
}

/// A report lists the larger change before the smaller.
pub proof fn lemma_report_descends(
    baseline: ProfileDataView,
    current: ProfileDataView,
    threshold: nat,
    i: int,
    j: int,
)
    requires
        0 <= i <= j < comparison_report(baseline, current, threshold).len(),
    ensures
        magnitudes(comparison_report(baseline, current, threshold))[i] >= magnitudes(
            comparison_report(baseline, current, threshold),
        )[j],
{
    let items = comparisons(baseline, current, threshold);
    let keys = magnitudes(items);
    lemma_ranking_exists(keys);
    lemma_ranking_descends(keys, ranking(keys), i, j);
}

impl Comparison {
    /// The change in percent as it is shown: with a plus sign where the
    /// time grew, with a minus sign where it shrank, and `n/a` where no
    /// percentage exists.
    pub open spec fn percent_words(self) -> Seq<char> {
        if self.time_diff_percent.hundredths == UNDEFINED_PERCENT {
            "n/a"@
        } else {
            (if self.time_diff_ns > 0 {
                "+"@
            } else {
                Seq::empty()
            }) + self.time_diff_percent.text() + "%"@
        }
    }

    /// The change in percent as it is shown.
    pub fn percent_label(&self) -> (text: String)
        ensures
            text@ == self.percent_words(),
    {
        if self.time_diff_percent.hundredths == UNDEFINED_PERCENT {
            return String::from_str("n/a");
        }
        let mut out = String::new();
        if self.time_diff_ns > 0 {
            out.append("+");
        }
        self.time_diff_percent.append_to(&mut out);
        out.append("%");
        proof {
            assert(out@ =~= self.percent_words());
        }
        out
    }

    /// Compares the two total times of one function.
    pub fn between(function: String, baseline: Duration, current: Duration, threshold: u32) -> (c:
        Comparison)
        ensures
            c@ == comparison_from(
                function@,
                baseline.nanos as nat,
                current.nanos as nat,
                threshold as nat,
            ),
    {
        let b: u64 = baseline.nanos;
        let c: u64 = current.nanos;
        let diff: i128 = c as i128 - b as i128;
        if b == 0 {
            return Comparison {
                function,
                status: Status::Regression,
                time_diff_ns: diff,
                time_diff_percent: Percent { hundredths: UNDEFINED_PERCENT },
                baseline_time: baseline,
                current_time: current,
            };
        }
        let gap: u64 = if c >= b {
            c - b
        } else {
            b - c
        };
        assert(gap * WHOLE <= u64::MAX * WHOLE) by (nonlinear_arith)
            requires
                gap <= u64::MAX,
        ;
        assert(threshold * b <= u32::MAX * u64::MAX) by (nonlinear_arith)
            requires
                threshold <= u32::MAX,
                b <= u64::MAX,
        ;
        let scaled: u128 = gap as u128 * WHOLE as u128;
        let limit: u128 = threshold as u128 * b as u128;
        let quotient: u128 = scaled / b as u128;
        assert(quotient <= scaled) by (nonlinear_arith)
            requires
                quotient == scaled / (b as u128),
                b > 0,
        ;
        let percent: i128 = if c >= b {
            quotient as i128
        } else {
            -(quotient as i128)
        };
        let status = if c >= b && scaled > limit {
            Status::Regression
        } else if c < b && scaled > limit {
            Status::Improvement
        } else {
            Status::Unchanged
        };
        proof {
            if c >= b {
                assert((b - c) * WHOLE <= 0);
                assert(threshold * b >= 0) by (nonlinear_arith)
                    requires
                        threshold >= 0,
                        b >= 0,
                ;
            } else {
                assert((c - b) * WHOLE <= 0);
                assert(threshold * b >= 0) by (nonlinear_arith)
                    requires
                        threshold >= 0,
                        b >= 0,
                ;
            }
        }
        Comparison {
            function,
            status,
            time_diff_ns: diff,
            time_diff_percent: Percent { hundredths: percent },
            baseline_time: baseline,
            current_time: current,
        }
    }

    /// A copy with the same contents.
    pub fn duplicate(&self) -> (copy: Comparison)
        ensures
            copy@ == self@,
    {
        Comparison {
            function: self.function.clone(),
            status: self.status,
            time_diff_ns: self.time_diff_ns,
            time_diff_percent: self.time_diff_percent,
            baseline_time: self.baseline_time,
            current_time: self.current_time,
        }
    }

    /// The size of the change in nanoseconds, without its sign.
    pub fn magnitude(&self) -> (m: u128)
        ensures
            m == if self.time_diff_ns >= 0 {
                self.time_diff_ns as int
            } else {
                -self.time_diff_ns
            },
    {
        if self.time_diff_ns >= 0 {
            self.time_diff_ns as u128
        } else if self.time_diff_ns == i128::MIN {
            0x8000_0000_0000_0000_0000_0000_0000_0000u128
        } else {
            (-self.time_diff_ns) as u128
        }
    }
}

/// The comparisons of the first `n` functions of `baseline`.
spec fn baseline_part(
    baseline: ProfileDataView,
    current: ProfileDataView,
    threshold: nat,
    n: int,
) -> Seq<ComparisonView> {
    Seq::new(
        n as nat,
        |i: int| comparison_of(baseline.functions[i].name, baseline, current, threshold),
    )
}

/// The comparisons of the functions among the first `n` of `current`
/// that `baseline` lacks.
spec fn new_part(
    baseline: ProfileDataView,
    current: ProfileDataView,
    threshold: nat,
    n: int,
) -> Seq<ComparisonView> {
    let names = new_names(current, baseline, n);
    Seq::new(names.len(), |i: int| comparison_of(names[i], baseline, current, threshold))
}

proof fn lemma_parts(baseline: ProfileDataView, current: ProfileDataView, threshold: nat)
    ensures
        comparisons(baseline, current, threshold) == baseline_part(
            baseline,
            current,
            threshold,
            baseline.functions.len() as int,
        ) + new_part(baseline, current, threshold, current.functions.len() as int),
{
    assert(comparisons(baseline, current, threshold) =~= baseline_part(
        baseline,
        current,
        threshold,
        baseline.functions.len() as int,
    ) + new_part(baseline, current, threshold, current.functions.len() as int));
}

/// Compares `current` with `baseline`, function by function, over the
/// functions of either profile. A change of more than `threshold`
/// hundredths of a percent of the baseline time is a regression or an
/// improvement. The result lists the largest change first; equal changes
/// keep the order of [`all_names`].
pub fn compare_profiles_with_threshold(
    baseline: &ProfileData,
    current: &ProfileData,
    threshold: u32,
) -> (report: Vec<Comparison>)
    ensures
        comparison_views(report@) == comparison_report(baseline@, current@, threshold as nat),
{
    let old_functions = baseline.functions();
    let new_functions = current.functions();
    let ghost b = baseline@;
    let ghost c = current@;
    let ghost t = threshold as nat;
    let mut items: Vec<Comparison> = Vec::new();
    let mut i: usize = 0;
    while i < old_functions.len()
        invariant
            i <= old_functions.len(),
            b.wf(),
            c.wf(),
            t == threshold as nat,
            function_views(old_functions@) == b.functions,
            function_views(new_functions@) == c.functions,
            comparison_views(items@) == baseline_part(b, c, t, i as int),
        decreases old_functions.len() - i,
    {
        let entry = &old_functions[i];
        let now: Duration = match find_function(new_functions, &entry.name) {
            Some(j) => {
                proof {
                    assert(c.functions[j as int] == new_functions@[j as int]@);
                    lemma_entry_found(c, j as int);
                }
                new_functions[j].total_time
            },
            None => {
                proof {
                    if c.has(entry.name@) {
                        let w = c.position(entry.name@);
                        assert(c.functions[w] == new_functions@[w]@);
                    }
                }
                Duration { nanos: 0 }
            },
        };
        proof {
            assert(b.functions[i as int] == old_functions@[i as int]@);
            lemma_entry_found(b, i as int);
        }
        let ghost held = comparison_views(items@);
        assert(baseline_part(b, c, t, i as int).len() == i);
        assert(items@.len() == held.len());
        assert(now.nanos == c.total_time_of(entry.name@));
        assert(entry.total_time.nanos == b.total_time_of(entry.name@));
        let item = Comparison::between(entry.name.clone(), entry.total_time, now, threshold);
        assert(item@ == comparison_of(b.functions[i as int].name, b, c, t));
        items.push(item);
        proof {
            assert forall|n: int| 0 <= n < i + 1 implies comparison_views(items@)[n]
                == baseline_part(b, c, t, i + 1)[n] by {
                if n < i {
                    assert(comparison_views(items@)[n] == held[n]);
                }
            }
            assert(comparison_views(items@) =~= baseline_part(b, c, t, i + 1));
        }
        i += 1;
    }
    let ghost first = comparison_views(items@);
    let mut j: usize = 0;
    while j < new_functions.len()
        invariant
            j <= new_functions.len(),
            b.wf(),
            c.wf(),
            t == threshold as nat,
            function_views(old_functions@) == b.functions,
            function_views(new_functions@) == c.functions,
            comparison_views(items@) == first + new_part(b, c, t, j as int),
        decreases new_functions.len() - j,
    {
        let entry = &new_functions[j];
        proof {
            assert(c.functions[j as int] == new_functions@[j as int]@);
            lemma_entry_found(c, j as int);
        }
        match find_function(old_functions, &entry.name) {
            Some(k) => {
                proof {
                    assert(b.functions[k as int] == old_functions@[k as int]@);
                    lemma_entry_found(b, k as int);
                    assert(new_part(b, c, t, j + 1) == new_part(b, c, t, j as int));
                }
            },
            None => {
                proof {
                    if b.has(entry.name@) {
                        let w = b.position(entry.name@);
                        assert(b.functions[w] == old_functions@[w]@);
                    }
                }
                let item = Comparison::between(
                    entry.name.clone(),
                    Duration { nanos: 0 },
                    entry.total_time,
                    threshold,
                );
                let ghost held = comparison_views(items@);
                assert(held.len() == first.len() + new_names(c, b, j as int).len());
                assert(items@.len() == held.len());
                assert(item@ == comparison_of(entry.name@, b, c, t));
                items.push(item);
                proof {
                    assert(new_names(c, b, j + 1) == new_names(c, b, j as int).push(entry.name@));
                    let grown = first + new_part(b, c, t, j + 1);
                    assert(comparison_views(items@).len() == grown.len());
                    assert forall|n: int| 0 <= n < grown.len() implies comparison_views(
                        items@,
                    )[n] == grown[n] by {
                        if n < held.len() {
                            assert(comparison_views(items@)[n] == held[n]);
                            if n >= first.len() {
                                assert(new_part(b, c, t, j + 1)[n - first.len()] == new_part(
                                    b,
                                    c,
                                    t,
                                    j as int,
                                )[n - first.len()]);
                            }
                        }
                    }
                    assert(comparison_views(items@) =~= grown);
                }
            },
        }
        j += 1;
    }
    proof {
        lemma_parts(b, c, t);
    }
    let ghost expected = comparisons(b, c, t);
    let mut keys: Vec<u128> = Vec::new();
    let mut k: usize = 0;
    while k < items.len()
        invariant
            k <= items.len(),
            keys.len() == k,
            comparison_views(items@) == expected,
            forall|n: int| 0 <= n < k ==> keys[n] as int == #[trigger] magnitudes(expected)[n],
        decreases items.len() - k,
    {
        proof {
            assert(expected[k as int] == items@[k as int]@);
        }
        keys.push(items[k].magnitude());
        k += 1;
    }
    let order = rank_descending(&keys);
    let ghost places = position_values(order@);
    proof {
        assert(key_values(keys@) =~= magnitudes(expected));
    }
    let mut report: Vec<Comparison> = Vec::new();
    let mut r: usize = 0;
    while r < order.len()
        invariant
            r <= order.len(),
            order.len() == items.len(),
            report.len() == r,
            places == position_values(order@),
            is_ranking(magnitudes(expected), places),
            places == ranking(magnitudes(expected)),
            comparison_views(items@) == expected,
            forall|n: int| 0 <= n < r ==> (#[trigger] report[n])@ == expected[places[n]],
        decreases order.len() - r,
    {
        proof {
            assert(places[r as int] == order@[r as int]);
            assert(0 <= places[r as int] < items.len());
            assert(expected[places[r as int]] == items@[places[r as int]]@);
        }
        report.push(items[order[r]].duplicate());
        r += 1;
    }
    proof {
        assert(comparison_views(report@) =~= arranged(expected, places));
    }
    report
}

/// Compares `current` with `baseline` at the default threshold of 5%.
pub fn compare_profiles(baseline: &ProfileData, current: &ProfileData) -> (report: Vec<Comparison>)
    ensures
        comparison_views(report@) == comparison_report(
            baseline@,
            current@,
            DEFAULT_THRESHOLD as nat,
        ),
{
    compare_profiles_with_threshold(baseline, current, DEFAULT_THRESHOLD)
}

} // verus!
