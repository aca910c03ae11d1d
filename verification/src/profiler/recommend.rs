//! Advice drawn from a profile by a table of rules.
//!
//! The rules are data: each names what it looks for and the limits it
//! applies. They are tried in the order of the table, so that caveats on
//! the measurement itself come before the findings on single functions;
//! the findings of one rule are listed weightiest first.

use vstd::prelude::*;
use vstd::string::StringExecFns;
use crate::text::{decimal, push_decimal};
use super::order::{arranged, is_ranking, key_values, position_values, rank_descending, ranked};
use super::profile::{function_views, FunctionProfile, FunctionProfileView, ProfileData, ProfileDataView};
use super::units::{share_of, Duration, Percent, WHOLE};

verus! {

/// One heuristic.
#[derive(Clone, Copy, Debug, PartialEq, Eq, Structural)]
pub enum Rule {
    /// The profiler's overhead is above `above` hundredths of a percent
    /// of the run: the timings may be imprecise.
    Overhead { above: u32 },
    /// A function's total time is above `above` hundredths of a percent
    /// of the run: it dominates.
    Hotspot { above: u32 },
    /// A function was called at least `calls` times and took at most
    /// `avg_below` nanoseconds on average: the calls themselves may cost
    /// more than the work.
    Chatty { calls: u64, avg_below: u64 },
}

/// The rules that [`generate_recommendations`] applies: overhead above
/// 5%, a function above 20% of the run, and a function with a thousand
/// calls or more of a microsecond or less.
pub open spec fn default_table() -> Seq<Rule> {
    seq![
        Rule::Overhead { above: 500 },
        Rule::Hotspot { above: 2000 },
        Rule::Chatty { calls: 1000, avg_below: 1000 },
    ]
}

/// What a rule found.
#[derive(Clone, Debug, PartialEq, Eq)]
pub enum Finding {
    /// The profiler's overhead is high.
    Overhead { percent: Percent },
    /// The function takes a large share of the run.
    Hotspot { function: String, share: Percent, total_time: Duration },
    /// The function is called very often for very little.
    Chatty { function: String, call_count: u64, avg_time: Duration },
}

/// A `Finding` as plain mathematical values.
pub enum FindingView {
    Overhead { percent: int },
    Hotspot { function: Seq<char>, share: int, total_time: nat },
    Chatty { function: Seq<char>, call_count: nat, avg_time: nat },
}

impl View for Finding {
    type V = FindingView;

    open spec fn view(&self) -> FindingView {
        match *self {
            Finding::Overhead { percent } => FindingView::Overhead {
                percent: percent.hundredths as int,
            },
            Finding::Hotspot { function, share, total_time } => FindingView::Hotspot {
                function: function@,
                share: share.hundredths as int,
                total_time: total_time.nanos as nat,
            },
            Finding::Chatty { function, call_count, avg_time } => FindingView::Chatty {
                function: function@,
                call_count: call_count as nat,
                avg_time: avg_time.nanos as nat,
            },
        }
    }
}

/// The views of a sequence of findings, in the same order.
pub open spec fn finding_views(findings: Seq<Finding>) -> Seq<FindingView> {
    Seq::new(findings.len(), |i: int| findings[i]@)
}

/// Whether a rule on functions applies to `entry`. Shares are compared
/// exactly, without rounding.
pub open spec fn applies(rule: Rule, profile: ProfileDataView, entry: FunctionProfileView) -> bool {
    match rule {
        Rule::Overhead { .. } => false,
        Rule::Hotspot { above } => entry.total_time * WHOLE > above * profile.total_duration,
        Rule::Chatty { calls, avg_below } => entry.call_count >= calls && entry.avg_time
            <= avg_below,
    }
}

/// By what the findings of a rule are ranked: a hotspot by its total
/// time, a chatty function by its call count.
pub open spec fn weight(rule: Rule, entry: FunctionProfileView) -> int {
    match rule {
        Rule::Overhead { .. } => 0,
        Rule::Hotspot { .. } => entry.total_time as int,
        Rule::Chatty { .. } => entry.call_count as int,
    }
}

/// What a rule on functions reports of an entry that it applies to.
pub open spec fn finding_of(rule: Rule, profile: ProfileDataView, entry: FunctionProfileView) -> FindingView {
    match rule {
        Rule::Chatty { .. } => FindingView::Chatty {
            function: entry.name,
            call_count: entry.call_count,
            avg_time: entry.avg_time,
        },
        _ => FindingView::Hotspot {
            function: entry.name,
            share: share_of(entry.total_time as int, profile.total_duration as int),
            total_time: entry.total_time,
        },
    }
}

/// The entries among the first `n` of the profile that the rule applies
/// to, in their order.
pub open spec fn candidates(rule: Rule, profile: ProfileDataView, n: int) -> Seq<
    FunctionProfileView,
>
    decreases n,
{
    if n <= 0 {
        Seq::empty()
    } else {
        let before = candidates(rule, profile, n - 1);
        if applies(rule, profile, profile.functions[n - 1]) {
            before.push(profile.functions[n - 1])
        } else {
            before
        }
    }
}

/// The findings of a rule on functions, before they are ranked.
pub open spec fn unranked(rule: Rule, profile: ProfileDataView, n: int) -> Seq<FindingView> {
    let found = candidates(rule, profile, n);
    Seq::new(found.len(), |i: int| finding_of(rule, profile, found[i]))
}

/// The weights of the entries that a rule applies to.
pub open spec fn weights(rule: Rule, profile: ProfileDataView, n: int) -> Seq<int> {
    let found = candidates(rule, profile, n);
    Seq::new(found.len(), |i: int| weight(rule, found[i]))
}

/// What one rule finds in a profile.
pub open spec fn rule_findings(rule: Rule, profile: ProfileDataView) -> Seq<FindingView> {
    match rule {
        Rule::Overhead { above } => if profile.overhead_percent > above {
            seq![FindingView::Overhead { percent: profile.overhead_percent }]
        } else {
            Seq::empty()
        },
        _ => ranked(
            unranked(rule, profile, profile.functions.len() as int),
            weights(rule, profile, profile.functions.len() as int),
        ),
    }
}

/// What a table of rules finds in a profile: the findings of each rule,
/// in the order of the table.
pub open spec fn findings(rules: Seq<Rule>, profile: ProfileDataView) -> Seq<FindingView>
    decreases rules.len(),
{
    if rules.len() == 0 {
        Seq::empty()
    } else {
        findings(rules.drop_last(), profile) + rule_findings(rules.last(), profile)
    }
}

impl FindingView {
    /// The finding in words.
    pub open spec fn message(self) -> Seq<char> {
        match self {
            FindingView::Overhead { percent } => "Profiler overhead is "@ + (Percent {
                hundredths: percent as i128,
            }).text() + "% of the run; timings may be imprecise."@,
            FindingView::Hotspot { function, share, total_time } => "Function '"@ + function
                + "' takes "@ + (Percent { hundredths: share as i128 }).text()
                + "% of the run ("@ + decimal(total_time) + " ns); optimize it first."@,
            FindingView::Chatty { function, call_count, avg_time } => "Function '"@ + function
                + "' was called "@ + decimal(call_count) + " times at "@ + decimal(avg_time)
                + " ns per call; consider batching or inlining."@,
        }
    }
}

impl Finding {
    /// A copy with the same contents.
    pub fn duplicate(&self) -> (copy: Finding)
        ensures
            copy@ == self@,
    {
        match self {
            Finding::Overhead { percent } => Finding::Overhead { percent: *percent },
            Finding::Hotspot { function, share, total_time } => Finding::Hotspot {
                function: function.clone(),
                share: *share,
                total_time: *total_time,
            },
            Finding::Chatty { function, call_count, avg_time } => Finding::Chatty {
                function: function.clone(),
                call_count: *call_count,
                avg_time: *avg_time,
            },
        }
    }

    /// The finding in words.
    pub fn message(&self) -> (text: String)
        ensures
            text@ == self@.message(),
    {
        match self {
            Finding::Overhead { percent } => {
                let mut out = String::from_str("Profiler overhead is ");
                percent.append_to(&mut out);
                out.append("% of the run; timings may be imprecise.");
                proof {
                    assert(out@ =~= self@.message());
                }
                out
            },
            Finding::Hotspot { function, share, total_time } => {
                let mut out = String::from_str("Function '");
                out.append(function.as_str());
                out.append("' takes ");
                share.append_to(&mut out);
                out.append("% of the run (");
                push_decimal(&mut out, total_time.nanos as u128);
                out.append(" ns); optimize it first.");
                proof {
                    assert(out@ =~= self@.message());
                }
                out
            },
            Finding::Chatty { function, call_count, avg_time } => {
                let mut out = String::from_str("Function '");
                out.append(function.as_str());
                out.append("' was called ");
                push_decimal(&mut out, *call_count as u128);
                out.append(" times at ");
                push_decimal(&mut out, avg_time.nanos as u128);
                out.append(" ns per call; consider batching or inlining.");
                proof {
                    assert(out@ =~= self@.message());
                }
                out
            },
        }
    }
}

/// The table of rules that [`generate_recommendations`] applies.
pub fn default_rules() -> (rules: Vec<Rule>)
    ensures
        rules@ == default_table(),
{
    let mut rules: Vec<Rule> = Vec::new();
    rules.push(Rule::Overhead { above: 500 });
    rules.push(Rule::Hotspot { above: 2000 });
    rules.push(Rule::Chatty { calls: 1000, avg_below: 1000 });
    proof {
        assert(rules@ =~= default_table());
    }
    rules
}

/// Whether a rule on functions applies to an entry.
fn rule_applies(rule: Rule, total_duration: Duration, entry: &FunctionProfile) -> (hit: bool)
    ensures
        forall|profile: ProfileDataView|
            profile.total_duration == total_duration.nanos ==> hit == #[trigger] applies(
                rule,
                profile,
                entry@,
            ),
{
    match rule {
        Rule::Overhead { above } => false,
        Rule::Hotspot { above } => {
            assert(entry.total_time.nanos * WHOLE <= u64::MAX * WHOLE) by (nonlinear_arith)
                requires
                    entry.total_time.nanos <= u64::MAX,
            ;
            assert(above * total_duration.nanos <= u32::MAX * u64::MAX) by (nonlinear_arith)
                requires
                    above <= u32::MAX,
                    total_duration.nanos <= u64::MAX,
            ;
            let scaled: u128 = entry.total_time.nanos as u128 * WHOLE as u128;
            let limit: u128 = above as u128 * total_duration.nanos as u128;
            scaled > limit
        },
        Rule::Chatty { calls, avg_below } => entry.call_count >= calls && entry.avg_time.nanos
            <= avg_below,
    }
}

/// What a rule on functions reports of an entry, and its weight.
fn report_entry(rule: Rule, total_duration: Duration, entry: &FunctionProfile) -> (made: (
    Finding,
    u128,
))
    requires
        rule !is Overhead,
    ensures
        made.1 == weight(rule, entry@),
        forall|profile: ProfileDataView|
            profile.total_duration == total_duration.nanos ==> made.0@ == #[trigger] finding_of(
                rule,
                profile,
                entry@,
            ),
{
    match rule {
        Rule::Chatty { calls, avg_below } => (
            Finding::Chatty {
                function: entry.name.clone(),
                call_count: entry.call_count,
                avg_time: entry.avg_time,
            },
            entry.call_count as u128,
        ),
        _ => (
            Finding::Hotspot {
                function: entry.name.clone(),
                share: Percent::share(entry.total_time, total_duration),
                total_time: entry.total_time,
            },
            entry.total_time.nanos as u128,
        ),
    }
}

/// Applies one rule to a profile.
pub fn apply_rule(rule: Rule, profile: &ProfileData) -> (found: Vec<Finding>)
    ensures
        finding_views(found@) == rule_findings(rule, profile@),
{
    match rule {
        Rule::Overhead { above } => {
            let mut found: Vec<Finding> = Vec::new();
            let percent = profile.overhead_percent();
            if percent.hundredths > above as i128 {
                found.push(Finding::Overhead { percent });
            }
            proof {
                assert(finding_views(found@) =~= rule_findings(rule, profile@));
            }
            return found;
        },
        _ => {},
    }
    let functions = profile.functions();
    let total_duration = profile.total_duration();
    let ghost view = profile@;
    let mut items: Vec<Finding> = Vec::new();
    let mut keys: Vec<u128> = Vec::new();
    let mut i: usize = 0;
    while i < functions.len()
        invariant
            i <= functions.len(),
            rule !is Overhead,
            view == profile@,
            view.total_duration == total_duration.nanos,
            function_views(functions@) == view.functions,
            finding_views(items@) == unranked(rule, view, i as int),
            key_values(keys@) == weights(rule, view, i as int),
        decreases functions.len() - i,
    {
        let entry = &functions[i];
        let ghost held = finding_views(items@);
        let ghost held_keys = key_values(keys@);
        proof {
            assert(view.functions[i as int] == entry@);
            assert(held.len() == candidates(rule, view, i as int).len());
            assert(held_keys.len() == candidates(rule, view, i as int).len());
            assert(items@.len() == held.len());
            assert(keys@.len() == held_keys.len());
        }
        if rule_applies(rule, total_duration, entry) {
            let made = report_entry(rule, total_duration, entry);
            items.push(made.0);
            keys.push(made.1);
            proof {
                assert(applies(rule, view, entry@));
                assert(made.0@ == finding_of(rule, view, entry@));
                let grown = unranked(rule, view, i + 1);
                assert forall|n: int| 0 <= n < grown.len() implies finding_views(items@)[n]
                    == grown[n] by {
                    if n < held.len() {
                        assert(finding_views(items@)[n] == held[n]);
                    }
                }
                assert(finding_views(items@) =~= grown);
                let heavier = weights(rule, view, i + 1);
                assert forall|n: int| 0 <= n < heavier.len() implies key_values(keys@)[n]
                    == heavier[n] by {
                    if n < held_keys.len() {
                        assert(key_values(keys@)[n] == held_keys[n]);
                    }
                }
                assert(key_values(keys@) =~= heavier);
            }
        } else {
            proof {
                assert(!applies(rule, view, entry@));
            }
        }
        i += 1;
    }
    let order = rank_descending(&keys);
    let ghost expected = finding_views(items@);
    let ghost places = position_values(order@);
    let mut found: Vec<Finding> = Vec::new();
    let mut r: usize = 0;
    proof {
        assert(items@.len() == expected.len());
        assert(key_values(keys@).len() == keys@.len());
        assert(expected.len() == keys@.len());
    }
    while r < order.len()
        invariant
            r <= order.len(),
            order.len() == items.len(),
            found.len() == r,
            places == position_values(order@),
            is_ranking(key_values(keys@), places),
            keys.len() == items.len(),
            expected == finding_views(items@),
            forall|n: int| 0 <= n < r ==> (#[trigger] found[n])@ == expected[places[n]],
        decreases order.len() - r,
    {
        proof {
            assert(places[r as int] == order@[r as int]);
            assert(0 <= places[r as int] < items.len());
            assert(expected[places[r as int]] == items@[places[r as int]]@);
        }
        found.push(items[order[r]].duplicate());
        r += 1;
    }
    proof {
        assert(finding_views(found@) =~= arranged(expected, places));
    }
    found
}

/// Applies a table of rules to a profile, in the order of the table.
pub fn apply_rules(profile: &ProfileData, rules: &Vec<Rule>) -> (found: Vec<Finding>)
    ensures
        finding_views(found@) == findings(rules@, profile@),
{
    let mut found: Vec<Finding> = Vec::new();
    let mut k: usize = 0;
    proof {
        assert(rules@.take(0) =~= Seq::<Rule>::empty());
        assert(finding_views(found@) =~= findings(rules@.take(0), profile@));
    }
    while k < rules.len()
        invariant
            k <= rules.len(),
            finding_views(found@) == findings(rules@.take(k as int), profile@),
        decreases rules.len() - k,
    {
        let ghost held = finding_views(found@);
        let mut more = apply_rule(rules[k], profile);
        let ghost added = finding_views(more@);
        found.append(&mut more);
        proof {
            assert(rules@.take(k + 1).drop_last() =~= rules@.take(k as int));
            assert(rules@.take(k + 1).last() == rules@[k as int]);
            assert(finding_views(found@) =~= held + added);
        }
        k += 1;
    }
    proof {
        assert(rules@.take(rules.len() as int) =~= rules@);
    }
    found
}

/// The advice that the default rules give on a profile, in words: first
/// the caveat on overhead, then the hotspots, longest first, then the
/// chatty functions, busiest first.
pub fn generate_recommendations(profile: &ProfileData) -> (advice: Vec<String>)
    ensures
        advice.len() == findings(default_table(), profile@).len(),
        forall|i: int|
            0 <= i < advice.len() ==> (#[trigger] advice[i])@ == findings(
                default_table(),
                profile@,
            )[i].message(),
{
    let rules = default_rules();
    let found = apply_rules(profile, &rules);
    let mut advice: Vec<String> = Vec::new();
    let mut i: usize = 0;
    while i < found.len()
        invariant
            i <= found.len(),
            advice.len() == i,
            forall|n: int| 0 <= n < i ==> (#[trigger] advice[n])@ == found[n]@.message(),
        decreases found.len() - i,
    {
        advice.push(found[i].message());
        i += 1;
    }
    proof {
        let expected = findings(default_table(), profile@);
        assert(finding_views(found@).len() == found.len());
        assert forall|n: int| 0 <= n < advice.len() implies (#[trigger] advice[n])@
            == expected[n].message() by {
            assert(finding_views(found@)[n] == found@[n]@);
        }
    }
    advice
}

} // verus!
