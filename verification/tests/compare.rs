use contract_profiler::profiler::{
    compare_profiles, compare_profiles_with_threshold, import_profile, Comparison, Duration,
    FunctionProfile, Percent, ProfileData, ProfileDocument, ProfileEntry, Status,
    UNDEFINED_PERCENT,
};

fn entry(name: &str, calls: u64, total: u64) -> ProfileEntry {
    ProfileEntry {
        key: String::from(name),
        profile: FunctionProfile {
            name: String::from(name),
            call_count: calls,
            total_time: Duration { nanos: total },
            avg_time: Duration { nanos: total / calls },
        },
    }
}

fn profile(entries: Vec<ProfileEntry>) -> ProfileData {
    import_profile(ProfileDocument {
        contract_path: String::from("contract.wasm"),
        method: None,
        total_duration: Duration { nanos: 1_000_000_000 },
        overhead_percent: Percent { hundredths: 0 },
        functions: entries,
    })
    .unwrap()
}

fn find<'a>(items: &'a [Comparison], name: &str) -> &'a Comparison {
    items.iter().find(|c| c.function == name).unwrap()
}

#[test]
fn fifty_percent_slower_is_a_regression() {
    let baseline = profile(vec![entry("f", 10, 100_000_000)]);
    let current = profile(vec![entry("f", 10, 150_000_000)]);
    let result = compare_profiles(&baseline, &current);
    assert_eq!(result.len(), 1);
    let c = &result[0];
    assert_eq!(c.function, "f");
    assert_eq!(c.status, Status::Regression);
    assert_eq!(c.time_diff_ns, 50_000_000);
    assert_eq!(c.time_diff_percent.hundredths, 5000);
    assert_eq!(c.time_diff_percent.hundredths as f64 / 100.0, 50.0);
    assert_eq!(c.baseline_time.nanos, 100_000_000);
    assert_eq!(c.current_time.nanos, 150_000_000);
}

#[test]
fn profile_against_itself_is_unchanged() {
    let p = profile(vec![entry("a", 1, 10), entry("b", 4, 2_000), entry("c", 2, 7)]);
    let q = profile(vec![entry("a", 1, 10), entry("b", 4, 2_000), entry("c", 2, 7)]);
    let result = compare_profiles(&p, &q);
    assert_eq!(result.len(), 3);
    for c in &result {
        assert_eq!(c.status, Status::Unchanged);
        assert_eq!(c.time_diff_ns, 0);
        assert_eq!(c.time_diff_percent.hundredths, 0);
    }
    let names: Vec<&str> = result.iter().map(|c| c.function.as_str()).collect();
    assert_eq!(names, vec!["a", "b", "c"]);
}

#[test]
fn function_only_in_current_gets_the_undefined_percent() {
    let baseline = profile(vec![entry("old", 1, 100)]);
    let current = profile(vec![entry("old", 1, 100), entry("fresh", 3, 900)]);
    let result = compare_profiles(&baseline, &current);
    assert_eq!(result.len(), 2);
    let fresh = find(&result, "fresh");
    assert_eq!(fresh.time_diff_percent.hundredths, UNDEFINED_PERCENT);
    assert_eq!(fresh.time_diff_ns, 900);
    assert_eq!(fresh.baseline_time.nanos, 0);
    assert_eq!(fresh.current_time.nanos, 900);
    assert_eq!(fresh.status, Status::Regression);
    assert_eq!(result[0].function, "fresh");
}

#[test]
fn function_only_in_baseline_is_a_full_improvement() {
    let baseline = profile(vec![entry("gone", 2, 400), entry("kept", 1, 50)]);
    let current = profile(vec![entry("kept", 1, 50)]);
    let result = compare_profiles(&baseline, &current);
    let gone = find(&result, "gone");
    assert_eq!(gone.status, Status::Improvement);
    assert_eq!(gone.time_diff_ns, -400);
    assert_eq!(gone.time_diff_percent.hundredths, -10_000);
    assert_eq!(gone.current_time.nanos, 0);
}

#[test]
fn results_are_ranked_by_size_of_change() {
    let baseline = profile(vec![
        entry("small", 1, 1_000),
        entry("big", 1, 1_000),
        entry("mid", 1, 1_000),
        entry("tie", 1, 1_000),
    ]);
    let current = profile(vec![
        entry("small", 1, 1_010),
        entry("big", 1, 100),
        entry("mid", 1, 1_500),
        entry("tie", 1, 500),
    ]);
    let result = compare_profiles(&baseline, &current);
    let names: Vec<&str> = result.iter().map(|c| c.function.as_str()).collect();
    assert_eq!(names, vec!["big", "mid", "tie", "small"]);
    let sizes: Vec<i128> = result.iter().map(|c| c.time_diff_ns.abs()).collect();
    assert_eq!(sizes, vec![900, 500, 500, 10]);
}

#[test]
fn threshold_is_exclusive_and_symmetric() {
    let baseline = profile(vec![entry("up", 1, 10_000), entry("down", 1, 10_000)]);
    let at_limit = profile(vec![entry("up", 1, 10_500), entry("down", 1, 9_500)]);
    for c in compare_profiles(&baseline, &at_limit) {
        assert_eq!(c.status, Status::Unchanged);
    }
    let beyond = profile(vec![entry("up", 1, 10_501), entry("down", 1, 9_499)]);
    let result = compare_profiles(&baseline, &beyond);
    assert_eq!(find(&result, "up").status, Status::Regression);
    assert_eq!(find(&result, "down").status, Status::Improvement);
    assert_eq!(find(&result, "up").time_diff_percent.hundredths, 501);
    assert_eq!(find(&result, "down").time_diff_percent.hundredths, -501);
}

#[test]
fn threshold_can_be_chosen() {
    let baseline = profile(vec![entry("f", 1, 1_000)]);
    let current = profile(vec![entry("f", 1, 1_200)]);
    let strict = compare_profiles_with_threshold(&baseline, &current, 1_000);
    assert_eq!(strict[0].status, Status::Regression);
    let lax = compare_profiles_with_threshold(&baseline, &current, 2_000);
    assert_eq!(lax[0].status, Status::Unchanged);
    let lax_more = compare_profiles_with_threshold(&baseline, &current, 2_500);
    assert_eq!(lax_more[0].status, Status::Unchanged);
}

#[test]
fn percent_is_rounded_toward_zero() {
    let baseline = profile(vec![entry("f", 1, 3), entry("g", 1, 3)]);
    let current = profile(vec![entry("f", 1, 4), entry("g", 1, 2)]);
    let result = compare_profiles(&baseline, &current);
    assert_eq!(find(&result, "f").time_diff_percent.hundredths, 3333);
    assert_eq!(find(&result, "g").time_diff_percent.hundredths, -3333);
}

#[test]
fn zero_time_on_both_sides_has_no_percentage() {
    let baseline = profile(vec![entry("idle", 1, 0)]);
    let current = profile(vec![entry("idle", 1, 0)]);
    let result = compare_profiles(&baseline, &current);
    assert_eq!(result[0].time_diff_ns, 0);
    assert_eq!(result[0].time_diff_percent.hundredths, UNDEFINED_PERCENT);
    assert_eq!(result[0].status, Status::Regression);
}

#[test]
fn comparing_empty_profiles_gives_nothing() {
    let baseline = profile(vec![]);
    let current = profile(vec![]);
    assert!(compare_profiles(&baseline, &current).is_empty());
}

#[test]
fn single_comparison_from_times() {
    let c = Comparison::between(
        String::from("f"),
        Duration { nanos: 200 },
        Duration { nanos: 150 },
        500,
    );
    assert_eq!(c.status, Status::Improvement);
    assert_eq!(c.time_diff_ns, -50);
    assert_eq!(c.time_diff_percent.hundredths, -2500);
    assert_eq!(c.magnitude(), 50);
    assert_eq!(c.duplicate(), c);
}
