use contract_profiler::profiler::{
    apply_rule, default_rules, generate_recommendations, import_profile, apply_rules, Duration,
    Finding, FunctionProfile, Percent, ProfileData, ProfileDocument, ProfileEntry, Rule,
};

fn entry(name: &str, calls: u64, total: u64) -> ProfileEntry {
    ProfileEntry {
        key: String::from(name),
        profile: FunctionProfile {
            name: String::from(name),
            call_count: calls,
            total_time: Duration { nanos: total },
            avg_time: Duration { nanos: total / calls },
        },
    }
}

fn profile(total: u64, overhead: i128, entries: Vec<ProfileEntry>) -> ProfileData {
    import_profile(ProfileDocument {
        contract_path: String::from("contract.wasm"),
        method: None,
        total_duration: Duration { nanos: total },
        overhead_percent: Percent { hundredths: overhead },
        functions: entries,
    })
    .unwrap()
}

#[test]
fn default_table_has_three_rules_in_priority_order() {
    assert_eq!(
        default_rules(),
        vec![
            Rule::Overhead { above: 500 },
            Rule::Hotspot { above: 2000 },
            Rule::Chatty { calls: 1000, avg_below: 1000 },
        ]
    );
}

#[test]
fn quiet_profile_gets_no_advice() {
    let p = profile(1_000_000, 500, vec![entry("a", 10, 200_000), entry("b", 999, 999)]);
    assert!(generate_recommendations(&p).is_empty());
    assert!(apply_rules(&p, &default_rules()).is_empty());
}

#[test]
fn overhead_above_the_limit_is_a_caveat() {
    let p = profile(1_000_000, 501, vec![]);
    assert_eq!(
        apply_rule(Rule::Overhead { above: 500 }, &p),
        vec![Finding::Overhead { percent: Percent { hundredths: 501 } }]
    );
    assert_eq!(
        generate_recommendations(&p),
        vec![String::from(
            "Profiler overhead is 5.01% of the run; timings may be imprecise."
        )]
    );
}

#[test]
fn hotspots_are_listed_longest_first() {
    let p = profile(
        1_000_000,
        0,
        vec![
            entry("small", 1, 200_000),
            entry("mid", 1, 200_001),
            entry("big", 2, 700_000),
            entry("twin", 1, 200_001),
        ],
    );
    let found = apply_rule(Rule::Hotspot { above: 2000 }, &p);
    assert_eq!(
        found,
        vec![
            Finding::Hotspot {
                function: String::from("big"),
                share: Percent { hundredths: 7000 },
                total_time: Duration { nanos: 700_000 },
            },
            Finding::Hotspot {
                function: String::from("mid"),
                share: Percent { hundredths: 2000 },
                total_time: Duration { nanos: 200_001 },
            },
            Finding::Hotspot {
                function: String::from("twin"),
                share: Percent { hundredths: 2000 },
                total_time: Duration { nanos: 200_001 },
            },
        ]
    );
    assert_eq!(
        found[0].message(),
        "Function 'big' takes 70.00% of the run (700000 ns); optimize it first."
    );
}

#[test]
fn chatty_functions_are_listed_busiest_first() {
    let p = profile(
        100_000_000,
        0,
        vec![
            entry("few", 999, 999),
            entry("often", 1000, 1_000_999),
            entry("slow", 5000, 5_005_000),
            entry("most", 4000, 4000),
        ],
    );
    let found = apply_rule(Rule::Chatty { calls: 1000, avg_below: 1000 }, &p);
    assert_eq!(
        found,
        vec![
            Finding::Chatty {
                function: String::from("most"),
                call_count: 4000,
                avg_time: Duration { nanos: 1 },
            },
            Finding::Chatty {
                function: String::from("often"),
                call_count: 1000,
                avg_time: Duration { nanos: 1000 },
            },
        ]
    );
    assert_eq!(
        found[1].message(),
        "Function 'often' was called 1000 times at 1000 ns per call; consider batching or inlining."
    );
}

#[test]
fn advice_follows_the_order_of_the_table() {
    let p = profile(
        10_000_000,
        1234,
        vec![entry("loop", 2000, 1_000_000), entry("core", 1, 9_000_000)],
    );
    assert_eq!(
        generate_recommendations(&p),
        vec![
            String::from("Profiler overhead is 12.34% of the run; timings may be imprecise."),
            String::from("Function 'core' takes 90.00% of the run (9000000 ns); optimize it first."),
            String::from(
                "Function 'loop' was called 2000 times at 500 ns per call; consider batching or inlining."
            ),
        ]
    );
    let swapped = vec![Rule::Chatty { calls: 1, avg_below: 500 }, Rule::Overhead { above: 0 }];
    let found = apply_rules(&p, &swapped);
    assert_eq!(found.len(), 2);
    assert!(matches!(found[0], Finding::Chatty { .. }));
    assert!(matches!(found[1], Finding::Overhead { .. }));
    assert_eq!(found[0].duplicate(), found[0]);
}

#[test]
fn hotspot_in_a_run_of_no_length() {
    let p = profile(0, 0, vec![entry("f", 1, 10), entry("g", 1, 0)]);
    let found = apply_rule(Rule::Hotspot { above: 2000 }, &p);
    assert_eq!(
        found,
        vec![Finding::Hotspot {
            function: String::from("f"),
            share: Percent { hundredths: 0 },
            total_time: Duration { nanos: 10 },
        }]
    );
}
