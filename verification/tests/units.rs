use contract_profiler::profiler::{
    import_profile, Comparison, DocumentField, Duration, FunctionProfile, Percent,
    ProfileDocument, ProfileEntry, ProfileError, RecorderStage, Status, UNDEFINED_PERCENT,
};
use contract_profiler::text::{push_decimal, push_escaped};

#[test]
fn duration_conversions_round_down() {
    let d = Duration::from_nanos(1_234_567_899);
    assert_eq!(d.as_nanos(), 1_234_567_899);
    assert_eq!(d.as_micros(), 1_234_567);
    assert_eq!(d.as_millis(), 1_234);
    assert_eq!(Duration::zero().as_nanos(), 0);
}

#[test]
fn duration_arithmetic() {
    let a = Duration::from_nanos(10);
    let b = Duration::from_nanos(3);
    assert_eq!(a.checked_add(b), Some(Duration::from_nanos(13)));
    assert_eq!(Duration::from_nanos(u64::MAX).checked_add(Duration::from_nanos(1)), None);
    assert_eq!(Duration::from_nanos(u64::MAX).saturating_add(b).nanos, u64::MAX);
    assert_eq!(a.saturating_add(b).nanos, 13);
    assert_eq!(a.saturating_sub(b).nanos, 7);
    assert_eq!(b.saturating_sub(a).nanos, 0);
    assert!(a.is_longer_than(b));
    assert!(!b.is_longer_than(a));
    assert!(!a.is_longer_than(a));
}

#[test]
fn percent_share_is_exact_to_a_hundredth() {
    let share = |p, w| Percent::share(Duration::from_nanos(p), Duration::from_nanos(w));
    assert_eq!(share(1, 3).hundredths, 3333);
    assert_eq!(share(2, 3).hundredths, 6666);
    assert_eq!(share(3, 3).hundredths, 10_000);
    assert_eq!(share(0, 3).hundredths, 0);
    assert_eq!(share(5, 0).hundredths, 0);
    assert_eq!(share(u64::MAX, u64::MAX).hundredths, 10_000);
    assert_eq!(share(u64::MAX, 1).hundredths, u64::MAX as i128 * 10_000);
    assert_eq!(Percent::from_whole(5).hundredths, 500);
    assert_eq!(Percent::from_hundredths(-7).hundredths, -7);
}

fn percent_text(hundredths: i128) -> String {
    let mut out = String::from(">");
    Percent { hundredths }.append_to(&mut out);
    out
}

#[test]
fn percent_text_has_two_decimals() {
    assert_eq!(percent_text(0), ">0.00");
    assert_eq!(percent_text(5), ">0.05");
    assert_eq!(percent_text(50), ">0.50");
    assert_eq!(percent_text(5000), ">50.00");
    assert_eq!(percent_text(12345), ">123.45");
    assert_eq!(percent_text(-1), ">-0.01");
    assert_eq!(percent_text(-2507), ">-25.07");
    assert_eq!(
        percent_text(i128::MIN),
        ">-1701411834604692317316873037158841057.28"
    );
}

#[test]
fn decimal_text() {
    let text = |n: u128| {
        let mut out = String::from("n=");
        push_decimal(&mut out, n);
        out
    };
    assert_eq!(text(0), "n=0");
    assert_eq!(text(9), "n=9");
    assert_eq!(text(10), "n=10");
    assert_eq!(text(1_002_003), "n=1002003");
    assert_eq!(text(u128::MAX), "n=340282366920938463463374607431768211455");
}

#[test]
fn escaped_text() {
    let text = |s: &str| {
        let mut out = String::from("[");
        push_escaped(&mut out, s);
        out
    };
    assert_eq!(text(""), "[");
    assert_eq!(text("plain"), "[plain");
    assert_eq!(text("<&>\"'"), "[&lt;&amp;&gt;&quot;&apos;");
    assert_eq!(text("naïve ☃ a<b"), "[naïve ☃ a&lt;b");
}

#[test]
fn error_messages_name_what_they_concern() {
    assert_eq!(
        ProfileError::NotFound { path: String::from("a/b.wasm") }.message(),
        "Contract file not found: a/b.wasm"
    );
    assert_eq!(
        ProfileError::MalformedArtifact { path: String::from("a/b.txt") }.message(),
        "Not a contract: a/b.txt"
    );
    assert_eq!(
        ProfileError::RecorderMisuse { stage: RecorderStage::Exit }.message(),
        "Recorder misuse: exit without matching enter"
    );
    assert_eq!(
        ProfileError::RecorderMisuse { stage: RecorderStage::Enter }.message(),
        "Recorder misuse: enter after finish"
    );
    assert_eq!(
        ProfileError::RecorderMisuse { stage: RecorderStage::Settle }.message(),
        "Recorder misuse: settle after finish"
    );
    assert_eq!(
        ProfileError::RecorderMisuse { stage: RecorderStage::Finish }.message(),
        "Recorder misuse: finish with a call open or after finish"
    );
    assert_eq!(
        ProfileError::RecorderMisuse { stage: RecorderStage::Tree }.message(),
        "Recorder misuse: call tree before finish"
    );
    assert_eq!(
        ProfileError::SerializationError { field: DocumentField::AvgTime, entry: Some(12) }
            .message(),
        "Invalid profile document: avg_time in function entry 12"
    );
    assert_eq!(
        ProfileError::SerializationError { field: DocumentField::OverheadPercent, entry: None }
            .message(),
        "Invalid profile document: overhead_percent"
    );
    assert_eq!(DocumentField::FunctionKey.describe(), "name");
    assert_eq!(DocumentField::CallCount.describe(), "call_count");
}

#[test]
fn status_and_percent_labels() {
    assert_eq!(Status::Regression.label(), "regression");
    assert_eq!(Status::Improvement.label(), "improvement");
    assert_eq!(Status::Unchanged.label(), "unchanged");
    let c = |b: u64, n: u64| {
        Comparison::between(String::from("f"), Duration { nanos: b }, Duration { nanos: n }, 500)
    };
    assert_eq!(c(100, 150).percent_label(), "+50.00%");
    assert_eq!(c(100, 75).percent_label(), "-25.00%");
    assert_eq!(c(100, 100).percent_label(), "0.00%");
    assert_eq!(c(0, 100).percent_label(), "n/a");
    assert_eq!(c(0, 100).time_diff_percent.hundredths, UNDEFINED_PERCENT);
}

fn entry(name: &str, calls: u64, total: u64) -> ProfileEntry {
    ProfileEntry {
        key: String::from(name),
        profile: FunctionProfile {
            name: String::from(name),
            call_count: calls,
            total_time: Duration { nanos: total },
            avg_time: Duration { nanos: total / calls },
        },
    }
}

#[test]
fn top_functions_are_the_longest() {
    let p = import_profile(ProfileDocument {
        contract_path: String::from("c"),
        method: None,
        total_duration: Duration { nanos: 100 },
        overhead_percent: Percent { hundredths: 0 },
        functions: vec![
            entry("a", 1, 5),
            entry("b", 1, 50),
            entry("c", 1, 20),
            entry("d", 1, 50),
            entry("e", 1, 1),
        ],
    })
    .unwrap();
    let names = |n: usize| -> Vec<String> {
        p.top_functions(n).iter().map(|f| f.name.clone()).collect()
    };
    assert_eq!(names(0), Vec::<String>::new());
    assert_eq!(names(2), vec!["b", "d"]);
    assert_eq!(names(3), vec!["b", "d", "c"]);
    assert_eq!(names(5), vec!["b", "d", "c", "a", "e"]);
    assert_eq!(names(10), vec!["b", "d", "c", "a", "e"]);
    assert_eq!(p.top_functions(1)[0], p.functions()[1]);
    assert_eq!(p.functions()[1].duplicate(), p.functions()[1]);
}
