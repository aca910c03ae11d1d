use contract_profiler::profiler::{CallRecorder, ProfileError, RecorderStage};

fn profile_names(recorder: &mut CallRecorder, at: u64) -> Vec<(String, u64, u64, u64)> {
    let profile = recorder.finish(String::from("c.wasm"), None, at).unwrap();
    profile
        .functions()
        .iter()
        .map(|f| (f.name.clone(), f.call_count, f.total_time.nanos, f.avg_time.nanos))
        .collect()
}

#[test]
fn new_recorder_is_empty() {
    let r = CallRecorder::new();
    assert!(!r.is_finished());
    assert_eq!(r.open_calls(), 0);
    assert_eq!(r.entered_calls(), 0);
    assert_eq!(r.now(), 0);
    assert_eq!(r.overhead().nanos, 0);
}

#[test]
fn balanced_calls_give_exact_totals_and_averages() {
    let mut r = CallRecorder::new();
    r.enter("main", 10).unwrap();
    r.enter("load", 20).unwrap();
    r.exit(50).unwrap();
    r.enter("load", 60).unwrap();
    r.exit(75).unwrap();
    r.exit(100).unwrap();
    let stats = profile_names(&mut r, 120);
    assert_eq!(
        stats,
        vec![(String::from("main"), 1, 90, 90), (String::from("load"), 2, 45, 22)]
    );
}

#[test]
fn exit_without_enter_is_misuse_and_changes_nothing() {
    let mut r = CallRecorder::new();
    let err = r.exit(5).unwrap_err();
    assert_eq!(err, ProfileError::RecorderMisuse { stage: RecorderStage::Exit });
    assert_eq!(r.now(), 0);
    assert_eq!(r.entered_calls(), 0);
    assert!(!r.is_finished());
}

#[test]
fn finish_with_open_call_is_misuse() {
    let mut r = CallRecorder::new();
    r.enter("main", 1).unwrap();
    let err = r.finish(String::from("c.wasm"), None, 9).unwrap_err();
    assert_eq!(err, ProfileError::RecorderMisuse { stage: RecorderStage::Finish });
    assert!(!r.is_finished());
    assert_eq!(r.open_calls(), 1);
    r.exit(4).unwrap();
    assert!(r.finish(String::from("c.wasm"), None, 9).is_ok());
}

#[test]
fn recording_after_finish_is_misuse() {
    let mut r = CallRecorder::new();
    r.finish(String::from("c.wasm"), None, 3).unwrap();
    assert!(r.is_finished());
    assert_eq!(
        r.enter("f", 4).unwrap_err(),
        ProfileError::RecorderMisuse { stage: RecorderStage::Enter }
    );
    assert_eq!(
        r.exit(4).unwrap_err(),
        ProfileError::RecorderMisuse { stage: RecorderStage::Exit }
    );
    assert_eq!(
        r.settle(4).unwrap_err(),
        ProfileError::RecorderMisuse { stage: RecorderStage::Settle }
    );
    assert_eq!(
        r.finish(String::from("c.wasm"), None, 5).unwrap_err(),
        ProfileError::RecorderMisuse { stage: RecorderStage::Finish }
    );
    assert_eq!(r.now(), 3);
}

#[test]
fn time_never_runs_backwards() {
    let mut r = CallRecorder::new();
    r.enter("f", 100).unwrap();
    r.exit(40).unwrap();
    assert_eq!(r.now(), 100);
    let stats = profile_names(&mut r, 10);
    assert_eq!(stats, vec![(String::from("f"), 1, 0, 0)]);
}

#[test]
fn overhead_is_a_share_of_the_run() {
    let mut r = CallRecorder::new();
    r.enter("f", 0).unwrap();
    r.settle(10).unwrap();
    r.exit(90).unwrap();
    r.settle(100).unwrap();
    assert_eq!(r.overhead().nanos, 20);
    let profile = r.finish(String::from("c.wasm"), Some(String::from("run")), 200).unwrap();
    assert_eq!(profile.total_duration().nanos, 200);
    assert_eq!(profile.overhead_percent().hundredths, 1000);
    assert_eq!(profile.contract_path(), "c.wasm");
    assert_eq!(profile.method().as_deref(), Some("run"));
}

#[test]
fn empty_run_has_no_overhead_and_no_functions() {
    let mut r = CallRecorder::new();
    let profile = r.finish(String::from("c.wasm"), None, 0).unwrap();
    assert_eq!(profile.total_duration().nanos, 0);
    assert_eq!(profile.overhead_percent().hundredths, 0);
    assert!(profile.functions().is_empty());
}

#[test]
fn recursion_charges_every_call_its_own_inclusive_time() {
    let mut r = CallRecorder::new();
    r.enter("fib", 0).unwrap();
    r.enter("fib", 10).unwrap();
    r.exit(30).unwrap();
    r.exit(50).unwrap();
    let stats = profile_names(&mut r, 50);
    assert_eq!(stats, vec![(String::from("fib"), 2, 70, 35)]);
}

#[test]
fn calls_are_counted_as_soon_as_they_are_entered() {
    let mut r = CallRecorder::new();
    assert_eq!(r.calls_of("f"), 0);
    r.enter("f", 1).unwrap();
    assert_eq!(r.calls_of("f"), 1);
    r.enter("g", 2).unwrap();
    r.enter("f", 3).unwrap();
    assert_eq!(r.calls_of("f"), 2);
    assert_eq!(r.calls_of("g"), 1);
    assert_eq!(r.calls_of("h"), 0);
    assert_eq!(r.open_calls(), 3);
    assert_eq!(r.entered_calls(), 3);
}

#[test]
fn top_level_calls_fit_into_the_run() {
    let mut r = CallRecorder::new();
    r.enter("a", 5).unwrap();
    r.enter("inner", 6).unwrap();
    r.exit(9).unwrap();
    r.exit(20).unwrap();
    r.enter("b", 25).unwrap();
    r.exit(40).unwrap();
    r.enter("a", 41).unwrap();
    r.exit(50).unwrap();
    let profile = r.finish(String::from("c.wasm"), None, 50).unwrap();
    let tree = r.call_tree().unwrap();
    let roots: u64 = tree.nodes().iter().filter(|n| n.parent.is_none()).map(|n| n.duration).sum();
    assert_eq!(roots, 15 + 15 + 9);
    assert!(roots <= profile.total_duration().nanos);
    let top_level = profile.total_time_of("a").nanos + profile.total_time_of("b").nanos;
    assert_eq!(top_level, roots);
}

#[test]
fn call_tree_is_there_once_the_recording_is_finished() {
    let mut r = CallRecorder::new();
    r.enter("f", 1).unwrap();
    r.exit(2).unwrap();
    assert_eq!(
        r.call_tree().unwrap_err(),
        ProfileError::RecorderMisuse { stage: RecorderStage::Tree }
    );
    r.finish(String::from("c"), None, 3).unwrap();
    let tree = r.call_tree().unwrap();
    assert_eq!(tree.span(), 3);
    assert_eq!(tree.nodes().len(), 1);
    assert_eq!(tree.nodes()[0].duration, 1);
}

#[test]
fn totals_saturate_instead_of_wrapping() {
    let mut r = CallRecorder::new();
    r.enter("deep", 0).unwrap();
    r.enter("deep", 0).unwrap();
    r.enter("deep", 0).unwrap();
    r.exit(u64::MAX).unwrap();
    r.exit(u64::MAX).unwrap();
    r.exit(u64::MAX).unwrap();
    let profile = r.finish(String::from("c"), None, u64::MAX).unwrap();
    let deep = profile.get("deep").unwrap();
    assert_eq!(deep.call_count, 3);
    assert_eq!(deep.total_time.nanos, u64::MAX);
    assert_eq!(deep.avg_time.nanos, u64::MAX / 3);
    assert_eq!(profile.total_duration().nanos, u64::MAX);
}
