use contract_profiler::clock::{saturate, Clock};
use contract_profiler::profiler::{ProfileError, Profiler, RecorderStage};

#[test]
fn profiler_records_balanced_calls() {
    let mut p = Profiler::new();
    p.enter("main").unwrap();
    p.enter("helper").unwrap();
    p.exit().unwrap();
    p.enter("helper").unwrap();
    p.exit().unwrap();
    p.exit().unwrap();
    assert_eq!(p.open_calls(), 0);
    assert_eq!(p.entered_calls(), 3);
    let profile = p.finish(String::from("c.wasm"), Some(String::from("main"))).unwrap();
    assert!(p.is_finished());
    assert_eq!(profile.functions().len(), 2);
    let main = profile.get("main").unwrap();
    let helper = profile.get("helper").unwrap();
    assert_eq!(main.call_count, 1);
    assert_eq!(helper.call_count, 2);
    assert_eq!(helper.avg_time.nanos, helper.total_time.nanos / 2);
    assert!(helper.total_time.nanos <= main.total_time.nanos);
    assert!(main.total_time.nanos <= profile.total_duration().nanos);
}

#[test]
fn profiler_time_follows_its_clock() {
    let mut p = Profiler::new();
    assert_eq!(p.latest_reading(), 0);
    p.enter("f").unwrap();
    let entered = p.latest_reading();
    p.exit().unwrap();
    let left = p.latest_reading();
    assert!(entered <= left);
    let profile = p.finish(String::from("c"), None).unwrap();
    assert!(left <= profile.total_duration().nanos);
    assert_eq!(profile.total_duration().nanos, p.latest_reading());
    assert_eq!(p.calls_of("f"), 1);
}

#[test]
fn profiler_exit_without_enter_is_misuse() {
    let mut p = Profiler::new();
    assert_eq!(
        p.exit().unwrap_err(),
        ProfileError::RecorderMisuse { stage: RecorderStage::Exit }
    );
    assert_eq!(p.entered_calls(), 0);
    assert!(!p.is_finished());
    assert_eq!(
        p.call_tree().unwrap_err(),
        ProfileError::RecorderMisuse { stage: RecorderStage::Tree }
    );
}

#[test]
fn profiler_finish_is_final() {
    let mut p = Profiler::new();
    p.enter("f").unwrap();
    assert_eq!(
        p.finish(String::from("c"), None).unwrap_err(),
        ProfileError::RecorderMisuse { stage: RecorderStage::Finish }
    );
    p.exit().unwrap();
    p.finish(String::from("c"), None).unwrap();
    assert_eq!(
        p.enter("g").unwrap_err(),
        ProfileError::RecorderMisuse { stage: RecorderStage::Enter }
    );
    assert_eq!(
        p.finish(String::from("c"), None).unwrap_err(),
        ProfileError::RecorderMisuse { stage: RecorderStage::Finish }
    );
    assert_eq!(p.entered_calls(), 1);
}

#[test]
fn clock_readings_do_not_decrease() {
    let mut clock = Clock::start();
    assert_eq!(clock.latest(), 0);
    let a = clock.read();
    assert_eq!(clock.latest(), a);
    let b = clock.read();
    assert!(a <= b);
    assert_eq!(clock.latest(), b);
}

#[test]
fn saturate_narrows_to_64_bits() {
    assert_eq!(saturate(0), 0);
    assert_eq!(saturate(12_345), 12_345);
    assert_eq!(saturate(u64::MAX as u128), u64::MAX);
    assert_eq!(saturate(u64::MAX as u128 + 1), u64::MAX);
    assert_eq!(saturate(u128::MAX), u64::MAX);
}
