use contract_profiler::profiler::{
    burn, plan, recognize, simulate_execution, Artifact, ProfileData, ProfileError, Profiler,
    RecorderStage, Step,
};

fn wasm() -> Vec<u8> {
    vec![0x00, 0x61, 0x73, 0x6d, 0x01, 0x00, 0x00, 0x00, 0x01, 0x02]
}

fn artifact(contents: Option<Vec<u8>>) -> Artifact {
    Artifact { path: String::from("contracts/token.wasm"), contents }
}

fn calls(profile: &ProfileData, name: &str) -> u64 {
    profile.get(name).map(|f| f.call_count).unwrap_or(0)
}

#[test]
fn missing_artifact_is_not_found_and_nothing_is_recorded() {
    let mut profiler = Profiler::new();
    let err = simulate_execution(&artifact(None), Some("transfer"), &mut profiler).unwrap_err();
    assert_eq!(err, ProfileError::NotFound { path: String::from("contracts/token.wasm") });
    assert_eq!(profiler.entered_calls(), 0);
    assert_eq!(profiler.open_calls(), 0);
    assert!(!profiler.is_finished());
    let profile = profiler.finish(String::from("contracts/token.wasm"), None).unwrap();
    assert!(profile.functions().is_empty());
}

#[test]
fn contents_that_are_no_module_are_malformed() {
    let mut profiler = Profiler::new();
    for bytes in [
        vec![],
        vec![0x00, 0x61, 0x73],
        vec![0x00, 0x61, 0x73, 0x6d, 0x01, 0x00, 0x00],
        vec![0x7f, 0x45, 0x4c, 0x46, 0x01, 0x00, 0x00, 0x00],
        vec![0x00, 0x61, 0x73, 0x6e, 0x01, 0x00, 0x00, 0x00],
    ] {
        let err = simulate_execution(&artifact(Some(bytes)), None, &mut profiler).unwrap_err();
        assert_eq!(
            err,
            ProfileError::MalformedArtifact { path: String::from("contracts/token.wasm") }
        );
        assert_eq!(profiler.entered_calls(), 0);
    }
}

#[test]
fn finished_profiler_is_refused() {
    let mut profiler = Profiler::new();
    profiler.finish(String::from("x"), None).unwrap();
    let err = simulate_execution(&artifact(Some(wasm())), None, &mut profiler).unwrap_err();
    assert_eq!(err, ProfileError::RecorderMisuse { stage: RecorderStage::Enter });
    assert_eq!(profiler.entered_calls(), 0);
}

#[test]
fn run_without_method_plays_the_whole_scenario() {
    let mut profiler = Profiler::new();
    simulate_execution(&artifact(Some(wasm())), None, &mut profiler).unwrap();
    assert_eq!(profiler.open_calls(), 0);
    assert_eq!(profiler.entered_calls(), 12);
    let profile = profiler.finish(String::from("contracts/token.wasm"), None).unwrap();
    let names: Vec<&str> = profile.functions().iter().map(|f| f.name.as_str()).collect();
    assert_eq!(
        names,
        vec![
            "invoke",
            "load_contract",
            "check_auth",
            "storage_read",
            "execute",
            "compute",
            "call_contract",
            "storage_write",
            "emit_event"
        ]
    );
    assert_eq!(calls(&profile, "invoke"), 1);
    assert_eq!(calls(&profile, "storage_read"), 3);
    assert_eq!(calls(&profile, "compute"), 2);
    assert_eq!(calls(&profile, "dispatch"), 0);
}

#[test]
fn run_with_method_names_the_entry_and_dispatches() {
    let mut profiler = Profiler::new();
    simulate_execution(&artifact(Some(wasm())), Some("transfer"), &mut profiler).unwrap();
    assert_eq!(profiler.entered_calls(), 13);
    let profile = profiler
        .finish(String::from("contracts/token.wasm"), Some(String::from("transfer")))
        .unwrap();
    assert_eq!(calls(&profile, "transfer"), 1);
    assert_eq!(calls(&profile, "invoke"), 0);
    assert_eq!(calls(&profile, "dispatch"), 1);
    assert_eq!(profile.functions()[0].name, "transfer");
}

#[test]
fn run_inside_an_open_call_leaves_it_open() {
    let mut profiler = Profiler::new();
    profiler.enter("outer").unwrap();
    simulate_execution(&artifact(Some(wasm())), None, &mut profiler).unwrap();
    assert_eq!(profiler.open_calls(), 1);
    assert_eq!(profiler.entered_calls(), 13);
    profiler.exit().unwrap();
    let tree = {
        profiler.finish(String::from("c"), None).unwrap();
        profiler.call_tree().unwrap()
    };
    assert_eq!(tree.nodes()[1].name, "invoke");
    assert_eq!(tree.nodes()[1].depth, 1);
    assert_eq!(tree.nodes()[1].parent, Some(0));
}

#[test]
fn whole_run_is_measured_consistently() {
    let mut profiler = Profiler::new();
    simulate_execution(&artifact(Some(wasm())), Some("mint"), &mut profiler).unwrap();
    let profile = profiler.finish(String::from("c.wasm"), Some(String::from("mint"))).unwrap();
    let total = profile.total_duration().nanos;
    let entry = profile.get("mint").unwrap();
    assert!(entry.total_time.nanos <= total);
    for f in profile.functions() {
        assert!(f.call_count > 0);
        assert_eq!(f.avg_time.nanos, f.total_time.nanos / f.call_count);
    }
    assert!(profile.overhead_percent().hundredths >= 0);
    assert!(profile.overhead_percent().hundredths <= 10_000);
    let tree = profiler.call_tree().unwrap();
    assert_eq!(tree.span(), total);
    let roots: u64 = tree.nodes().iter().filter(|n| n.parent.is_none()).map(|n| n.duration).sum();
    assert!(roots <= total);
}

#[test]
fn plan_lists_the_steps_in_order() {
    let steps = plan(None);
    assert_eq!(steps.len(), 36);
    assert_eq!(steps[0], Step::Enter(String::from("invoke")));
    assert_eq!(steps[1], Step::Work(5));
    assert_eq!(steps[2], Step::Enter(String::from("load_contract")));
    assert_eq!(steps[3], Step::Work(40));
    assert_eq!(steps[4], Step::Exit);
    assert_eq!(steps[35], Step::Exit);
    let with_method = plan(Some("swap"));
    assert_eq!(with_method.len(), 39);
    assert_eq!(with_method[0], Step::Enter(String::from("swap")));
    assert_eq!(with_method[17], Step::Enter(String::from("dispatch")));
    assert_eq!(with_method[18], Step::Work(10));
    let enters = with_method.iter().filter(|s| matches!(s, Step::Enter(_))).count();
    let exits = with_method.iter().filter(|s| matches!(s, Step::Exit)).count();
    assert_eq!(enters, 13);
    assert_eq!(exits, 13);
}

#[test]
fn recognize_wants_the_magic_number_and_a_full_header() {
    assert!(recognize(&wasm()));
    assert!(recognize(&vec![0x00, 0x61, 0x73, 0x6d, 0xff, 0xff, 0xff, 0xff]));
    assert!(!recognize(&vec![0x00, 0x61, 0x73, 0x6d]));
    assert!(!recognize(&vec![0x01, 0x61, 0x73, 0x6d, 0x01, 0x00, 0x00, 0x00]));
    assert!(!recognize(&vec![]));
}

#[test]
fn burn_is_deterministic() {
    assert_eq!(burn(0), 0);
    assert_eq!(burn(1), 1442695040888963407);
    assert_eq!(
        burn(2),
        1442695040888963407u64
            .wrapping_mul(6364136223846793005)
            .wrapping_add(1442695040888963407)
    );
    assert_eq!(burn(1000), burn(1000));
}
