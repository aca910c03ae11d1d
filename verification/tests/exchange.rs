use contract_profiler::profiler::{
    export_profile, import_profile, CallRecorder, DocumentField, Duration, FunctionProfile,
    Percent, ProfileDocument, ProfileEntry, ProfileError,
};

fn entry(key: &str, name: &str, calls: u64, total: u64, avg: u64) -> ProfileEntry {
    ProfileEntry {
        key: String::from(key),
        profile: FunctionProfile {
            name: String::from(name),
            call_count: calls,
            total_time: Duration { nanos: total },
            avg_time: Duration { nanos: avg },
        },
    }
}

fn document(overhead: i128, functions: Vec<ProfileEntry>) -> ProfileDocument {
    ProfileDocument {
        contract_path: String::from("contract.wasm"),
        method: Some(String::from("transfer")),
        total_duration: Duration { nanos: 5_000 },
        overhead_percent: Percent { hundredths: overhead },
        functions,
    }
}

fn fault(field: DocumentField, entry: Option<usize>) -> ProfileError {
    ProfileError::SerializationError { field, entry }
}

#[test]
fn export_then_import_gives_the_same_profile() {
    let mut r = CallRecorder::new();
    r.enter("main", 0).unwrap();
    r.settle(3).unwrap();
    r.enter("read", 10).unwrap();
    r.exit(25).unwrap();
    r.enter("read", 30).unwrap();
    r.exit(40).unwrap();
    r.exit(100).unwrap();
    let first = r
        .finish(String::from("contract.wasm"), Some(String::from("transfer")), 120)
        .unwrap();
    let doc = export_profile(&first);
    let back = import_profile(doc.clone()).unwrap();
    assert_eq!(back, first);
    assert_eq!(export_profile(&back), doc);
}

#[test]
fn export_lists_each_function_under_its_name() {
    let mut r = CallRecorder::new();
    r.enter("a", 0).unwrap();
    r.exit(7).unwrap();
    let profile = r.finish(String::from("c.wasm"), None, 10).unwrap();
    let doc = export_profile(&profile);
    assert_eq!(doc.contract_path, "c.wasm");
    assert_eq!(doc.method, None);
    assert_eq!(doc.total_duration.nanos, 10);
    assert_eq!(doc.overhead_percent.hundredths, 0);
    assert_eq!(doc.functions, vec![entry("a", "a", 1, 7, 7)]);
}

#[test]
fn import_accepts_a_valid_document() {
    let doc = document(250, vec![entry("a", "a", 3, 10, 3), entry("b", "b", 1, 0, 0)]);
    let profile = import_profile(doc).unwrap();
    assert_eq!(profile.contract_path(), "contract.wasm");
    assert_eq!(profile.method().as_deref(), Some("transfer"));
    assert_eq!(profile.total_duration().nanos, 5_000);
    assert_eq!(profile.overhead_percent().hundredths, 250);
    assert_eq!(profile.functions().len(), 2);
    assert_eq!(profile.get("a").unwrap().avg_time.nanos, 3);
    assert_eq!(profile.total_time_of("a").nanos, 10);
    assert_eq!(profile.total_time_of("missing").nanos, 0);
    assert!(profile.get("missing").is_none());
}

#[test]
fn import_refuses_overhead_out_of_range() {
    assert_eq!(
        import_profile(document(-1, vec![])).unwrap_err(),
        fault(DocumentField::OverheadPercent, None)
    );
    assert_eq!(
        import_profile(document(10_001, vec![entry("a", "b", 0, 0, 1)])).unwrap_err(),
        fault(DocumentField::OverheadPercent, None)
    );
    assert!(import_profile(document(10_000, vec![])).is_ok());
    assert!(import_profile(document(0, vec![])).is_ok());
}

#[test]
fn import_refuses_key_that_differs_from_name() {
    let doc = document(0, vec![entry("a", "a", 1, 1, 1), entry("b", "c", 1, 1, 1)]);
    assert_eq!(import_profile(doc).unwrap_err(), fault(DocumentField::FunctionKey, Some(1)));
}

#[test]
fn import_refuses_repeated_key() {
    let doc = document(
        0,
        vec![entry("a", "a", 1, 1, 1), entry("b", "b", 1, 1, 1), entry("a", "a", 2, 2, 1)],
    );
    assert_eq!(import_profile(doc).unwrap_err(), fault(DocumentField::FunctionKey, Some(2)));
}

#[test]
fn import_refuses_zero_calls() {
    let doc = document(0, vec![entry("a", "a", 0, 0, 0)]);
    assert_eq!(import_profile(doc).unwrap_err(), fault(DocumentField::CallCount, Some(0)));
}

#[test]
fn import_refuses_inexact_average() {
    let doc = document(0, vec![entry("a", "a", 3, 10, 4)]);
    assert_eq!(import_profile(doc).unwrap_err(), fault(DocumentField::AvgTime, Some(0)));
}

#[test]
fn import_reports_the_first_fault() {
    let doc = document(
        0,
        vec![entry("a", "a", 1, 1, 1), entry("b", "b", 0, 5, 9), entry("x", "y", 1, 1, 1)],
    );
    assert_eq!(import_profile(doc).unwrap_err(), fault(DocumentField::CallCount, Some(1)));
    let doc = document(0, vec![entry("k", "n", 0, 5, 9)]);
    assert_eq!(import_profile(doc).unwrap_err(), fault(DocumentField::FunctionKey, Some(0)));
}
