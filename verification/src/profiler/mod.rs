//! The profiling engine: recording, snapshots, comparison and advice.

pub mod accounting;
pub mod compare;
pub mod error;
pub mod exchange;
pub mod flamegraph;
pub mod live;
pub mod order;
pub mod profile;
pub mod recommend;
pub mod recorder;
pub mod simulator;
pub mod trace;
pub mod trace_proofs;
pub mod tree;
pub mod units;

pub use compare::{
    compare_profiles, compare_profiles_with_threshold, Comparison, Status, DEFAULT_THRESHOLD,
    UNDEFINED_PERCENT,
};
pub use error::{DocumentField, ProfileError, RecorderStage};
pub use exchange::{export_profile, import_profile, ProfileDocument, ProfileEntry};
pub use flamegraph::{generate_flame_graph, layout, render, FlameRect, CANVAS_WIDTH, ROW_HEIGHT};
pub use live::Profiler;
pub use order::rank_descending;
pub use profile::{FunctionProfile, ProfileData};
pub use recommend::{
    apply_rule, default_rules, generate_recommendations, apply_rules, Finding, Rule,
};
pub use recorder::CallRecorder;
pub use simulator::{burn, plan, recognize, simulate_execution, Artifact, Step};
pub use tree::{CallNode, CallTree};
pub use units::{Duration, Percent};
