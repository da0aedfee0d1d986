use state_engine::runtime::PerformanceWeights;
use state_engine::runtime::RuntimeEngine;
use state_engine::runtime::RuntimeFeature;
use state_engine::runtime::RuntimeRequirements;
use state_engine::runtime::RuntimeType;
use state_engine::runtime::OptimizationLevel;
use state_engine::runtime::calculate_runtime_score;
use state_engine::runtime::RuntimeStats;

fn reqs(features: Vec<RuntimeFeature>, memory: u64) -> RuntimeRequirements {
    RuntimeRequirements {
        required_features: features,
        memory_requirement: memory,
        performance_weights: PerformanceWeights::default(),
        optimization_preference: OptimizationLevel::Aggressive,
    }
}

#[test]
fn names_round_trip() {
    assert_eq!(RuntimeType::from_string("browser"), RuntimeType::Browser);
    assert_eq!(RuntimeType::from_string("node"), RuntimeType::NodeJS);
    assert_eq!(RuntimeType::from_string("wasmedge"), RuntimeType::WasmEdge);
    assert_eq!(RuntimeType::from_string("anything else"), RuntimeType::Browser);
    assert_eq!(RuntimeType::Wasmtime.to_string(), "wasmtime");
    // Matching ignores ASCII case.
    assert_eq!(RuntimeType::from_string("NODEJS"), RuntimeType::NodeJS);
    assert_eq!(RuntimeType::from_string("WasmEdge"), RuntimeType::WasmEdge);
    assert_eq!(RuntimeType::from_string("Browser"), RuntimeType::Browser);
}

#[test]
fn features_follow_the_table() {
    assert!(RuntimeType::Browser.supports_feature(&RuntimeFeature::Dom));
    assert!(!RuntimeType::Browser.supports_feature(&RuntimeFeature::Wasi));
    assert!(RuntimeType::Wasmtime.supports_feature(&RuntimeFeature::Wasi));
    assert!(RuntimeType::NodeJS.supports_feature(&RuntimeFeature::BasicWasm));
}

#[test]
fn missing_required_feature_scores_zero() {
    let e = RuntimeEngine::new();
    let caps = e.get_runtime_capabilities(RuntimeType::Browser).unwrap();
    let stats = RuntimeStats::new();
    let r = reqs(vec![RuntimeFeature::Wasi], 0);
    assert_eq!(calculate_runtime_score(caps, &stats, &r), 0);
}

#[test]
fn auto_select_prefers_the_best_scorer() {
    let mut e = RuntimeEngine::new();
    // Of the backends that offer WASI, the fastest all-round table wins.
    let chosen = e.auto_select_runtime(&reqs(vec![RuntimeFeature::Wasi], 1024));
    assert_eq!(chosen, RuntimeType::WasmEdge);
    assert_eq!(*e.get_current_runtime(), RuntimeType::WasmEdge);
}

#[test]
fn auto_select_falls_back_when_nothing_qualifies() {
    let mut e = RuntimeEngine::new();
    e.set_fallback_runtime(RuntimeType::NodeJS);
    // No backend offers both the DOM and WASI.
    let chosen = e.auto_select_runtime(&reqs(
        vec![RuntimeFeature::Dom, RuntimeFeature::Wasi],
        0,
    ));
    assert_eq!(chosen, RuntimeType::NodeJS);
}

#[test]
fn auto_select_disabled_keeps_current() {
    let mut e = RuntimeEngine::new();
    e.enable_auto_selection(false);
    let chosen = e.auto_select_runtime(&reqs(vec![RuntimeFeature::Wasi], 0));
    assert_eq!(chosen, RuntimeType::Browser);
}

#[test]
fn select_counts_and_switches() {
    let mut e = RuntimeEngine::new();
    e.select_runtime(RuntimeType::Wasmer).unwrap();
    assert_eq!(*e.get_current_runtime(), RuntimeType::Wasmer);
    let st = e.get_runtime_stats(RuntimeType::Wasmer).unwrap();
    assert_eq!(st.selection_count, 1);
}

#[test]
fn recorded_failures_lower_reliability() {
    let mut e = RuntimeEngine::new();
    e.record_execution(RuntimeType::Wasmtime, true, 10);
    e.record_execution(RuntimeType::Wasmtime, false, 0);
    let st = e.get_runtime_stats(RuntimeType::Wasmtime).unwrap();
    assert_eq!(st.execution_count, 2);
    assert_eq!(st.success_count, 1);
    assert_eq!(st.error_count, 1);
    assert_eq!(st.get_success_rate_percent(), 50);
}

#[test]
fn current_runtime_feature_lookup() {
    let e = RuntimeEngine::new();
    assert!(e.is_feature_supported(RuntimeFeature::Dom));
    assert!(!e.is_feature_supported(RuntimeFeature::Wasi));
}

#[test]
fn cleanup_resets_observations() {
    let mut e = RuntimeEngine::new();
    e.record_execution(RuntimeType::Browser, true, 10);
    e.cleanup();
    assert_eq!(e.get_runtime_stats(RuntimeType::Browser).unwrap().execution_count, 0);
}

#[test]
fn registry_lists_all_backends() {
    let e = RuntimeEngine::new();
    assert_eq!(e.get_all_runtime_stats().len(), 5);
    assert_eq!(
        e.get_all_runtime_stats()[2].caps.runtime_type,
        RuntimeType::Wasmtime
    );
}

#[test]
fn benchmark_simulates_from_the_speed_table() {
    let e = RuntimeEngine::new();
    let results = e.benchmark_runtimes(&state_engine::runtime::RuntimeWorkload {
        operations: 1000,
        memory_operations: 4,
        complexity: state_engine::runtime::WorkloadComplexity::Medium,
    });
    assert_eq!(results.len(), 5);
    // The browser backend runs at medium speed: five microseconds per
    // operation.
    assert_eq!(results[0].runtime_type, RuntimeType::Browser);
    assert_eq!(results[0].execution_time_us, 5000);
    assert_eq!(results[0].throughput_per_sec, 200_000);
    assert_eq!(results[0].memory_usage, 4096);
    // Wasmtime runs very fast: one microsecond per operation.
    assert_eq!(results[2].execution_time_us, 1000);
}
