//! The runtime selector: a registry of execution-backend capability
//! descriptors and a weighted integer score that ranks them against a
//! requirement profile. Scores are in hundredths of a point.

use vstd::prelude::*;
use crate::errors::ErrorKind;

verus! {

broadcast use vstd::std_specs::vec::group_vec_axioms, vstd::seq::group_seq_axioms;

/// A known execution backend.
#[derive(Clone, Copy, Debug, PartialEq, Eq, Structural)]
pub enum RuntimeType {
    Browser,
    NodeJS,
    Wasmtime,
    WasmEdge,
    Wasmer,
}

/// A capability a backend may offer.
#[derive(Clone, Copy, Debug, PartialEq, Eq, Structural)]
pub enum RuntimeFeature {
    BasicWasm,
    MemoryManagement,
    WebApi,
    Dom,
    WebGl,
    WasmStreaming,
    SharedArrayBuffer,
    FileSystem,
    NetworkAccess,
    ProcessControl,
    CryptoApi,
    Wasi,
    MultiValue,
    BulkMemory,
    ReferenceTypes,
    Simd,
    Threads,
    AiInference,
    ImageProcessing,
    SocketApi,
    CrossPlatform,
    MultipleEngines,
    JitCompilation,
}

/// A coarse speed grade.
#[derive(Clone, Copy, Debug, PartialEq, Eq, Structural)]
pub enum RuntimeSpeed {
    VerySlow,
    Slow,
    Medium,
    Fast,
    VeryFast,
}

/// How aggressively a backend optimises.
#[derive(Clone, Copy, Debug, PartialEq, Eq, Structural)]
pub enum OptimizationLevel {
    NoOptimization,
    Basic,
    Aggressive,
    MaxPerformance,
}

/// The speed grades of one backend.
#[derive(Clone, Copy, Debug, PartialEq, Eq, Structural)]
pub struct PerformanceCharacteristics {
    pub startup_time: RuntimeSpeed,
    pub execution_speed: RuntimeSpeed,
    pub memory_efficiency: RuntimeSpeed,
    pub compilation_speed: RuntimeSpeed,
    pub cold_start: RuntimeSpeed,
    pub concurrent_execution: bool,
    pub gc_performance: RuntimeSpeed,
}

/// A character's code with an ASCII capital folded to its small letter.
pub open spec fn lower_code(c: char) -> u32 {
    if 65 <= c as u32 <= 90 {
        (c as u32 + 32) as u32
    } else {
        c as u32
    }
}

/// Character-wise equality of two strings, without regard to ASCII case.
pub open spec fn lower_eq(a: Seq<char>, b: Seq<char>) -> bool {
    a.len() == b.len() && forall|i: int| 0 <= i < a.len() ==> lower_code(#[trigger] a[i])
        == lower_code(b[i])
}

/// Compare two string slices without regard to ASCII case.
pub fn str_eq_fold(a: &str, b: &str) -> (r: bool)
    ensures
        r == lower_eq(a@, b@),
{
    let na = a.unicode_len();
    let nb = b.unicode_len();
    if na != nb {
        return false;
    }
    let mut i: usize = 0;
    while i < na
        invariant
            i <= na,
            na == a@.len(),
            na == b@.len(),
            forall|j: int| 0 <= j < i ==> lower_code(#[trigger] a@[j]) == lower_code(b@[j]),
        decreases na - i,
    {
        let ca = a.get_char(i) as u32;
        let cb = b.get_char(i) as u32;
        let fa = if 65 <= ca && ca <= 90 {
            ca + 32
        } else {
            ca
        };
        let fb = if 65 <= cb && cb <= 90 {
            cb + 32
        } else {
            cb
        };
        if fa != fb {
            return false;
        }
        i += 1;
    }
    true
}

/// Which features a backend supports.
pub open spec fn spec_supports(rt: RuntimeType, f: RuntimeFeature) -> bool {
    ||| f == RuntimeFeature::BasicWasm
    ||| f == RuntimeFeature::MemoryManagement
    ||| (rt == RuntimeType::Browser && (f == RuntimeFeature::WebApi || f == RuntimeFeature::Dom
        || f == RuntimeFeature::WebGl || f == RuntimeFeature::WasmStreaming || f
        == RuntimeFeature::SharedArrayBuffer))
    ||| (rt == RuntimeType::NodeJS && (f == RuntimeFeature::FileSystem || f
        == RuntimeFeature::NetworkAccess || f == RuntimeFeature::ProcessControl || f
        == RuntimeFeature::CryptoApi))
    ||| (rt == RuntimeType::Wasmtime && (f == RuntimeFeature::Wasi || f
        == RuntimeFeature::MultiValue || f == RuntimeFeature::BulkMemory || f
        == RuntimeFeature::ReferenceTypes))
    ||| (rt == RuntimeType::WasmEdge && (f == RuntimeFeature::Wasi || f
        == RuntimeFeature::AiInference || f == RuntimeFeature::ImageProcessing || f
        == RuntimeFeature::SocketApi))
    ||| (rt == RuntimeType::Wasmer && (f == RuntimeFeature::CrossPlatform || f
        == RuntimeFeature::MultipleEngines || f == RuntimeFeature::Wasi || f
        == RuntimeFeature::JitCompilation))
}

/// The speed table of a backend.
pub open spec fn spec_characteristics(rt: RuntimeType) -> PerformanceCharacteristics {
    match rt {
        RuntimeType::Browser => PerformanceCharacteristics {
            startup_time: RuntimeSpeed::Fast,
            execution_speed: RuntimeSpeed::Medium,
            memory_efficiency: RuntimeSpeed::Medium,
            compilation_speed: RuntimeSpeed::Fast,
            cold_start: RuntimeSpeed::Fast,
            concurrent_execution: true,
            gc_performance: RuntimeSpeed::Medium,
        },
        RuntimeType::NodeJS => PerformanceCharacteristics {
            startup_time: RuntimeSpeed::Medium,
            execution_speed: RuntimeSpeed::Fast,
            memory_efficiency: RuntimeSpeed::Medium,
            compilation_speed: RuntimeSpeed::Fast,
            cold_start: RuntimeSpeed::Medium,
            concurrent_execution: true,
            gc_performance: RuntimeSpeed::Fast,
        },
        RuntimeType::Wasmtime => PerformanceCharacteristics {
            startup_time: RuntimeSpeed::Medium,
            execution_speed: RuntimeSpeed::VeryFast,
            memory_efficiency: RuntimeSpeed::Fast,
            compilation_speed: RuntimeSpeed::Medium,
            cold_start: RuntimeSpeed::Medium,
            concurrent_execution: true,
            gc_performance: RuntimeSpeed::Fast,
        },
        RuntimeType::WasmEdge => PerformanceCharacteristics {
            startup_time: RuntimeSpeed::Fast,
            execution_speed: RuntimeSpeed::VeryFast,
            memory_efficiency: RuntimeSpeed::Fast,
            compilation_speed: RuntimeSpeed::Fast,
            cold_start: RuntimeSpeed::Fast,
            concurrent_execution: true,
            gc_performance: RuntimeSpeed::Fast,
        },
        RuntimeType::Wasmer => PerformanceCharacteristics {
            startup_time: RuntimeSpeed::Medium,
            execution_speed: RuntimeSpeed::VeryFast,
            memory_efficiency: RuntimeSpeed::Fast,
            compilation_speed: RuntimeSpeed::Medium,
            cold_start: RuntimeSpeed::Medium,
            concurrent_execution: true,
            gc_performance: RuntimeSpeed::Fast,
        },
    }
}

impl RuntimeType {
    /// Does this backend support the feature?
    pub fn supports_feature(&self, feature: &RuntimeFeature) -> (r: bool)
        ensures
            r == spec_supports(*self, *feature),
    {
        match (self, feature) {
            (_, RuntimeFeature::BasicWasm) => true,
            (_, RuntimeFeature::MemoryManagement) => true,
            (RuntimeType::Browser, RuntimeFeature::WebApi) => true,
            (RuntimeType::Browser, RuntimeFeature::Dom) => true,
            (RuntimeType::Browser, RuntimeFeature::WebGl) => true,
            (RuntimeType::Browser, RuntimeFeature::WasmStreaming) => true,
            (RuntimeType::Browser, RuntimeFeature::SharedArrayBuffer) => true,
            (RuntimeType::NodeJS, RuntimeFeature::FileSystem) => true,
            (RuntimeType::NodeJS, RuntimeFeature::NetworkAccess) => true,
            (RuntimeType::NodeJS, RuntimeFeature::ProcessControl) => true,
            (RuntimeType::NodeJS, RuntimeFeature::CryptoApi) => true,
            (RuntimeType::Wasmtime, RuntimeFeature::Wasi) => true,
            (RuntimeType::Wasmtime, RuntimeFeature::MultiValue) => true,
            (RuntimeType::Wasmtime, RuntimeFeature::BulkMemory) => true,
            (RuntimeType::Wasmtime, RuntimeFeature::ReferenceTypes) => true,
            (RuntimeType::WasmEdge, RuntimeFeature::Wasi) => true,
            (RuntimeType::WasmEdge, RuntimeFeature::AiInference) => true,
            (RuntimeType::WasmEdge, RuntimeFeature::ImageProcessing) => true,
            (RuntimeType::WasmEdge, RuntimeFeature::SocketApi) => true,
            (RuntimeType::Wasmer, RuntimeFeature::CrossPlatform) => true,
            (RuntimeType::Wasmer, RuntimeFeature::MultipleEngines) => true,
            (RuntimeType::Wasmer, RuntimeFeature::Wasi) => true,
            (RuntimeType::Wasmer, RuntimeFeature::JitCompilation) => true,
            _ => false,
        }
    }

    /// The speed table of this backend.
    pub fn get_performance_characteristics(&self) -> (r: PerformanceCharacteristics)
        ensures
            r == spec_characteristics(*self),
    {
        match self {
            RuntimeType::Browser => PerformanceCharacteristics {
                startup_time: RuntimeSpeed::Fast,
                execution_speed: RuntimeSpeed::Medium,
                memory_efficiency: RuntimeSpeed::Medium,
                compilation_speed: RuntimeSpeed::Fast,
                cold_start: RuntimeSpeed::Fast,
                concurrent_execution: true,
                gc_performance: RuntimeSpeed::Medium,
            },
            RuntimeType::NodeJS => PerformanceCharacteristics {
                startup_time: RuntimeSpeed::Medium,
                execution_speed: RuntimeSpeed::Fast,
                memory_efficiency: RuntimeSpeed::Medium,
                compilation_speed: RuntimeSpeed::Fast,
                cold_start: RuntimeSpeed::Medium,
                concurrent_execution: true,
                gc_performance: RuntimeSpeed::Fast,
            },
            RuntimeType::Wasmtime => PerformanceCharacteristics {
                startup_time: RuntimeSpeed::Medium,
                execution_speed: RuntimeSpeed::VeryFast,
                memory_efficiency: RuntimeSpeed::Fast,
                compilation_speed: RuntimeSpeed::Medium,
                cold_start: RuntimeSpeed::Medium,
                concurrent_execution: true,
                gc_performance: RuntimeSpeed::Fast,
            },
            RuntimeType::WasmEdge => PerformanceCharacteristics {
                startup_time: RuntimeSpeed::Fast,
                execution_speed: RuntimeSpeed::VeryFast,
                memory_efficiency: RuntimeSpeed::Fast,
                compilation_speed: RuntimeSpeed::Fast,
                cold_start: RuntimeSpeed::Fast,
                concurrent_execution: true,
                gc_performance: RuntimeSpeed::Fast,
            },
            RuntimeType::Wasmer => PerformanceCharacteristics {
                startup_time: RuntimeSpeed::Medium,
                execution_speed: RuntimeSpeed::VeryFast,
                memory_efficiency: RuntimeSpeed::Fast,
                compilation_speed: RuntimeSpeed::Medium,
                cold_start: RuntimeSpeed::Medium,
                concurrent_execution: true,
                gc_performance: RuntimeSpeed::Fast,
            },
        }
    }

    /// The backend named by a string, matched without regard to ASCII case;
    /// unrecognised names fall back to the browser backend.
    pub fn from_string(s: &str) -> (r: RuntimeType)
        ensures
            lower_eq(s@, "browser"@) ==> r == RuntimeType::Browser,
            lower_eq(s@, "nodejs"@) || lower_eq(s@, "node"@) ==> r == RuntimeType::NodeJS,
            lower_eq(s@, "wasmtime"@) ==> r == RuntimeType::Wasmtime,
            lower_eq(s@, "wasmedge"@) ==> r == RuntimeType::WasmEdge,
            lower_eq(s@, "wasmer"@) ==> r == RuntimeType::Wasmer,
            !lower_eq(s@, "browser"@) && !lower_eq(s@, "nodejs"@) && !lower_eq(s@, "node"@)
                && !lower_eq(s@, "wasmtime"@) && !lower_eq(s@, "wasmedge"@) && !lower_eq(
                s@,
                "wasmer"@,
            ) ==> r == RuntimeType::Browser,
    {
        proof {
            reveal_strlit("browser");
            reveal_strlit("nodejs");
            reveal_strlit("node");
            reveal_strlit("wasmtime");
            reveal_strlit("wasmedge");
            reveal_strlit("wasmer");
            assert(!(lower_eq(s@, "wasmtime"@) && lower_eq(s@, "wasmedge"@))) by {
                if lower_eq(s@, "wasmtime"@) && lower_eq(s@, "wasmedge"@) {
                    assert(lower_code(s@[4]) == lower_code("wasmtime"@[4]));
                    assert(lower_code(s@[4]) == lower_code("wasmedge"@[4]));
                }
            }
            assert(!(lower_eq(s@, "nodejs"@) && lower_eq(s@, "wasmer"@))) by {
                if lower_eq(s@, "nodejs"@) && lower_eq(s@, "wasmer"@) {
                    assert(lower_code(s@[0]) == lower_code("nodejs"@[0]));
                    assert(lower_code(s@[0]) == lower_code("wasmer"@[0]));
                }
            }
        }
        if str_eq_fold(s, "nodejs") || str_eq_fold(s, "node") {
            RuntimeType::NodeJS
        } else if str_eq_fold(s, "wasmtime") {
            RuntimeType::Wasmtime
        } else if str_eq_fold(s, "wasmedge") {
            RuntimeType::WasmEdge
        } else if str_eq_fold(s, "wasmer") {
            RuntimeType::Wasmer
        } else {
            RuntimeType::Browser
        }
    }

    /// This backend's lowercase name.
    pub fn to_string(&self) -> (r: String)
        ensures
            *self == RuntimeType::Browser ==> r@ == "browser"@,
            *self == RuntimeType::NodeJS ==> r@ == "nodejs"@,
            *self == RuntimeType::Wasmtime ==> r@ == "wasmtime"@,
            *self == RuntimeType::WasmEdge ==> r@ == "wasmedge"@,
            *self == RuntimeType::Wasmer ==> r@ == "wasmer"@,
    {
        match self {
            RuntimeType::Browser => "browser".to_owned(),
            RuntimeType::NodeJS => "nodejs".to_owned(),
            RuntimeType::Wasmtime => "wasmtime".to_owned(),
            RuntimeType::WasmEdge => "wasmedge".to_owned(),
            RuntimeType::Wasmer => "wasmer".to_owned(),
        }
    }
}

/// What one backend offers.
pub struct RuntimeCapabilities {
    pub runtime_type: RuntimeType,
    pub supported_features: Vec<RuntimeFeature>,
    pub performance: PerformanceCharacteristics,
    pub max_memory: u64,
    pub max_modules: u32,
    pub supports_streaming: bool,
    pub supports_compilation_cache: bool,
    pub optimization_level: OptimizationLevel,
}

/// Observed behaviour of one backend.
#[derive(Clone, Copy)]
pub struct RuntimeStats {
    pub execution_count: u64,
    pub success_count: u64,
    pub error_count: u64,
    pub selection_count: u64,
    pub total_execution_time: u64,
    pub min_execution_time: u64,
    pub max_execution_time: u64,
}

/// Fresh observation counters.
pub open spec fn fresh_stats() -> RuntimeStats {
    RuntimeStats {
        execution_count: 0,
        success_count: 0,
        error_count: 0,
        selection_count: 0,
        total_execution_time: 0,
        min_execution_time: u64::MAX,
        max_execution_time: 0,
    }
}

impl RuntimeStats {
    /// Fresh counters.
    pub fn new() -> (r: RuntimeStats)
        ensures
            r == fresh_stats(),
    {
        RuntimeStats {
            execution_count: 0,
            success_count: 0,
            error_count: 0,
            selection_count: 0,
            total_execution_time: 0,
            min_execution_time: u64::MAX,
            max_execution_time: 0,
        }
    }

    /// Back to fresh counters.
    pub fn reset(&mut self)
        ensures
            *final(self) == fresh_stats(),
    {
        self.execution_count = 0;
        self.success_count = 0;
        self.error_count = 0;
        self.selection_count = 0;
        self.total_execution_time = 0;
        self.min_execution_time = u64::MAX;
        self.max_execution_time = 0;
    }

    /// Successes as a percentage of executions, at most one hundred; 0
    /// without executions.
    pub fn get_success_rate_percent(&self) -> (r: u64)
        ensures
            r as int == if self.execution_count > 0 && self.success_count <= self.execution_count {
                self.success_count as int * 100 / self.execution_count as int
            } else if self.execution_count > 0 {
                100
            } else {
                0
            },
    {
        if self.execution_count == 0 {
            0
        } else if self.success_count > self.execution_count {
            100
        } else {
            proof {
                assert(self.success_count as int * 100 / self.execution_count as int <= 100)
                    by (nonlinear_arith)
                    requires
                        0 < self.execution_count,
                        0 <= self.success_count <= self.execution_count,
                ;
            }
            ((self.success_count as u128 * 100) / (self.execution_count as u128)) as u64
        }
    }
}

/// What a caller needs from a backend.
pub struct RuntimeRequirements {
    pub required_features: Vec<RuntimeFeature>,
    pub memory_requirement: u64,
    pub performance_weights: PerformanceWeights,
    pub optimization_preference: OptimizationLevel,
}

/// How much each speed grade matters to the caller.
#[derive(Clone, Copy)]
pub struct PerformanceWeights {
    pub startup_time: u64,
    pub execution_speed: u64,
    pub memory_efficiency: u64,
    pub compilation_speed: u64,
}

impl PerformanceWeights {
    /// The default weighting: execution speed counts double.
    pub fn default() -> (r: PerformanceWeights)
        ensures
            r.startup_time == 1,
            r.execution_speed == 2,
            r.memory_efficiency == 1,
            r.compilation_speed == 1,
    {
        PerformanceWeights {
            startup_time: 1,
            execution_speed: 2,
            memory_efficiency: 1,
            compilation_speed: 1,
        }
    }
}

/// A speed grade as points, one to five.
pub open spec fn speed_points(s: RuntimeSpeed) -> int {
    match s {
        RuntimeSpeed::VeryFast => 5,
        RuntimeSpeed::Fast => 4,
        RuntimeSpeed::Medium => 3,
        RuntimeSpeed::Slow => 2,
        RuntimeSpeed::VerySlow => 1,
    }
}

/// Does the feature list hold `f`?
pub open spec fn features_contain(fs: Seq<RuntimeFeature>, f: RuntimeFeature) -> bool {
    exists|i: int| 0 <= i < fs.len() && fs[i] == f
}

/// Every required feature is offered.
pub open spec fn all_features(caps: Seq<RuntimeFeature>, req: Seq<RuntimeFeature>) -> bool {
    forall|i: int| 0 <= i < req.len() ==> features_contain(caps, #[trigger] req[i])
}

/// The score of one backend against a requirement profile, in hundredths:
/// 0 when a required feature is missing; otherwise 40 points for meeting the
/// requirements, up to 30 weighted by the speed profile, up to 15 by memory
/// fit, up to 10 by observed reliability, and up to 5 by optimisation level.
pub open spec fn score_of(
    caps: RuntimeCapabilities,
    stats: RuntimeStats,
    reqs: RuntimeRequirements,
) -> int {
    if !all_features(caps.supported_features@, reqs.required_features@) {
        0
    } else {
        let w = reqs.performance_weights;
        let wsum = w.startup_time + w.execution_speed + w.memory_efficiency + w.compilation_speed;
        let total = speed_points(caps.performance.startup_time) * w.startup_time + speed_points(
            caps.performance.execution_speed,
        ) * w.execution_speed + speed_points(caps.performance.memory_efficiency)
            * w.memory_efficiency + speed_points(caps.performance.compilation_speed)
            * w.compilation_speed;
        let perf: int = if wsum > 0 {
            600 * total / (wsum as int)
        } else {
            1800
        };
        let mem: int = if reqs.memory_requirement == 0 || caps.max_memory
            >= reqs.memory_requirement {
            1500
        } else {
            1500 * caps.max_memory as int / reqs.memory_requirement as int
        };
        let rel: int = if stats.error_count > stats.execution_count {
            0
        } else {
            1000 * (stats.execution_count + 1 - stats.error_count) / (stats.execution_count + 1)
        };
        let opt: int = match caps.optimization_level {
            OptimizationLevel::MaxPerformance => 500,
            OptimizationLevel::Aggressive => 400,
            OptimizationLevel::Basic => 200,
            OptimizationLevel::NoOptimization => 0,
        };
        4000 + perf + mem + rel + opt
    }
}


/// One registered backend: its capabilities and observed behaviour.
pub struct RuntimeEntry {
    pub caps: RuntimeCapabilities,
    pub stats: RuntimeStats,
}

/// The best candidate among the first `i` entries: its index and score,
/// with the earliest strict maximum winning; `-1` when nothing scores.
pub open spec fn best_to(es: Seq<RuntimeEntry>, reqs: RuntimeRequirements, i: int) -> (int, int)
    decreases i,
{
    if i <= 0 {
        (-1, 0)
    } else {
        let prev = best_to(es, reqs, i - 1);
        let sc = score_of(es[i - 1].caps, es[i - 1].stats, reqs);
        if sc > prev.1 {
            (i - 1, sc)
        } else {
            prev
        }
    }
}

/// Index of the entry for a backend, or `es.len()`.
pub open spec fn rt_find_from(es: Seq<RuntimeEntry>, i: int, rt: RuntimeType) -> int
    decreases es.len() - i,
{
    if i < 0 || i >= es.len() {
        es.len() as int
    } else if es[i].caps.runtime_type == rt {
        i
    } else {
        rt_find_from(es, i + 1, rt)
    }
}

pub proof fn lemma_rt_find_props(es: Seq<RuntimeEntry>, i: int, rt: RuntimeType)
    requires
        0 <= i <= es.len(),
    ensures
        i <= rt_find_from(es, i, rt) <= es.len(),
        rt_find_from(es, i, rt) < es.len() ==> es[rt_find_from(es, i, rt)].caps.runtime_type
            == rt,
    decreases es.len() - i,
{
    if i < es.len() && es[i].caps.runtime_type != rt {
        lemma_rt_find_props(es, i + 1, rt);
    }
}

/// The capability registry and the selection state.
pub struct RuntimeEngine {
    pub current_runtime: RuntimeType,
    pub entries: Vec<RuntimeEntry>,
    pub auto_selection_enabled: bool,
    pub fallback_runtime: RuntimeType,
}

/// Is `f` in the feature vector?
pub fn has_feature(fs: &Vec<RuntimeFeature>, f: RuntimeFeature) -> (r: bool)
    ensures
        r == features_contain(fs@, f),
{
    let mut i: usize = 0;
    while i < fs.len()
        invariant
            i <= fs@.len(),
            forall|j: int| 0 <= j < i ==> fs@[j] != f,
        decreases fs@.len() - i,
    {
        if fs[i] == f {
            return true;
        }
        i += 1;
    }
    false
}

/// Does the capability list offer every required feature?
pub fn meets_features(caps: &Vec<RuntimeFeature>, req: &Vec<RuntimeFeature>) -> (r: bool)
    ensures
        r == all_features(caps@, req@),
{
    let mut i: usize = 0;
    while i < req.len()
        invariant
            i <= req@.len(),
            forall|j: int| 0 <= j < i ==> features_contain(caps@, #[trigger] req@[j]),
        decreases req@.len() - i,
    {
        if !has_feature(caps, req[i]) {
            return false;
        }
        i += 1;
    }
    true
}

/// The score of one backend against the requirements, in hundredths.
pub fn calculate_runtime_score(
    caps: &RuntimeCapabilities,
    stats: &RuntimeStats,
    reqs: &RuntimeRequirements,
) -> (r: u64)
    ensures
        r as int == score_of(*caps, *stats, *reqs),
        r <= 10000,
{
    if !meets_features(&caps.supported_features, &reqs.required_features) {
        return 0;
    }
    let w = reqs.performance_weights;
    let p = caps.performance;
    let s1: u64 = speed_points_exec(p.startup_time);
    let s2: u64 = speed_points_exec(p.execution_speed);
    let s3: u64 = speed_points_exec(p.memory_efficiency);
    let s4: u64 = speed_points_exec(p.compilation_speed);
    let wsum: u128 = w.startup_time as u128 + w.execution_speed as u128 + w.memory_efficiency
        as u128 + w.compilation_speed as u128;
    let total: u128 = (s1 as u128) * (w.startup_time as u128) + (s2 as u128) * (w.execution_speed
        as u128) + (s3 as u128) * (w.memory_efficiency as u128) + (s4 as u128) * (
    w.compilation_speed as u128);
    proof {
        assert((s1 as int) * (w.startup_time as int) + (s2 as int) * (w.execution_speed as int) + (
        s3 as int) * (w.memory_efficiency as int) + (s4 as int) * (w.compilation_speed as int) <= 5
            * ((w.startup_time as int) + (w.execution_speed as int) + (w.memory_efficiency as int)
            + (w.compilation_speed as int)) && (s1 as int) * (w.startup_time as int) >= 0 && (
        s2 as int) * (w.execution_speed as int) >= 0 && (s3 as int) * (w.memory_efficiency as int)
            >= 0 && (s4 as int) * (w.compilation_speed as int) >= 0) by (nonlinear_arith)
            requires
                1 <= s1 as int <= 5,
                1 <= s2 as int <= 5,
                1 <= s3 as int <= 5,
                1 <= s4 as int <= 5,
                0 <= w.startup_time as int,
                0 <= w.execution_speed as int,
                0 <= w.memory_efficiency as int,
                0 <= w.compilation_speed as int,
        ;
    }
    let perf: u64 = if wsum > 0 {
        proof {
            assert(600 * (total as int) / (wsum as int) <= 3000) by (nonlinear_arith)
                requires
                    0 < wsum as int,
                    0 <= total as int <= 5 * (wsum as int),
            ;
            assert(600 * (total as int) / (wsum as int) >= 0) by (nonlinear_arith)
                requires
                    0 < wsum as int,
                    0 <= total as int,
            ;
        }
        ((600 * total) / wsum) as u64
    } else {
        1800
    };
    let mem: u64 = if reqs.memory_requirement == 0 || caps.max_memory >= reqs.memory_requirement {
        1500
    } else {
        proof {
            assert(0 <= 1500 * (caps.max_memory as int) / (reqs.memory_requirement as int) <= 1500)
                by (nonlinear_arith)
                requires
                    0 < reqs.memory_requirement as int,
                    0 <= caps.max_memory as int <= reqs.memory_requirement as int,
            ;
        }
        ((1500u128 * (caps.max_memory as u128)) / (reqs.memory_requirement as u128)) as u64
    };
    let rel: u64 = if stats.error_count > stats.execution_count {
        0
    } else {
        proof {
            assert(0 <= 1000 * ((stats.execution_count as int) + 1 - (stats.error_count as int)) / (
            (stats.execution_count as int) + 1) <= 1000) by (nonlinear_arith)
                requires
                    0 <= stats.error_count as int <= stats.execution_count as int,
            ;
        }
        ((1000u128 * ((stats.execution_count as u128) + 1 - (stats.error_count as u128))) / ((
        stats.execution_count as u128) + 1)) as u64
    };
    let opt: u64 = match caps.optimization_level {
        OptimizationLevel::MaxPerformance => 500,
        OptimizationLevel::Aggressive => 400,
        OptimizationLevel::Basic => 200,
        OptimizationLevel::NoOptimization => 0,
    };
    4000 + perf + mem + rel + opt
}

/// A speed grade as points.
pub fn speed_points_exec(s: RuntimeSpeed) -> (r: u64)
    ensures
        r as int == speed_points(s),
{
    match s {
        RuntimeSpeed::VeryFast => 5,
        RuntimeSpeed::Fast => 4,
        RuntimeSpeed::Medium => 3,
        RuntimeSpeed::Slow => 2,
        RuntimeSpeed::VerySlow => 1,
    }
}

impl RuntimeEngine {
    /// The default registry: the five known backends, each with its feature
    /// list, speed table, budgets and optimisation level, fresh observation
    /// counters, and the browser backend current and the fallback.
    pub fn new() -> (r: RuntimeEngine)
        ensures
            r.entries@.len() == 5,
            r.current_runtime == RuntimeType::Browser,
            r.fallback_runtime == RuntimeType::Browser,
            r.auto_selection_enabled,
            forall|j: int| 0 <= j < 5 ==> (#[trigger] r.entries@[j]).stats == fresh_stats()
                && r.entries@[j].caps.performance == spec_characteristics(
                r.entries@[j].caps.runtime_type,
            ) && r.entries@[j].caps.supports_streaming
                && r.entries@[j].caps.supports_compilation_cache,
            r.entries@[0].caps.runtime_type == RuntimeType::Browser,
            r.entries@[0].caps.supported_features@ == seq![
                RuntimeFeature::BasicWasm,
                RuntimeFeature::MemoryManagement,
                RuntimeFeature::WebApi,
                RuntimeFeature::Dom,
                RuntimeFeature::WebGl,
                RuntimeFeature::WasmStreaming,
                RuntimeFeature::SharedArrayBuffer,
            ],
            r.entries@[0].caps.max_memory == 0x80000000u64,
            r.entries@[0].caps.max_modules == 100,
            r.entries@[0].caps.optimization_level == OptimizationLevel::Basic,
            r.entries@[1].caps.runtime_type == RuntimeType::NodeJS,
            r.entries@[1].caps.supported_features@ == seq![
                RuntimeFeature::BasicWasm,
                RuntimeFeature::MemoryManagement,
                RuntimeFeature::FileSystem,
                RuntimeFeature::NetworkAccess,
                RuntimeFeature::ProcessControl,
                RuntimeFeature::CryptoApi,
            ],
            r.entries@[1].caps.max_memory == 0x200000000u64,
            r.entries@[1].caps.max_modules == 1000,
            r.entries@[1].caps.optimization_level == OptimizationLevel::Aggressive,
            r.entries@[2].caps.runtime_type == RuntimeType::Wasmtime,
            r.entries@[2].caps.supported_features@ == seq![
                RuntimeFeature::BasicWasm,
                RuntimeFeature::MemoryManagement,
                RuntimeFeature::Wasi,
                RuntimeFeature::MultiValue,
                RuntimeFeature::BulkMemory,
                RuntimeFeature::ReferenceTypes,
                RuntimeFeature::Simd,
                RuntimeFeature::Threads,
            ],
            r.entries@[2].caps.max_memory == 0x400000000u64,
            r.entries@[2].caps.max_modules == 10000,
            r.entries@[2].caps.optimization_level == OptimizationLevel::MaxPerformance,
            r.entries@[3].caps.runtime_type == RuntimeType::WasmEdge,
            r.entries@[3].caps.supported_features@ == seq![
                RuntimeFeature::BasicWasm,
                RuntimeFeature::MemoryManagement,
                RuntimeFeature::Wasi,
                RuntimeFeature::AiInference,
                RuntimeFeature::ImageProcessing,
                RuntimeFeature::SocketApi,
                RuntimeFeature::Threads,
            ],
            r.entries@[3].caps.max_memory == 0x800000000u64,
            r.entries@[3].caps.max_modules == 10000,
            r.entries@[3].caps.optimization_level == OptimizationLevel::MaxPerformance,
            r.entries@[4].caps.runtime_type == RuntimeType::Wasmer,
            r.entries@[4].caps.supported_features@ == seq![
                RuntimeFeature::BasicWasm,
                RuntimeFeature::MemoryManagement,
                RuntimeFeature::Wasi,
                RuntimeFeature::CrossPlatform,
                RuntimeFeature::MultipleEngines,
                RuntimeFeature::JitCompilation,
                RuntimeFeature::Threads,
            ],
            r.entries@[4].caps.max_memory == 0x400000000u64,
            r.entries@[4].caps.max_modules == 5000,
            r.entries@[4].caps.optimization_level == OptimizationLevel::MaxPerformance,
    {
        let mut entries: Vec<RuntimeEntry> = Vec::new();
        let mut browser_features: Vec<RuntimeFeature> = Vec::new();
        browser_features.push(RuntimeFeature::BasicWasm);
        browser_features.push(RuntimeFeature::MemoryManagement);
        browser_features.push(RuntimeFeature::WebApi);
        browser_features.push(RuntimeFeature::Dom);
        browser_features.push(RuntimeFeature::WebGl);
        browser_features.push(RuntimeFeature::WasmStreaming);
        browser_features.push(RuntimeFeature::SharedArrayBuffer);
        entries.push(
            RuntimeEntry {
                caps: RuntimeCapabilities {
                    runtime_type: RuntimeType::Browser,
                    supported_features: browser_features,
                    performance: RuntimeType::Browser.get_performance_characteristics(),
                    max_memory: 0x80000000u64,
                    max_modules: 100,
                    supports_streaming: true,
                    supports_compilation_cache: true,
                    optimization_level: OptimizationLevel::Basic,
                },
                stats: RuntimeStats::new(),
            },
        );
        let mut nodejs_features: Vec<RuntimeFeature> = Vec::new();
        nodejs_features.push(RuntimeFeature::BasicWasm);
        nodejs_features.push(RuntimeFeature::MemoryManagement);
        nodejs_features.push(RuntimeFeature::FileSystem);
        nodejs_features.push(RuntimeFeature::NetworkAccess);
        nodejs_features.push(RuntimeFeature::ProcessControl);
        nodejs_features.push(RuntimeFeature::CryptoApi);
        entries.push(
            RuntimeEntry {
                caps: RuntimeCapabilities {
                    runtime_type: RuntimeType::NodeJS,
                    supported_features: nodejs_features,
                    performance: RuntimeType::NodeJS.get_performance_characteristics(),
                    max_memory: 0x200000000u64,
                    max_modules: 1000,
                    supports_streaming: true,
                    supports_compilation_cache: true,
                    optimization_level: OptimizationLevel::Aggressive,
                },
                stats: RuntimeStats::new(),
            },
        );
        let mut wasmtime_features: Vec<RuntimeFeature> = Vec::new();
        wasmtime_features.push(RuntimeFeature::BasicWasm);
        wasmtime_features.push(RuntimeFeature::MemoryManagement);
        wasmtime_features.push(RuntimeFeature::Wasi);
        wasmtime_features.push(RuntimeFeature::MultiValue);
        wasmtime_features.push(RuntimeFeature::BulkMemory);
        wasmtime_features.push(RuntimeFeature::ReferenceTypes);
        wasmtime_features.push(RuntimeFeature::Simd);
        wasmtime_features.push(RuntimeFeature::Threads);
        entries.push(
            RuntimeEntry {
                caps: RuntimeCapabilities {
                    runtime_type: RuntimeType::Wasmtime,
                    supported_features: wasmtime_features,
                    performance: RuntimeType::Wasmtime.get_performance_characteristics(),
                    max_memory: 0x400000000u64,
                    max_modules: 10000,
                    supports_streaming: true,
                    supports_compilation_cache: true,
                    optimization_level: OptimizationLevel::MaxPerformance,
                },
                stats: RuntimeStats::new(),
            },
        );
        let mut wasmedge_features: Vec<RuntimeFeature> = Vec::new();
        wasmedge_features.push(RuntimeFeature::BasicWasm);
        wasmedge_features.push(RuntimeFeature::MemoryManagement);
        wasmedge_features.push(RuntimeFeature::Wasi);
        wasmedge_features.push(RuntimeFeature::AiInference);
        wasmedge_features.push(RuntimeFeature::ImageProcessing);
        wasmedge_features.push(RuntimeFeature::SocketApi);
        wasmedge_features.push(RuntimeFeature::Threads);
        entries.push(
            RuntimeEntry {
                caps: RuntimeCapabilities {
                    runtime_type: RuntimeType::WasmEdge,
                    supported_features: wasmedge_features,
                    performance: RuntimeType::WasmEdge.get_performance_characteristics(),
                    max_memory: 0x800000000u64,
                    max_modules: 10000,
                    supports_streaming: true,
                    supports_compilation_cache: true,
                    optimization_level: OptimizationLevel::MaxPerformance,
                },
                stats: RuntimeStats::new(),
            },
        );
        let mut wasmer_features: Vec<RuntimeFeature> = Vec::new();
        wasmer_features.push(RuntimeFeature::BasicWasm);
        wasmer_features.push(RuntimeFeature::MemoryManagement);
        wasmer_features.push(RuntimeFeature::Wasi);
        wasmer_features.push(RuntimeFeature::CrossPlatform);
        wasmer_features.push(RuntimeFeature::MultipleEngines);
        wasmer_features.push(RuntimeFeature::JitCompilation);
        wasmer_features.push(RuntimeFeature::Threads);
        entries.push(
            RuntimeEntry {
                caps: RuntimeCapabilities {
                    runtime_type: RuntimeType::Wasmer,
                    supported_features: wasmer_features,
                    performance: RuntimeType::Wasmer.get_performance_characteristics(),
                    max_memory: 0x400000000u64,
                    max_modules: 5000,
                    supports_streaming: true,
                    supports_compilation_cache: true,
                    optimization_level: OptimizationLevel::MaxPerformance,
                },
                stats: RuntimeStats::new(),
            },
        );
        proof {
            assert(entries@[0].caps.supported_features@ =~= seq![
                RuntimeFeature::BasicWasm,
                RuntimeFeature::MemoryManagement,
                RuntimeFeature::WebApi,
                RuntimeFeature::Dom,
                RuntimeFeature::WebGl,
                RuntimeFeature::WasmStreaming,
                RuntimeFeature::SharedArrayBuffer,
            ]);
            assert(entries@[1].caps.supported_features@ =~= seq![
                RuntimeFeature::BasicWasm,
                RuntimeFeature::MemoryManagement,
                RuntimeFeature::FileSystem,
                RuntimeFeature::NetworkAccess,
                RuntimeFeature::ProcessControl,
                RuntimeFeature::CryptoApi,
            ]);
            assert(entries@[2].caps.supported_features@ =~= seq![
                RuntimeFeature::BasicWasm,
                RuntimeFeature::MemoryManagement,
                RuntimeFeature::Wasi,
                RuntimeFeature::MultiValue,
                RuntimeFeature::BulkMemory,
                RuntimeFeature::ReferenceTypes,
                RuntimeFeature::Simd,
                RuntimeFeature::Threads,
            ]);
            assert(entries@[3].caps.supported_features@ =~= seq![
                RuntimeFeature::BasicWasm,
                RuntimeFeature::MemoryManagement,
                RuntimeFeature::Wasi,
                RuntimeFeature::AiInference,
                RuntimeFeature::ImageProcessing,
                RuntimeFeature::SocketApi,
                RuntimeFeature::Threads,
            ]);
            assert(entries@[4].caps.supported_features@ =~= seq![
                RuntimeFeature::BasicWasm,
                RuntimeFeature::MemoryManagement,
                RuntimeFeature::Wasi,
                RuntimeFeature::CrossPlatform,
                RuntimeFeature::MultipleEngines,
                RuntimeFeature::JitCompilation,
                RuntimeFeature::Threads,
            ]);
        }
        RuntimeEngine {
            current_runtime: RuntimeType::Browser,
            entries,
            auto_selection_enabled: true,
            fallback_runtime: RuntimeType::Browser,
        }
    }

    /// Make a registered backend current and count the selection.
    pub fn select_runtime(&mut self, runtime_type: RuntimeType) -> (r: Result<(), ErrorKind>)
        ensures
            ({
                let es = old(self).entries@;
                let k = rt_find_from(es, 0, runtime_type);
                if k == es.len() {
                    r == Err::<(), ErrorKind>(ErrorKind::NotFound) && *final(self) == *old(self)
                } else {
                    &&& r is Ok
                    &&& final(self).current_runtime == runtime_type
                    &&& final(self).entries@.len() == es.len()
                    &&& forall|j: int|
                        0 <= j < es.len() && j != k ==> final(self).entries@[j] == es[j]
                    &&& final(self).entries@[k].caps == es[k].caps
                    &&& final(self).entries@[k].stats.selection_count as int == if es[k].stats.selection_count == u64::MAX {
                        u64::MAX as int
                    } else {
                        es[k].stats.selection_count + 1
                    }
                }
            }),
    {
        let k = find_rt(&self.entries, runtime_type);
        proof {
            lemma_rt_find_props(self.entries@, 0, runtime_type);
        }
        if k == self.entries.len() {
            return Err(ErrorKind::NotFound);
        }
        self.current_runtime = runtime_type;
        let entry = &mut self.entries[k];
        if entry.stats.selection_count < u64::MAX {
            entry.stats.selection_count = entry.stats.selection_count + 1;
        }
        Ok(())
    }

    /// Choose the highest-scoring backend for the requirements: the first
    /// of the maximal scorers wins, and the fallback stands when nothing
    /// scores. Disabled auto-selection keeps the current backend.
    #[verifier::loop_isolation(false)]
    pub fn auto_select_runtime(&mut self, reqs: &RuntimeRequirements) -> (r: RuntimeType)
        ensures
            final(self).entries == old(self).entries,
            final(self).auto_selection_enabled == old(self).auto_selection_enabled,
            final(self).fallback_runtime == old(self).fallback_runtime,
            !old(self).auto_selection_enabled ==> r == old(self).current_runtime && *final(self)
                == *old(self),
            old(self).auto_selection_enabled ==> {
                let best = best_to(old(self).entries@, *reqs, old(self).entries@.len() as int);
                &&& (best.0 >= 0 ==> r == old(self).entries@[best.0].caps.runtime_type)
                &&& (best.0 < 0 ==> r == old(self).fallback_runtime)
                &&& final(self).current_runtime == r
            },
    {
        if !self.auto_selection_enabled {
            return self.current_runtime;
        }
        let ghost es = self.entries@;
        let mut best_rt = self.fallback_runtime;
        let mut best_score: u64 = 0;
        let ghost mut best_idx: int = -1;
        let mut i: usize = 0;
        while i < self.entries.len()
            invariant
                i <= es.len(),
                self.entries@ == es,
                (best_idx, best_score as int) == best_to(es, *reqs, i as int),
                best_idx >= 0 ==> 0 <= best_idx < i && best_rt == es[best_idx].caps.runtime_type,
                best_idx < 0 ==> best_rt == self.fallback_runtime && best_score == 0,
            decreases es.len() - i,
        {
            let sc = calculate_runtime_score(&self.entries[i].caps, &self.entries[i].stats, reqs);
            if sc > best_score {
                best_score = sc;
                best_rt = self.entries[i].caps.runtime_type;
                proof {
                    best_idx = i as int;
                }
            }
            i += 1;
        }
        self.current_runtime = best_rt;
        best_rt
    }

    /// The backend currently selected.
    pub fn get_current_runtime(&self) -> (r: &RuntimeType)
        ensures
            r == &self.current_runtime,
    {
        &self.current_runtime
    }

    /// The registered capabilities of a backend.
    pub fn get_runtime_capabilities(&self, runtime_type: RuntimeType) -> (r: Option<
        &RuntimeCapabilities,
    >)
        ensures
            ({
                let es = self.entries@;
                let k = rt_find_from(es, 0, runtime_type);
                match r {
                    Some(c) => k < es.len() && c == &es[k].caps,
                    None => k == es.len(),
                }
            }),
    {
        let k = find_rt(&self.entries, runtime_type);
        proof {
            lemma_rt_find_props(self.entries@, 0, runtime_type);
        }
        if k < self.entries.len() {
            Some(&self.entries[k].caps)
        } else {
            None
        }
    }

    /// Does the current backend's registry entry list the feature?
    pub fn is_feature_supported(&self, feature: RuntimeFeature) -> (r: bool)
        ensures
            ({
                let es = self.entries@;
                let k = rt_find_from(es, 0, self.current_runtime);
                r == (k < es.len() && features_contain(es[k].caps.supported_features@, feature))
            }),
    {
        let k = find_rt(&self.entries, self.current_runtime);
        proof {
            lemma_rt_find_props(self.entries@, 0, self.current_runtime);
        }
        if k < self.entries.len() {
            has_feature(&self.entries[k].caps.supported_features, feature)
        } else {
            false
        }
    }

    /// Record one observed execution of a backend.
    pub fn record_execution(&mut self, runtime_type: RuntimeType, success: bool, time: u64)
        ensures
            ({
                let es = old(self).entries@;
                let k = rt_find_from(es, 0, runtime_type);
                if k == es.len() {
                    *final(self) == *old(self)
                } else {
                    &&& final(self).entries@.len() == es.len()
                    &&& forall|j: int|
                        0 <= j < es.len() && j != k ==> final(self).entries@[j] == es[j]
                    &&& final(self).entries@[k].caps == es[k].caps
                    &&& final(self).entries@[k].stats.execution_count as int == if es[k].stats.execution_count == u64::MAX {
                        u64::MAX as int
                    } else {
                        es[k].stats.execution_count + 1
                    }
                    &&& final(self).entries@[k].stats.success_count as int == if !success {
                        es[k].stats.success_count as int
                    } else if es[k].stats.success_count == u64::MAX {
                        u64::MAX as int
                    } else {
                        es[k].stats.success_count + 1
                    }
                    &&& final(self).entries@[k].stats.error_count as int == if success {
                        es[k].stats.error_count as int
                    } else if es[k].stats.error_count == u64::MAX {
                        u64::MAX as int
                    } else {
                        es[k].stats.error_count + 1
                    }
                }
            }),
    {
        let k = find_rt(&self.entries, runtime_type);
        proof {
            lemma_rt_find_props(self.entries@, 0, runtime_type);
        }
        if k == self.entries.len() {
            return ;
        }
        let entry = &mut self.entries[k];
        if entry.stats.execution_count < u64::MAX {
            entry.stats.execution_count = entry.stats.execution_count + 1;
        }
        if success {
            if entry.stats.success_count < u64::MAX {
                entry.stats.success_count = entry.stats.success_count + 1;
            }
            if entry.stats.total_execution_time <= u64::MAX - time {
                entry.stats.total_execution_time = entry.stats.total_execution_time + time;
            } else {
                entry.stats.total_execution_time = u64::MAX;
            }
            if time < entry.stats.min_execution_time {
                entry.stats.min_execution_time = time;
            }
            if time > entry.stats.max_execution_time {
                entry.stats.max_execution_time = time;
            }
        } else {
            if entry.stats.error_count < u64::MAX {
                entry.stats.error_count = entry.stats.error_count + 1;
            }
        }
    }

    /// A copy of a backend's observed behaviour.
    pub fn get_runtime_stats(&self, runtime_type: RuntimeType) -> (r: Option<RuntimeStats>)
        ensures
            ({
                let es = self.entries@;
                let k = rt_find_from(es, 0, runtime_type);
                match r {
                    Some(st) => k < es.len() && st == es[k].stats,
                    None => k == es.len(),
                }
            }),
    {
        let k = find_rt(&self.entries, runtime_type);
        proof {
            lemma_rt_find_props(self.entries@, 0, runtime_type);
        }
        if k < self.entries.len() {
            Some(self.entries[k].stats)
        } else {
            None
        }
    }

    /// Every backend's registry entry, capabilities beside observations.
    pub fn get_all_runtime_stats(&self) -> (r: &Vec<RuntimeEntry>)
        ensures
            r == &self.entries,
    {
        &self.entries
    }

    /// Switch automatic selection on or off.
    pub fn enable_auto_selection(&mut self, enabled: bool)
        ensures
            final(self).auto_selection_enabled == enabled,
            final(self).entries == old(self).entries,
            final(self).current_runtime == old(self).current_runtime,
            final(self).fallback_runtime == old(self).fallback_runtime,
    {
        self.auto_selection_enabled = enabled;
    }

    /// Name the backend used when nothing qualifies.
    pub fn set_fallback_runtime(&mut self, runtime_type: RuntimeType)
        ensures
            final(self).fallback_runtime == runtime_type,
            final(self).entries == old(self).entries,
            final(self).current_runtime == old(self).current_runtime,
            final(self).auto_selection_enabled == old(self).auto_selection_enabled,
    {
        self.fallback_runtime = runtime_type;
    }

    /// Reset every backend's observed behaviour.
    pub fn cleanup(&mut self)
        ensures
            final(self).entries@.len() == old(self).entries@.len(),
            forall|j: int|
                0 <= j < old(self).entries@.len() ==> (#[trigger] final(self).entries@[j]).caps
                    == old(self).entries@[j].caps && final(self).entries@[j].stats
                    == fresh_stats(),
            final(self).current_runtime == old(self).current_runtime,
            final(self).auto_selection_enabled == old(self).auto_selection_enabled,
            final(self).fallback_runtime == old(self).fallback_runtime,
    {
        let n = self.entries.len();
        let mut j: usize = 0;
        while j < n
            invariant
                j <= n,
                n == self.entries@.len(),
                self.entries@.len() == old(self).entries@.len(),
                self.current_runtime == old(self).current_runtime,
                self.auto_selection_enabled == old(self).auto_selection_enabled,
                self.fallback_runtime == old(self).fallback_runtime,
                forall|t: int| j <= t < n ==> self.entries@[t] == old(self).entries@[t],
                forall|t: int|
                    0 <= t < j ==> (#[trigger] self.entries@[t]).caps == old(self).entries@[t].caps
                        && self.entries@[t].stats == fresh_stats(),
            decreases n - j,
        {
            let entry = &mut self.entries[j];
            entry.stats.reset();
            j += 1;
        }
    }
}

/// Index of the entry for a backend, or `es.len()`.
pub fn find_rt(es: &Vec<RuntimeEntry>, rt: RuntimeType) -> (r: usize)
    ensures
        r as int == rt_find_from(es@, 0, rt),
{
    let mut i: usize = 0;
    while i < es.len()
        invariant
            i <= es@.len(),
            rt_find_from(es@, 0, rt) == rt_find_from(es@, i as int, rt),
        decreases es@.len() - i,
    {
        if es[i].caps.runtime_type == rt {
            return i;
        }
        i += 1;
    }
    i
}


/// How heavy a simulated workload is.
#[derive(Clone, Copy, Debug, PartialEq, Eq, Structural)]
pub enum WorkloadComplexity {
    Light,
    Medium,
    Heavy,
    Extreme,
}

/// A simulated workload: operation and memory-operation counts.
#[derive(Clone, Copy)]
pub struct RuntimeWorkload {
    pub operations: u64,
    pub memory_operations: u64,
    pub complexity: WorkloadComplexity,
}

/// One simulated benchmark outcome.
pub struct BenchmarkResult {
    pub runtime_type: RuntimeType,
    pub startup_time_ms: u64,
    pub execution_time_us: u64,
    pub memory_usage: u64,
    pub throughput_per_sec: u64,
    pub success_rate_percent: u64,
}

/// The simulated startup cost of a speed grade, in milliseconds.
pub open spec fn startup_cost(s: RuntimeSpeed) -> int {
    match s {
        RuntimeSpeed::VeryFast => 50,
        RuntimeSpeed::Fast => 100,
        RuntimeSpeed::Medium => 200,
        RuntimeSpeed::Slow => 500,
        RuntimeSpeed::VerySlow => 1000,
    }
}

/// The simulated per-operation cost of a speed grade, in microseconds.
pub open spec fn op_cost(s: RuntimeSpeed) -> int {
    match s {
        RuntimeSpeed::VeryFast => 1,
        RuntimeSpeed::Fast => 2,
        RuntimeSpeed::Medium => 5,
        RuntimeSpeed::Slow => 10,
        RuntimeSpeed::VerySlow => 20,
    }
}

impl RuntimeEngine {
    /// Simulate the workload on every registered backend from its speed
    /// table: a startup cost, a per-operation execution cost, a kibibyte
    /// per memory operation (saturating), the implied throughput, and a
    /// uniform simulated success rate of ninety-nine percent.
    #[verifier::loop_isolation(false)]
    pub fn benchmark_runtimes(&self, workload: &RuntimeWorkload) -> (r: Vec<BenchmarkResult>)
        requires
            workload.operations <= 0x100000000000000,
        ensures
            r@.len() == self.entries@.len(),
            forall|j: int|
                0 <= j < r@.len() ==> {
                    let e = #[trigger] self.entries@[j];
                    let b = r@[j];
                    let exec_us = workload.operations as int * op_cost(
                        e.caps.performance.execution_speed,
                    );
                    &&& b.runtime_type == e.caps.runtime_type
                    &&& b.startup_time_ms as int == startup_cost(e.caps.performance.startup_time)
                    &&& b.execution_time_us as int == exec_us
                    &&& b.memory_usage as int == if workload.memory_operations as int * 1024
                        <= u64::MAX {
                        workload.memory_operations as int * 1024
                    } else {
                        u64::MAX as int
                    }
                    &&& b.throughput_per_sec as int == if exec_us > 0 {
                        workload.operations as int * 1000000 / exec_us
                    } else {
                        0
                    }
                    &&& b.success_rate_percent == 99
                },
    {
        let mut out: Vec<BenchmarkResult> = Vec::new();
        let n = self.entries.len();
        let mut j: usize = 0;
        while j < n
            invariant
                j <= n,
                n == self.entries@.len(),
                out@.len() == j,
                forall|q: int|
                    0 <= q < j ==> {
                        let e = #[trigger] self.entries@[q];
                        let b = out@[q];
                        let exec_us = workload.operations as int * op_cost(
                            e.caps.performance.execution_speed,
                        );
                        &&& b.runtime_type == e.caps.runtime_type
                        &&& b.startup_time_ms as int == startup_cost(
                            e.caps.performance.startup_time,
                        )
                        &&& b.execution_time_us as int == exec_us
                        &&& b.memory_usage as int == if workload.memory_operations as int * 1024
                            <= u64::MAX {
                            workload.memory_operations as int * 1024
                        } else {
                            u64::MAX as int
                        }
                        &&& b.throughput_per_sec as int == if exec_us > 0 {
                            workload.operations as int * 1000000 / exec_us
                        } else {
                            0
                        }
                        &&& b.success_rate_percent == 99
                    },
            decreases n - j,
        {
            let caps = &self.entries[j].caps;
            let startup: u64 = match caps.performance.startup_time {
                RuntimeSpeed::VeryFast => 50,
                RuntimeSpeed::Fast => 100,
                RuntimeSpeed::Medium => 200,
                RuntimeSpeed::Slow => 500,
                RuntimeSpeed::VerySlow => 1000,
            };
            let factor: u64 = match caps.performance.execution_speed {
                RuntimeSpeed::VeryFast => 1,
                RuntimeSpeed::Fast => 2,
                RuntimeSpeed::Medium => 5,
                RuntimeSpeed::Slow => 10,
                RuntimeSpeed::VerySlow => 20,
            };
            proof {
                assert(workload.operations as int * (factor as int) <= 0x100000000000000 * 20)
                    by (nonlinear_arith)
                    requires
                        workload.operations as int <= 0x100000000000000,
                        1 <= factor as int <= 20,
                ;
            }
            let exec_us: u64 = workload.operations * factor;
            let mem: u64 = if workload.memory_operations > u64::MAX / 1024 {
                u64::MAX
            } else {
                workload.memory_operations * 1024
            };
            proof {
                if workload.memory_operations <= u64::MAX as u64 / 1024 {
                    assert(workload.memory_operations as int * 1024 <= u64::MAX) by (nonlinear_arith)
                        requires
                            workload.memory_operations as int <= (u64::MAX as int) / 1024,
                    ;
                } else {
                    assert(workload.memory_operations as int * 1024 > u64::MAX) by (nonlinear_arith)
                        requires
                            workload.memory_operations as int > (u64::MAX as int) / 1024,
                    ;
                }
            }
            let throughput: u64 = if exec_us > 0 {
                proof {
                    assert(workload.operations as int * 1000000 <= 0x100000000000000 * 1000000)
                        by (nonlinear_arith)
                        requires
                            workload.operations as int <= 0x100000000000000,
                    ;
                    assert(workload.operations as int * 1000000 / (exec_us as int) <= u64::MAX)
                        by (nonlinear_arith)
                        requires
                            0 < exec_us as int,
                            0 <= workload.operations as int,
                            exec_us as int >= workload.operations as int,
                    ;
                }
                ((workload.operations as u128 * 1000000) / (exec_us as u128)) as u64
            } else {
                0
            };
            out.push(
                BenchmarkResult {
                    runtime_type: caps.runtime_type,
                    startup_time_ms: startup,
                    execution_time_us: exec_us,
                    memory_usage: mem,
                    throughput_per_sec: throughput,
                    success_rate_percent: 99,
                },
            );
            j += 1;
        }
        out
    }
}

} // verus!
