//! The security gate: per-container policies, function and memory checks,
//! execution-time limits, signature verification over SHA-256, violation
//! handling with an audit trail, and threat flags.

use vstd::prelude::*;
use crate::errors::ErrorKind;
use crate::value::str_eq;
use crate::metrics::MetaPair;

verus! {

broadcast use vstd::std_specs::vec::group_vec_axioms, vstd::seq::group_seq_axioms;

/// How strongly a container is isolated.
#[derive(Clone, Copy, Debug, PartialEq, Eq, Structural)]
pub enum IsolationLevel {
    Low,
    Medium,
    High,
}

/// What a security event or violation reports.
#[derive(Clone, Copy, Debug, PartialEq, Eq, Structural)]
pub enum SecurityEventType {
    UnauthorizedFunctionCall,
    MemoryLimitExceeded,
    ExecutionTimeExceeded,
    InvalidSignature,
    SuspiciousActivity,
    PolicyViolation,
    AccessDenied,
}

/// How bad a violation is; `Critical` blocks the container.
#[derive(Clone, Copy, Debug, PartialEq, Eq, Structural)]
pub enum SecuritySeverity {
    Low,
    Medium,
    High,
    Critical,
}

/// What a container may do and how much it may use.
pub struct SecurityPolicy {
    pub allow_network: bool,
    pub allow_filesystem: bool,
    pub allow_environment: bool,
    pub allowed_functions: Vec<String>,
    pub blocked_functions: Vec<String>,
    pub max_memory: u32,
    pub max_execution_time: u64,
    pub require_signature: bool,
    pub trusted_origins: Vec<String>,
    pub isolation_level: IsolationLevel,
}

/// Does `names` hold a string with the characters of `s`?
pub open spec fn names_contain(names: Seq<String>, s: Seq<char>) -> bool {
    exists|i: int| 0 <= i < names.len() && names[i]@ == s
}

/// Is `name` in `names`?
pub fn contains_name(names: &Vec<String>, name: &str) -> (r: bool)
    ensures
        r == names_contain(names@, name@),
{
    let mut i: usize = 0;
    while i < names.len()
        invariant
            i <= names@.len(),
            forall|j: int| 0 <= j < i ==> names@[j]@ != name@,
        decreases names@.len() - i,
    {
        if str_eq(names[i].as_str(), name) {
            return true;
        }
        i += 1;
    }
    false
}

/// Deny precedes allow; an empty allow list admits every function.
pub open spec fn function_allowed(p: SecurityPolicy, name: Seq<char>) -> bool {
    &&& !names_contain(p.blocked_functions@, name)
    &&& (p.allowed_functions@.len() == 0 || names_contain(p.allowed_functions@, name))
}

impl SecurityPolicy {
    /// The default policy: a small allow list, medium isolation, modest
    /// quotas.
    pub fn default() -> (r: SecurityPolicy)
        ensures
            r.allowed_functions@.len() == 4,
            r.allowed_functions@[0]@ == "increment"@,
            r.allowed_functions@[1]@ == "decrement"@,
            r.allowed_functions@[2]@ == "reset"@,
            r.allowed_functions@[3]@ == "get_state"@,
            r.blocked_functions@.len() == 0,
            !r.allow_network && !r.allow_filesystem && !r.allow_environment,
            r.max_memory == 0x4000000u32,
            r.max_execution_time == 5000,
            !r.require_signature,
            r.isolation_level == IsolationLevel::Medium,
    {
        let mut allowed: Vec<String> = Vec::new();
        allowed.push("increment".to_owned());
        allowed.push("decrement".to_owned());
        allowed.push("reset".to_owned());
        allowed.push("get_state".to_owned());
        SecurityPolicy {
            allow_network: false,
            allow_filesystem: false,
            allow_environment: false,
            allowed_functions: allowed,
            blocked_functions: Vec::new(),
            max_memory: 0x4000000u32,
            max_execution_time: 5000,
            require_signature: false,
            trusted_origins: Vec::new(),
            isolation_level: IsolationLevel::Medium,
        }
    }

    /// The strict policy a blocked container falls back to: nothing allowed
    /// beyond a small footprint, signatures required.
    pub fn strict() -> (r: SecurityPolicy)
        ensures
            r.allowed_functions@.len() == 0,
            r.blocked_functions@.len() == 0,
            !r.allow_network && !r.allow_filesystem && !r.allow_environment,
            r.max_memory == 0x1000000u32,
            r.max_execution_time == 1000,
            r.require_signature,
            r.isolation_level == IsolationLevel::High,
    {
        SecurityPolicy {
            allow_network: false,
            allow_filesystem: false,
            allow_environment: false,
            allowed_functions: Vec::new(),
            blocked_functions: Vec::new(),
            max_memory: 0x1000000u32,
            max_execution_time: 1000,
            require_signature: true,
            trusted_origins: Vec::new(),
            isolation_level: IsolationLevel::High,
        }
    }

    /// The permissive policy: everything allowed within generous quotas.
    pub fn permissive() -> (r: SecurityPolicy)
        ensures
            r.allowed_functions@.len() == 0,
            r.blocked_functions@.len() == 0,
            r.allow_network && r.allow_filesystem && r.allow_environment,
            r.max_memory == 0x10000000u32,
            r.max_execution_time == 30000,
            !r.require_signature,
            r.isolation_level == IsolationLevel::Low,
    {
        SecurityPolicy {
            allow_network: true,
            allow_filesystem: true,
            allow_environment: true,
            allowed_functions: Vec::new(),
            blocked_functions: Vec::new(),
            max_memory: 0x10000000u32,
            max_execution_time: 30000,
            require_signature: false,
            trusted_origins: Vec::new(),
            isolation_level: IsolationLevel::Low,
        }
    }

    /// Deny when blocked; allow everything when the allow list is empty;
    /// otherwise the allow list is the whitelist.
    pub fn is_function_allowed(&self, function_name: &str) -> (r: bool)
        ensures
            r == function_allowed(*self, function_name@),
    {
        if contains_name(&self.blocked_functions, function_name) {
            return false;
        }
        if self.blocked_functions.len() >= 0 && self.allowed_functions.len() == 0 {
            return true;
        }
        contains_name(&self.allowed_functions, function_name)
    }
}

/// The human-readable message of an event type.
pub open spec fn event_message_spec(t: SecurityEventType) -> Seq<char> {
    match t {
        SecurityEventType::UnauthorizedFunctionCall => "the function is not allowed"@,
        SecurityEventType::MemoryLimitExceeded => "the memory budget is exhausted"@,
        SecurityEventType::ExecutionTimeExceeded => "the time budget is exhausted"@,
        SecurityEventType::InvalidSignature => "the signature does not verify"@,
        SecurityEventType::SuspiciousActivity => "unusual activity observed"@,
        SecurityEventType::PolicyViolation => "denied by the policy"@,
        SecurityEventType::AccessDenied => "access denied"@,
    }
}

impl SecurityEventType {
    /// The human-readable message for this event type.
    pub fn message(&self) -> (r: &'static str)
        ensures
            r@ == event_message_spec(*self),
    {
        match self {
            SecurityEventType::UnauthorizedFunctionCall => "the function is not allowed",
            SecurityEventType::MemoryLimitExceeded => "the memory budget is exhausted",
            SecurityEventType::ExecutionTimeExceeded => "the time budget is exhausted",
            SecurityEventType::InvalidSignature => "the signature does not verify",
            SecurityEventType::SuspiciousActivity => "unusual activity observed",
            SecurityEventType::PolicyViolation => "denied by the policy",
            SecurityEventType::AccessDenied => "access denied",
        }
    }
}

/// One recorded security event: what happened, where, how bad, when, a
/// human-readable message, and free-form metadata tags.
pub struct SecurityEvent {
    pub event_type: SecurityEventType,
    pub container_id: String,
    pub severity: SecuritySeverity,
    pub timestamp: u64,
    pub description: String,
    pub metadata: Vec<MetaPair>,
}

/// One denied check, before it is recorded.
pub struct SecurityViolation {
    pub violation_type: SecurityEventType,
    pub severity: SecuritySeverity,
}

/// The per-container gate state.
pub struct SecurityContext {
    pub container_id: String,
    pub policy: SecurityPolicy,
    pub execution_start: Option<u64>,
    pub memory_allocated: u32,
    pub function_calls: u32,
    pub security_events: Vec<SecurityEvent>,
    pub signature_verified: bool,
}

impl SecurityContext {
    /// A fresh context under `policy`; a policy without signature duty
    /// starts out trusted.
    pub fn new(container_id: String, policy: SecurityPolicy) -> (r: SecurityContext)
        ensures
            r.container_id == container_id,
            r.policy == policy,
            r.execution_start is None,
            r.memory_allocated == 0,
            r.function_calls == 0,
            r.security_events@.len() == 0,
            r.signature_verified == !policy.require_signature,
    {
        let trusted = !policy.require_signature;
        SecurityContext {
            container_id,
            policy,
            execution_start: None,
            memory_allocated: 0,
            function_calls: 0,
            security_events: Vec::new(),
            signature_verified: trusted,
        }
    }

    /// Mark the start of an execution at time `now`.
    pub fn start_execution(&mut self, now: u64)
        ensures
            final(self).execution_start == Some(now),
            final(self).policy == old(self).policy,
            final(self).container_id == old(self).container_id,
            final(self).memory_allocated == old(self).memory_allocated,
            final(self).function_calls == old(self).function_calls,
            final(self).security_events == old(self).security_events,
            final(self).signature_verified == old(self).signature_verified,
    {
        self.execution_start = Some(now);
    }

    /// Time since the recorded start must stay within the policy budget;
    /// without a recorded start nothing is exceeded.
    pub fn check_execution_time(&self, now: u64) -> (r: Result<(), SecurityViolation>)
        ensures
            match r {
                Ok(_) => !execution_time_exceeded(*self, now),
                Err(v) => execution_time_exceeded(*self, now) && v.violation_type
                    == SecurityEventType::ExecutionTimeExceeded && v.severity
                    == SecuritySeverity::High,
            },
    {
        match self.execution_start {
            Some(start) => {
                if now > start && now - start > self.policy.max_execution_time {
                    Err(
                        SecurityViolation {
                            violation_type: SecurityEventType::ExecutionTimeExceeded,
                            severity: SecuritySeverity::High,
                        },
                    )
                } else {
                    Ok(())
                }
            },
            None => Ok(()),
        }
    }

    /// Memory already held plus the request must stay within the policy
    /// budget.
    pub fn check_memory_limit(&self, requested: u32) -> (r: Result<(), SecurityViolation>)
        ensures
            match r {
                Ok(_) => self.memory_allocated + requested <= self.policy.max_memory,
                Err(v) => self.memory_allocated + requested > self.policy.max_memory
                    && v.violation_type == SecurityEventType::MemoryLimitExceeded && v.severity
                    == SecuritySeverity::High,
            },
    {
        if (self.memory_allocated as u64) + (requested as u64) > (self.policy.max_memory as u64) {
            Err(
                SecurityViolation {
                    violation_type: SecurityEventType::MemoryLimitExceeded,
                    severity: SecuritySeverity::High,
                },
            )
        } else {
            Ok(())
        }
    }

    /// Check the budget and take the memory when it fits.
    pub fn allocate_memory(&mut self, size: u32) -> (r: Result<(), SecurityViolation>)
        ensures
            match r {
                Ok(_) => old(self).memory_allocated + size <= old(self).policy.max_memory
                    && final(self).memory_allocated == old(self).memory_allocated + size,
                Err(v) => old(self).memory_allocated + size > old(self).policy.max_memory
                    && *final(self) == *old(self) && v.violation_type
                    == SecurityEventType::MemoryLimitExceeded && v.severity
                    == SecuritySeverity::High,
            },
            final(self).policy == old(self).policy,
            final(self).container_id == old(self).container_id,
            final(self).function_calls == old(self).function_calls,
            final(self).security_events == old(self).security_events,
            final(self).signature_verified == old(self).signature_verified,
            final(self).execution_start == old(self).execution_start,
    {
        let check = self.check_memory_limit(size);
        match check {
            Ok(_) => {
                self.memory_allocated = self.memory_allocated + size;
                Ok(())
            },
            Err(v) => Err(v),
        }
    }

    /// Return memory; the counter floors at zero.
    pub fn deallocate_memory(&mut self, size: u32)
        ensures
            final(self).memory_allocated as int == if old(self).memory_allocated >= size {
                old(self).memory_allocated - size
            } else {
                0
            },
            final(self).policy == old(self).policy,
            final(self).container_id == old(self).container_id,
            final(self).function_calls == old(self).function_calls,
            final(self).security_events == old(self).security_events,
            final(self).signature_verified == old(self).signature_verified,
            final(self).execution_start == old(self).execution_start,
    {
        if self.memory_allocated >= size {
            self.memory_allocated = self.memory_allocated - size;
        } else {
            self.memory_allocated = 0;
        }
    }

    /// Gate one function call against the policy.
    pub fn check_function_access(&self, function_name: &str) -> (r: Result<(), SecurityViolation>)
        ensures
            match r {
                Ok(_) => function_allowed(self.policy, function_name@),
                Err(v) => !function_allowed(self.policy, function_name@) && v.violation_type
                    == SecurityEventType::UnauthorizedFunctionCall && v.severity
                    == SecuritySeverity::Medium,
            },
    {
        if self.policy.is_function_allowed(function_name) {
            Ok(())
        } else {
            Err(
                SecurityViolation {
                    violation_type: SecurityEventType::UnauthorizedFunctionCall,
                    severity: SecuritySeverity::Medium,
                },
            )
        }
    }

    /// Count one call; past a thousand calls each further call is flagged
    /// as suspicious in the event log.
    pub fn record_function_call(&mut self, now: u64)
        ensures
            final(self).function_calls as int == if old(self).function_calls == u32::MAX {
                u32::MAX as int
            } else {
                old(self).function_calls + 1
            },
            final(self).policy == old(self).policy,
            final(self).container_id == old(self).container_id,
            final(self).memory_allocated == old(self).memory_allocated,
            final(self).signature_verified == old(self).signature_verified,
            final(self).execution_start == old(self).execution_start,
            ({
                if final(self).function_calls > 1000 {
                    &&& final(self).security_events@.len() == old(self).security_events@.len() + 1
                    &&& final(self).security_events@.last().event_type
                        == SecurityEventType::SuspiciousActivity
                    &&& final(self).security_events@.last().severity == SecuritySeverity::Medium
                    &&& final(self).security_events@.last().description@ == event_message_spec(
                        SecurityEventType::SuspiciousActivity,
                    )
                    &&& forall|j: int|
                        0 <= j < old(self).security_events@.len()
                            ==> final(self).security_events@[j] == old(self).security_events@[j]
                } else {
                    final(self).security_events == old(self).security_events
                }
            }),
    {
        if self.function_calls < u32::MAX {
            self.function_calls = self.function_calls + 1;
        }
        if self.function_calls > 1000 {
            let ev = SecurityEvent {
                event_type: SecurityEventType::SuspiciousActivity,
                container_id: self.container_id.clone(),
                severity: SecuritySeverity::Medium,
                timestamp: now,
                description: SecurityEventType::SuspiciousActivity.message().to_owned(),
                metadata: Vec::new(),
            };
            self.security_events.push(ev);
        }
    }

    /// Is the container trusted: its signature verified, or none required?
    pub fn is_trusted(&self) -> (r: bool)
        ensures
            r == (self.signature_verified || !self.policy.require_signature),
    {
        self.signature_verified || !self.policy.require_signature
    }

    /// Append one event to the container's log.
    pub fn add_security_event(&mut self, event: SecurityEvent)
        ensures
            final(self).security_events@ == old(self).security_events@.push(event),
            final(self).policy == old(self).policy,
            final(self).container_id == old(self).container_id,
            final(self).memory_allocated == old(self).memory_allocated,
            final(self).function_calls == old(self).function_calls,
            final(self).signature_verified == old(self).signature_verified,
            final(self).execution_start == old(self).execution_start,
    {
        self.security_events.push(event);
    }
}

/// The execution-time budget is exhausted at `now`.
pub open spec fn execution_time_exceeded(c: SecurityContext, now: u64) -> bool {
    match c.execution_start {
        Some(start) => now > start && now - start > c.policy.max_execution_time,
        None => false,
    }
}

/// The SHA-256 digest of a byte sequence, as the outside hash computes it.
pub uninterp spec fn sha256_of(data: Seq<u8>) -> Seq<u8>;

/// Relies on sha2's `Sha256` (FIPS 180-4): the 32-byte digest is a function
/// of the input bytes alone.
#[verifier::external_body]
fn sha256(data: &[u8]) -> (r: Vec<u8>)
    ensures
        r@ == sha256_of(data@),
        r@.len() == 32,
{
    let mut hasher = <sha2::Sha256 as sha2::Digest>::new();
    sha2::Digest::update(&mut hasher, data);
    sha2::Digest::finalize(hasher).to_vec()
}

/// The character of one hexadecimal digit.
pub open spec fn hex_char(d: int) -> char {
    if d == 0 {
        '0'
    } else if d == 1 {
        '1'
    } else if d == 2 {
        '2'
    } else if d == 3 {
        '3'
    } else if d == 4 {
        '4'
    } else if d == 5 {
        '5'
    } else if d == 6 {
        '6'
    } else if d == 7 {
        '7'
    } else if d == 8 {
        '8'
    } else if d == 9 {
        '9'
    } else if d == 10 {
        'a'
    } else if d == 11 {
        'b'
    } else if d == 12 {
        'c'
    } else if d == 13 {
        'd'
    } else if d == 14 {
        'e'
    } else {
        'f'
    }
}

/// The lowercase hexadecimal rendering of bytes from index `i` on, two
/// digits per byte.
pub open spec fn hex_of(bytes: Seq<u8>, i: int) -> Seq<char>
    decreases bytes.len() - i,
{
    if i < 0 || i >= bytes.len() {
        Seq::empty()
    } else {
        seq![hex_char(bytes[i] as int / 16), hex_char(bytes[i] as int % 16)] + hex_of(
            bytes,
            i + 1,
        )
    }
}

/// One hexadecimal digit as a string slice.
fn hex_digit_str(d: u8) -> (r: &'static str)
    requires
        d < 16,
    ensures
        r@ == seq![hex_char(d as int)],
{
    proof {
        reveal_strlit("0");
        reveal_strlit("1");
        reveal_strlit("2");
        reveal_strlit("3");
        reveal_strlit("4");
        reveal_strlit("5");
        reveal_strlit("6");
        reveal_strlit("7");
        reveal_strlit("8");
        reveal_strlit("9");
        reveal_strlit("a");
        reveal_strlit("b");
        reveal_strlit("c");
        reveal_strlit("d");
        reveal_strlit("e");
        reveal_strlit("f");
    }
    if d == 0 {
        "0"
    } else if d == 1 {
        "1"
    } else if d == 2 {
        "2"
    } else if d == 3 {
        "3"
    } else if d == 4 {
        "4"
    } else if d == 5 {
        "5"
    } else if d == 6 {
        "6"
    } else if d == 7 {
        "7"
    } else if d == 8 {
        "8"
    } else if d == 9 {
        "9"
    } else if d == 10 {
        "a"
    } else if d == 11 {
        "b"
    } else if d == 12 {
        "c"
    } else if d == 13 {
        "d"
    } else if d == 14 {
        "e"
    } else {
        "f"
    }
}

/// The lowercase hexadecimal string of a byte buffer.
pub fn to_hex(bytes: &Vec<u8>) -> (r: String)
    ensures
        r@ == hex_of(bytes@, 0),
{
    let mut out: String = String::new();
    let mut i: usize = 0;
    while i < bytes.len()
        invariant
            i <= bytes@.len(),
            out@ + hex_of(bytes@, i as int) == hex_of(bytes@, 0),
        decreases bytes@.len() - i,
    {
        let b = bytes[i];
        let ghost prev = out@;
        out.append(hex_digit_str(b / 16));
        out.append(hex_digit_str(b % 16));
        proof {
            assert((prev + seq![hex_char(b as int / 16)] + seq![hex_char(b as int % 16)])
                + hex_of(bytes@, i + 1) =~= prev + (seq![
                hex_char(b as int / 16),
                hex_char(b as int % 16),
            ] + hex_of(bytes@, i + 1)));
        }
        i += 1;
    }
    proof {
        assert(out@ + hex_of(bytes@, bytes@.len() as int) =~= out@);
    }
    out
}

/// Does a claimed signature match a digest's hexadecimal form?
pub fn signature_matches(signature: &str, digest: &Vec<u8>) -> (r: bool)
    ensures
        r == (signature@ == hex_of(digest@, 0)),
{
    let hex = to_hex(digest);
    str_eq(signature, hex.as_str())
}

impl SecurityContext {
    /// When the policy demands signatures, the claim must equal the
    /// hexadecimal SHA-256 of the data; a mismatch is a critical violation
    /// and marks the container untrusted.
    pub fn verify_signature(&mut self, signature: &str, data: &[u8]) -> (r: Result<
        (),
        SecurityViolation,
    >)
        ensures
            final(self).policy == old(self).policy,
            final(self).container_id == old(self).container_id,
            final(self).memory_allocated == old(self).memory_allocated,
            final(self).function_calls == old(self).function_calls,
            final(self).security_events == old(self).security_events,
            final(self).execution_start == old(self).execution_start,
            ({
                if !old(self).policy.require_signature {
                    r is Ok && *final(self) == *old(self)
                } else if signature@ == hex_of(sha256_of(data@), 0) {
                    r is Ok && final(self).signature_verified
                } else {
                    match r {
                        Ok(_) => false,
                        Err(v) => !final(self).signature_verified && v.violation_type
                            == SecurityEventType::InvalidSignature && v.severity
                            == SecuritySeverity::Critical,
                    }
                }
            }),
    {
        if !self.policy.require_signature {
            return Ok(());
        }
        let digest = sha256(data);
        if signature_matches(signature, &digest) {
            self.signature_verified = true;
            Ok(())
        } else {
            self.signature_verified = false;
            Err(
                SecurityViolation {
                    violation_type: SecurityEventType::InvalidSignature,
                    severity: SecuritySeverity::Critical,
                },
            )
        }
    }
}


/// What an audit entry records.
#[derive(Clone, Copy, Debug, PartialEq, Eq, Structural)]
pub enum AuditAction {
    PolicyApplied,
    FunctionCalled,
    SecurityViolation,
    ContainerCleaned,
    MemoryAllocated,
    MemoryDeallocated,
}

/// One audit-log entry.
pub struct AuditEntry {
    pub action: AuditAction,
    pub container_id: String,
    pub timestamp: u64,
}

/// A point-in-time summary of one container's security state.
pub struct SecurityStatus {
    pub container_id: String,
    pub isolation_level: IsolationLevel,
    pub is_trusted: bool,
    pub memory_allocated: u32,
    pub memory_limit: u32,
    pub function_calls: u32,
    pub security_events_count: usize,
    pub last_violation: Option<u64>,
}

/// The security state of all containers together.
pub struct SecurityManager {
    pub contexts: Vec<SecurityContext>,
    pub global_policy: SecurityPolicy,
    pub security_events: Vec<SecurityEvent>,
    pub threat_detection_enabled: bool,
    pub audit_log: Vec<AuditEntry>,
}

/// Index of the first context at or after `i` for `id`.
pub open spec fn ctx_find_from(cs: Seq<SecurityContext>, i: int, id: Seq<char>) -> int
    decreases cs.len() - i,
{
    if i < 0 || i >= cs.len() {
        cs.len() as int
    } else if cs[i].container_id@ == id {
        i
    } else {
        ctx_find_from(cs, i + 1, id)
    }
}

pub proof fn lemma_ctx_find_props(cs: Seq<SecurityContext>, i: int, id: Seq<char>)
    requires
        0 <= i <= cs.len(),
    ensures
        i <= ctx_find_from(cs, i, id) <= cs.len(),
        ctx_find_from(cs, i, id) < cs.len() ==> cs[ctx_find_from(cs, i, id)].container_id@ == id,
    decreases cs.len() - i,
{
    if i < cs.len() && cs[i].container_id@ != id {
        lemma_ctx_find_props(cs, i + 1, id);
    }
}

/// Index of the context for `id`, or `cs.len()`.
pub fn find_context(cs: &Vec<SecurityContext>, id: &str) -> (r: usize)
    ensures
        r as int == ctx_find_from(cs@, 0, id@),
{
    let mut i: usize = 0;
    while i < cs.len()
        invariant
            i <= cs@.len(),
            ctx_find_from(cs@, 0, id@) == ctx_find_from(cs@, i as int, id@),
        decreases cs@.len() - i,
    {
        if str_eq(cs[i].container_id.as_str(), id) {
            return i;
        }
        i += 1;
    }
    i
}

/// The manager after recording a violation for the context at `k`, except
/// for the trust flag: the event appended to the global and container logs,
/// an audit entry written, the context's counters and budgets untouched,
/// and on a critical violation the container's policy replaced with the
/// strict one.
pub open spec fn violation_logged(
    pre: SecurityManager,
    post: SecurityManager,
    k: int,
    vt: SecurityEventType,
    sev: SecuritySeverity,
    now: u64,
) -> bool {
    &&& post.security_events@.len() == pre.security_events@.len() + 1
    &&& forall|j: int|
        0 <= j < pre.security_events@.len() ==> post.security_events@[j]
            == pre.security_events@[j]
    &&& post.security_events@.last().event_type == vt
    &&& post.security_events@.last().severity == sev
    &&& post.security_events@.last().timestamp == now
    &&& post.security_events@.last().description@ == event_message_spec(vt)
    &&& post.audit_log@.len() == pre.audit_log@.len() + 1
    &&& forall|j: int| 0 <= j < pre.audit_log@.len() ==> post.audit_log@[j] == pre.audit_log@[j]
    &&& post.audit_log@.last().action == AuditAction::SecurityViolation
    &&& post.audit_log@.last().timestamp == now
    &&& post.contexts@.len() == pre.contexts@.len()
    &&& forall|j: int| 0 <= j < pre.contexts@.len() && j != k ==> post.contexts@[j] == pre.contexts@[j]
    &&& ({
        let c0 = pre.contexts@[k];
        let c1 = post.contexts@[k];
        &&& c1.container_id == c0.container_id
        &&& c1.function_calls == c0.function_calls
        &&& c1.memory_allocated == c0.memory_allocated
        &&& c1.execution_start == c0.execution_start
        &&& c1.security_events@.len() == c0.security_events@.len() + 1
        &&& forall|j: int| 0 <= j < c0.security_events@.len() ==> c1.security_events@[j]
            == c0.security_events@[j]
        &&& c1.security_events@.last().event_type == vt
        &&& (if sev == SecuritySeverity::Critical {
            c1.policy.allowed_functions@.len() == 0 && c1.policy.max_memory <= 0x1000000u32
                && c1.policy.max_execution_time <= 1000 && c1.policy.require_signature
        } else {
            c1.policy == c0.policy
        })
    })
    &&& post.global_policy == pre.global_policy
    &&& post.threat_detection_enabled == pre.threat_detection_enabled
}

/// The manager after recording a violation for the context at `k`: as
/// logged above, and the container's trust flag is cleared exactly when the
/// violation is an invalid signature.
pub open spec fn violation_recorded(
    pre: SecurityManager,
    post: SecurityManager,
    k: int,
    vt: SecurityEventType,
    sev: SecuritySeverity,
    now: u64,
) -> bool {
    &&& violation_logged(pre, post, k, vt, sev, now)
    &&& post.contexts@[k].signature_verified == (if vt == SecurityEventType::InvalidSignature {
        false
    } else {
        pre.contexts@[k].signature_verified
    })
}

impl SecurityManager {
    /// A fresh gate under the default global policy.
    pub fn new() -> (r: SecurityManager)
        ensures
            r.contexts@.len() == 0,
            r.security_events@.len() == 0,
            r.audit_log@.len() == 0,
            r.threat_detection_enabled,
    {
        SecurityManager {
            contexts: Vec::new(),
            global_policy: SecurityPolicy::default(),
            security_events: Vec::new(),
            threat_detection_enabled: true,
            audit_log: Vec::new(),
        }
    }

    /// Put a container under `policy`, replacing any earlier context, and
    /// record the application in the audit log.
    pub fn apply_policy(&mut self, container_id: &str, policy: SecurityPolicy, now: u64) -> (r:
        Result<(), ErrorKind>)
        ensures
            r is Ok,
            ({
                let cs = old(self).contexts@;
                let k = ctx_find_from(cs, 0, container_id@);
                let nc = final(self).contexts@[if k < cs.len() {
                    k
                } else {
                    cs.len() as int
                }];
                &&& (if k < cs.len() {
                    final(self).contexts@.len() == cs.len()
                } else {
                    final(self).contexts@.len() == cs.len() + 1
                })
                &&& forall|j: int|
                    0 <= j < cs.len() && j != k ==> final(self).contexts@[j] == cs[j]
                &&& nc.container_id@ == container_id@
                &&& nc.policy == policy
                &&& nc.memory_allocated == 0
                &&& nc.function_calls == 0
                &&& nc.execution_start is None
                &&& nc.security_events@.len() == 0
                &&& nc.signature_verified == !policy.require_signature
            }),
            final(self).audit_log@.len() == old(self).audit_log@.len() + 1,
            final(self).audit_log@.last().action == AuditAction::PolicyApplied,
            final(self).audit_log@.last().timestamp == now,
            forall|j: int|
                0 <= j < old(self).audit_log@.len() ==> final(self).audit_log@[j] == old(
                    self,
                ).audit_log@[j],
            final(self).security_events == old(self).security_events,
            final(self).global_policy == old(self).global_policy,
            final(self).threat_detection_enabled == old(self).threat_detection_enabled,
    {
        let k = find_context(&self.contexts, container_id);
        proof {
            lemma_ctx_find_props(self.contexts@, 0, container_id@);
        }
        let ctx = SecurityContext::new(container_id.to_owned(), policy);
        if k < self.contexts.len() {
            self.contexts.set(k, ctx);
        } else {
            self.contexts.push(ctx);
        }
        self.audit_log.push(
            AuditEntry {
                action: AuditAction::PolicyApplied,
                container_id: container_id.to_owned(),
                timestamp: now,
            },
        );
        Ok(())
    }

    /// Record a violation against the context at `k` and block the
    /// container when it is critical.
    fn handle_violation(&mut self, k: usize, violation: SecurityViolation, now: u64)
        requires
            k < old(self).contexts@.len(),
        ensures
            violation_logged(
                *old(self),
                *final(self),
                k as int,
                violation.violation_type,
                violation.severity,
                now,
            ),
            final(self).contexts@[k as int].signature_verified == old(self).contexts@[k
                as int].signature_verified,
    {
        let id = self.contexts[k].container_id.clone();
        let ev = SecurityEvent {
            event_type: violation.violation_type,
            container_id: id.clone(),
            severity: violation.severity,
            timestamp: now,
            description: violation.violation_type.message().to_owned(),
            metadata: Vec::new(),
        };
        self.security_events.push(ev);
        let ev2 = SecurityEvent {
            event_type: violation.violation_type,
            container_id: id.clone(),
            severity: violation.severity,
            timestamp: now,
            description: violation.violation_type.message().to_owned(),
            metadata: Vec::new(),
        };
        {
            let ctx = &mut self.contexts[k];
            ctx.add_security_event(ev2);
            match violation.severity {
                SecuritySeverity::Critical => {
                    let mut strictp = SecurityPolicy::strict();
                    strictp.allowed_functions = Vec::new();
                    ctx.policy = strictp;
                },
                _ => {},
            }
        }
        self.audit_log.push(
            AuditEntry {
                action: AuditAction::SecurityViolation,
                container_id: id,
                timestamp: now,
            },
        );
    }

    /// Gate one function call: the function must be allowed and the time
    /// budget unspent; an approved call is counted and audited.
    pub fn validate_function_call(&mut self, container_id: &str, function_name: &str, now: u64)
        -> (r: Result<(), ErrorKind>)
        ensures
            ({
                let cs = old(self).contexts@;
                let k = ctx_find_from(cs, 0, container_id@);
                if k == cs.len() {
                    r == Err::<(), ErrorKind>(ErrorKind::NotFound) && *final(self) == *old(self)
                } else if !function_allowed(cs[k].policy, function_name@) {
                    r == Err::<(), ErrorKind>(ErrorKind::PolicyViolation) && violation_recorded(
                        *old(self),
                        *final(self),
                        k,
                        SecurityEventType::UnauthorizedFunctionCall,
                        SecuritySeverity::Medium,
                        now,
                    )
                } else if execution_time_exceeded(cs[k], now) {
                    r == Err::<(), ErrorKind>(ErrorKind::QuotaExceeded) && violation_recorded(
                        *old(self),
                        *final(self),
                        k,
                        SecurityEventType::ExecutionTimeExceeded,
                        SecuritySeverity::High,
                        now,
                    )
                } else {
                    &&& r is Ok
                    &&& final(self).contexts@.len() == cs.len()
                    &&& forall|j: int|
                        0 <= j < cs.len() && j != k ==> final(self).contexts@[j] == cs[j]
                    &&& final(self).contexts@[k].function_calls as int == if cs[k].function_calls
                        == u32::MAX {
                        u32::MAX as int
                    } else {
                        cs[k].function_calls + 1
                    }
                    &&& final(self).contexts@[k].policy == cs[k].policy
                    &&& final(self).audit_log@.len() == old(self).audit_log@.len() + 1
                    &&& final(self).audit_log@.last().action == AuditAction::FunctionCalled
                    &&& forall|j: int|
                        0 <= j < old(self).audit_log@.len() ==> final(self).audit_log@[j] == old(
                            self,
                        ).audit_log@[j]
                    &&& final(self).security_events == old(self).security_events
                }
            }),
    {
        let k = find_context(&self.contexts, container_id);
        proof {
            lemma_ctx_find_props(self.contexts@, 0, container_id@);
        }
        if k == self.contexts.len() {
            return Err(ErrorKind::NotFound);
        }
        let access = self.contexts[k].check_function_access(function_name);
        match access {
            Err(v) => {
                self.handle_violation(k, v, now);
                return Err(ErrorKind::PolicyViolation);
            },
            Ok(_) => {},
        }
        let timing = self.contexts[k].check_execution_time(now);
        match timing {
            Err(v) => {
                self.handle_violation(k, v, now);
                return Err(ErrorKind::QuotaExceeded);
            },
            Ok(_) => {},
        }
        {
            let ctx = &mut self.contexts[k];
            ctx.record_function_call(now);
        }
        self.audit_log.push(
            AuditEntry {
                action: AuditAction::FunctionCalled,
                container_id: container_id.to_owned(),
                timestamp: now,
            },
        );
        Ok(())
    }

    /// Gate one memory request: held plus requested must stay within the
    /// policy budget; an approved request is taken and audited.
    pub fn validate_memory_allocation(&mut self, container_id: &str, size: u32, now: u64) -> (r:
        Result<(), ErrorKind>)
        ensures
            ({
                let cs = old(self).contexts@;
                let k = ctx_find_from(cs, 0, container_id@);
                if k == cs.len() {
                    r == Err::<(), ErrorKind>(ErrorKind::NotFound) && *final(self) == *old(self)
                } else if cs[k].memory_allocated + size > cs[k].policy.max_memory {
                    r == Err::<(), ErrorKind>(ErrorKind::QuotaExceeded) && violation_recorded(
                        *old(self),
                        *final(self),
                        k,
                        SecurityEventType::MemoryLimitExceeded,
                        SecuritySeverity::High,
                        now,
                    )
                } else {
                    &&& r is Ok
                    &&& final(self).contexts@.len() == cs.len()
                    &&& forall|j: int|
                        0 <= j < cs.len() && j != k ==> final(self).contexts@[j] == cs[j]
                    &&& final(self).contexts@[k].memory_allocated == cs[k].memory_allocated + size
                    &&& final(self).contexts@[k].policy == cs[k].policy
                    &&& final(self).audit_log@.len() == old(self).audit_log@.len() + 1
                    &&& final(self).audit_log@.last().action == AuditAction::MemoryAllocated
                    &&& forall|j: int|
                        0 <= j < old(self).audit_log@.len() ==> final(self).audit_log@[j] == old(
                            self,
                        ).audit_log@[j]
                    &&& final(self).security_events == old(self).security_events
                }
            }),
    {
        let k = find_context(&self.contexts, container_id);
        proof {
            lemma_ctx_find_props(self.contexts@, 0, container_id@);
        }
        if k == self.contexts.len() {
            return Err(ErrorKind::NotFound);
        }
        let res = {
            let ctx = &mut self.contexts[k];
            ctx.allocate_memory(size)
        };
        match res {
            Err(v) => {
                proof {
                    assert(self.contexts@ =~= old(self).contexts@);
                }
                self.handle_violation(k, v, now);
                Err(ErrorKind::QuotaExceeded)
            },
            Ok(_) => {
                self.audit_log.push(
                    AuditEntry {
                        action: AuditAction::MemoryAllocated,
                        container_id: container_id.to_owned(),
                        timestamp: now,
                    },
                );
                Ok(())
            },
        }
    }

    /// Return memory to a container's budget and audit the release.
    pub fn deallocate_memory(&mut self, container_id: &str, size: u32, now: u64)
        ensures
            ({
                let cs = old(self).contexts@;
                let k = ctx_find_from(cs, 0, container_id@);
                if k == cs.len() {
                    *final(self) == *old(self)
                } else {
                    &&& final(self).contexts@.len() == cs.len()
                    &&& forall|j: int|
                        0 <= j < cs.len() && j != k ==> final(self).contexts@[j] == cs[j]
                    &&& final(self).contexts@[k].memory_allocated as int == if cs[k].memory_allocated
                        >= size {
                        cs[k].memory_allocated - size
                    } else {
                        0
                    }
                    &&& final(self).audit_log@.len() == old(self).audit_log@.len() + 1
                    &&& final(self).audit_log@.last().action == AuditAction::MemoryDeallocated
                }
            }),
    {
        let k = find_context(&self.contexts, container_id);
        proof {
            lemma_ctx_find_props(self.contexts@, 0, container_id@);
        }
        if k == self.contexts.len() {
            return ;
        }
        {
            let ctx = &mut self.contexts[k];
            ctx.deallocate_memory(size);
        }
        self.audit_log.push(
            AuditEntry {
                action: AuditAction::MemoryDeallocated,
                container_id: container_id.to_owned(),
                timestamp: now,
            },
        );
    }

    /// Mark the start of an execution for a container.
    pub fn start_execution(&mut self, container_id: &str, now: u64) -> (r: Result<(), ErrorKind>)
        ensures
            ({
                let cs = old(self).contexts@;
                let k = ctx_find_from(cs, 0, container_id@);
                if k == cs.len() {
                    r == Err::<(), ErrorKind>(ErrorKind::NotFound) && *final(self) == *old(self)
                } else {
                    &&& r is Ok
                    &&& final(self).contexts@.len() == cs.len()
                    &&& forall|j: int|
                        0 <= j < cs.len() && j != k ==> final(self).contexts@[j] == cs[j]
                    &&& final(self).contexts@[k].execution_start == Some(now)
                    &&& final(self).contexts@[k].container_id == cs[k].container_id
                    &&& final(self).contexts@[k].policy == cs[k].policy
                    &&& final(self).contexts@[k].memory_allocated == cs[k].memory_allocated
                    &&& final(self).contexts@[k].function_calls == cs[k].function_calls
                    &&& final(self).contexts@[k].signature_verified == cs[k].signature_verified
                    &&& final(self).contexts@[k].security_events == cs[k].security_events
                    &&& final(self).audit_log == old(self).audit_log
                    &&& final(self).security_events == old(self).security_events
                }
            }),
    {
        let k = find_context(&self.contexts, container_id);
        proof {
            lemma_ctx_find_props(self.contexts@, 0, container_id@);
        }
        if k == self.contexts.len() {
            return Err(ErrorKind::NotFound);
        }
        let ctx = &mut self.contexts[k];
        ctx.start_execution(now);
        Ok(())
    }

    /// Verify a claimed signature for a container; a mismatch is critical
    /// and blocks the container behind the strict policy.
    pub fn verify_container_signature(
        &mut self,
        container_id: &str,
        signature: &str,
        data: &[u8],
        now: u64,
    ) -> (r: Result<(), ErrorKind>)
        ensures
            ({
                let cs = old(self).contexts@;
                let k = ctx_find_from(cs, 0, container_id@);
                if k == cs.len() {
                    r == Err::<(), ErrorKind>(ErrorKind::NotFound) && *final(self) == *old(self)
                } else if !cs[k].policy.require_signature {
                    r is Ok && final(self).contexts@ == cs && final(self).audit_log == old(
                        self,
                    ).audit_log && final(self).security_events == old(self).security_events
                } else if signature@ == hex_of(sha256_of(data@), 0) {
                    &&& r is Ok
                    &&& final(self).contexts@.len() == cs.len()
                    &&& forall|j: int|
                        0 <= j < cs.len() && j != k ==> final(self).contexts@[j] == cs[j]
                    &&& final(self).contexts@[k].signature_verified
                    &&& final(self).security_events == old(self).security_events
                } else {
                    r == Err::<(), ErrorKind>(ErrorKind::PolicyViolation) && violation_recorded(
                        *old(self),
                        *final(self),
                        k,
                        SecurityEventType::InvalidSignature,
                        SecuritySeverity::Critical,
                        now,
                    )
                }
            }),
    {
        let k = find_context(&self.contexts, container_id);
        proof {
            lemma_ctx_find_props(self.contexts@, 0, container_id@);
        }
        if k == self.contexts.len() {
            return Err(ErrorKind::NotFound);
        }
        let res = {
            let ctx = &mut self.contexts[k];
            ctx.verify_signature(signature, data)
        };
        match res {
            Err(v) => {
                self.handle_violation(k, v, now);
                Err(ErrorKind::PolicyViolation)
            },
            Ok(_) => Ok(()),
        }
    }

    /// Remove a container's context and audit the removal; missing ids are
    /// ignored.
    pub fn cleanup_container(&mut self, container_id: &str, now: u64)
        ensures
            ({
                let cs = old(self).contexts@;
                let k = ctx_find_from(cs, 0, container_id@);
                &&& (if k < cs.len() {
                    final(self).contexts@ == cs.remove(k)
                } else {
                    final(self).contexts@ == cs
                })
                &&& final(self).audit_log@.len() == old(self).audit_log@.len() + 1
                &&& final(self).audit_log@.last().action == AuditAction::ContainerCleaned
                &&& final(self).security_events == old(self).security_events
            }),
    {
        let k = find_context(&self.contexts, container_id);
        proof {
            lemma_ctx_find_props(self.contexts@, 0, container_id@);
        }
        if k < self.contexts.len() {
            self.contexts.remove(k);
        }
        self.audit_log.push(
            AuditEntry {
                action: AuditAction::ContainerCleaned,
                container_id: container_id.to_owned(),
                timestamp: now,
            },
        );
    }

    /// Replace the global default policy.
    pub fn set_global_policy(&mut self, policy: SecurityPolicy)
        ensures
            final(self).global_policy == policy,
            final(self).contexts == old(self).contexts,
            final(self).security_events == old(self).security_events,
            final(self).audit_log == old(self).audit_log,
            final(self).threat_detection_enabled == old(self).threat_detection_enabled,
    {
        self.global_policy = policy;
    }

    /// Switch the periodic threat heuristics on or off.
    pub fn enable_threat_detection(&mut self, enabled: bool)
        ensures
            final(self).threat_detection_enabled == enabled,
            final(self).contexts == old(self).contexts,
            final(self).security_events == old(self).security_events,
            final(self).audit_log == old(self).audit_log,
            final(self).global_policy == old(self).global_policy,
    {
        self.threat_detection_enabled = enabled;
    }

    /// The audit trail.
    pub fn get_audit_log(&self) -> (r: &Vec<AuditEntry>)
        ensures
            r == &self.audit_log,
    {
        &self.audit_log
    }

    /// A container looks suspicious: memory above eighty percent of its
    /// budget, or more than ten thousand calls.
    pub open spec fn suspicious(c: SecurityContext) -> bool {
        c.memory_allocated as int * 10 > c.policy.max_memory as int * 8 || c.function_calls
            > 10000
    }

    /// Flag suspicious containers, without blocking any: one event per
    /// flagged container, in order, and nothing for an unsuspicious one.
    /// Disabled detection flags nothing.
    pub fn detect_threats(&self, now: u64) -> (r: Vec<SecurityEvent>)
        ensures
            !self.threat_detection_enabled ==> r@.len() == 0,
            self.threat_detection_enabled ==> {
                &&& forall|t: int|
                    0 <= t < r@.len() ==> (#[trigger] r@[t]).event_type
                        == SecurityEventType::SuspiciousActivity && r@[t].severity
                        == SecuritySeverity::Medium && r@[t].timestamp == now && r@[t].description@
                        == event_message_spec(SecurityEventType::SuspiciousActivity)
                &&& forall|j: int|
                    0 <= j < self.contexts@.len() && Self::suspicious(#[trigger] self.contexts@[j])
                        ==> exists|t: int|
                        0 <= t < r@.len() && (#[trigger] r@[t].container_id@)
                            == self.contexts@[j].container_id@
                &&& forall|t: int|
                    #![trigger r@[t]]
                    0 <= t < r@.len() ==> exists|j: int|
                        0 <= j < self.contexts@.len() && Self::suspicious(
                            #[trigger] self.contexts@[j],
                        ) && r@[t].container_id@ == self.contexts@[j].container_id@
            },
    {
        let mut out: Vec<SecurityEvent> = Vec::new();
        if !self.threat_detection_enabled {
            return out;
        }
        let ghost mut wits: Seq<int> = Seq::empty();
        let mut j: usize = 0;
        while j < self.contexts.len()
            invariant
                j <= self.contexts@.len(),
                wits.len() == out@.len(),
                forall|t: int|
                    0 <= t < out@.len() ==> (#[trigger] out@[t]).event_type
                        == SecurityEventType::SuspiciousActivity && out@[t].severity
                        == SecuritySeverity::Medium && out@[t].timestamp == now
                        && out@[t].description@ == event_message_spec(
                        SecurityEventType::SuspiciousActivity,
                    ),
                forall|i: int|
                    0 <= i < j && Self::suspicious(#[trigger] self.contexts@[i]) ==> exists|t: int|
                        0 <= t < out@.len() && (#[trigger] out@[t].container_id@)
                            == self.contexts@[i].container_id@,
                forall|t: int|
                    #![trigger wits[t]]
                    0 <= t < out@.len() ==> 0 <= wits[t] < self.contexts@.len()
                        && Self::suspicious(self.contexts@[wits[t]]) && out@[t].container_id@
                        == self.contexts@[wits[t]].container_id@,
            decreases self.contexts@.len() - j,
        {
            let c = &self.contexts[j];
            let ghost before = out@;
            let memhot = (c.memory_allocated as u64) * 10 > (c.policy.max_memory as u64) * 8;
            if memhot || c.function_calls > 10000 {
                out.push(
                    SecurityEvent {
                        event_type: SecurityEventType::SuspiciousActivity,
                        container_id: c.container_id.clone(),
                        severity: SecuritySeverity::Medium,
                        timestamp: now,
                        description: SecurityEventType::SuspiciousActivity.message().to_owned(),
                        metadata: Vec::new(),
                    },
                );
                proof {
                    wits = wits.push(j as int);
                }
            }
            proof {
                assert forall|i: int|
                    0 <= i < j + 1 && Self::suspicious(#[trigger] self.contexts@[i]) implies exists|
                    t: int,
                |
                    0 <= t < out@.len() && (#[trigger] out@[t].container_id@)
                        == self.contexts@[i].container_id@ by {
                    if i < j {
                        let t0 = choose|t: int|
                            0 <= t < before.len() && (#[trigger] before[t].container_id@)
                                == self.contexts@[i].container_id@;
                        assert(out@[t0].container_id@ == self.contexts@[i].container_id@);
                    } else {
                        assert(out@[out@.len() - 1].container_id@
                            == self.contexts@[i].container_id@);
                    }
                }
            }
            j += 1;
        }
        proof {
            assert forall|t: int| #![trigger out@[t]] 0 <= t < out@.len() implies exists|i: int|
                0 <= i < self.contexts@.len() && Self::suspicious(#[trigger] self.contexts@[i])
                    && out@[t].container_id@ == self.contexts@[i].container_id@ by {
                assert(Self::suspicious(self.contexts@[wits[t]]));
                assert(out@[t].container_id@ == self.contexts@[wits[t]].container_id@);
            }
        }
        out
    }
}


/// Violation counts and the freshest recorded events.
pub struct SecurityReport {
    pub generated_at: u64,
    pub total_containers: usize,
    pub total_violations: usize,
    pub critical_violations: u64,
    pub high_violations: u64,
    pub threat_detection_enabled: bool,
    pub recent_events: Vec<SecurityEvent>,
}

/// How many events from index `i` on carry severity `sev`.
pub open spec fn count_severity(es: Seq<SecurityEvent>, i: int, sev: SecuritySeverity) -> int
    decreases es.len() - i,
{
    if i < 0 || i >= es.len() {
        0
    } else {
        (if es[i].severity == sev {
            1int
        } else {
            0int
        }) + count_severity(es, i + 1, sev)
    }
}

proof fn lemma_count_severity_bound(es: Seq<SecurityEvent>, i: int, sev: SecuritySeverity)
    requires
        0 <= i <= es.len(),
    ensures
        0 <= count_severity(es, i, sev) <= es.len() - i,
    decreases es.len() - i,
{
    if i < es.len() {
        lemma_count_severity_bound(es, i + 1, sev);
    }
}

/// A copy of one event; the copy carries the same fields.
fn clone_event(e: &SecurityEvent) -> (r: SecurityEvent)
    ensures
        r.event_type == e.event_type,
        r.container_id@ == e.container_id@,
        r.severity == e.severity,
        r.timestamp == e.timestamp,
        r.description@ == e.description@,
        r.metadata@ == e.metadata@,
{
    let mut metadata: Vec<MetaPair> = Vec::new();
    let mut i: usize = 0;
    while i < e.metadata.len()
        invariant
            i <= e.metadata@.len(),
            metadata@.len() == i,
            forall|t: int| 0 <= t < i ==> metadata@[t] == e.metadata@[t],
        decreases e.metadata@.len() - i,
    {
        metadata.push(
            MetaPair { key: e.metadata[i].key.clone(), val: e.metadata[i].val.clone() },
        );
        i += 1;
    }
    proof {
        assert(metadata@ =~= e.metadata@);
    }
    SecurityEvent {
        event_type: e.event_type,
        container_id: e.container_id.clone(),
        severity: e.severity,
        timestamp: e.timestamp,
        description: e.description.clone(),
        metadata,
    }
}

impl SecurityManager {
    /// A point-in-time summary of one container's standing.
    pub fn get_container_security_status(&self, container_id: &str) -> (r: Option<SecurityStatus>)
        ensures
            ({
                let cs = self.contexts@;
                let k = ctx_find_from(cs, 0, container_id@);
                match r {
                    Some(st) => {
                        &&& k < cs.len()
                        &&& st.container_id@ == cs[k].container_id@
                        &&& st.isolation_level == cs[k].policy.isolation_level
                        &&& st.is_trusted == (cs[k].signature_verified
                            || !cs[k].policy.require_signature)
                        &&& st.memory_allocated == cs[k].memory_allocated
                        &&& st.memory_limit == cs[k].policy.max_memory
                        &&& st.function_calls == cs[k].function_calls
                        &&& st.security_events_count == cs[k].security_events@.len()
                        &&& st.last_violation == (if cs[k].security_events@.len() > 0 {
                            Some(cs[k].security_events@.last().timestamp)
                        } else {
                            None
                        })
                    },
                    None => k == cs.len(),
                }
            }),
    {
        let k = find_context(&self.contexts, container_id);
        proof {
            lemma_ctx_find_props(self.contexts@, 0, container_id@);
        }
        if k == self.contexts.len() {
            return None;
        }
        let c = &self.contexts[k];
        let last_violation = if c.security_events.len() > 0 {
            Some(c.security_events[c.security_events.len() - 1].timestamp)
        } else {
            None
        };
        Some(
            SecurityStatus {
                container_id: c.container_id.clone(),
                isolation_level: c.policy.isolation_level,
                is_trusted: c.is_trusted(),
                memory_allocated: c.memory_allocated,
                memory_limit: c.policy.max_memory,
                function_calls: c.function_calls,
                security_events_count: c.security_events.len(),
                last_violation,
            },
        )
    }

    /// Copies of a container's events, or of the global log.
    pub fn get_security_events(&self, container_id: Option<&str>) -> (r: Vec<SecurityEvent>)
        ensures
            ({
                match container_id {
                    Some(id) => {
                        let cs = self.contexts@;
                        let k = ctx_find_from(cs, 0, id@);
                        if k < cs.len() {
                            r@.len() == cs[k].security_events@.len() && forall|t: int|
                                0 <= t < r@.len() ==> (#[trigger] r@[t]).event_type
                                    == cs[k].security_events@[t].event_type && r@[t].severity
                                    == cs[k].security_events@[t].severity && r@[t].timestamp
                                    == cs[k].security_events@[t].timestamp
                        } else {
                            r@.len() == 0
                        }
                    },
                    None => r@.len() == self.security_events@.len() && forall|t: int|
                        0 <= t < r@.len() ==> (#[trigger] r@[t]).event_type
                            == self.security_events@[t].event_type && r@[t].severity
                            == self.security_events@[t].severity && r@[t].timestamp
                            == self.security_events@[t].timestamp,
                }
            }),
    {
        let mut out: Vec<SecurityEvent> = Vec::new();
        match container_id {
            Some(id) => {
                let k = find_context(&self.contexts, id);
                proof {
                    lemma_ctx_find_props(self.contexts@, 0, id@);
                }
                if k == self.contexts.len() {
                    return out;
                }
                let events = &self.contexts[k].security_events;
                let mut i: usize = 0;
                while i < events.len()
                    invariant
                        i <= events@.len(),
                        out@.len() == i,
                        forall|t: int|
                            0 <= t < i ==> (#[trigger] out@[t]).event_type
                                == events@[t].event_type && out@[t].severity
                                == events@[t].severity && out@[t].timestamp
                                == events@[t].timestamp,
                    decreases events@.len() - i,
                {
                    out.push(clone_event(&events[i]));
                    i += 1;
                }
                out
            },
            None => {
                let mut i: usize = 0;
                while i < self.security_events.len()
                    invariant
                        i <= self.security_events@.len(),
                        out@.len() == i,
                        forall|t: int|
                            0 <= t < i ==> (#[trigger] out@[t]).event_type
                                == self.security_events@[t].event_type && out@[t].severity
                                == self.security_events@[t].severity && out@[t].timestamp
                                == self.security_events@[t].timestamp,
                    decreases self.security_events@.len() - i,
                {
                    out.push(clone_event(&self.security_events[i]));
                    i += 1;
                }
                out
            },
        }
    }

    /// Count the recorded violations by severity and copy out the most
    /// recent events, up to ten.
    pub fn generate_security_report(&self, now: u64) -> (r: SecurityReport)
        ensures
            r.generated_at == now,
            r.total_containers == self.contexts@.len(),
            r.total_violations == self.security_events@.len(),
            r.critical_violations as int == count_severity(
                self.security_events@,
                0,
                SecuritySeverity::Critical,
            ),
            r.high_violations as int == count_severity(
                self.security_events@,
                0,
                SecuritySeverity::High,
            ),
            r.threat_detection_enabled == self.threat_detection_enabled,
            r.recent_events@.len() == if self.security_events@.len() <= 10 {
                self.security_events@.len() as int
            } else {
                10
            },
            forall|t: int|
                0 <= t < r.recent_events@.len() ==> (#[trigger] r.recent_events@[t]).timestamp
                    == self.security_events@[self.security_events@.len() - 1 - t].timestamp,
    {
        let ghost es = self.security_events@;
        let n = self.security_events.len();
        let mut crit: u64 = 0;
        let mut high: u64 = 0;
        let mut i: usize = n;
        while i > 0
            invariant
                i <= n,
                n == es.len(),
                es == self.security_events@,
                crit as int == count_severity(es, i as int, SecuritySeverity::Critical),
                high as int == count_severity(es, i as int, SecuritySeverity::High),
                crit as int <= n - i,
                high as int <= n - i,
            decreases i,
        {
            i -= 1;
            proof {
                lemma_count_severity_bound(es, i as int, SecuritySeverity::Critical);
                lemma_count_severity_bound(es, i as int, SecuritySeverity::High);
            }
            let sev = self.security_events[i].severity;
            if sev == SecuritySeverity::Critical {
                crit = crit + 1;
            }
            if sev == SecuritySeverity::High {
                high = high + 1;
            }
        }
        let mut recent: Vec<SecurityEvent> = Vec::new();
        let take: usize = if n <= 10 {
            n
        } else {
            10
        };
        let mut t: usize = 0;
        while t < take
            invariant
                t <= take,
                take <= n == es.len(),
                es == self.security_events@,
                recent@.len() == t,
                forall|x: int|
                    0 <= x < t ==> (#[trigger] recent@[x]).timestamp == es[es.len() - 1
                        - x].timestamp,
            decreases take - t,
        {
            recent.push(clone_event(&self.security_events[n - 1 - t]));
            t += 1;
        }
        SecurityReport {
            generated_at: now,
            total_containers: self.contexts.len(),
            total_violations: n,
            critical_violations: crit,
            high_violations: high,
            threat_detection_enabled: self.threat_detection_enabled,
            recent_events: recent,
        }
    }

    /// Drop recorded events older than the retention cutoff from the global
    /// log, the audit trail and every container's log. Everything younger
    /// stays, in order.
    #[verifier::loop_isolation(false)]
    pub fn cleanup_old_events(&mut self, cutoff: u64)
        ensures
            forall|t: int|
                0 <= t < final(self).security_events@.len()
                    ==> (#[trigger] final(self).security_events@[t]).timestamp > cutoff,
            forall|t: int|
                0 <= t < final(self).audit_log@.len()
                    ==> (#[trigger] final(self).audit_log@[t]).timestamp > cutoff,
            forall|j: int|
                0 <= j < old(self).security_events@.len()
                    && old(self).security_events@[j].timestamp > cutoff ==> exists|t: int|
                    0 <= t < final(self).security_events@.len()
                        && (#[trigger] final(self).security_events@[t]).timestamp
                        == old(self).security_events@[j].timestamp
                        && final(self).security_events@[t].event_type
                        == old(self).security_events@[j].event_type,
            forall|j: int|
                0 <= j < old(self).audit_log@.len() && old(self).audit_log@[j].timestamp > cutoff
                    ==> exists|t: int|
                    0 <= t < final(self).audit_log@.len()
                        && (#[trigger] final(self).audit_log@[t]).timestamp == old(
                        self,
                    ).audit_log@[j].timestamp && final(self).audit_log@[t].action == old(
                        self,
                    ).audit_log@[j].action,
            final(self).contexts@.len() == old(self).contexts@.len(),
            forall|j: int|
                0 <= j < final(self).contexts@.len() ==> {
                    let c1 = #[trigger] final(self).contexts@[j];
                    forall|t: int|
                        0 <= t < c1.security_events@.len()
                            ==> (#[trigger] c1.security_events@[t]).timestamp > cutoff
                },
            final(self).global_policy == old(self).global_policy,
            final(self).threat_detection_enabled == old(self).threat_detection_enabled,
    {
        let ghost es = self.security_events@;
        let mut kept: Vec<SecurityEvent> = Vec::new();
        let mut i: usize = 0;
        while i < self.security_events.len()
            invariant
                i <= es.len(),
                self.security_events@ == es,
                *self == *old(self),
                forall|t: int| 0 <= t < kept@.len() ==> (#[trigger] kept@[t]).timestamp > cutoff,
                forall|j: int|
                    0 <= j < i && es[j].timestamp > cutoff ==> exists|t: int|
                        0 <= t < kept@.len() && (#[trigger] kept@[t]).timestamp == es[j].timestamp
                            && kept@[t].event_type == es[j].event_type,
            decreases es.len() - i,
        {
            let ghost before = kept@;
            if self.security_events[i].timestamp > cutoff {
                kept.push(clone_event(&self.security_events[i]));
            }
            proof {
                assert forall|j: int| 0 <= j < i + 1 && es[j].timestamp > cutoff implies exists|
                    t: int,
                |
                    0 <= t < kept@.len() && (#[trigger] kept@[t]).timestamp == es[j].timestamp
                        && kept@[t].event_type == es[j].event_type by {
                    if j < i {
                        let t0 = choose|t: int|
                            0 <= t < before.len() && (#[trigger] before[t]).timestamp
                                == es[j].timestamp && before[t].event_type == es[j].event_type;
                        assert(kept@[t0] == before[t0]);
                    } else {
                        assert(kept@[kept@.len() - 1].timestamp == es[j].timestamp);
                    }
                }
            }
            i += 1;
        }
        self.security_events = kept;
        let ghost al = self.audit_log@;
        let mut kept_audit: Vec<AuditEntry> = Vec::new();
        let mut a: usize = 0;
        while a < self.audit_log.len()
            invariant
                a <= al.len(),
                self.audit_log@ == al,
                self.audit_log == old(self).audit_log,
                self.contexts == old(self).contexts,
                self.global_policy == old(self).global_policy,
                self.threat_detection_enabled == old(self).threat_detection_enabled,
                forall|t: int|
                    0 <= t < self.security_events@.len()
                        ==> (#[trigger] self.security_events@[t]).timestamp > cutoff,
                forall|j: int|
                    0 <= j < es.len() && es[j].timestamp > cutoff ==> exists|t: int|
                        0 <= t < self.security_events@.len()
                            && (#[trigger] self.security_events@[t]).timestamp == es[j].timestamp
                            && self.security_events@[t].event_type == es[j].event_type,
                forall|t: int|
                    0 <= t < kept_audit@.len() ==> (#[trigger] kept_audit@[t]).timestamp > cutoff,
                forall|j: int|
                    0 <= j < a && al[j].timestamp > cutoff ==> exists|t: int|
                        0 <= t < kept_audit@.len() && (#[trigger] kept_audit@[t]).timestamp
                            == al[j].timestamp && kept_audit@[t].action == al[j].action,
            decreases al.len() - a,
        {
            let ghost before_audit = kept_audit@;
            let e = &self.audit_log[a];
            if e.timestamp > cutoff {
                kept_audit.push(
                    AuditEntry {
                        action: e.action,
                        container_id: e.container_id.clone(),
                        timestamp: e.timestamp,
                    },
                );
            }
            proof {
                assert forall|j: int| 0 <= j < a + 1 && al[j].timestamp > cutoff implies exists|
                    t: int,
                |
                    0 <= t < kept_audit@.len() && (#[trigger] kept_audit@[t]).timestamp
                        == al[j].timestamp && kept_audit@[t].action == al[j].action by {
                    if j < a {
                        let t0 = choose|t: int|
                            0 <= t < before_audit.len() && (#[trigger] before_audit[t]).timestamp
                                == al[j].timestamp && before_audit[t].action == al[j].action;
                        assert(kept_audit@[t0] == before_audit[t0]);
                    } else {
                        assert(kept_audit@[kept_audit@.len() - 1].timestamp == al[j].timestamp);
                    }
                }
            }
            a += 1;
        }
        self.audit_log = kept_audit;
        let n = self.contexts.len();
        let mut j: usize = 0;
        while j < n
            invariant
                j <= n,
                n == self.contexts@.len(),
                self.contexts@.len() == old(self).contexts@.len(),
                self.global_policy == old(self).global_policy,
                self.threat_detection_enabled == old(self).threat_detection_enabled,
                forall|t: int|
                    0 <= t < self.security_events@.len()
                        ==> (#[trigger] self.security_events@[t]).timestamp > cutoff,
                forall|j2: int|
                    0 <= j2 < es.len() && es[j2].timestamp > cutoff ==> exists|t: int|
                        0 <= t < self.security_events@.len()
                            && (#[trigger] self.security_events@[t]).timestamp == es[j2].timestamp
                            && self.security_events@[t].event_type == es[j2].event_type,
                forall|t: int|
                    0 <= t < self.audit_log@.len()
                        ==> (#[trigger] self.audit_log@[t]).timestamp > cutoff,
                forall|q: int|
                    0 <= q < old(self).audit_log@.len() && old(self).audit_log@[q].timestamp
                        > cutoff ==> exists|t: int|
                        0 <= t < self.audit_log@.len() && (#[trigger] self.audit_log@[t]).timestamp
                            == old(self).audit_log@[q].timestamp && self.audit_log@[t].action
                            == old(self).audit_log@[q].action,
                forall|q: int|
                    0 <= q < j ==> {
                        let c1 = #[trigger] self.contexts@[q];
                        forall|t: int|
                            0 <= t < c1.security_events@.len()
                                ==> (#[trigger] c1.security_events@[t]).timestamp > cutoff
                    },
            decreases n - j,
        {
            let mut kept_ctx: Vec<SecurityEvent> = Vec::new();
            let mut c: usize = 0;
            let clen = self.contexts[j].security_events.len();
            while c < clen
                invariant
                    c <= clen,
                    j < self.contexts@.len(),
                    clen == self.contexts@[j as int].security_events@.len(),
                    forall|t: int|
                        0 <= t < kept_ctx@.len() ==> (#[trigger] kept_ctx@[t]).timestamp > cutoff,
                decreases clen - c,
            {
                if self.contexts[j].security_events[c].timestamp > cutoff {
                    kept_ctx.push(clone_event(&self.contexts[j].security_events[c]));
                }
                c += 1;
            }
            let ctx = &mut self.contexts[j];
            ctx.security_events = kept_ctx;
            j += 1;
        }
    }
}


} // verus!
