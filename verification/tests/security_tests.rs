use sha2::Digest;
use state_engine::errors::ErrorKind;
use state_engine::security::AuditAction;
use state_engine::security::SecurityManager;
use state_engine::security::SecurityPolicy;

fn allow_only_increment() -> SecurityPolicy {
    let mut p = SecurityPolicy::default();
    p.allowed_functions = vec!["increment".to_string()];
    p
}

#[test]
fn whitelist_denies_and_admits() {
    let mut m = SecurityManager::new();
    m.apply_policy("k", allow_only_increment(), 0).unwrap();
    assert_eq!(
        m.validate_function_call("k", "decrement", 1).unwrap_err(),
        ErrorKind::PolicyViolation
    );
    m.validate_function_call("k", "increment", 2).unwrap();
}

#[test]
fn blocked_precedes_allowed() {
    let mut m = SecurityManager::new();
    let mut p = SecurityPolicy::permissive();
    p.blocked_functions = vec!["format_disk".to_string()];
    m.apply_policy("b", p, 0).unwrap();
    assert_eq!(
        m.validate_function_call("b", "format_disk", 1).unwrap_err(),
        ErrorKind::PolicyViolation
    );
    m.validate_function_call("b", "anything_else", 2).unwrap();
}

#[test]
fn empty_allow_list_admits_everything() {
    let mut m = SecurityManager::new();
    m.apply_policy("p", SecurityPolicy::permissive(), 0).unwrap();
    m.validate_function_call("p", "whatever", 1).unwrap();
}

#[test]
fn memory_budget_enforced() {
    let mut m = SecurityManager::new();
    let mut p = SecurityPolicy::default();
    p.max_memory = 100;
    m.apply_policy("m", p, 0).unwrap();
    m.validate_memory_allocation("m", 60, 1).unwrap();
    assert_eq!(
        m.validate_memory_allocation("m", 60, 2).unwrap_err(),
        ErrorKind::QuotaExceeded
    );
    m.deallocate_memory("m", 60, 3);
    m.validate_memory_allocation("m", 60, 4).unwrap();
}

#[test]
fn execution_time_budget_enforced() {
    let mut m = SecurityManager::new();
    let mut p = SecurityPolicy::default();
    p.max_execution_time = 1000;
    m.apply_policy("t", p, 0).unwrap();
    m.start_execution("t", 10_000).unwrap();
    m.validate_function_call("t", "increment", 10_500).unwrap();
    assert_eq!(
        m.validate_function_call("t", "increment", 12_000).unwrap_err(),
        ErrorKind::QuotaExceeded
    );
}

#[test]
fn signature_checked_against_sha256_hex() {
    let mut m = SecurityManager::new();
    let mut p = SecurityPolicy::default();
    p.require_signature = true;
    m.apply_policy("s", p, 0).unwrap();
    let data = b"the payload";
    let good = format!("{:x}", sha2::Sha256::digest(data));
    m.verify_container_signature("s", &good, data, 1).unwrap();
    // A signature over different bytes must not verify.
    let bad = format!("{:x}", sha2::Sha256::digest(b"other payload"));
    assert_eq!(
        m.verify_container_signature("s", &bad, data, 2).unwrap_err(),
        ErrorKind::PolicyViolation
    );
}

#[test]
fn critical_violation_blocks_the_container() {
    let mut m = SecurityManager::new();
    let mut p = SecurityPolicy::permissive();
    p.require_signature = true;
    m.apply_policy("c", p, 0).unwrap();
    // Everything is allowed before the violation.
    m.validate_function_call("c", "free_run", 1).unwrap();
    // Plenty of memory fits under the permissive policy.
    m.validate_memory_allocation("c", 0x2000000, 1).unwrap();
    m.deallocate_memory("c", 0x2000000, 1);
    let wrong = "0000";
    assert_eq!(
        m.verify_container_signature("c", wrong, b"data", 2).unwrap_err(),
        ErrorKind::PolicyViolation
    );
    // The strict fallback policy caps memory at sixteen mebibytes.
    assert_eq!(
        m.validate_memory_allocation("c", 0x2000000, 3).unwrap_err(),
        ErrorKind::QuotaExceeded
    );
}

#[test]
fn signature_not_required_is_accepted() {
    let mut m = SecurityManager::new();
    m.apply_policy("n", SecurityPolicy::default(), 0).unwrap();
    m.verify_container_signature("n", "anything", b"data", 1).unwrap();
}

#[test]
fn audit_log_mirrors_the_actions() {
    let mut m = SecurityManager::new();
    m.apply_policy("a", SecurityPolicy::permissive(), 0).unwrap();
    m.validate_function_call("a", "go", 1).unwrap();
    m.validate_memory_allocation("a", 10, 2).unwrap();
    m.deallocate_memory("a", 10, 3);
    m.cleanup_container("a", 4);
    let log = m.get_audit_log();
    let actions: Vec<AuditAction> = log.iter().map(|e| e.action).collect();
    assert_eq!(
        actions,
        vec![
            AuditAction::PolicyApplied,
            AuditAction::FunctionCalled,
            AuditAction::MemoryAllocated,
            AuditAction::MemoryDeallocated,
            AuditAction::ContainerCleaned,
        ]
    );
}

#[test]
fn threat_flags_hot_memory_without_blocking() {
    let mut m = SecurityManager::new();
    let mut p = SecurityPolicy::default();
    p.max_memory = 100;
    m.apply_policy("h", p, 0).unwrap();
    m.validate_memory_allocation("h", 90, 1).unwrap();
    let flags = m.detect_threats(2);
    assert_eq!(flags.len(), 1);
    assert_eq!(flags[0].container_id, "h");
    // Flagging must not touch the container's permissions.
    m.validate_function_call("h", "increment", 3).unwrap();
}

#[test]
fn missing_container_is_not_found() {
    let mut m = SecurityManager::new();
    assert_eq!(
        m.validate_function_call("nobody", "f", 0).unwrap_err(),
        ErrorKind::NotFound
    );
}

#[test]
fn report_counts_by_severity() {
    let mut m = SecurityManager::new();
    let mut p = SecurityPolicy::default();
    p.require_signature = true;
    p.allowed_functions = vec!["go".to_string()];
    m.apply_policy("r", p, 0).unwrap();
    // One medium violation (function), one critical (signature).
    let _ = m.validate_function_call("r", "stop", 1);
    let _ = m.verify_container_signature("r", "bad", b"x", 2);
    let rep = m.generate_security_report(3);
    assert_eq!(rep.total_containers, 1);
    assert_eq!(rep.total_violations, 2);
    assert_eq!(rep.critical_violations, 1);
    assert_eq!(rep.high_violations, 0);
    assert_eq!(rep.recent_events.len(), 2);
    // Most recent first.
    assert_eq!(rep.recent_events[0].timestamp, 2);
}

#[test]
fn old_events_expire() {
    let mut m = SecurityManager::new();
    m.apply_policy("e", allow_only_increment(), 0).unwrap();
    let _ = m.validate_function_call("e", "nope", 100);
    let _ = m.validate_function_call("e", "nope", 5000);
    assert_eq!(m.get_security_events(None).len(), 2);
    m.cleanup_old_events(1000);
    let left = m.get_security_events(None);
    assert_eq!(left.len(), 1);
    assert_eq!(left[0].timestamp, 5000);
}

#[test]
fn status_summarises_the_context() {
    let mut m = SecurityManager::new();
    let mut p = SecurityPolicy::default();
    p.max_memory = 500;
    m.apply_policy("st", p, 0).unwrap();
    m.validate_memory_allocation("st", 200, 1).unwrap();
    m.validate_function_call("st", "increment", 2).unwrap();
    let st = m.get_container_security_status("st").unwrap();
    assert_eq!(st.memory_allocated, 200);
    assert_eq!(st.memory_limit, 500);
    assert_eq!(st.function_calls, 1);
    assert!(st.is_trusted);
    assert!(st.last_violation.is_none());
}

#[test]
fn events_carry_their_messages() {
    let mut m = SecurityManager::new();
    m.apply_policy("msg", allow_only_increment(), 0).unwrap();
    let _ = m.validate_function_call("msg", "forbidden", 1);
    let events = m.get_security_events(None);
    assert_eq!(events.len(), 1);
    assert_eq!(events[0].description, "the function is not allowed");
}
