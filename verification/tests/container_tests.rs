use state_engine::container::Container;
use state_engine::container::ContainerConfig;
use state_engine::container::ContainerStatus;
use state_engine::errors::ErrorKind;
use state_engine::runtime::RuntimeType;
use state_engine::value::Field;
use state_engine::value::Value;

fn num(x: f64) -> Value {
    Value::Num(x.to_bits())
}

fn config(id: &str, name: &str) -> ContainerConfig {
    ContainerConfig {
        id: id.to_string(),
        name: name.to_string(),
        wasm_url: None,
        initial_state: Value::Obj(vec![Field { key: "count".to_string(), value: num(0.0) }]),
        memory_limit: 1024,
        enable_metrics: true,
        enable_security: true,
        runtime_type: RuntimeType::Browser,
    }
}

#[test]
fn lifecycle_created_to_stopped() {
    let mut c = Container::new(config("c1", "first"), 10);
    assert_eq!(*c.get_status(), ContainerStatus::Created);
    c.start().unwrap();
    assert_eq!(*c.get_status(), ContainerStatus::Starting);
    c.mark_running().unwrap();
    assert!(c.is_running());
    c.pause().unwrap();
    assert_eq!(*c.get_status(), ContainerStatus::Paused);
    assert!(c.health_check());
    c.resume().unwrap();
    c.stop();
    assert_eq!(*c.get_status(), ContainerStatus::Stopped);
    assert!(!c.health_check());
}

#[test]
fn calls_gated_on_running() {
    let mut c = Container::new(config("c2", "second"), 10);
    assert_eq!(c.begin_call(11).unwrap_err(), ErrorKind::Transient);
    c.mark_running().unwrap();
    c.begin_call(12).unwrap();
    assert_eq!(c.get_last_accessed(), 12);
}

#[test]
fn call_results_land_under_count() {
    let mut c = Container::new(config("c3", "third"), 10);
    c.mark_running().unwrap();
    c.record_result(num(7.0), 20);
    let got = c.get_state();
    let want = Value::Obj(vec![Field { key: "count".to_string(), value: num(7.0) }]);
    assert!(got.equals(&want));
}

#[test]
fn reset_restores_the_initial_state() {
    let mut c = Container::new(config("c4", "fourth"), 10);
    c.mark_running().unwrap();
    c.record_result(num(9.0), 20);
    c.reset_state();
    assert!(c.get_state().equals(&config("c4", "fourth").initial_state));
}

#[test]
fn id_and_name_cannot_change() {
    let mut c = Container::new(config("c5", "fifth"), 10);
    let renamed = config("c5", "renamed");
    assert_eq!(c.update_config(renamed).unwrap_err(), ErrorKind::PolicyViolation);
    let mut fine = config("c5", "fifth");
    fine.memory_limit = 2048;
    c.update_config(fine).unwrap();
    assert_eq!(c.get_id(), "c5");
    assert_eq!(c.get_name(), "fifth");
}

#[test]
fn pause_needs_running() {
    let mut c = Container::new(config("c6", "sixth"), 10);
    assert_eq!(c.pause().unwrap_err(), ErrorKind::Transient);
    assert_eq!(c.resume().unwrap_err(), ErrorKind::Transient);
}

#[test]
fn status_names() {
    assert_eq!(ContainerStatus::Running.to_string(), "running");
    assert_eq!(ContainerStatus::Stopped.to_string(), "stopped");
}

#[test]
fn error_marking() {
    let mut c = Container::new(config("c7", "seventh"), 10);
    c.mark_error();
    assert_eq!(*c.get_status(), ContainerStatus::Error);
    assert_eq!(c.mark_running().unwrap_err(), ErrorKind::Transient);
}
