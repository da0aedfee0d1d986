use state_engine::errors::ErrorKind;
use state_engine::store::BatchUpdate;
use state_engine::store::Engine;
use state_engine::value::Field;
use state_engine::value::Value;

fn num(x: f64) -> Value {
    Value::Num(x.to_bits())
}

fn field(k: &str, v: Value) -> Field {
    Field { key: k.to_string(), value: v }
}

fn obj(fields: Vec<Field>) -> Value {
    Value::Obj(fields)
}

#[test]
fn set_then_select_count() {
    let mut e = Engine::new();
    e.init_store("a", obj(vec![field("count", num(0.0))])).unwrap();
    e.dispatch("a", "SET", obj(vec![field("count", num(5.0))])).unwrap();
    let got = e.select("a", "count").unwrap().unwrap();
    assert!(got.equals(&num(5.0)));
}

#[test]
fn update_nested_path() {
    let mut e = Engine::new();
    e.init_store("b", obj(vec![field("user", obj(vec![field("age", num(25.0))]))]))
        .unwrap();
    let payload = obj(vec![
        field("path", Value::Str("user.age".to_string())),
        field("value", num(26.0)),
    ]);
    e.dispatch("b", "UPDATE", payload).unwrap();
    let got = e.select("b", "user.age").unwrap().unwrap();
    assert!(got.equals(&num(26.0)));
}

#[test]
fn snapshot_restore_round_trip() {
    let mut e = Engine::new();
    e.init_store("c", obj(vec![field("v", num(10.0))])).unwrap();
    let id = e.create_snapshot("c", 1).unwrap();
    e.dispatch("c", "SET", obj(vec![field("v", num(20.0))])).unwrap();
    let mid = e.select("c", "v").unwrap().unwrap();
    assert!(mid.equals(&num(20.0)));
    e.restore_snapshot("c", &id).unwrap();
    let got = e.select("c", "v").unwrap().unwrap();
    assert!(got.equals(&num(10.0)));
}

#[test]
fn batch_applies_all_in_order() {
    let mut e = Engine::new();
    e.init_store(
        "d",
        obj(vec![
            field("a", num(1.0)),
            field("b", num(2.0)),
            field("c", num(3.0)),
        ]),
    )
    .unwrap();
    let mut batch = BatchUpdate::new("d");
    batch.add("SET", "", obj(vec![field("a", num(10.0))])).unwrap();
    batch.add("MERGE", "", obj(vec![field("b", num(20.0))])).unwrap();
    batch.add("UPDATE", "c", num(30.0)).unwrap();
    batch.execute(&mut e).unwrap();
    let got = e.select("d", "").unwrap().unwrap();
    let want = obj(vec![
        field("a", num(10.0)),
        field("b", num(20.0)),
        field("c", num(30.0)),
    ]);
    assert!(got.equals(&want));
}

#[test]
fn batch_failure_leaves_store_untouched() {
    let mut e = Engine::new();
    e.init_store("e", obj(vec![field("a", num(1.0))])).unwrap();
    let mut batch = BatchUpdate::new("e");
    batch.add("SET", "", obj(vec![field("a", num(9.0))])).unwrap();
    // "a" now holds a number, so descending through it must conflict.
    batch.add("UPDATE", "a.b", num(1.0)).unwrap();
    let err = batch.execute(&mut e).unwrap_err();
    assert_eq!(err.index, 1);
    assert_eq!(err.kind, ErrorKind::PathConflict);
    let got = e.select("e", "a").unwrap().unwrap();
    assert!(got.equals(&num(1.0)));
}

#[test]
fn duplicate_store_rejected() {
    let mut e = Engine::new();
    e.init_store("x", Value::Null).unwrap();
    assert_eq!(e.init_store("x", Value::Null).unwrap_err(), ErrorKind::Duplicate);
}

#[test]
fn select_missing_store_not_found() {
    let mut e = Engine::new();
    assert_eq!(e.select("ghostly", "").unwrap_err(), ErrorKind::NotFound);
}

#[test]
fn select_missing_path_is_undefined() {
    let mut e = Engine::new();
    e.init_store("u", obj(vec![field("a", num(1.0))])).unwrap();
    assert!(e.select("u", "b").unwrap().is_none());
}

#[test]
fn unknown_op_rejected() {
    let mut e = Engine::new();
    e.init_store("k", Value::Null).unwrap();
    assert_eq!(
        e.dispatch("k", "FROB", Value::Null).unwrap_err(),
        ErrorKind::UnknownOp
    );
}

#[test]
fn update_through_scalar_conflicts() {
    let mut e = Engine::new();
    e.init_store("p", obj(vec![field("a", num(1.0))])).unwrap();
    let payload = obj(vec![
        field("path", Value::Str("a.b".to_string())),
        field("value", num(2.0)),
    ]);
    assert_eq!(e.dispatch("p", "UPDATE", payload).unwrap_err(), ErrorKind::PathConflict);
}

#[test]
fn update_payload_without_fields_rejected() {
    let mut e = Engine::new();
    e.init_store("q", Value::Null).unwrap();
    assert_eq!(
        e.dispatch("q", "UPDATE", num(3.0)).unwrap_err(),
        ErrorKind::SerializationError
    );
}

#[test]
fn merge_into_non_mapping_conflicts() {
    let mut e = Engine::new();
    e.init_store("m", num(1.0)).unwrap();
    assert_eq!(
        e.dispatch("m", "MERGE", obj(vec![field("a", num(1.0))]))
            .unwrap_err(),
        ErrorKind::PathConflict
    );
}

#[test]
fn merge_extends_and_overwrites() {
    let mut e = Engine::new();
    e.init_store("g", obj(vec![field("a", num(1.0)), field("b", num(2.0))]))
        .unwrap();
    e.dispatch("g", "MERGE", obj(vec![field("b", num(9.0)), field("c", num(3.0))]))
        .unwrap();
    let got = e.select("g", "").unwrap().unwrap();
    let want = obj(vec![
        field("a", num(1.0)),
        field("b", num(9.0)),
        field("c", num(3.0)),
    ]);
    assert!(got.equals(&want));
}

#[test]
fn version_strictly_monotonic() {
    let mut e = Engine::new();
    e.init_store("v", Value::Null).unwrap();
    let v0 = e.stores[0].version;
    e.dispatch("v", "SET", num(1.0)).unwrap();
    let v1 = e.stores[0].version;
    e.dispatch("v", "SET", num(2.0)).unwrap();
    let v2 = e.stores[0].version;
    assert!(v0 < v1 && v1 < v2);
}

#[test]
fn subscribers_notified_per_commit() {
    let mut e = Engine::new();
    e.init_store("s", Value::Null).unwrap();
    let id1 = e.subscribe("s").unwrap();
    let id2 = e.subscribe("s").unwrap();
    assert_ne!(id1, id2);
    e.dispatch("s", "SET", num(1.0)).unwrap();
    assert_eq!(e.pending.len(), 2);
    assert_eq!(e.pending[0].sub_id, id1);
    assert_eq!(e.pending[1].sub_id, id2);
    assert!(e.pending[0].root.equals(&num(1.0)));
}

#[test]
fn unsubscribe_removes_only_the_identified_subscription() {
    let mut e = Engine::new();
    e.init_store("t", Value::Null).unwrap();
    let id1 = e.subscribe("t").unwrap();
    let id2 = e.subscribe("t").unwrap();
    e.unsubscribe(&id1);
    e.dispatch("t", "SET", num(1.0)).unwrap();
    assert_eq!(e.pending.len(), 1);
    assert_eq!(e.pending[0].sub_id, id2);
    // A second unsubscribe of the same id is a no-op.
    e.unsubscribe(&id1);
    assert_eq!(e.stores[0].subs.len(), 1);
}

#[test]
fn restore_missing_snapshot_not_found() {
    let mut e = Engine::new();
    e.init_store("r", Value::Null).unwrap();
    assert_eq!(
        e.restore_snapshot("r", "snap_999").unwrap_err(),
        ErrorKind::NotFound
    );
}

#[test]
fn engine_metrics_count_holdings() {
    let mut e = Engine::new();
    e.init_store("one", Value::Null).unwrap();
    e.init_store("two", Value::Null).unwrap();
    e.subscribe("one").unwrap();
    e.create_snapshot("two", 7).unwrap();
    let m = e.get_metrics();
    assert_eq!(m.store_count, 2);
    assert_eq!(m.subscriber_count, 1);
    assert_eq!(m.snapshot_count, 1);
}

#[test]
fn subscribe_missing_store_not_found() {
    let mut e = Engine::new();
    assert_eq!(e.subscribe("none").unwrap_err(), ErrorKind::NotFound);
}

#[test]
fn set_returns_post_commit_root() {
    let mut e = Engine::new();
    e.init_store("w", Value::Null).unwrap();
    let root = e.dispatch("w", "SET", obj(vec![field("z", num(4.0))])).unwrap();
    assert!(root.equals(&obj(vec![field("z", num(4.0))])));
}

#[test]
fn issued_ids_carry_the_counter() {
    let mut e = Engine::new();
    e.init_store("ids", Value::Null).unwrap();
    assert_eq!(e.subscribe("ids").unwrap(), "sub_0");
    assert_eq!(e.subscribe("ids").unwrap(), "sub_1");
    assert_eq!(e.create_snapshot("ids", 0).unwrap(), "snap_2");
}

#[test]
fn cleanup_trims_the_path_cache() {
    let mut e = Engine::new();
    e.init_store("c", obj(vec![field("a", num(1.0))])).unwrap();
    e.select("c", "a").unwrap();
    assert_eq!(e.get_metrics().path_cache_size, 1);
    e.cleanup();
    // The ceiling is far above one entry, so nothing needed to leave.
    assert!(e.get_metrics().path_cache_size <= 1);
}

#[test]
fn take_pending_hands_over_and_empties_the_queue() {
    let mut e = Engine::new();
    e.init_store("q", Value::Null).unwrap();
    let id = e.subscribe("q").unwrap();
    e.dispatch("q", "SET", num(3.0)).unwrap();
    let taken = e.take_pending();
    assert_eq!(taken.len(), 1);
    assert_eq!(taken[0].sub_id, id);
    assert!(taken[0].root.equals(&num(3.0)));
    assert_eq!(e.pending.len(), 0);
}
