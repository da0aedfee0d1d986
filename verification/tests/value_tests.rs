use state_engine::path::PathCache;
use state_engine::path::parse_segments;
use state_engine::value::Field;
use state_engine::value::Value;

fn num(x: f64) -> Value {
    Value::Num(x.to_bits())
}

fn field(k: &str, v: Value) -> Field {
    Field { key: k.to_string(), value: v }
}

#[test]
fn parse_splits_on_dots() {
    let segs = parse_segments("a.b.c");
    assert_eq!(segs, vec!["a".to_string(), "b".to_string(), "c".to_string()]);
}

#[test]
fn parse_empty_path_is_root() {
    let segs = parse_segments("");
    assert_eq!(segs.len(), 0);
}

#[test]
fn parse_keeps_empty_segments() {
    assert_eq!(
        parse_segments("a..b"),
        vec!["a".to_string(), "".to_string(), "b".to_string()]
    );
    assert_eq!(parse_segments("."), vec!["".to_string(), "".to_string()]);
}

#[test]
fn parse_is_deterministic_through_the_cache() {
    let mut cache = PathCache::new(100);
    let first = cache.parse("x.y");
    let second = cache.parse("x.y");
    assert_eq!(first, second);
    assert_eq!(first, parse_segments("x.y"));
    assert_eq!(cache.len(), 1);
}

#[test]
fn cache_evicts_oldest_half_at_ceiling() {
    let mut cache = PathCache::new(4);
    cache.parse("a");
    cache.parse("b");
    cache.parse("c");
    cache.parse("d");
    assert_eq!(cache.len(), 4);
    let segs = cache.parse("e");
    assert_eq!(segs, vec!["e".to_string()]);
    assert!(cache.len() <= 4);
}

#[test]
fn codec_round_trips_a_nested_tree() {
    let v = Value::Obj(vec![
        field("title", Value::Str("engine".to_string())),
        field("on", Value::Bool(true)),
        field("nothing", Value::Null),
        field("pi", num(3.5)),
        field(
            "items",
            Value::Arr(vec![num(1.0), Value::Str("two".to_string()), Value::Bool(false)]),
        ),
        field("inner", Value::Obj(vec![field("k", num(-2.0))])),
    ]);
    let bytes = v.compress();
    let back = Value::decompress(&bytes).unwrap();
    assert!(back.equals(&v));
}

#[test]
fn codec_rejects_trailing_garbage() {
    let v = num(1.0);
    let mut bytes = v.compress();
    bytes.push(0u8);
    assert!(Value::decompress(&bytes).is_none());
}

#[test]
fn codec_rejects_unknown_tag() {
    let bytes: Vec<u8> = vec![9u8];
    assert!(Value::decompress(&bytes).is_none());
}

#[test]
fn equals_distinguishes_shape_and_content() {
    assert!(Value::Null.equals(&Value::Null));
    assert!(!Value::Null.equals(&Value::Bool(false)));
    assert!(num(1.0).equals(&num(1.0)));
    assert!(!num(1.0).equals(&num(2.0)));
    let a = Value::Arr(vec![num(1.0), num(2.0)]);
    let b = Value::Arr(vec![num(1.0), num(2.0)]);
    let c = Value::Arr(vec![num(1.0)]);
    assert!(a.equals(&b));
    assert!(!a.equals(&c));
}

#[test]
fn merge_overwrites_and_appends_fields() {
    let mut base = Value::Obj(vec![field("a", num(1.0)), field("b", num(2.0))]);
    let add = Value::Obj(vec![field("b", num(9.0)), field("c", num(3.0))]);
    base.merge(&add);
    let want = Value::Obj(vec![
        field("a", num(1.0)),
        field("b", num(9.0)),
        field("c", num(3.0)),
    ]);
    assert!(base.equals(&want));
}

#[test]
fn merge_of_non_mappings_replaces() {
    let mut v = num(1.0);
    v.merge(&Value::Bool(true));
    assert!(v.equals(&Value::Bool(true)));
}

#[test]
fn size_counts_members_and_overhead() {
    assert_eq!(Value::Null.size(), 0);
    assert_eq!(Value::Bool(true).size(), 1);
    assert_eq!(num(1.0).size(), 8);
    assert_eq!(Value::Str("abc".to_string()).size(), 3);
    // [8, 8] + 24 overhead
    assert_eq!(Value::Arr(vec![num(1.0), num(2.0)]).size(), 40);
    // key "k" (1) + 8 + 24 overhead
    assert_eq!(Value::Obj(vec![field("k", num(1.0))]).size(), 33);
}

#[test]
fn deep_clone_is_equal_and_independent() {
    let v = Value::Obj(vec![field("a", Value::Arr(vec![num(1.0)]))]);
    let c = v.deep_clone();
    assert!(c.equals(&v));
}
