use mergson::merge::{merge, template_ready};
use mergson::value::{clone_tree, JsonValue};

fn num(s: &str) -> JsonValue {
    JsonValue::Number(s.to_string())
}

fn obj(entries: Vec<(&str, JsonValue)>) -> JsonValue {
    JsonValue::Object(entries.into_iter().map(|(k, v)| (k.to_string(), v)).collect())
}

#[test]
fn merges_missing_and_nested_keys() {
    let template = obj(vec![("a", num("1")), ("b", obj(vec![("c", num("2"))]))]);
    let target = obj(vec![("b", obj(vec![("d", num("3"))]))]);
    let (merged, count) = merge(&template, target);
    let expected = obj(vec![
        ("b", obj(vec![("d", num("3")), ("c", num("2"))])),
        ("a", num("1")),
    ]);
    assert_eq!(merged, expected);
    assert_eq!(count, 2);
}

#[test]
fn target_wins_on_type_conflict() {
    let template = obj(vec![("a", obj(vec![("x", num("1"))]))]);
    let target = obj(vec![("a", num("5"))]);
    let (merged, count) = merge(&template, target);
    assert_eq!(merged, obj(vec![("a", num("5"))]));
    assert_eq!(count, 0);
}

#[test]
fn empty_template_changes_nothing() {
    let template = obj(vec![]);
    let target = obj(vec![("k", num("1"))]);
    let (merged, count) = merge(&template, target);
    assert_eq!(merged, obj(vec![("k", num("1"))]));
    assert_eq!(count, 0);
}

#[test]
fn existing_leaf_is_never_overwritten() {
    let template = obj(vec![("k", num("1"))]);
    let target = obj(vec![("k", num("2"))]);
    let (merged, count) = merge(&template, target);
    assert_eq!(merged, obj(vec![("k", num("2"))]));
    assert_eq!(count, 0);
}

#[test]
fn non_object_template_changes_nothing() {
    let template = JsonValue::Array(vec![num("1")]);
    let target = obj(vec![("k", num("1"))]);
    let (merged, count) = merge(&template, target);
    assert_eq!(merged, obj(vec![("k", num("1"))]));
    assert_eq!(count, 0);
}

#[test]
fn inserted_subtree_counts_once() {
    let template = obj(vec![("a", obj(vec![("x", num("1")), ("y", num("2"))]))]);
    let target = obj(vec![]);
    let (merged, count) = merge(&template, target);
    assert_eq!(
        merged,
        obj(vec![("a", obj(vec![("x", num("1")), ("y", num("2"))]))])
    );
    assert_eq!(count, 1);
}

#[test]
fn arrays_are_opaque_leaves() {
    let template = obj(vec![("a", JsonValue::Array(vec![num("1")]))]);
    let target = obj(vec![("a", JsonValue::Array(vec![num("9"), num("8")]))]);
    let (merged, count) = merge(&template, target);
    assert_eq!(
        merged,
        obj(vec![("a", JsonValue::Array(vec![num("9"), num("8")]))])
    );
    assert_eq!(count, 0);
}

#[test]
fn merge_is_idempotent_on_a_sample() {
    let template = obj(vec![
        ("a", num("1")),
        ("b", obj(vec![("c", num("2")), ("d", obj(vec![("e", JsonValue::Bool(true))]))])),
    ]);
    let target = obj(vec![("b", obj(vec![("d", obj(vec![]))])), ("z", JsonValue::Null)]);
    let (once, count_once) = merge(&template, target);
    assert_eq!(count_once, 3);
    let (twice, count_twice) = merge(&template, clone_tree(&once));
    assert_eq!(twice, once);
    assert_eq!(count_twice, 0);
}

#[test]
fn existing_paths_keep_their_values() {
    let template = obj(vec![("a", obj(vec![("x", num("1"))])), ("b", num("7"))]);
    let target = obj(vec![
        ("a", obj(vec![("x", num("100"))])),
        ("b", JsonValue::Text("keep".to_string())),
        ("c", num("3")),
    ]);
    let (merged, count) = merge(&template, clone_tree(&target));
    assert_eq!(count, 0);
    assert_eq!(merged, target);
}

#[test]
fn template_only_paths_arrive_deep_equal() {
    let deep = obj(vec![("inner", obj(vec![("leaf", num("42"))]))]);
    let template = obj(vec![("fresh", clone_tree(&deep))]);
    let target = obj(vec![("other", num("0"))]);
    let (merged, count) = merge(&template, target);
    assert_eq!(count, 1);
    assert_eq!(merged, obj(vec![("other", num("0")), ("fresh", deep)]));
}

#[test]
fn template_ready_accepts_unique_keys() {
    let template = obj(vec![("a", num("1")), ("b", obj(vec![("c", num("2"))]))]);
    assert!(template_ready(&template));
}

#[test]
fn template_ready_rejects_duplicate_keys() {
    let template = obj(vec![("a", num("1")), ("a", num("2"))]);
    assert!(!template_ready(&template));
}

#[test]
fn clone_tree_copies_deeply() {
    let v = obj(vec![
        ("a", JsonValue::Array(vec![num("1"), JsonValue::Text("s".to_string())])),
        ("b", JsonValue::Null),
    ]);
    assert_eq!(clone_tree(&v), v);
}
