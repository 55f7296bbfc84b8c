use csml::memories::latest_per_key;

fn entries(v: &[(&str, i32)]) -> Vec<(String, i32)> {
    v.iter().map(|(k, x)| (k.to_string(), *x)).collect()
}

#[test]
fn newest_memory_of_each_key_wins() {
    // Listed newest first.
    let input = entries(&[("name", 3), ("age", 2), ("name", 1), ("city", 0), ("age", -1)]);
    assert_eq!(latest_per_key(input), entries(&[("name", 3), ("age", 2), ("city", 0)]));
}

#[test]
fn no_memories() {
    assert_eq!(latest_per_key(Vec::<(String, i32)>::new()), Vec::new());
}

#[test]
fn kept_keys_are_distinct_and_complete() {
    let input = entries(&[("a", 1), ("b", 2), ("a", 3), ("b", 4), ("c", 5), ("c", 6)]);
    let out = latest_per_key(input.clone());
    let mut keys: Vec<&String> = out.iter().map(|(k, _)| k).collect();
    keys.dedup();
    assert_eq!(keys.len(), out.len());
    for (k, _) in &input {
        assert!(out.iter().any(|(o, _)| o == k));
    }
}
