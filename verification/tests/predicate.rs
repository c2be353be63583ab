use netgraph::predicate::{
    clone_path, hash_str, path_seed, paths_equal, Params, Predicate, HASH_OFFSET,
};

fn params(entries: &[(&str, &str)]) -> Params {
    let mut made = Params::new();
    for (key, value) in entries {
        made = made.with(key.to_string(), value.to_string());
    }
    made
}

fn predicate(variant: &str, entries: &[(&str, &str)]) -> Predicate {
    Predicate::new(variant.to_string(), params(entries))
}

#[test]
fn params_are_kept_in_order_of_key() {
    let made = params(&[("rule", "match"), ("filter", "10.0.0.1"), ("addr", "x")]);
    assert_eq!(made.len(), 3);
    assert_eq!(made.key_at(0), "addr");
    assert_eq!(made.key_at(1), "filter");
    assert_eq!(made.key_at(2), "rule");
    assert_eq!(made.value_at(1), "10.0.0.1");
}

#[test]
fn params_overwrite_and_look_up() {
    let made = params(&[("rule", "match"), ("rule", "non-match")]);
    assert_eq!(made.len(), 1);
    assert_eq!(made.get("rule"), Some(&"non-match".to_string()));
    assert_eq!(made.get("filter"), None);
    assert_eq!(Params::new().len(), 0);
    assert_eq!(Params::new().get("rule"), None);
}

#[test]
fn params_equality_ignores_insertion_order() {
    let one = params(&[("rule", "match"), ("filter", "a")]);
    let other = params(&[("filter", "a"), ("rule", "match")]);
    assert_eq!(one, other);
    assert!(one != params(&[("filter", "a"), ("rule", "non-match")]));
    assert!(one != params(&[("filter", "a")]));
    assert_eq!(one.clone(), one);
}

#[test]
fn predicate_equality_and_accessors() {
    let one = predicate("core:drop", &[]);
    assert_eq!(one.variant(), "core:drop");
    assert_eq!(one.params().len(), 0);
    assert_eq!(one, one.clone());
    assert!(one != predicate("core:accept", &[]));
    let path = vec![predicate("core:source", &[]), one];
    let copy = clone_path(&path);
    assert!(paths_equal(&path, &copy));
    assert!(!paths_equal(&path, &vec![predicate("core:source", &[])]));
    assert!(!paths_equal(&path, &vec![predicate("core:source", &[]), predicate("x", &[])]));
}

#[test]
fn content_hash_has_known_values() {
    assert_eq!(hash_str(HASH_OFFSET, ""), 12638352127299873646);
    assert_eq!(hash_str(HASH_OFFSET, "a"), 620310408636712809);
    assert_eq!(predicate("core:drop", &[]).hash(HASH_OFFSET), 16508457961724443042);
    let path = vec![predicate("core:source", &[]), predicate("core:drop", &[])];
    assert_eq!(path_seed(&path), 6670442418578424961);
    assert_eq!(path_seed(&Vec::new()), HASH_OFFSET);
}

#[test]
fn content_hash_ignores_insertion_order_of_params() {
    let one = vec![predicate("core:source_address_filter", &[("rule", "match"), ("filter", "a")])];
    let other = vec![predicate("core:source_address_filter", &[("filter", "a"), ("rule", "match")])];
    assert_eq!(path_seed(&one), path_seed(&other));
    let third = vec![predicate("core:source_address_filter", &[("filter", "a"), ("rule", "x")])];
    assert_ne!(path_seed(&one), path_seed(&third));
}
