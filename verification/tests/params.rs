use spell_codec::SpellParams;

#[test]
fn params_start_empty() {
    let params = SpellParams::new();
    assert_eq!(params.len(), 0);
    assert!(params.is_empty());
    assert_eq!(params.get("_x"), None);
}

#[test]
fn insert_binds_and_rebinds() {
    let mut params = SpellParams::new();
    assert_eq!(params.insert("a".to_string(), 1), None);
    assert_eq!(params.insert("b".to_string(), 2), None);
    assert_eq!(params.insert("a".to_string(), 3), Some(1));
    assert_eq!(params.len(), 2);
    assert!(!params.is_empty());
    assert_eq!(params.key_at(0), "a");
    assert_eq!(params.side_at(0), 3);
    assert_eq!(params.key_at(1), "b");
    assert_eq!(params.side_at(1), 2);
    assert_eq!(params.get("a"), Some(3));
    assert_eq!(params.get("b"), Some(2));
    assert_eq!(params.get("c"), None);
}

#[test]
fn clone_keeps_the_bindings() {
    let mut params = SpellParams::new();
    params.insert("a".to_string(), 1);
    params.insert("b".to_string(), 2);
    let copy = params.clone();
    assert_eq!(copy, params);
    assert_eq!(copy.len(), 2);
    assert_eq!(copy.get("b"), Some(2));
}

#[test]
fn equality_ignores_the_order_of_bindings() {
    let mut first = SpellParams::new();
    first.insert("a".to_string(), 1);
    first.insert("b".to_string(), 2);
    let mut second = SpellParams::new();
    second.insert("b".to_string(), 2);
    second.insert("a".to_string(), 1);
    assert_eq!(first, second);
    assert_eq!(second, first);

    let mut other_side = SpellParams::new();
    other_side.insert("a".to_string(), 1);
    other_side.insert("b".to_string(), 3);
    assert_ne!(first, other_side);

    let mut other_key = SpellParams::new();
    other_key.insert("a".to_string(), 1);
    other_key.insert("c".to_string(), 2);
    assert_ne!(first, other_key);
    assert_ne!(other_key, first);

    let mut fewer = SpellParams::new();
    fewer.insert("a".to_string(), 1);
    assert_ne!(first, fewer);
    assert_ne!(fewer, first);
    assert_eq!(SpellParams::new(), SpellParams::new());
}
